//! Errors of the commands.

use vstd::prelude::*;

use crate::text;

verus! {

/// What a command can fail with. Each kind carries a message.
#[derive(Debug, Clone)]
pub enum CommandError {
    Audio { message: String },
    Transcription { message: String },
    Embedding { message: String },
    NotInitialized { message: String },
    InvalidInput { message: String },
    NotFound { message: String },
    Internal { message: String },
}

impl CommandError {
    /// What the error is shown as: its kind, a colon and its message.
    pub open spec fn shown(self) -> Seq<char> {
        match self {
            CommandError::Audio { message } => "audio: "@ + message@,
            CommandError::Transcription { message } => "transcription: "@ + message@,
            CommandError::Embedding { message } => "embedding: "@ + message@,
            CommandError::NotInitialized { message } => "not initialized: "@ + message@,
            CommandError::InvalidInput { message } => "invalid input: "@ + message@,
            CommandError::NotFound { message } => "not found: "@ + message@,
            CommandError::Internal { message } => "internal: "@ + message@,
        }
    }

    /// What the error is shown as.
    pub fn to_string(&self) -> (r: String)
        ensures
            r@ == self.shown(),
    {
        match self {
            CommandError::Audio { message } => text::joined("audio: ", message.as_str()),
            CommandError::Transcription { message } => text::joined("transcription: ", message.as_str()),
            CommandError::Embedding { message } => text::joined("embedding: ", message.as_str()),
            CommandError::NotInitialized { message } => text::joined(
                "not initialized: ",
                message.as_str(),
            ),
            CommandError::InvalidInput { message } => text::joined("invalid input: ", message.as_str()),
            CommandError::NotFound { message } => text::joined("not found: ", message.as_str()),
            CommandError::Internal { message } => text::joined("internal: ", message.as_str()),
        }
    }

    /// Whether the error is `InvalidInput` with exactly this message.
    pub open spec fn invalid(self, text: Seq<char>) -> bool {
        self matches CommandError::InvalidInput { message } && message@ == text
    }

    /// Whether the error is `NotFound` with exactly this message.
    pub open spec fn missing(self, text: Seq<char>) -> bool {
        self matches CommandError::NotFound { message } && message@ == text
    }

    /// Whether the error is `Internal` with exactly this message.
    pub open spec fn internal(self, text: Seq<char>) -> bool {
        self matches CommandError::Internal { message } && message@ == text
    }

    /// An `InvalidInput` with this message.
    pub fn invalid_input(text: &str) -> (r: CommandError)
        ensures
            r.invalid(text@),
    {
        CommandError::InvalidInput { message: text.to_owned() }
    }

    /// A `NotFound` with this message.
    pub fn not_found(text: &str) -> (r: CommandError)
        ensures
            r.missing(text@),
    {
        CommandError::NotFound { message: text.to_owned() }
    }

    /// A failure of the database, by what the database said.
    pub fn from_sqlite(text: &str) -> (r: CommandError)
        ensures
            r.internal("sqlite: "@ + text@),
    {
        CommandError::Internal { message: text::joined("sqlite: ", text) }
    }
}

/// Whether a session id can stand in a file name: not empty, no separator of paths,
/// no two dots in a row.
pub open spec fn safe_session_id(id: Seq<char>) -> bool {
    &&& id.len() > 0
    &&& !id.contains('/')
    &&& !id.contains('\\')
    &&& !text::holds(id, ".."@)
}

/// Accepts a session id that can stand in a file name.
pub fn validate_session_id(id: &str) -> (r: Result<(), CommandError>)
    ensures
        r is Ok <==> safe_session_id(id@),
        r is Ok ==> id@.len() > 0 && !id@.contains('/') && !id@.contains('\\'),
        r is Ok ==> forall|i: int|
            0 <= i < id@.len() - 1 ==> !(#[trigger] id@[i] == '.' && id@[i + 1] == '.'),
        id@.len() > 0 && !id@.contains('/') && !id@.contains('\\') && !id@.contains('.') ==> r
            is Ok,
        r matches Err(e) ==> e.invalid("invalid session ID"@),
{
    let chars = text::chars_of(id);
    let dots = text::chars_of("..");
    proof {
        reveal_strlit("..");
        assert forall|i: int|
            0 <= i < id@.len() - 1 && !text::holds(id@, ".."@) implies !(#[trigger] id@[i] == '.'
            && id@[i + 1] == '.') by {
            if id@[i] == '.' && id@[i + 1] == '.' {
                assert(id@.subrange(i, i + ".."@.len()) =~= ".."@);
            }
        }
        if text::holds(id@, ".."@) {
            let k = choose|k: int|
                0 <= k <= id@.len() - ".."@.len() && #[trigger] id@.subrange(k, k + ".."@.len())
                    == ".."@;
            assert(id@.subrange(k, k + 2)[0] == id@[k]);
            assert(".."@[0] == '.');
            assert(id@.contains('.'));
        }
    }
    if chars.len() == 0 || text::contains_char(chars.as_slice(), '/') || text::contains_char(
        chars.as_slice(),
        '\\',
    ) || text::contains_part(chars.as_slice(), dots.as_slice()) {
        return Err(CommandError::invalid_input("invalid session ID"));
    }
    Ok(())
}

} // verus!
