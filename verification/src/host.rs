//! Small answers to the frontend: health, permissions, log lines, helper programs.

use vstd::prelude::*;

use crate::error::CommandError;
use crate::platform::TargetOs;
use crate::text;

verus! {

/// That the backend is there, and which.
#[derive(Debug)]
pub struct HealthStatus {
    pub status: String,
    pub version: String,
}

/// That the backend is there, and which.
pub fn health_check(version: &str) -> (r: HealthStatus)
    ensures
        r.status@ == "ok"@,
        r.version@ == version@,
{
    HealthStatus { status: "ok".to_owned(), version: version.to_owned() }
}

/// Standing of the permission to record the screen, which the system's output needs.
#[derive(Clone, Copy, Debug, PartialEq, Eq, Structural)]
pub enum ScreenCapturePermissionDto {
    Granted,
    /// Refused or never asked: the system does not tell the two apart.
    NotDetermined,
    /// The system has no such permission.
    Unavailable,
}

/// Standing of the permission, given what the system says; only macOS has it.
pub fn screen_capture_permission(os: TargetOs, granted: bool) -> (r: ScreenCapturePermissionDto)
    ensures
        r == (if os !is Macos {
            ScreenCapturePermissionDto::Unavailable
        } else if granted {
            ScreenCapturePermissionDto::Granted
        } else {
            ScreenCapturePermissionDto::NotDetermined
        }),
{
    match os {
        TargetOs::Macos => if granted {
            ScreenCapturePermissionDto::Granted
        } else {
            ScreenCapturePermissionDto::NotDetermined
        },
        _ => ScreenCapturePermissionDto::Unavailable,
    }
}

/// Level of a log line from the frontend.
#[derive(Clone, Copy, Debug, PartialEq, Eq, Structural)]
pub enum FrontendLogLevel {
    Error,
    Warn,
    Info,
    Debug,
    Trace,
}

/// The most bytes of a message that a log line holds.
pub const MAX_MESSAGE_LEN: usize = 8192;

/// A message as it is logged: cut where it is too long, between characters, and marked.
pub open spec fn logged_message(message: Seq<char>) -> Seq<char> {
    if text::byte_len(message) > MAX_MESSAGE_LEN {
        text::head_within(message, MAX_MESSAGE_LEN as nat) + "\u{2026}[truncated]"@
    } else {
        message
    }
}

/// A message that fits is logged as it is; of one that does not the longest beginning that
/// fits, and a mark behind it.
pub proof fn law_logged_message(message: Seq<char>) -> (n: nat)
    ensures
        text::byte_len(message) <= 8192 ==> logged_message(message) == message,
        text::byte_len(message) > 8192 ==> {
            &&& n < message.len()
            &&& logged_message(message) == message.take(n as int) + "\u{2026}[truncated]"@
            &&& text::byte_len(message.take(n as int)) <= 8192
            &&& text::byte_len(message.take(n as int + 1)) > 8192
        },
{
    text::law_head_is_longest_prefix(message, MAX_MESSAGE_LEN as nat);
    let n = text::head_within(message, MAX_MESSAGE_LEN as nat).len();
    if text::byte_len(message) > 8192 {
        if n == message.len() {
            assert(message.take(n as int) =~= message);
        }
    }
    n
}

/// The log line of a message from the frontend, with the module in brackets where there
/// is one.
pub fn frontend_log_line(module: Option<&str>, message: &str) -> (r: String)
    ensures
        r@ == (match module {
            Some(m) if m@.len() > 0 => "["@ + m@ + "] "@ + logged_message(message@),
            _ => logged_message(message@),
        }),
{
    let mut body: String = if text::byte_length(message) > MAX_MESSAGE_LEN {
        text::joined(text::head_text(message, MAX_MESSAGE_LEN).as_str(), "\u{2026}[truncated]")
    } else {
        message.to_owned()
    };
    match module {
        Some(m) => if !m.is_empty() {
            let mut line: String = text::joined("[", m);
            line.append("] ");
            line.append(body.as_str());
            body = line;
        },
        None => {},
    }
    body
}

/// How a helper program ended.
#[derive(Debug)]
pub struct CommandOutput {
    pub success: bool,
    /// The exit status in words.
    pub status: String,
    pub stderr: Vec<u8>,
}

/// Accepts a helper program that succeeded; of one that failed, what it said counts, or
/// its status where it said nothing.
pub fn ensure_command_succeeded(program: &str, output: &CommandOutput) -> (r: Result<
    (),
    CommandError,
>)
    ensures
        r is Ok <==> output.success,
        r matches Err(e) ==> e.internal(
            failure_text(program@, output.status@, text::utf8_lossy(output.stderr@)),
        ),
{
    if output.success {
        return Ok(());
    }
    let said: String = text::lossy_text(output.stderr.as_slice());
    Err(command_failure(program, output.status.as_str(), said.as_str()))
}

/// What is reported of a helper program that failed.
pub open spec fn failure_text(program: Seq<char>, status: Seq<char>, said: Seq<char>) -> Seq<char> {
    if text::trimmed(said).len() == 0 {
        program + " exited with status "@ + status
    } else {
        program + " failed: "@ + text::trimmed(said)
    }
}

/// What is reported of a helper program that failed, given what it said.
pub fn command_failure(program: &str, status: &str, said: &str) -> (r: CommandError)
    ensures
        r.internal(failure_text(program@, status@, said@)),
{
    let detail: String = text::string_of(
        text::trim_chars(text::chars_of(said).as_slice()).as_slice(),
    );
    let message: String = if detail.as_str().is_empty() {
        text::joined(text::joined(program, " exited with status ").as_str(), status)
    } else {
        text::joined(text::joined(program, " failed: ").as_str(), detail.as_str())
    };
    CommandError::Internal { message }
}

// --- Keeping the application awake ---

/// Whether the application has asked not to be put to sleep.
#[derive(Clone, Copy, Debug, PartialEq, Eq, Structural)]
pub struct AppNapState {
    pub held: bool,
}

impl AppNapState {
    /// Nothing was asked for.
    pub fn new() -> (r: AppNapState)
        ensures
            !r.held,
    {
        AppNapState { held: false }
    }

    /// Asks to be kept awake. The answer is whether that is new: asking twice asks once.
    pub fn begin(&mut self) -> (r: bool)
        ensures
            r == !old(self).held,
            final(self).held,
    {
        let new = !self.held;
        self.held = true;
        new
    }

    /// Gives up what was asked for. The answer is whether there was anything.
    pub fn end(&mut self) -> (r: bool)
        ensures
            r == old(self).held,
            !final(self).held,
    {
        let had = self.held;
        self.held = false;
        had
    }
}

} // verus!
