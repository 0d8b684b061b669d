//! Audio parts of a session: their file names, their identifiers, what the header of a
//! compressed part says, and which files on disk still need a row.

use vstd::prelude::*;

use crate::files;
use crate::labels::AudioExportFormatDto;
use crate::platform::TargetOs;
use crate::single::Single;
use crate::start;
use crate::text;

verus! {

/// One audio part of a session, as it is stored.
#[derive(Clone, Debug)]
pub struct AudioPartRow {
    pub session_id: String,
    pub part_index: u32,
    pub file_path: String,
    pub format: &'static str,
    /// The length of the part in seconds.
    pub duration_seconds: Single,
    pub sample_rate: u32,
}

// --- File names ---

/// The format that an extension names, whatever its case.
pub open spec fn format_of(extension: Seq<char>) -> Option<AudioExportFormatDto> {
    if text::lowered(extension) == "wav"@ {
        Some(AudioExportFormatDto::Wav)
    } else if text::lowered(extension) == "mp3"@ {
        Some(AudioExportFormatDto::Mp3)
    } else {
        None
    }
}

/// What the file name of a part says: the session, the number of the part, the format.
/// The name is a session without dots, a dot, a number, a dot, an extension.
pub open spec fn part_of(name: Seq<char>) -> Option<(Seq<char>, nat, AudioExportFormatDto)> {
    let dot = files::last_dot(name);
    let stem = name.take(dot);
    let inner = files::last_dot(stem);
    if dot < 0 || inner <= 0 || stem.take(inner).contains('.') {
        None
    } else {
        match (format_of(name.skip(dot + 1)), text::unsigned_value(
            stem.skip(inner + 1),
            u32::MAX as nat,
        )) {
            (Some(f), Some(n)) => Some((stem.take(inner), n, f)),
            _ => None,
        }
    }
}

proof fn lemma_last_dot(s: Seq<char>, at: int)
    requires
        -1 <= at < s.len(),
        at >= 0 ==> s[at] == '.',
        forall|k: int| at < k < s.len() ==> s[k] != '.',
    ensures
        files::last_dot(s) == at,
    decreases s.len(),
{
    if s.len() > 0 && s.last() != '.' {
        lemma_last_dot(s.drop_last(), at);
    }
}

fn find_last_dot(s: &[char]) -> (r: Option<usize>)
    ensures
        match r {
            Some(i) => i < s@.len() && files::last_dot(s@) == i,
            None => files::last_dot(s@) == -1,
        },
{
    let mut i: usize = s.len();
    while i > 0
        invariant
            i <= s@.len(),
            forall|k: int| i <= k < s@.len() ==> s@[k] != '.',
        decreases i,
    {
        i = i - 1;
        if s[i] == '.' {
            proof {
                lemma_last_dot(s@, i as int);
            }
            return Some(i);
        }
    }
    proof {
        lemma_last_dot(s@, -1);
    }
    None
}

fn read_format(extension: &[char]) -> (r: Option<AudioExportFormatDto>)
    ensures
        r == format_of(extension@),
{
    let low = text::lower_chars(extension);
    if text::same_chars(low.as_slice(), text::chars_of("wav").as_slice()) {
        Some(AudioExportFormatDto::Wav)
    } else if text::same_chars(low.as_slice(), text::chars_of("mp3").as_slice()) {
        Some(AudioExportFormatDto::Mp3)
    } else {
        None
    }
}

/// The session, the number and the format of a part, read from its file name. The
/// name of a file of an earlier shape, without a number, is none.
pub fn parse_part_filename(name: &str) -> (r: Option<(String, u32, &'static str)>)
    ensures
        match r {
            Some(p) => part_of(name@) matches Some(q) && q.0 == p.0@ && q.1 == p.1 && q.2.name()
                == p.2@,
            None => part_of(name@) is None,
        },
{
    let chars = text::chars_of(name);
    let dot: usize = match find_last_dot(chars.as_slice()) {
        Some(i) => i,
        None => return None,
    };
    let extension = text::slice_chars(chars.as_slice(), dot + 1, chars.len());
    assert(extension@ =~= name@.skip(dot + 1));
    let stem = text::slice_chars(chars.as_slice(), 0, dot);
    assert(stem@ =~= name@.take(dot as int));
    let inner: usize = match find_last_dot(stem.as_slice()) {
        Some(i) => i,
        None => return None,
    };
    let format = match read_format(extension.as_slice()) {
        Some(f) => f,
        None => return None,
    };
    let number = text::slice_chars(stem.as_slice(), inner + 1, stem.len());
    assert(number@ =~= stem@.skip(inner + 1));
    let part_index: u32 = match text::parse_unsigned(number.as_slice(), u32::MAX as u64) {
        Some(n) => n as u32,
        None => return None,
    };
    let session = text::slice_chars(stem.as_slice(), 0, inner);
    assert(session@ =~= stem@.take(inner as int));
    if session.len() == 0 || text::contains_char(session.as_slice(), '.') {
        return None;
    }
    Some((text::string_of(session.as_slice()), part_index, format.as_str()))
}

proof fn lemma_extension_is_plain(format: AudioExportFormatDto)
    ensures
        format_of(format.name()) == Some(format),
        forall|k: int| 0 <= k < format.name().len() ==> format.name()[k] != '.',
{
    reveal_strlit("wav");
    reveal_strlit("mp3");
    assert(text::lowered(format.name()) =~= format.name());
    assert("wav"@[0] == 'w' && "mp3"@[0] == 'm');
}

/// The name under which a part is recorded is read back as that part, for every
/// session whose identifier is not empty and holds no dot.
pub proof fn law_part_name_reads_back(
    session_id: Seq<char>,
    part_index: u32,
    format: AudioExportFormatDto,
)
    requires
        session_id.len() > 0,
        !session_id.contains('.'),
    ensures
        part_of(start::part_name(session_id, part_index as nat, format.name())) == Some(
            (session_id, part_index as nat, format),
        ),
{
    reveal_strlit(".");
    let number = text::decimal(part_index as nat);
    let name = start::part_name(session_id, part_index as nat, format.name());
    let dot = (session_id.len() + 1 + number.len()) as int;
    let inner = session_id.len() as int;
    lemma_extension_is_plain(format);
    text::lemma_decimal_value(part_index as nat);
    text::lemma_unsigned_of_decimal(part_index as nat, u32::MAX as nat);
    assert(name[dot] == '.');
    assert forall|k: int| dot < k < name.len() implies name[k] != '.' by {
        assert(name[k] == format.name()[k - dot - 1]);
    }
    lemma_last_dot(name, dot);
    let stem = name.take(dot);
    assert(stem[inner] == '.');
    assert forall|k: int| inner < k < stem.len() implies stem[k] != '.' by {
        assert(stem[k] == number[k - inner - 1]);
        assert(text::digit(number[k - inner - 1]));
    }
    lemma_last_dot(stem, inner);
    assert(name.skip(dot + 1) =~= format.name());
    assert(stem.skip(inner + 1) =~= number);
    assert(stem.take(inner) =~= session_id);
}

// --- Files that still need a row ---

/// One part by session and number.
#[derive(Clone, Debug)]
pub struct PartKey {
    pub session_id: String,
    pub part_index: u32,
}

/// What a walk over the audio directories knows: the parts that have a row, and the
/// sessions that exist.
#[derive(Clone, Debug)]
pub struct Reconciliation {
    pub parts: Vec<PartKey>,
    pub sessions: Vec<String>,
    /// The parts that the walk has added so far.
    pub recovered: u32,
}

/// Whether the part has a row.
pub open spec fn has_part(parts: Seq<PartKey>, session_id: Seq<char>, part_index: nat) -> bool {
    exists|i: int|
        0 <= i < parts.len() && (#[trigger] parts[i]).session_id@ == session_id
            && parts[i].part_index == part_index
}

/// Whether the session exists.
pub open spec fn has_session(sessions: Seq<String>, session_id: Seq<char>) -> bool {
    exists|i: int| 0 <= i < sessions.len() && (#[trigger] sessions[i])@ == session_id
}

impl Reconciliation {
    /// What the file of this name is to be recorded as: the part that its name gives,
    /// where the part has no row yet and its session exists.
    pub open spec fn wanted(&self, name: Seq<char>) -> Option<
        (Seq<char>, nat, AudioExportFormatDto),
    > {
        match part_of(name) {
            Some(p) => if has_part(self.parts@, p.0, p.1) || !has_session(self.sessions@, p.0) {
                None
            } else {
                Some(p)
            },
            None => None,
        }
    }

    /// Looks at one file name.
    pub fn consider(&self, name: &str) -> (r: Option<(String, u32, &'static str)>)
        ensures
            match r {
                Some(p) => self.wanted(name@) matches Some(q) && q.0 == p.0@ && q.1 == p.1
                    && q.2.name() == p.2@,
                None => self.wanted(name@) is None,
            },
    {
        let (session_id, part_index, format) = match parse_part_filename(name) {
            Some(p) => p,
            None => return None,
        };
        let mut i: usize = 0;
        while i < self.parts.len()
            invariant
                i <= self.parts@.len(),
                part_of(name@) matches Some(q) && q.0 == session_id@ && q.1 == part_index,
                forall|k: int|
                    0 <= k < i ==> !((#[trigger] self.parts@[k]).session_id@ == session_id@
                        && self.parts@[k].part_index == part_index),
            decreases self.parts@.len() - i,
        {
            if self.parts[i].part_index == part_index && text::same_text(
                self.parts[i].session_id.as_str(),
                session_id.as_str(),
            ) {
                assert(has_part(self.parts@, session_id@, part_index as nat));
                return None;
            }
            i = i + 1;
        }
        assert(!has_part(self.parts@, session_id@, part_index as nat));
        let mut found: bool = false;
        let mut j: usize = 0;
        while j < self.sessions.len() && !found
            invariant
                j <= self.sessions@.len(),
                found ==> has_session(self.sessions@, session_id@),
                !found ==> forall|k: int|
                    0 <= k < j ==> (#[trigger] self.sessions@[k])@ != session_id@,
            decreases self.sessions@.len() - j,
        {
            if text::same_text(self.sessions[j].as_str(), session_id.as_str()) {
                found = true;
            }
            j = j + 1;
        }
        if found {
            Some((session_id, part_index, format))
        } else {
            None
        }
    }

    /// Notes that a row was written for a part.
    pub fn record(&mut self, session_id: String, part_index: u32)
        requires
            old(self).recovered < u32::MAX,
        ensures
            final(self).parts@ == old(self).parts@.push(PartKey { session_id, part_index }),
            final(self).sessions == old(self).sessions,
            final(self).recovered == old(self).recovered + 1,
    {
        self.parts.push(PartKey { session_id, part_index });
        self.recovered = self.recovered + 1;
    }
}

/// A part that was recorded is not recorded again: a second look at any file of the
/// same part wants nothing, whatever else is recorded in between.
pub proof fn law_recorded_once(before: Reconciliation, after: Reconciliation, name: Seq<char>)
    requires
        part_of(name) matches Some(p) && has_part(before.parts@, p.0, p.1),
        before.parts@.is_prefix_of(after.parts@),
    ensures
        after.wanted(name) is None,
{
    let p = part_of(name).unwrap();
    let i = choose|i: int|
        0 <= i < before.parts@.len() && (#[trigger] before.parts@[i]).session_id@ == p.0
            && before.parts@[i].part_index == p.1;
    assert(after.parts@[i] == before.parts@[i]);
    assert(has_part(after.parts@, p.0, p.1));
}

/// Recording the part that a file name asked for settles that file.
pub proof fn law_recording_settles(before: Reconciliation, after: Reconciliation, name: Seq<char>, key: PartKey)
    requires
        before.wanted(name) matches Some(p) && p.0 == key.session_id@ && p.1 == key.part_index,
        after.parts@ == before.parts@.push(key),
    ensures
        after.wanted(name) is None,
{
    assert(after.parts@[after.parts@.len() - 1] == key);
    assert(has_part(after.parts@, key.session_id@, key.part_index as nat));
}

// --- Directories ---

/// Whether a path is one of those listed.
pub open spec fn listed_in(all: Seq<String>, one: Seq<char>, os: TargetOs) -> bool {
    exists|i: int| 0 <= i < all.len() && files::same_path((#[trigger] all[i])@, one, os)
}

/// Whether no path stands twice.
pub open spec fn no_repeats(all: Seq<String>, os: TargetOs) -> bool {
    forall|i: int, j: int|
        0 <= i < j < all.len() ==> !files::same_path(
            (#[trigger] all[i])@,
            (#[trigger] all[j])@,
            os,
        )
}

/// The list with a path behind it, unless it is there already.
pub open spec fn with_path(all: Seq<String>, one: String, os: TargetOs) -> Seq<String> {
    if listed_in(all, one@, os) {
        all
    } else {
        all.push(one)
    }
}

/// The list with the first `n` paths of another behind it, each unless it is there by then.
pub open spec fn with_paths(all: Seq<String>, more: Seq<String>, n: nat, os: TargetOs) -> Seq<
    String,
>
    decreases n,
{
    if n == 0 {
        all
    } else {
        with_path(with_paths(all, more, (n - 1) as nat, os), more[n - 1], os)
    }
}

/// Adds a directory, unless it is there already.
pub fn add_directory(all: &mut Vec<String>, dir: String, os: TargetOs)
    requires
        no_repeats(old(all)@, os),
    ensures
        no_repeats(final(all)@, os),
        final(all)@ == with_path(old(all)@, dir, os),
        listed_in(final(all)@, dir@, os),
{
    let mut i: usize = 0;
    while i < all.len()
        invariant
            i <= all@.len(),
            all@ == old(all)@,
            no_repeats(all@, os),
            forall|k: int| 0 <= k < i ==> !files::same_path((#[trigger] all@[k])@, dir@, os),
        decreases all@.len() - i,
    {
        if files::is_same_path(all[i].as_str(), dir.as_str(), os) {
            return;
        }
        i = i + 1;
    }
    let ghost added = dir;
    all.push(dir);
    assert(all@[all@.len() - 1] == added);
}

/// The directories that hold audio, each once: first the application's own, then those
/// of the stored parts, then those registered when a recording began, each group in the
/// order in which it is given.
pub fn list_audio_part_directories(
    app_audio_dir: String,
    part_dirs: Vec<String>,
    save_locations: Vec<String>,
    os: TargetOs,
) -> (r: Vec<String>)
    ensures
        r@ == with_paths(
            with_paths(seq![app_audio_dir], part_dirs@, part_dirs@.len(), os),
            save_locations@,
            save_locations@.len(),
            os,
        ),
        r@.len() > 0,
        r@[0] == app_audio_dir,
        no_repeats(r@, os),
        forall|d: Seq<char>|
            #![trigger listed_in(r@, d, os)]
            listed_in(r@, d, os) <==> (files::same_path(app_audio_dir@, d, os) || listed_in(
                part_dirs@,
                d,
                os,
            ) || listed_in(save_locations@, d, os)),
{
    let mut out: Vec<String> = Vec::new();
    let ghost app = app_audio_dir;
    out.push(app_audio_dir);
    assert(out@ =~= seq![app]);
    add_all(&mut out, &part_dirs, os);
    add_all(&mut out, &save_locations, os);
    proof {
        let parts = with_paths(seq![app], part_dirs@, part_dirs@.len(), os);
        assert(parts[0] == seq![app][0]);
        assert forall|d: Seq<char>| #[trigger] listed_in(out@, d, os) == (files::same_path(
            app@,
            d,
            os,
        ) || listed_in(part_dirs@, d, os) || listed_in(save_locations@, d, os)) by {
            assert(listed_in(parts, d, os) == (listed_in(seq![app], d, os) || listed_in(
                part_dirs@,
                d,
                os,
            )));
            assert(seq![app][0] == app);
        }
    }
    out
}

fn add_all(out: &mut Vec<String>, more: &Vec<String>, os: TargetOs)
    requires
        no_repeats(old(out)@, os),
    ensures
        final(out)@ == with_paths(old(out)@, more@, more@.len(), os),
        old(out)@.is_prefix_of(final(out)@),
        no_repeats(final(out)@, os),
        forall|d: Seq<char>|
            #![trigger listed_in(final(out)@, d, os)]
            listed_in(final(out)@, d, os) <==> (listed_in(old(out)@, d, os) || listed_in(
                more@,
                d,
                os,
            )),
{
    let mut i: usize = 0;
    assert(more@.take(0) =~= Seq::<String>::empty());
    while i < more.len()
        invariant
            i <= more@.len(),
            out@ == with_paths(old(out)@, more@, i as nat, os),
            old(out)@.is_prefix_of(out@),
            no_repeats(out@, os),
            forall|d: Seq<char>|
                #![trigger listed_in(out@, d, os)]
                listed_in(out@, d, os) <==> (listed_in(old(out)@, d, os) || listed_in(
                    more@.take(i as int),
                    d,
                    os,
                )),
        decreases more@.len() - i,
    {
        let ghost before = out@;
        let dir = more[i].clone();
        add_directory(out, dir, os);
        proof {
            let seen = more@.take(i as int);
            let now = more@.take(i + 1);
            assert forall|d: Seq<char>| #[trigger] listed_in(out@, d, os) == (listed_in(
                old(out)@,
                d,
                os,
            ) || listed_in(now, d, os)) by {
                lemma_listed_push(seen, more@[i as int], d, os);
                assert(seen.push(more@[i as int]) =~= now);
                lemma_listed_push(before, dir, d, os);
                assert(listed_in(before, d, os) == (listed_in(old(out)@, d, os) || listed_in(
                    seen,
                    d,
                    os,
                )));
                if listed_in(before, dir@, os) {
                    let k = choose|k: int|
                        0 <= k < before.len() && files::same_path((#[trigger] before[k])@, dir@, os);
                    assert(files::same_path(dir@, d, os) ==> files::same_path(before[k]@, d, os));
                }
            }
        }
        i = i + 1;
    }
    assert(more@.take(more@.len() as int) =~= more@);
}

proof fn lemma_listed_push(all: Seq<String>, last: String, d: Seq<char>, os: TargetOs)
    ensures
        listed_in(all.push(last), d, os) == (listed_in(all, d, os) || files::same_path(
            last@,
            d,
            os,
        )),
{
    let grown = all.push(last);
    if listed_in(all, d, os) {
        let i = choose|i: int| 0 <= i < all.len() && files::same_path((#[trigger] all[i])@, d, os);
        assert(grown[i] == all[i]);
    }
    if files::same_path(last@, d, os) {
        assert(grown[all.len() as int] == last);
    }
    if listed_in(grown, d, os) {
        let i = choose|i: int|
            0 <= i < grown.len() && files::same_path((#[trigger] grown[i])@, d, os);
        if i < all.len() {
            assert(all[i] == grown[i]);
        }
    }
}

// --- Identifiers ---

/// The value of a hexadecimal digit; zero for any other character.
pub open spec fn hex_value(c: char) -> nat {
    if '0' <= c && c <= '9' {
        (c as int - 48) as nat
    } else if 'a' <= c && c <= 'f' {
        (c as int - 87) as nat
    } else if 'A' <= c && c <= 'F' {
        (c as int - 55) as nat
    } else {
        0
    }
}

/// The digit of the variant: the two low bits of the random digit under the bits one
/// and zero.
pub open spec fn variant_digit(c: char) -> char {
    let v = hex_value(c) % 4;
    if v == 0 {
        '8'
    } else if v == 1 {
        '9'
    } else if v == 2 {
        'a'
    } else {
        'b'
    }
}

/// The identifier made of the random digits: the digit of the version is a four, the
/// digit of the variant one of eight, nine, a and b, and the others stay.
pub open spec fn part_id(raw: Seq<char>) -> Seq<char> {
    raw.update(12, '4').update(16, variant_digit(raw[16]))
}

/// Makes the identifier of a part from thirty-two random hexadecimal digits. Anything
/// but thirty-two bytes of ASCII is an error: no identifier put in its place would be
/// free of collisions.
pub fn mint_part_id(raw: &str) -> (r: Result<String, &'static str>)
    ensures
        match r {
            Ok(id) => text::byte_len(raw@) == 32 && raw@.len() == 32 && id@ == part_id(raw@),
            Err(e) => if text::byte_len(raw@) != 32 {
                e@ == "randomblob(16) hex must be 32 chars"@
            } else {
                raw@.len() != 32 && e@ == "part id not ascii hex"@
            },
        },
{
    if text::byte_length(raw) != 32 {
        return Err("randomblob(16) hex must be 32 chars");
    }
    let mut chars = text::chars_of(raw);
    if chars.len() != 32 {
        return Err("part id not ascii hex");
    }
    let c: char = chars[16];
    let v: u8 = hex_digit(c) % 4;
    chars.set(12, '4');
    chars.set(
        16,
        if v == 0 {
            '8'
        } else if v == 1 {
            '9'
        } else if v == 2 {
            'a'
        } else {
            'b'
        },
    );
    Ok(text::string_of(chars.as_slice()))
}

fn hex_digit(c: char) -> (r: u8)
    ensures
        r == hex_value(c),
        r < 16,
{
    if '0' <= c && c <= '9' {
        c as u8 - 48
    } else if 'a' <= c && c <= 'f' {
        c as u8 - 87
    } else if 'A' <= c && c <= 'F' {
        c as u8 - 55
    } else {
        0
    }
}

/// An identifier is of version four and of the standard variant, and keeps every other
/// random digit, so that two of them are equal only where those digits are.
pub proof fn law_part_id_keeps_randomness(raw: Seq<char>, other: Seq<char>)
    requires
        raw.len() == 32,
        other.len() == 32,
    ensures
        part_id(raw).len() == 32,
        part_id(raw)[12] == '4',
        seq!['8', '9', 'a', 'b'].contains(part_id(raw)[16]),
        forall|i: int| 0 <= i < 32 && i != 12 && i != 16 ==> part_id(raw)[i] == raw[i],
        part_id(raw) == part_id(other) ==> (forall|i: int|
            0 <= i < 32 && i != 12 && i != 16 ==> raw[i] == other[i]),
{
    let digits = seq!['8', '9', 'a', 'b'];
    assert(digits[0] == '8' && digits[1] == '9' && digits[2] == 'a' && digits[3] == 'b');
    assert forall|i: int|
        part_id(raw) == part_id(other) && 0 <= i < 32 && i != 12 && i != 16 implies raw[i]
        == other[i] by {
        assert(part_id(raw)[i] == part_id(other)[i]);
    }
}

// --- The header of a compressed part ---

/// The length of a leading tag: its ten bytes and the length that it gives in four
/// groups of seven bits. Zero where no tag leads.
pub open spec fn tag_length(data: Seq<u8>) -> nat {
    if data.len() >= 10 && data[0] == 0x49 && data[1] == 0x44 && data[2] == 0x33 {
        (tag_body(data[6], data[7], data[8], data[9]) + 10) as nat
    } else {
        0
    }
}

/// The four groups of a tag's length put together.
pub open spec fn tag_body(a: u8, b: u8, c: u8, d: u8) -> u32 {
    ((a as u32) << 21u32) | ((b as u32) << 14u32) | ((c as u32) << 7u32) | (d as u32)
}

/// The bit rate in kilobits per second, by its index, in the first version and in the
/// later ones.
pub open spec fn kilobits(first: bool, index: int) -> nat {
    if first {
        seq![0nat, 32, 40, 48, 56, 64, 80, 96, 112, 128, 160, 192, 224, 256, 320][index]
    } else {
        seq![0nat, 8, 16, 24, 32, 40, 48, 56, 64, 80, 96, 112, 128, 144, 160][index]
    }
}

/// The sample rate, by the version bits and its index.
pub open spec fn frame_rate(version: u8, index: int) -> nat {
    if version == 3 {
        seq![44_100nat, 48_000, 32_000][index]
    } else if version == 2 {
        seq![22_050nat, 24_000, 16_000][index]
    } else {
        seq![11_025nat, 12_000, 8_000][index]
    }
}

/// Whether the first three bytes of a frame header are ones that a frame can have.
pub open spec fn frame_header(a: u8, b: u8, c: u8) -> bool {
    &&& a == 0xff
    &&& b / 32 == 7
    &&& (b / 8) % 4 != 1
    &&& (b / 2) % 4 != 0
    &&& c / 16 != 0
    &&& c / 16 != 15
    &&& (c / 4) % 4 != 3
}

/// What the first frame says: the bit rate in bits per second, the sample rate, and the
/// length of the tag in front of it.
pub open spec fn first_frame(data: Seq<u8>) -> Option<(nat, nat, nat)> {
    let at = tag_length(data) as int;
    if at + 4 > data.len() || !frame_header(data[at], data[at + 1], data[at + 2]) {
        None
    } else {
        let version = (data[at + 1] / 8) % 4;
        Some(
            (
                kilobits(version == 3, (data[at + 2] / 16) as int) * 1000,
                frame_rate(version, ((data[at + 2] / 4) % 4) as int),
                at as nat,
            ),
        )
    }
}

fn read_tag_length(data: &[u8]) -> (r: usize)
    ensures
        r == tag_length(data@),
{
    if data.len() >= 10 && data[0] == 0x49 && data[1] == 0x44 && data[2] == 0x33 {
        let a: u8 = data[6];
        let b: u8 = data[7];
        let c: u8 = data[8];
        let d: u8 = data[9];
        let s: u32 = ((a as u32) << 21u32) | ((b as u32) << 14u32) | ((c as u32) << 7u32) | (
        d as u32);
        assert((((a as u32) << 21u32) | ((b as u32) << 14u32) | ((c as u32) << 7u32) | (d as u32))
            < 0x2000_0000u32) by (bit_vector);
        s as usize + 10
    } else {
        0
    }
}

fn read_kilobits(first: bool, index: u8) -> (r: u32)
    requires
        index < 15,
    ensures
        r == kilobits(first, index as int),
        r <= 320,
{
    let at: usize = index as usize;
    if first {
        let all: [u32; 15] = [0, 32, 40, 48, 56, 64, 80, 96, 112, 128, 160, 192, 224, 256, 320];
        all[at]
    } else {
        let all: [u32; 15] = [0, 8, 16, 24, 32, 40, 48, 56, 64, 80, 96, 112, 128, 144, 160];
        all[at]
    }
}

fn read_frame_rate(version: u8, index: u8) -> (r: u32)
    requires
        index < 3,
    ensures
        r == frame_rate(version, index as int),
{
    let at: usize = index as usize;
    if version == 3 {
        let all: [u32; 3] = [44_100, 48_000, 32_000];
        all[at]
    } else if version == 2 {
        let all: [u32; 3] = [22_050, 24_000, 16_000];
        all[at]
    } else {
        let all: [u32; 3] = [11_025, 12_000, 8_000];
        all[at]
    }
}

/// Reads the first frame header of a compressed part, behind a leading tag.
pub fn mp3_first_frame(data: &[u8]) -> (r: Option<(u32, u32, usize)>)
    ensures
        match r {
            Some(f) => first_frame(data@) == Some((f.0 as nat, f.1 as nat, f.2 as nat)),
            None => first_frame(data@) is None,
        },
        r matches Some(f) ==> f.0 > 0 && f.1 > 0,
{
    let at: usize = read_tag_length(data);
    if at > data.len() || data.len() - at < 4 {
        return None;
    }
    let a: u8 = data[at];
    let b: u8 = data[at + 1];
    let c: u8 = data[at + 2];
    if a != 0xff || b / 32 != 7 {
        return None;
    }
    let version: u8 = (b / 8) % 4;
    if (b / 2) % 4 == 0 || version == 1 {
        return None;
    }
    let rate: u8 = (c / 4) % 4;
    if c / 16 == 0 || c / 16 == 15 || rate == 3 {
        return None;
    }
    Some((read_kilobits(version == 3, c / 16) * 1000, read_frame_rate(version, rate), at))
}

/// The bytes of a compressed part behind its tag, whose bits over the bit rate are its
/// length.
pub fn body_bytes(file_len: u64, tag: usize) -> (r: u64)
    ensures
        r == (if file_len >= tag {
            file_len - tag
        } else {
            0
        }),
{
    let tag: u64 = tag as u64;
    if file_len >= tag {
        file_len - tag
    } else {
        0
    }
}

/// A recording that has no row is found again: the file under whose name a part of a known
/// session was recorded is wanted, as that very part, unless there is a row for it.
pub proof fn law_lost_part_is_wanted(
    r: Reconciliation,
    session_id: Seq<char>,
    part_index: u32,
    format: AudioExportFormatDto,
    i: int,
)
    requires
        session_id.len() > 0,
        !session_id.contains('.'),
        0 <= i < r.sessions@.len(),
        r.sessions@[i]@ == session_id,
        forall|k: int|
            0 <= k < r.parts@.len() ==> (#[trigger] r.parts@[k]).session_id@ != session_id
                || r.parts@[k].part_index != part_index,
    ensures
        r.wanted(start::part_name(session_id, part_index as nat, format.name())) == Some(
            (session_id, part_index as nat, format),
        ),
{
    law_part_name_reads_back(session_id, part_index, format);
    assert(has_session(r.sessions@, session_id));
}

/// What is wanted has a session and no row: neither a file of an unknown session nor one
/// that is noted already is taken.
pub proof fn law_wanted_is_new_and_known(r: Reconciliation, name: Seq<char>, k: int)
    requires
        r.wanted(name) is Some,
        0 <= k < r.parts@.len(),
    ensures
        r.wanted(name) matches Some(q) && (r.parts@[k].session_id@ != q.0
            || r.parts@[k].part_index != q.1) && exists|i: int|
            0 <= i < r.sessions@.len() && (#[trigger] r.sessions@[i])@ == q.0,
{
    let p = part_of(name).unwrap();
    assert(has_session(r.sessions@, p.0));
    if r.parts@[k].session_id@ == p.0 && r.parts@[k].part_index == p.1 {
        assert(has_part(r.parts@, p.0, p.1));
    }
}

/// The length of a tag is written in four groups of seven bits, the highest first.
pub proof fn law_tag_length_is_in_groups_of_seven(a: u8, b: u8, c: u8, d: u8)
    requires
        a < 128,
        b < 128,
        c < 128,
        d < 128,
    ensures
        tag_body(a, b, c, d) == a * 2_097_152 + b * 16_384 + c * 128 + d,
{
    assert((((a as u32) << 21u32) | ((b as u32) << 14u32) | ((c as u32) << 7u32) | (d as u32)) == (
    a as u32) * 2_097_152 + (b as u32) * 16_384 + (c as u32) * 128 + (d as u32)) by (bit_vector)
        requires
            a < 128,
            b < 128,
            c < 128,
            d < 128,
    ;
}

/// The bit rate of a frame grows with its index: in the first version by steps of eight up
/// to 64 kilobits, of sixteen up to 128, of thirty-two up to 256, and 320 at the end; in
/// the later ones by steps of eight up to 64 and of sixteen up to 160. The sample rates of
/// the second version are half those of the first, and those of the third a quarter.
pub proof fn law_rates_go_by_index(i: int, j: int)
    requires
        1 <= i <= 14,
        0 <= j <= 2,
    ensures
        kilobits(true, i) == (if i <= 5 {
            24 + 8 * i
        } else if i <= 9 {
            64 + 16 * (i - 5)
        } else if i <= 13 {
            128 + 32 * (i - 9)
        } else {
            320
        }),
        kilobits(false, i) == (if i <= 8 {
            8 * i
        } else {
            64 + 16 * (i - 8)
        }),
        frame_rate(3, j) == (if j == 0 {
            44_100nat
        } else if j == 1 {
            48_000
        } else {
            32_000
        }),
        2 * frame_rate(2, j) == frame_rate(3, j),
        4 * frame_rate(0, j) == frame_rate(3, j),
{
}

/// A frame is read by its fields: eleven bits that are set, the version, the layer, a bit
/// of protection, the index of the bit rate, that of the sample rate, and two bits more. It
/// is one where none of the fields has a value that is kept free.
pub proof fn law_frame_is_read_by_its_fields(
    version: u8,
    layer: u8,
    protection: u8,
    bits: u8,
    rate: u8,
    more: u8,
    last: u8,
    body: Seq<u8>,
)
    requires
        version < 4 && layer < 4 && protection < 2,
        bits < 16 && rate < 4 && more < 4,
    ensures
        ({
            let b = (224 + 8 * version + 2 * layer + protection) as u8;
            let c = (16 * bits + 4 * rate + more) as u8;
            let read = first_frame(seq![0xffu8, b, c, last] + body);
            &&& read is Some <==> version != 1 && layer != 0 && bits != 0 && bits != 15 && rate != 3
            &&& read matches Some(f) ==> f == (
                kilobits(version == 3, bits as int) * 1000,
                frame_rate(version, rate as int),
                0nat,
            )
        }),
{
    let b = (224 + 8 * version + 2 * layer + protection) as u8;
    let c = (16 * bits + 4 * rate + more) as u8;
    let data = seq![0xffu8, b, c, last] + body;
    assert(data[0] == 0xff && data[1] == b && data[2] == c);
    assert(b / 32 == 7 && (b / 8) % 4 == version && (b / 2) % 4 == layer);
    assert(c / 16 == bits && (c / 4) % 4 == rate);
}

/// Without the bits that mark a frame, or cut off inside its header, nothing is read.
pub proof fn law_no_frame_is_read_elsewhere(data: Seq<u8>)
    requires
        data.len() < 4 || data[0] != 0xff || data[1] < 224,
        data.len() < 10 || data[0] != 0x49,
    ensures
        first_frame(data) is None,
{
}

/// A tag in front of a frame is skipped, and its length is given.
pub proof fn law_tag_is_skipped(tag: Seq<u8>, data: Seq<u8>)
    requires
        tag.len() >= 10,
        tag[0] == 0x49 && tag[1] == 0x44 && tag[2] == 0x33,
        tag.len() == tag_length(tag),
        data.len() >= 3 ==> data[0] != 0x49,
    ensures
        first_frame(tag + data) == (match first_frame(data) {
            Some(f) => Some((f.0, f.1, tag.len())),
            None => None,
        }),
{
    let all = tag + data;
    let n = tag.len() as int;
    assert(all[0] == tag[0] && all[1] == tag[1] && all[2] == tag[2]);
    assert(all[6] == tag[6] && all[7] == tag[7] && all[8] == tag[8] && all[9] == tag[9]);
    assert(tag_length(all) == n);
    if data.len() >= 4 {
        assert(all[n] == data[0] && all[n + 1] == data[1] && all[n + 2] == data[2]);
    }
}

/// Directories are listed in the order in which they come: what is there stays in front, and
/// the next one is put behind it where it is no directory that stands there, and left out
/// where it is.
pub proof fn law_directories_keep_their_order(
    all: Seq<String>,
    more: Seq<String>,
    m: nat,
    n: nat,
    os: TargetOs,
)
    requires
        m <= n <= more.len(),
    ensures
        with_paths(all, more, 0, os) == all,
        with_paths(all, more, m, os).is_prefix_of(with_paths(all, more, n, os)),
        m < n ==> {
            let before = with_paths(all, more, m, os);
            let after = with_paths(all, more, m + 1, os);
            let there = exists|i: int|
                0 <= i < before.len() && files::same_path(
                    (#[trigger] before[i])@,
                    more[m as int]@,
                    os,
                );
            &&& there ==> after == before
            &&& !there ==> after == before.push(more[m as int])
        },
    decreases n,
{
    if m < n {
        law_directories_keep_their_order(all, more, m, (n - 1) as nat, os);
        let a = with_paths(all, more, m, os);
        let b = with_paths(all, more, (n - 1) as nat, os);
        let c = with_paths(all, more, n, os);
        assert(b.is_prefix_of(c));
        assert forall|i: int| 0 <= i < a.len() implies a[i] == #[trigger] c[i] by {
            assert(a[i] == b[i]);
            assert(b[i] == c[i]);
        }
        assert(a =~= c.take(a.len() as int));
    }
}

} // verus!
