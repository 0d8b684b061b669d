//! Requests for audio bytes: which file a request may name, which bytes of it are asked
//! for, and what the reply says.

use percent_encoding::percent_decode_str;
use vstd::prelude::*;
use vstd::utf8::*;

use crate::files;
use crate::platform::TargetOs;
use crate::text;

verus! {

// --- The path of a request ---

/// Whether the byte is a hexadecimal digit.
pub open spec fn hex_byte(b: u8) -> bool {
    (0x30 <= b && b <= 0x39) || (0x41 <= b && b <= 0x46) || (0x61 <= b && b <= 0x66)
}

/// The value of a hexadecimal digit.
pub open spec fn hex_byte_value(b: u8) -> int {
    if b <= 0x39 {
        b - 0x30
    } else if b <= 0x46 {
        b - 0x37
    } else {
        b - 0x57
    }
}

/// The bytes with every percent sign and its two hexadecimal digits replaced by the
/// byte that they write. A percent sign without two digits behind it stays.
pub open spec fn percent_decoded(bytes: Seq<u8>) -> Seq<u8>
    decreases bytes.len(),
{
    if bytes.len() == 0 {
        Seq::empty()
    } else if bytes[0] == 0x25 && bytes.len() >= 3 && hex_byte(bytes[1]) && hex_byte(bytes[2]) {
        seq![(hex_byte_value(bytes[1]) * 16 + hex_byte_value(bytes[2])) as u8] + percent_decoded(
            bytes.skip(3),
        )
    } else {
        seq![bytes[0]] + percent_decoded(bytes.skip(1))
    }
}

/// `percent_encoding::percent_decode_str`, its bytes collected: every percent sign that
/// two hexadecimal digits follow is decoded with them, every other byte is kept.
#[verifier::external_body]
fn decode_percent(raw: &str) -> (r: Vec<u8>)
    ensures
        r@ == percent_decoded(encode_utf8(raw@)),
{
    percent_decode_str(raw).collect()
}

/// `s` without the slashes in front.
pub open spec fn without_slashes(s: Seq<char>) -> Seq<char>
    decreases s.len(),
{
    if s.len() > 0 && s[0] == '/' {
        without_slashes(s.drop_first())
    } else {
        s
    }
}

fn drop_slashes(s: &[char]) -> (r: Vec<char>)
    ensures
        r@ == without_slashes(s@),
{
    let n: usize = s.len();
    let mut from: usize = 0;
    assert(s@.skip(0) =~= s@);
    while from < n && s[from] == '/'
        invariant
            from <= n == s@.len(),
            without_slashes(s@) == without_slashes(s@.skip(from as int)),
        decreases n - from,
    {
        assert(s@.skip(from as int).drop_first() =~= s@.skip(from + 1));
        from = from + 1;
    }
    let r = text::slice_chars(s, from, n);
    assert(r@ =~= s@.skip(from as int));
    r
}

/// The path that a request names: its address without the slashes in front, decoded.
pub open spec fn named_path(uri_path: Seq<char>) -> Seq<char> {
    text::utf8_lossy(percent_decoded(encode_utf8(without_slashes(uri_path))))
}

/// The path that a request names.
pub fn requested_path(uri_path: &str) -> (r: String)
    ensures
        r@ == named_path(uri_path@),
{
    let raw = text::string_of(drop_slashes(text::chars_of(uri_path).as_slice()).as_slice());
    text::lossy_text(decode_percent(raw.as_str()).as_slice())
}

// --- Which file ---

/// Where the file of a request is looked for.
#[derive(Clone, Copy, Debug, PartialEq, Eq, Structural)]
pub enum StreamTarget {
    /// Nowhere: the reply has this status.
    Refused(u16),
    /// At the path itself, once its directory is known to be trusted.
    Absolute,
    /// In the directory of recordings.
    InAudioDir,
}

/// Whether the path is that of a recording.
pub open spec fn recording_path(path: Seq<char>) -> bool {
    text::ends(path, ".wav"@) || text::ends(path, ".mp3"@)
}

/// Whether a relative path stays where it is.
pub open spec fn plain_name(path: Seq<char>) -> bool {
    !path.contains('/') && !path.contains('\\') && !text::holds(path, ".."@)
}

/// Where the file of a request is looked for.
pub open spec fn stream_target(path: Seq<char>, is_absolute: bool, trusted: bool) -> StreamTarget {
    if !recording_path(path) {
        StreamTarget::Refused(400)
    } else if is_absolute {
        if trusted {
            StreamTarget::Absolute
        } else {
            StreamTarget::Refused(403)
        }
    } else if plain_name(path) {
        StreamTarget::InAudioDir
    } else {
        StreamTarget::Refused(400)
    }
}

/// Decides where the file of a request is looked for. `trusted` says whether an absolute
/// path lies in one of the directories that recordings were written to.
pub fn classify_request(path: &str, is_absolute: bool, trusted: bool) -> (r: StreamTarget)
    ensures
        r == stream_target(path@, is_absolute, trusted),
{
    let chars = text::chars_of(path);
    if !text::ends_with(chars.as_slice(), text::chars_of(".wav").as_slice()) && !text::ends_with(
        chars.as_slice(),
        text::chars_of(".mp3").as_slice(),
    ) {
        return StreamTarget::Refused(400);
    }
    if is_absolute {
        return if trusted {
            StreamTarget::Absolute
        } else {
            StreamTarget::Refused(403)
        };
    }
    if text::contains_char(chars.as_slice(), '/') || text::contains_char(chars.as_slice(), '\\')
        || text::contains_part(chars.as_slice(), text::chars_of("..").as_slice()) {
        return StreamTarget::Refused(400);
    }
    StreamTarget::InAudioDir
}

/// Nothing but recordings is served, an absolute path only from a trusted directory, and
/// a relative one never leads out of the directory of recordings.
pub proof fn law_served_is_allowed(path: Seq<char>, is_absolute: bool, trusted: bool)
    requires
        !(stream_target(path, is_absolute, trusted) is Refused),
    ensures
        recording_path(path),
        is_absolute ==> trusted,
        !is_absolute ==> !path.contains('/') && !path.contains('\\') && !text::holds(path, ".."@),
{
}

/// Whether a byte separates the components of a resolved path.
pub open spec fn separator_byte(b: u8, os: TargetOs) -> bool {
    b == 0x2f || (os is Windows && b == 0x5c)
}

/// Whether the resolved path is the directory or lies below it.
pub open spec fn within(base: Seq<u8>, path: Seq<u8>, os: TargetOs) -> bool {
    &&& base.len() <= path.len()
    &&& path.take(base.len() as int) == base
    &&& base.len() == path.len() || (base.len() > 0 && separator_byte(base.last(), os))
        || separator_byte(path[base.len() as int], os)
}

fn is_separator_byte(b: u8, os: TargetOs) -> (r: bool)
    ensures
        r == separator_byte(b, os),
{
    b == 0x2f || (os == TargetOs::Windows && b == 0x5c)
}

fn lies_within(b: &Vec<u8>, p: &Vec<u8>, os: TargetOs) -> (r: bool)
    ensures
        r == within(b@, p@, os),
{
    if b.len() > p.len() {
        return false;
    }
    let mut i: usize = 0;
    while i < b.len()
        invariant
            i <= b@.len() <= p@.len(),
            forall|k: int| 0 <= k < i ==> b@[k] == p@[k],
        decreases b@.len() - i,
    {
        if b[i] != p[i] {
            assert(p@.take(b@.len() as int)[i as int] == p@[i as int]);
            return false;
        }
        i = i + 1;
    }
    assert(p@.take(b@.len() as int) =~= b@);
    b.len() == p.len() || (b.len() > 0 && is_separator_byte(b[b.len() - 1], os))
        || is_separator_byte(p[b.len()], os)
}

/// Whether a path lies in a directory, both with every link resolved and as bytes. What
/// could not be resolved lies nowhere.
pub fn is_allowed_audio_path(base: &Option<Vec<u8>>, path: &Option<Vec<u8>>, os: TargetOs) -> (r:
    bool)
    ensures
        r == (match (*base, *path) {
            (Some(b), Some(p)) => within(b@, p@, os),
            _ => false,
        }),
{
    match (base, path) {
        (Some(b), Some(p)) => lies_within(b, p, os),
        _ => false,
    }
}

/// Whether a path lies in one of the trusted directories.
pub fn audio_path_trusted(dirs: &Vec<Option<Vec<u8>>>, path: &Option<Vec<u8>>, os: TargetOs) -> (r:
    bool)
    ensures
        r == exists|i: int|
            0 <= i < dirs@.len() && (#[trigger] dirs@[i]) is Some && *path is Some && within(
                dirs@[i]->0@,
                (*path)->0@,
                os,
            ),
{
    let mut i: usize = 0;
    while i < dirs.len()
        invariant
            i <= dirs@.len(),
            forall|k: int|
                0 <= k < i ==> !((#[trigger] dirs@[k]) is Some && *path is Some && within(
                    dirs@[k]->0@,
                    (*path)->0@,
                    os,
                )),
        decreases dirs@.len() - i,
    {
        if is_allowed_audio_path(&dirs[i], path, os) {
            assert(dirs@[i as int] is Some);
            return true;
        }
        i = i + 1;
    }
    false
}

/// The type of the content, by the extension of the file.
pub open spec fn content_kind(path: Seq<char>, os: TargetOs) -> Seq<char> {
    match files::file_name(path, os) {
        Some(n) => if files::extension(n) == Some("mp3"@) {
            "audio/mpeg"@
        } else {
            "audio/wav"@
        },
        None => "audio/wav"@,
    }
}

/// The type of the content, by the extension of the file.
pub fn content_type(path: &str, os: TargetOs) -> (r: &'static str)
    ensures
        r@ == content_kind(path@, os),
{
    match files::file_name_of(path, os) {
        Some(n) => match files::extension_of(text::chars_of(n.as_str()).as_slice()) {
            Some(e) => if text::same_chars(e.as_slice(), text::chars_of("mp3").as_slice()) {
                "audio/mpeg"
            } else {
                "audio/wav"
            },
            None => "audio/wav",
        },
        None => "audio/wav",
    }
}

// --- Which bytes ---

/// The bytes that are asked for.
#[derive(Clone, Copy, Debug, PartialEq, Eq, Structural)]
pub enum ByteRange {
    Whole,
    /// From the first to the last of these places, both included.
    Part { start: u64, end: u64 },
    /// A range that ends before it begins.
    Unsatisfiable,
}

/// The place of the first hyphen; the length where there is none.
pub open spec fn first_hyphen(s: Seq<char>) -> nat
    decreases s.len(),
{
    if s.len() == 0 || s[0] == '-' {
        0
    } else {
        1 + first_hyphen(s.drop_first())
    }
}

/// The range that a header asks for, where it asks for one.
pub open spec fn range_spec(header: Option<Seq<char>>) -> Option<Seq<char>> {
    match header {
        Some(h) => if text::begins(h, "bytes="@) {
            Some(h.skip(6))
        } else {
            None
        },
        None => None,
    }
}

/// The place that a text gives, or the other one where it gives none.
pub open spec fn place_or(s: Seq<char>, other: nat) -> nat {
    match text::unsigned_value(s, u64::MAX as nat) {
        Some(n) => n,
        None => other,
    }
}

/// `n`, or the last place of the file where `n` is beyond it.
pub open spec fn inside(n: nat, file_len: nat) -> nat {
    if n < file_len {
        n
    } else {
        (file_len - 1) as nat
    }
}

/// The bytes of a file that is not empty that a range asks for: the places around the
/// first hyphen, the start of the file and its end where they are not given, each moved
/// into the file.
pub open spec fn asked_bytes(spec: Seq<char>, file_len: nat) -> ByteRange {
    let h = first_hyphen(spec) as int;
    let last = (file_len - 1) as nat;
    let start = inside(place_or(spec.take(h), 0), file_len);
    let end = inside(
        if h < spec.len() {
            place_or(spec.skip(h + 1), last)
        } else {
            last
        },
        file_len,
    );
    if end < start {
        ByteRange::Unsatisfiable
    } else {
        ByteRange::Part { start: start as u64, end: end as u64 }
    }
}

fn find_hyphen(s: &[char]) -> (r: usize)
    ensures
        r == first_hyphen(s@),
        r <= s@.len(),
{
    let n: usize = s.len();
    let mut i: usize = 0;
    assert(s@.skip(0) =~= s@);
    while i < n && s[i] != '-'
        invariant
            i <= n == s@.len(),
            first_hyphen(s@) == i + first_hyphen(s@.skip(i as int)),
        decreases n - i,
    {
        assert(s@.skip(i as int).drop_first() =~= s@.skip(i + 1));
        i = i + 1;
    }
    i
}

fn read_place(s: &[char], other: u64) -> (r: u64)
    ensures
        r == place_or(s@, other as nat),
{
    match text::parse_unsigned(s, u64::MAX) {
        Some(n) => n,
        None => other,
    }
}

/// The header's text as a sequence.
pub open spec fn header_text(header: Option<&str>) -> Option<Seq<char>> {
    match header {
        Some(h) => Some(h@),
        None => None,
    }
}

/// The bytes that a request asks for, by its range header. Only a file that is not empty
/// has ranges.
pub fn requested_bytes(header: Option<&str>, file_len: u64) -> (r: ByteRange)
    requires
        range_spec(header_text(header)) is Some ==> file_len > 0,
    ensures
        r == (match range_spec(header_text(header)) {
            Some(s) => asked_bytes(s, file_len as nat),
            None => ByteRange::Whole,
        }),
        header is None ==> r is Whole,
        header matches Some(h) ==> (r is Whole <==> !(h@.len() >= 6 && h@.take(6) == "bytes="@)),
        r matches ByteRange::Part { start, end } ==> start <= end < file_len,
{
    proof {
        reveal_strlit("bytes=");
    }
    let chars = match header {
        Some(h) => text::chars_of(h),
        None => return ByteRange::Whole,
    };
    if !text::begins_with(chars.as_slice(), text::chars_of("bytes=").as_slice()) {
        return ByteRange::Whole;
    }
    let spec = text::slice_chars(chars.as_slice(), 6, chars.len());
    assert(spec@ =~= chars@.skip(6));
    let h: usize = find_hyphen(spec.as_slice());
    let last: u64 = file_len - 1;
    let head = text::slice_chars(spec.as_slice(), 0, h);
    assert(head@ =~= spec@.take(h as int));
    let from: u64 = read_place(head.as_slice(), 0);
    let to: u64 = if h < spec.len() {
        let tail = text::slice_chars(spec.as_slice(), h + 1, spec.len());
        assert(tail@ =~= spec@.skip(h + 1));
        read_place(tail.as_slice(), last)
    } else {
        last
    };
    let start: u64 = if from < file_len {
        from
    } else {
        last
    };
    let end: u64 = if to < file_len {
        to
    } else {
        last
    };
    if end < start {
        ByteRange::Unsatisfiable
    } else {
        ByteRange::Part { start, end }
    }
}

/// A part lies in the file, and is not empty.
pub proof fn law_part_lies_in_file(spec: Seq<char>, file_len: nat)
    requires
        0 < file_len <= u64::MAX,
    ensures
        asked_bytes(spec, file_len) matches ByteRange::Part { start, end } ==> start <= end
            < file_len,
{
}

/// Asking for the bytes from `a` to `b` of a file that holds them gives exactly these.
pub proof fn law_range_is_what_it_says(a: nat, b: nat, file_len: nat)
    requires
        a <= b < file_len <= u64::MAX,
    ensures
        asked_bytes(text::decimal(a) + seq!['-'] + text::decimal(b), file_len) == (ByteRange::Part {
            start: a as u64,
            end: b as u64,
        }),
{
    let spec = text::decimal(a) + seq!['-'] + text::decimal(b);
    text::lemma_decimal_value(a);
    text::lemma_unsigned_of_decimal(a, u64::MAX as nat);
    text::lemma_unsigned_of_decimal(b, u64::MAX as nat);
    lemma_first_hyphen(text::decimal(a), text::decimal(b));
    let h = text::decimal(a).len() as int;
    assert(spec.take(h) =~= text::decimal(a));
    assert(spec.skip(h + 1) =~= text::decimal(b));
}

proof fn lemma_first_hyphen(a: Seq<char>, b: Seq<char>)
    requires
        text::all_digits(a),
    ensures
        first_hyphen(a + seq!['-'] + b) == a.len(),
    decreases a.len(),
{
    let s = a + seq!['-'] + b;
    if a.len() > 0 {
        assert(text::digit(a[0]));
        let rest = a.drop_first();
        assert forall|i: int| 0 <= i < rest.len() implies text::digit(#[trigger] rest[i]) by {
            assert(text::digit(a[i + 1]));
        }
        lemma_first_hyphen(rest, b);
        assert(s.drop_first() =~= rest + seq!['-'] + b);
    } else {
        assert(s[0] == '-');
    }
}

/// How many bytes lie between two places, both included. None where the second comes
/// before the first, or where they cannot be counted.
pub fn range_length(start: u64, end: u64) -> (r: Option<u64>)
    ensures
        r == (if start <= end && end - start < u64::MAX {
            Some((end - start + 1) as u64)
        } else {
            None
        }),
{
    if start <= end && end - start < u64::MAX {
        Some(end - start + 1)
    } else {
        None
    }
}

// --- The reply ---

/// What the reply says in front of the bytes.
#[derive(Clone, Debug)]
pub struct ReplyHead {
    pub status: u16,
    pub content_length: u64,
    /// Which bytes follow, where it is not the whole file.
    pub content_range: Option<String>,
}

/// Which bytes follow, as the reply says it.
pub open spec fn range_text(start: nat, end: nat, file_len: nat) -> Seq<char> {
    "bytes "@ + text::decimal(start) + "-"@ + text::decimal(end) + "/"@ + text::decimal(file_len)
}

/// What the reply says, by the bytes that were asked for. Nothing follows a range that
/// cannot be met.
pub fn reply_head(range: ByteRange, file_len: u64) -> (r: ReplyHead)
    requires
        range matches ByteRange::Part { start, end } ==> start <= end < file_len,
    ensures
        match range {
            ByteRange::Whole => r.status == 200 && r.content_length == file_len
                && r.content_range is None,
            ByteRange::Part { start, end } => r.status == 206 && r.content_length == end - start + 1
                && (r.content_range matches Some(t) && t@ == range_text(
                start as nat,
                end as nat,
                file_len as nat,
            ) && t@ == "bytes "@ + text::decimal(start as nat) + "-"@ + text::decimal(end as nat)
                + "/"@ + text::decimal(file_len as nat)),
            ByteRange::Unsatisfiable => r.status == 416 && r.content_length == 0
                && r.content_range is None,
        },
{
    match range {
        ByteRange::Whole => ReplyHead { status: 200, content_length: file_len, content_range: None },
        ByteRange::Part { start, end } => {
            let mut t: String = "bytes ".to_owned();
            t.append(text::decimal_text(start).as_str());
            t.append("-");
            t.append(text::decimal_text(end).as_str());
            t.append("/");
            t.append(text::decimal_text(file_len).as_str());
            ReplyHead { status: 206, content_length: end - start + 1, content_range: Some(t) }
        },
        ByteRange::Unsatisfiable => ReplyHead {
            status: 416,
            content_length: 0,
            content_range: None,
        },
    }
}

// --- What holds of requests ---

/// A recording is served from where it may be, and what is refused is refused for a reason:
/// what is no recording, and a relative path that leads somewhere else, as malformed; a
/// recording outside the trusted directories as forbidden.
pub proof fn law_recordings_are_served(path: Seq<char>, is_absolute: bool, trusted: bool)
    ensures
        ({
            let recording = path.len() >= 4 && (path.skip(path.len() - 4) == ".wav"@ || path.skip(
                path.len() - 4,
            ) == ".mp3"@);
            let t = stream_target(path, is_absolute, trusted);
            &&& t is Absolute <==> recording && is_absolute && trusted
            &&& t == StreamTarget::Refused(403) <==> recording && is_absolute && !trusted
            &&& t is InAudioDir ==> recording && !is_absolute
            &&& !recording ==> t == StreamTarget::Refused(400)
            &&& recording && !is_absolute && (path.contains('/') || path.contains('\\')) ==> t
                == StreamTarget::Refused(400)
            &&& recording && !is_absolute && !path.contains('/') && !path.contains('\\') && (
            forall|i: int|
                0 <= i < path.len() - 1 ==> !(#[trigger] path[i] == '.' && path[i + 1] == '.'))
                ==> t is InAudioDir
        }),
{
    reveal_strlit(".wav");
    reveal_strlit(".mp3");
    reveal_strlit("..");
    if forall|i: int| 0 <= i < path.len() - 1 ==> !(#[trigger] path[i] == '.' && path[i + 1] == '.') {
        if text::holds(path, ".."@) {
            let k = choose|k: int|
                0 <= k <= path.len() - ".."@.len() && #[trigger] path.subrange(
                    k,
                    k + ".."@.len(),
                ) == ".."@;
            assert(path.subrange(k, k + 2)[0] == path[k]);
            assert(path.subrange(k, k + 2)[1] == path[k + 1]);
            assert(".."@[0] == '.' && ".."@[1] == '.');
            assert(path[k] == '.');
        }
    }
}

/// A path lies in a directory if it is the directory or goes on behind it with a separator,
/// and never only because its name begins with the directory's.
pub proof fn law_within_ends_at_a_component(base: Seq<u8>, rest: Seq<u8>, b: u8, os: TargetOs)
    requires
        base.len() > 0,
        base.last() != 0x2f,
        base.last() != 0x5c,
    ensures
        within(base, base, os),
        within(base, base.push(0x2f) + rest, os),
        os is Windows ==> within(base, base.push(0x5c) + rest, os),
        b != 0x2f && b != 0x5c ==> !within(base, base.push(b) + rest, os),
        !(os is Windows) && b == 0x5c ==> !within(base, base.push(b) + rest, os),
        !within(base.push(b), base, os),
{
    assert(base.take(base.len() as int) =~= base);
    assert((base.push(0x2f) + rest).take(base.len() as int) =~= base);
    assert((base.push(0x5c) + rest).take(base.len() as int) =~= base);
    assert((base.push(0x2f) + rest)[base.len() as int] == 0x2f);
    assert((base.push(0x5c) + rest)[base.len() as int] == 0x5c);
    assert((base.push(b) + rest)[base.len() as int] == b);
}

/// What lies within a directory begins with it.
pub proof fn law_within_begins_with_base(base: Seq<u8>, path: Seq<u8>, os: TargetOs)
    requires
        within(base, path, os),
    ensures
        base.len() <= path.len(),
        forall|i: int| 0 <= i < base.len() ==> #[trigger] path[i] == base[i],
{
    assert forall|i: int| 0 <= i < base.len() implies #[trigger] path[i] == base[i] by {
        assert(path.take(base.len() as int)[i] == path[i]);
    }
}

/// Only the slashes in front of a path are taken off, and all of them.
pub proof fn law_slashes_in_front(s: Seq<char>)
    ensures
        ({
            let t = without_slashes(s);
            let n = s.len() - t.len();
            &&& n >= 0 && t == s.skip(n)
            &&& t.len() > 0 ==> t[0] != '/'
            &&& forall|i: int| 0 <= i < n ==> #[trigger] s[i] == '/'
        }),
    decreases s.len(),
{
    if s.len() > 0 && s[0] == '/' {
        let rest = s.drop_first();
        law_slashes_in_front(rest);
        let t = without_slashes(s);
        let n = s.len() - t.len();
        assert(rest.skip(n - 1) =~= s.skip(n));
        assert forall|i: int| 0 <= i < n implies #[trigger] s[i] == '/' by {
            if i > 0 {
                assert(s[i] == rest[i - 1]);
            }
        }
    } else {
        assert(s.skip(0) =~= s);
    }
}

/// Asking for the bytes from `a` to `b` gives these as far as the file holds them, and is
/// refused where they end before they begin; without an end everything from `a` on is
/// given.
pub proof fn law_range_is_moved_into_the_file(a: nat, b: nat, file_len: nat)
    requires
        0 < file_len <= u64::MAX,
        a <= u64::MAX,
        b <= u64::MAX,
    ensures
        ({
            let start = if a < file_len {
                a
            } else {
                (file_len - 1) as nat
            };
            let end = if b < file_len {
                b
            } else {
                (file_len - 1) as nat
            };
            let asked = asked_bytes(text::decimal(a) + seq!['-'] + text::decimal(b), file_len);
            &&& start <= end ==> asked == (ByteRange::Part { start: start as u64, end: end as u64 })
            &&& end < start ==> asked is Unsatisfiable
            &&& asked_bytes(text::decimal(a) + seq!['-'], file_len) == (ByteRange::Part {
                start: start as u64,
                end: (file_len - 1) as u64,
            })
        }),
{
    let spec = text::decimal(a) + seq!['-'] + text::decimal(b);
    let open = text::decimal(a) + seq!['-'];
    text::lemma_decimal_value(a);
    text::lemma_unsigned_of_decimal(a, u64::MAX as nat);
    text::lemma_unsigned_of_decimal(b, u64::MAX as nat);
    lemma_first_hyphen(text::decimal(a), text::decimal(b));
    lemma_first_hyphen(text::decimal(a), Seq::empty());
    assert(open + Seq::<char>::empty() =~= open);
    let h = text::decimal(a).len() as int;
    assert(spec.take(h) =~= text::decimal(a));
    assert(spec.skip(h + 1) =~= text::decimal(b));
    assert(open.take(h) =~= text::decimal(a));
    assert(open.skip(h + 1) =~= Seq::<char>::empty());
}

/// The type of the content goes by what is behind the last dot of the file's name: that of
/// a compressed recording where it is `mp3`, and that of a plain one in every other case.
pub proof fn law_content_goes_by_extension(
    dir: Seq<char>,
    stem: Seq<char>,
    e: Seq<char>,
    os: TargetOs,
)
    requires
        !(os is Windows),
        stem.len() > 0,
        !stem.contains('/'),
        e.len() > 0,
        !e.contains('/'),
        !e.contains('.'),
    ensures
        content_kind(dir + seq!['/'] + (stem + seq!['.'] + e), os) == (if e == "mp3"@ {
            "audio/mpeg"@
        } else {
            "audio/wav"@
        }),
{
    let name = stem + seq!['.'] + e;
    assert(!name.contains('/')) by {
        assert forall|i: int| 0 <= i < name.len() implies #[trigger] name[i] != '/' by {
            if i < stem.len() {
                assert(stem.contains(stem[i]));
            } else if i > stem.len() {
                assert(e.contains(e[i - stem.len() - 1]));
            }
        }
    }
    assert(name.len() >= 3);
    if name == seq!['.', '.'] {
        assert(seq!['.', '.'].len() == 2);
    }
    files::law_file_name_is_behind_the_last_slash(dir, name, os);
    files::law_extension_is_behind_the_last_dot(stem, e);
}

} // verus!
