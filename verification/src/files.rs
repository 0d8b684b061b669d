//! Paths and file names: what may be written, what belongs to a session, what may be
//! deleted.

use vstd::prelude::*;

use crate::error::CommandError;
use crate::platform::TargetOs;
use crate::text;

verus! {

// --- Paths ---

/// What separates the components of a path.
#[derive(Clone, Copy, Debug, PartialEq, Eq, Structural)]
pub enum Separators {
    Slash,
    Backslash,
    Both,
}

impl Separators {
    /// Whether `c` separates.
    pub open spec fn splits(self, c: char) -> bool {
        match self {
            Separators::Slash => c == '/',
            Separators::Backslash => c == '\\',
            Separators::Both => c == '/' || c == '\\',
        }
    }

    fn is_split(self, c: char) -> (r: bool)
        ensures
            r == self.splits(c),
    {
        match self {
            Separators::Slash => c == '/',
            Separators::Backslash => c == '\\',
            Separators::Both => c == '/' || c == '\\',
        }
    }
}

/// How many characters lead up to the first separator.
pub open spec fn run(path: Seq<char>, seps: Separators) -> nat
    decreases path.len(),
{
    if path.len() == 0 || seps.splits(path[0]) {
        0
    } else {
        1 + run(path.drop_first(), seps)
    }
}

/// What follows the first separator.
pub open spec fn behind_run(path: Seq<char>, seps: Separators) -> Seq<char> {
    if run(path, seps) < path.len() {
        path.skip(run(path, seps) as int + 1)
    } else {
        Seq::empty()
    }
}

/// Whether a path begins with the letter and colon of a Windows drive.
pub open spec fn leads_drive(path: Seq<char>) -> bool {
    path.len() >= 2 && path[1] == ':' && (('a' <= path[0] && path[0] <= 'z') || ('A' <= path[0]
        && path[0] <= 'Z'))
}

/// Whether a Windows path is taken word for word: it begins with two backslashes, a
/// question mark and a backslash.
pub open spec fn verbatim(path: Seq<char>, os: TargetOs) -> bool {
    os is Windows && path.len() >= 4 && path[0] == '\\' && path[1] == '\\' && path[2] == '?'
        && path[3] == '\\'
}

/// How many characters of a server and a share lead a path: of the share and what is in
/// front of it nothing counts where it is empty.
pub open spec fn share_len(path: Seq<char>, seps: Separators) -> nat {
    let server = run(path, seps);
    let share = run(behind_run(path, seps), seps);
    if share > 0 {
        server + 1 + share
    } else {
        server
    }
}

/// What stands in front of the components of a Windows path.
#[derive(Clone, Copy, Debug, PartialEq, Eq, Structural)]
pub enum PrefixKind {
    Absent,
    /// The letter of a drive and a colon.
    Drive,
    /// A server and a share.
    Share,
    /// A device.
    Device,
    /// A drive, a server with a share, or another name, in front of a path that is taken
    /// word for word.
    VerbatimDrive,
    VerbatimShare,
    VerbatimName,
}

/// What stands in front of the components of a path.
pub open spec fn prefix_kind(path: Seq<char>, os: TargetOs) -> PrefixKind {
    let both = Separators::Both;
    if !(os is Windows) {
        PrefixKind::Absent
    } else if !(path.len() >= 2 && both.splits(path[0]) && both.splits(path[1])) {
        if leads_drive(path) {
            PrefixKind::Drive
        } else {
            PrefixKind::Absent
        }
    } else if verbatim(path, os) {
        let rest = path.skip(4);
        if rest.len() >= 4 && rest[0] == 'U' && rest[1] == 'N' && rest[2] == 'C' && both.splits(
            rest[3],
        ) {
            PrefixKind::VerbatimShare
        } else if leads_drive(rest) && (rest.len() == 2 || both.splits(rest[2])) {
            PrefixKind::VerbatimDrive
        } else {
            PrefixKind::VerbatimName
        }
    } else if path.len() >= 4 && path[2] == '.' && both.splits(path[3]) {
        PrefixKind::Device
    } else {
        let rest = path.skip(2);
        if run(rest, both) > 0 && run(behind_run(rest, both), both) > 0 {
            PrefixKind::Share
        } else {
            PrefixKind::Absent
        }
    }
}

/// How many characters of a path are its prefix.
pub open spec fn prefix_len(path: Seq<char>, os: TargetOs) -> nat {
    match prefix_kind(path, os) {
        PrefixKind::Absent => 0,
        PrefixKind::Drive => 2,
        PrefixKind::Share => 2 + share_len(path.skip(2), Separators::Both),
        PrefixKind::Device => 4 + run(path.skip(4), Separators::Both),
        PrefixKind::VerbatimDrive => 6,
        PrefixKind::VerbatimShare => 8 + share_len(path.skip(8), Separators::Backslash),
        PrefixKind::VerbatimName => 4 + run(path.skip(4), Separators::Backslash),
    }
}

/// The characters that lead up to the first separator.
pub open spec fn first_segment(path: Seq<char>, seps: Separators) -> Seq<char> {
    path.take(run(path, seps) as int)
}

/// What a prefix names: the drive in small letters, the server and the share, the device,
/// or the name.
pub open spec fn prefix_names(path: Seq<char>, os: TargetOs) -> (Seq<char>, Seq<char>) {
    let both = Separators::Both;
    let back = Separators::Backslash;
    match prefix_kind(path, os) {
        PrefixKind::Absent => (Seq::empty(), Seq::empty()),
        PrefixKind::Drive => (text::lowered(path.take(1)), Seq::empty()),
        PrefixKind::Share => (
            first_segment(path.skip(2), both),
            first_segment(behind_run(path.skip(2), both), both),
        ),
        PrefixKind::Device => (first_segment(path.skip(4), both), Seq::empty()),
        PrefixKind::VerbatimDrive => (text::lowered(path.subrange(4, 5)), Seq::empty()),
        PrefixKind::VerbatimShare => (
            first_segment(path.skip(8), back),
            first_segment(behind_run(path.skip(8), back), back),
        ),
        PrefixKind::VerbatimName => (first_segment(path.skip(4), back), Seq::empty()),
    }
}

/// What separates the components of a path behind its prefix.
pub open spec fn separators(path: Seq<char>, os: TargetOs) -> Separators {
    if verbatim(path, os) {
        Separators::Backslash
    } else if os is Windows {
        Separators::Both
    } else {
        Separators::Slash
    }
}

/// Whether a separator follows the prefix, or leads a path without one.
pub open spec fn root_written(path: Seq<char>, os: TargetOs) -> bool {
    let at = prefix_len(path, os) as int;
    at < path.len() && (path[at] == '/' || (os is Windows && path[at] == '\\'))
}

/// Whether a path begins at a root: a share and a device are at theirs without a separator.
pub open spec fn rooted(path: Seq<char>, os: TargetOs) -> bool {
    root_written(path, os) || prefix_kind(path, os) is Share || prefix_kind(path, os) is Device
}

/// What follows the prefix and the root of a path.
pub open spec fn body(path: Seq<char>, os: TargetOs) -> Seq<char> {
    path.skip(
        prefix_len(path, os) as int + if root_written(path, os) {
            1int
        } else {
            0int
        },
    )
}

/// The components that name something, in order: what is empty does not count, nor, unless
/// `dots` are kept, components that are a single dot.
pub open spec fn names(path: Seq<char>, seps: Separators, dots: bool) -> Seq<Seq<char>>
    decreases path.len(),
{
    if path.len() == 0 {
        Seq::empty()
    } else {
        let first = first_segment(path, seps);
        let rest = names(behind_run(path, seps), seps, dots);
        if first.len() == 0 || (!dots && first == seq!['.']) {
            rest
        } else {
            seq![first] + rest
        }
    }
}

/// Whether a path begins with a dot that counts: where it has neither prefix nor root, a
/// dot in front says that it starts from the current directory.
pub open spec fn from_here(path: Seq<char>, os: TargetOs) -> bool {
    prefix_kind(path, os) is Absent && !rooted(path, os) && first_segment(
        body(path, os),
        separators(path, os),
    ) == seq!['.']
}

/// Whether two paths are the same, component by component: of separators only one counts,
/// none at the end, and a single dot counts only where it begins the path.
pub open spec fn same_path(a: Seq<char>, b: Seq<char>, os: TargetOs) -> bool {
    &&& prefix_kind(a, os) == prefix_kind(b, os)
    &&& prefix_names(a, os) == prefix_names(b, os)
    &&& rooted(a, os) == rooted(b, os)
    &&& from_here(a, os) == from_here(b, os)
    &&& names(body(a, os), separators(a, os), verbatim(a, os)) == names(
        body(b, os),
        separators(b, os),
        verbatim(b, os),
    )
}

/// The characters behind the last separator.
pub open spec fn last_segment(path: Seq<char>, seps: Separators) -> Seq<char>
    decreases path.len(),
{
    if path.len() == 0 || seps.splits(path.last()) {
        Seq::empty()
    } else {
        last_segment(path.drop_last(), seps).push(path.last())
    }
}

/// The last component that names something: trailing separators do not count, nor, unless
/// `dots` are kept, components that are a single dot. Empty where there is none.
pub open spec fn last_component(path: Seq<char>, seps: Separators, dots: bool) -> Seq<char>
    decreases path.len(),
{
    if path.len() == 0 {
        Seq::empty()
    } else if seps.splits(path.last()) {
        last_component(path.drop_last(), seps, dots)
    } else if !dots && last_segment(path, seps) == seq!['.'] {
        last_component(path.drop_last(), seps, dots)
    } else {
        last_segment(path, seps)
    }
}

/// The file name of a path: its last component behind prefix and root, unless that leads
/// upwards or stays where it is.
pub open spec fn file_name(path: Seq<char>, os: TargetOs) -> Option<Seq<char>> {
    let c = last_component(
        body(path, os),
        separators(path, os),
        verbatim(path, os),
    );
    if c.len() == 0 || c == seq!['.'] || c == seq!['.', '.'] {
        None
    } else {
        Some(c)
    }
}

/// The place of the last dot in `name`; minus one where there is none.
pub open spec fn last_dot(name: Seq<char>) -> int
    decreases name.len(),
{
    if name.len() == 0 {
        -1
    } else if name.last() == '.' {
        name.len() - 1
    } else {
        last_dot(name.drop_last())
    }
}

/// What follows the last dot of a file name; a dot in front does not count.
pub open spec fn extension(name: Seq<char>) -> Option<Seq<char>> {
    if last_dot(name) <= 0 {
        None
    } else {
        Some(name.skip(last_dot(name) + 1))
    }
}

proof fn lemma_last_segment(path: Seq<char>, from: int, seps: Separators)
    requires
        0 <= from <= path.len(),
        forall|k: int| from <= k < path.len() ==> !seps.splits(#[trigger] path[k]),
        from > 0 ==> seps.splits(path[from - 1]),
    ensures
        last_segment(path, seps) == path.skip(from),
    decreases path.len(),
{
    if path.len() == from {
        assert(path.skip(from) =~= Seq::<char>::empty());
    } else {
        let init = path.drop_last();
        lemma_last_segment(init, from, seps);
        assert(init.skip(from).push(path.last()) =~= path.skip(from));
    }
}

fn component_before(path: &[char], seps: Separators, dots: bool) -> (r: Vec<char>)
    ensures
        r@ == last_component(path@, seps, dots),
{
    let mut end: usize = path.len();
    assert(path@.take(end as int) =~= path@);
    while end > 0
        invariant
            end <= path@.len(),
            last_component(path@, seps, dots) == last_component(
                path@.take(end as int),
                seps,
                dots,
            ),
        decreases end,
    {
        let ghost now = path@.take(end as int);
        assert(now.drop_last() =~= path@.take(end - 1));
        if seps.is_split(path[end - 1]) {
            end = end - 1;
        } else {
            let mut from: usize = end;
            while from > 0 && !seps.is_split(path[from - 1])
                invariant
                    from <= end <= path@.len(),
                    forall|k: int| from <= k < end ==> !seps.splits(#[trigger] path@[k]),
                decreases from,
            {
                from = from - 1;
            }
            proof {
                lemma_last_segment(now, from as int, seps);
                assert(now.skip(from as int) =~= path@.subrange(from as int, end as int));
            }
            if !dots && end - from == 1 && path[from] == '.' {
                assert(last_segment(now, seps) =~= seq!['.']);
                end = end - 1;
            } else {
                proof {
                    if last_segment(now, seps) == seq!['.'] {
                        assert(now.skip(from as int)[0] == path@[from as int]);
                    }
                }
                return text::slice_chars(path, from, end);
            }
        }
    }
    assert(path@.take(0) =~= Seq::<char>::empty());
    Vec::new()
}

/// How many characters from `from` on lead up to the first separator.
fn run_from(path: &[char], from: usize, seps: Separators) -> (r: usize)
    requires
        from <= path@.len(),
    ensures
        r == run(path@.skip(from as int), seps),
        from + r <= path@.len() <= usize::MAX,
{
    let mut at: usize = from;
    while at < path.len() && !seps.is_split(path[at])
        invariant
            from <= at <= path@.len(),
            run(path@.skip(from as int), seps) == (at - from) + run(path@.skip(at as int), seps),
        decreases path@.len() - at,
    {
        assert(path@.skip(at as int).drop_first() =~= path@.skip(at + 1));
        at = at + 1;
    }
    at - from
}

/// How many characters of a server and a share stand at `from`, and whether both do.
fn share_from(path: &[char], from: usize, seps: Separators) -> (r: (usize, bool))
    requires
        from <= path@.len(),
    ensures
        r.0 == share_len(path@.skip(from as int), seps),
        r.1 == (run(path@.skip(from as int), seps) > 0 && run(
            behind_run(path@.skip(from as int), seps),
            seps,
        ) > 0),
        from + r.0 <= path@.len() <= usize::MAX,
{
    let ghost rest = path@.skip(from as int);
    let n: usize = path.len();
    let server: usize = run_from(path, from, seps);
    if from + server < n {
        assert(behind_run(rest, seps) =~= path@.skip(from + server + 1));
        let share: usize = run_from(path, from + server + 1, seps);
        if share > 0 {
            (server + 1 + share, server > 0)
        } else {
            (server, false)
        }
    } else {
        assert(behind_run(rest, seps) =~= Seq::<char>::empty());
        (server, false)
    }
}

fn drive_at(path: &[char], from: usize) -> (r: bool)
    requires
        from <= path@.len(),
    ensures
        r == leads_drive(path@.skip(from as int)),
{
    if path.len() - from < 2 {
        return false;
    }
    let letter: char = path[from];
    path[from + 1] == ':' && (('a' <= letter && letter <= 'z') || ('A' <= letter && letter <= 'Z'))
}

fn is_verbatim(path: &[char], os: TargetOs) -> (r: bool)
    ensures
        r == verbatim(path@, os),
{
    os == TargetOs::Windows && path.len() >= 4 && path[0] == '\\' && path[1] == '\\' && path[2]
        == '?' && path[3] == '\\'
}

fn kind_of(path: &[char], os: TargetOs) -> (r: PrefixKind)
    ensures
        r == prefix_kind(path@, os),
{
    let both = Separators::Both;
    if os != TargetOs::Windows {
        return PrefixKind::Absent;
    }
    if !(path.len() >= 2 && both.is_split(path[0]) && both.is_split(path[1])) {
        assert(path@.skip(0) =~= path@);
        return if drive_at(path, 0) {
            PrefixKind::Drive
        } else {
            PrefixKind::Absent
        };
    }
    if is_verbatim(path, os) {
        if path.len() >= 8 && path[4] == 'U' && path[5] == 'N' && path[6] == 'C' && both.is_split(
            path[7],
        ) {
            return PrefixKind::VerbatimShare;
        }
        if drive_at(path, 4) && (path.len() == 6 || both.is_split(path[6])) {
            return PrefixKind::VerbatimDrive;
        }
        return PrefixKind::VerbatimName;
    }
    if path.len() >= 4 && path[2] == '.' && both.is_split(path[3]) {
        return PrefixKind::Device;
    }
    if share_from(path, 2, both).1 {
        PrefixKind::Share
    } else {
        PrefixKind::Absent
    }
}

fn prefix_of(path: &[char], os: TargetOs) -> (r: usize)
    ensures
        r == prefix_len(path@, os),
        r <= path@.len(),
{
    match kind_of(path, os) {
        PrefixKind::Absent => 0,
        PrefixKind::Drive => 2,
        PrefixKind::Share => 2 + share_from(path, 2, Separators::Both).0,
        PrefixKind::Device => 4 + run_from(path, 4, Separators::Both),
        PrefixKind::VerbatimDrive => 6,
        PrefixKind::VerbatimShare => 8 + share_from(path, 8, Separators::Backslash).0,
        PrefixKind::VerbatimName => 4 + run_from(path, 4, Separators::Backslash),
    }
}

fn separators_of(path: &[char], os: TargetOs) -> (r: Separators)
    ensures
        r == separators(path@, os),
{
    if is_verbatim(path, os) {
        Separators::Backslash
    } else if os == TargetOs::Windows {
        Separators::Both
    } else {
        Separators::Slash
    }
}

fn segment_at(path: &[char], from: usize, seps: Separators) -> (r: Vec<char>)
    requires
        from <= path@.len(),
    ensures
        r@ == first_segment(path@.skip(from as int), seps),
{
    let len: usize = run_from(path, from, seps);
    assert(path@.subrange(from as int, from + len) =~= path@.skip(from as int).take(len as int));
    text::slice_chars(path, from, from + len)
}

/// The server and the share at `from`.
fn share_at(path: &[char], from: usize, seps: Separators) -> (r: (Vec<char>, Vec<char>))
    requires
        from <= path@.len(),
    ensures
        r.0@ == first_segment(path@.skip(from as int), seps),
        r.1@ == first_segment(behind_run(path@.skip(from as int), seps), seps),
{
    let ghost rest = path@.skip(from as int);
    let n: usize = path.len();
    let server = segment_at(path, from, seps);
    let len: usize = run_from(path, from, seps);
    let share = if from + len < n {
        assert(behind_run(rest, seps) =~= path@.skip(from + len + 1));
        segment_at(path, from + len + 1, seps)
    } else {
        assert(behind_run(rest, seps) =~= Seq::<char>::empty());
        assert(first_segment(behind_run(rest, seps), seps) =~= Seq::<char>::empty());
        Vec::new()
    };
    (server, share)
}

fn drive_letter(path: &[char], at: usize) -> (r: Vec<char>)
    requires
        at < path@.len(),
    ensures
        r@ == text::lowered(path@.subrange(at as int, at + 1)),
{
    let letter = vec![text::lower_char(path[at])];
    assert(letter@ =~= text::lowered(path@.subrange(at as int, at + 1)));
    letter
}

fn prefix_names_of(path: &[char], os: TargetOs) -> (r: (Vec<char>, Vec<char>))
    ensures
        (r.0@, r.1@) == prefix_names(path@, os),
{
    match kind_of(path, os) {
        PrefixKind::Absent => (Vec::new(), Vec::new()),
        PrefixKind::Drive => {
            assert(path@.take(1) =~= path@.subrange(0, 1));
            (drive_letter(path, 0), Vec::new())
        },
        PrefixKind::Share => share_at(path, 2, Separators::Both),
        PrefixKind::Device => (segment_at(path, 4, Separators::Both), Vec::new()),
        PrefixKind::VerbatimDrive => (drive_letter(path, 4), Vec::new()),
        PrefixKind::VerbatimShare => share_at(path, 8, Separators::Backslash),
        PrefixKind::VerbatimName => (segment_at(path, 4, Separators::Backslash), Vec::new()),
    }
}

fn root_at(path: &[char], at: usize, os: TargetOs) -> (r: bool)
    requires
        at == prefix_len(path@, os),
    ensures
        r == root_written(path@, os),
{
    at < path.len() && (path[at] == '/' || (os == TargetOs::Windows && path[at] == '\\'))
}

/// What follows the prefix and the root of a path.
fn body_of(path: &[char], os: TargetOs) -> (r: Vec<char>)
    ensures
        r@ == body(path@, os),
{
    let at: usize = prefix_of(path, os);
    let n: usize = path.len();
    let from: usize = if root_at(path, at, os) {
        at + 1
    } else {
        at
    };
    assert(path@.subrange(from as int, n as int) =~= path@.skip(from as int));
    text::slice_chars(path, from, n)
}

proof fn lemma_names_at(path: Seq<char>, from: int, seps: Separators, dots: bool)
    requires
        0 <= from < path.len(),
    ensures
        ({
            let rest = path.skip(from);
            let first = first_segment(rest, seps);
            let end = from + run(rest, seps);
            let next = if end < path.len() {
                end + 1
            } else {
                path.len() as int
            };
            names(rest, seps, dots) == (if first.len() == 0 || (!dots && first == seq!['.']) {
                Seq::empty()
            } else {
                seq![first]
            }) + names(path.skip(next), seps, dots)
        }),
{
    let rest = path.skip(from);
    let end = from + run(rest, seps);
    if end < path.len() {
        assert(behind_run(rest, seps) =~= path.skip(end + 1));
    } else {
        assert(behind_run(rest, seps) =~= path.skip(path.len() as int));
    }
    let after = names(behind_run(rest, seps), seps, dots);
    assert(Seq::<Seq<char>>::empty() + after =~= after);
}

/// The components that name something, in order.
fn names_of(path: &[char], seps: Separators, dots: bool) -> (r: Vec<Vec<char>>)
    ensures
        r@.map_values(|n: Vec<char>| n@) == names(path@, seps, dots),
{
    let ghost texts = |n: Vec<char>| n@;
    let mut out: Vec<Vec<char>> = Vec::new();
    let n: usize = path.len();
    let mut from: usize = 0;
    assert(path@.skip(0) =~= path@);
    assert(out@.map_values(texts) + names(path@, seps, dots) =~= names(path@, seps, dots));
    while from < n
        invariant
            from <= n == path@.len(),
            texts == (|n: Vec<char>| n@),
            names(path@, seps, dots) == out@.map_values(texts) + names(
                path@.skip(from as int),
                seps,
                dots,
            ),
        decreases n - from,
    {
        let ghost before = out@;
        let segment = segment_at(path, from, seps);
        let len: usize = run_from(path, from, seps);
        let next: usize = if from + len < n {
            from + len + 1
        } else {
            n
        };
        proof {
            lemma_names_at(path@, from as int, seps, dots);
        }
        let ghost after = names(path@.skip(next as int), seps, dots);
        if segment.len() == 0 || (!dots && segment.len() == 1 && segment[0] == '.') {
            proof {
                if segment@.len() == 1 {
                    assert(segment@ =~= seq!['.']);
                }
                assert(Seq::<Seq<char>>::empty() + after =~= after);
            }
        } else {
            let ghost name = segment@;
            out.push(segment);
            proof {
                if name == seq!['.'] {
                    assert(name[0] == '.');
                }
                assert(out@.map_values(texts) =~= before.map_values(texts).push(name));
                assert(before.map_values(texts).push(name) + after =~= before.map_values(texts) + (
                seq![name] + after));
            }
        }
        from = next;
    }
    assert(path@.skip(n as int) =~= Seq::<char>::empty());
    assert(out@.map_values(texts) + names(path@.skip(n as int), seps, dots) =~= out@.map_values(
        texts,
    ));
    out
}

fn same_names(a: &Vec<Vec<char>>, b: &Vec<Vec<char>>) -> (r: bool)
    ensures
        r == (a@.map_values(|n: Vec<char>| n@) == b@.map_values(|n: Vec<char>| n@)),
{
    let ghost texts = |n: Vec<char>| n@;
    let ghost x = a@.map_values(texts);
    let ghost y = b@.map_values(texts);
    if a.len() != b.len() {
        assert(x.len() != y.len());
        return false;
    }
    let mut i: usize = 0;
    while i < a.len()
        invariant
            i <= a@.len() == b@.len(),
            texts == (|n: Vec<char>| n@),
            x == a@.map_values(texts),
            y == b@.map_values(texts),
            forall|k: int| 0 <= k < i ==> #[trigger] x[k] == y[k],
        decreases a@.len() - i,
    {
        if !text::same_chars(a[i].as_slice(), b[i].as_slice()) {
            assert(x[i as int] != y[i as int]);
            return false;
        }
        assert(x[i as int] == y[i as int]);
        i = i + 1;
    }
    assert(x =~= y);
    true
}

fn starts_here(path: &[char], os: TargetOs) -> (r: bool)
    ensures
        r == from_here(path@, os),
{
    if kind_of(path, os) != PrefixKind::Absent {
        return false;
    }
    if root_at(path, 0, os) {
        return false;
    }
    let rest = body_of(path, os);
    let seps: Separators = separators_of(path, os);
    assert(rest@.skip(0) =~= rest@);
    let first = segment_at(rest.as_slice(), 0, seps);
    let dot: bool = first.len() == 1 && first[0] == '.';
    proof {
        if dot {
            assert(first@ =~= seq!['.']);
        }
        if first@ == seq!['.'] {
            assert(first@[0] == '.');
        }
    }
    dot
}

/// Whether two paths are the same, component by component.
pub fn is_same_path(a: &str, b: &str, os: TargetOs) -> (r: bool)
    ensures
        r == same_path(a@, b@, os),
{
    let x = text::chars_of(a);
    let y = text::chars_of(b);
    let kind: PrefixKind = kind_of(x.as_slice(), os);
    if kind != kind_of(y.as_slice(), os) {
        return false;
    }
    let (x0, x1) = prefix_names_of(x.as_slice(), os);
    let (y0, y1) = prefix_names_of(y.as_slice(), os);
    if !text::same_chars(x0.as_slice(), y0.as_slice()) || !text::same_chars(
        x1.as_slice(),
        y1.as_slice(),
    ) {
        return false;
    }
    let at_root: bool = kind == PrefixKind::Share || kind == PrefixKind::Device;
    let x_root: bool = at_root || root_at(x.as_slice(), prefix_of(x.as_slice(), os), os);
    let y_root: bool = at_root || root_at(y.as_slice(), prefix_of(y.as_slice(), os), os);
    if x_root != y_root || starts_here(x.as_slice(), os) != starts_here(y.as_slice(), os) {
        return false;
    }
    let x_names = names_of(
        body_of(x.as_slice(), os).as_slice(),
        separators_of(x.as_slice(), os),
        is_verbatim(x.as_slice(), os),
    );
    let y_names = names_of(
        body_of(y.as_slice(), os).as_slice(),
        separators_of(y.as_slice(), os),
        is_verbatim(y.as_slice(), os),
    );
    same_names(&x_names, &y_names)
}

/// The file name of a path.
pub fn file_name_of(path: &str, os: TargetOs) -> (r: Option<String>)
    ensures
        match file_name(path@, os) {
            Some(n) => r matches Some(t) && t@ == n,
            None => r is None,
        },
{
    let chars = text::chars_of(path);
    let rest = body_of(chars.as_slice(), os);
    let name = component_before(
        rest.as_slice(),
        separators_of(chars.as_slice(), os),
        is_verbatim(chars.as_slice(), os),
    );
    if name.len() == 0 {
        return None;
    }
    if name.len() == 1 && name[0] == '.' {
        assert(name@ =~= seq!['.']);
        return None;
    }
    if name.len() == 2 && name[0] == '.' && name[1] == '.' {
        assert(name@ =~= seq!['.', '.']);
        return None;
    }
    Some(text::string_of(name.as_slice()))
}

/// What follows the last dot of a file name.
pub fn extension_of(name: &[char]) -> (r: Option<Vec<char>>)
    ensures
        match extension(name@) {
            Some(e) => r matches Some(t) && t@ == e,
            None => r is None,
        },
{
    let n: usize = name.len();
    let mut i: usize = n;
    assert(name@.take(n as int) =~= name@);
    while i > 0
        invariant
            i <= n == name@.len(),
            last_dot(name@) == last_dot(name@.take(i as int)),
        decreases i,
    {
        assert(name@.take(i as int).drop_last() =~= name@.take(i - 1));
        if name[i - 1] == '.' {
            if i == 1 {
                return None;
            }
            assert(name@.subrange(i as int, n as int) =~= name@.skip(i as int));
            return Some(text::slice_chars(name, i, n));
        }
        i = i - 1;
    }
    assert(name@.take(0) =~= Seq::<char>::empty());
    None
}

// --- Text exports ---

/// Whether `e` is, but for ASCII case, the extension of a text export.
pub open spec fn text_extension(e: Seq<char>) -> bool {
    let l = text::lowered(e);
    l == "md"@ || l == "markdown"@ || l == "txt"@ || l == "text"@
}

/// Whether a path is one that a text export may be written to.
pub open spec fn allowed_export(path: Seq<char>, os: TargetOs) -> bool {
    match file_name(path, os) {
        Some(n) => match extension(n) {
            Some(e) => text_extension(e),
            None => false,
        },
        None => false,
    }
}

/// Whether a path is one that a text export may be written to.
pub fn is_allowed_export_path(path: &str, os: TargetOs) -> (r: bool)
    ensures
        r == allowed_export(path@, os),
{
    let name: String = match file_name_of(path, os) {
        Some(n) => n,
        None => {
            return false;
        },
    };
    match extension_of(text::chars_of(name.as_str()).as_slice()) {
        Some(e) => {
            let l = text::string_of(text::lower_chars(e.as_slice()).as_slice());
            text::same_text(l.as_str(), "md") || text::same_text(l.as_str(), "markdown")
                || text::same_text(l.as_str(), "txt") || text::same_text(l.as_str(), "text")
        },
        None => false,
    }
}

/// Accepts a path that a text export may be written to.
pub fn check_export_path(path: &str, os: TargetOs) -> (r: Result<(), CommandError>)
    ensures
        r is Ok <==> allowed_export(path@, os),
        r matches Err(e) ==> e.invalid(
            "write_text_file only writes text exports (md/markdown/txt/text); refusing '"@ + path@
                + "'"@,
        ),
{
    if is_allowed_export_path(path, os) {
        return Ok(());
    }
    let mut message: String = text::joined(
        "write_text_file only writes text exports (md/markdown/txt/text); refusing '",
        path,
    );
    message.append("'");
    Err(CommandError::InvalidInput { message })
}

// --- Files of a session ---

/// Whether a file belongs to a session: its name begins with the session's id and a
/// dot, and ends, but for ASCII case, like a recording.
pub open spec fn session_file(name: Seq<char>, session_id: Seq<char>) -> bool {
    &&& text::begins(name, session_id.push('.'))
    &&& (text::ends(text::lowered(name), ".wav"@) || text::ends(text::lowered(name), ".mp3"@))
}

/// Whether a file belongs to a session.
pub fn is_session_file(name: &str, session_id: &str) -> (r: bool)
    ensures
        r == session_file(name@, session_id@),
{
    let chars = text::chars_of(name);
    let mut prefix = text::chars_of(session_id);
    prefix.push('.');
    if !text::begins_with(chars.as_slice(), prefix.as_slice()) {
        return false;
    }
    let lower = text::lower_chars(chars.as_slice());
    text::ends_with(lower.as_slice(), text::chars_of(".wav").as_slice()) || text::ends_with(
        lower.as_slice(),
        text::chars_of(".mp3").as_slice(),
    )
}

/// Why a file may not be deleted.
#[derive(Clone, Copy, Debug, PartialEq, Eq, Structural)]
pub enum DeleteRefusal {
    NotAbsolute,
    NoParent,
    Untrusted,
}

/// Whether a file may be deleted: its path is absolute and its directory is one that
/// recordings were written to. `parent_trusted` is none where the path has no parent.
pub fn refuse_delete(is_absolute: bool, parent_trusted: Option<bool>) -> (r: Option<DeleteRefusal>)
    ensures
        !is_absolute ==> r == Some(DeleteRefusal::NotAbsolute),
        is_absolute && parent_trusted is None ==> r == Some(DeleteRefusal::NoParent),
        is_absolute && parent_trusted == Some(false) ==> r == Some(DeleteRefusal::Untrusted),
        is_absolute && parent_trusted == Some(true) ==> r is None,
{
    if !is_absolute {
        return Some(DeleteRefusal::NotAbsolute);
    }
    match parent_trusted {
        None => Some(DeleteRefusal::NoParent),
        Some(false) => Some(DeleteRefusal::Untrusted),
        Some(true) => None,
    }
}

/// How a refusal is listed.
pub fn refusal_text(path: &str, refusal: DeleteRefusal) -> (r: String)
    ensures
        r@ == path@ + (match refusal {
            DeleteRefusal::NotAbsolute => " (not absolute)"@,
            DeleteRefusal::NoParent => " (no parent dir)"@,
            DeleteRefusal::Untrusted => " (outside trusted dirs)"@,
        }),
{
    text::joined(
        path,
        match refusal {
            DeleteRefusal::NotAbsolute => " (not absolute)",
            DeleteRefusal::NoParent => " (no parent dir)",
            DeleteRefusal::Untrusted => " (outside trusted dirs)",
        },
    )
}

/// What deleting a list of files reports: the failures, all of them, or nothing.
pub fn delete_report(failures: &Vec<String>) -> (r: Result<(), CommandError>)
    ensures
        r is Ok <==> failures@.len() == 0,
        r matches Err(e) ==> e.internal(
            "failed to delete "@ + text::decimal(failures@.len()) + " audio file(s): "@
                + text::listed(failures@, "; "@, failures@.len()),
        ),
{
    if failures.len() == 0 {
        return Ok(());
    }
    let mut message: String = text::joined(
        "failed to delete ",
        text::decimal_text(failures.len() as u64).as_str(),
    );
    message.append(" audio file(s): ");
    message.append(text::list(failures, "; ").as_str());
    Err(CommandError::Internal { message })
}

/// What deleting the files of a session without parts reports.
pub fn legacy_delete_report(failures: &Vec<String>, session_id: &str) -> (r: Result<
    (),
    CommandError,
>)
    ensures
        r is Ok <==> failures@.len() == 0,
        r matches Err(e) ==> e.internal(
            "failed to delete "@ + text::decimal(failures@.len())
                + " legacy audio file(s) for session "@ + session_id@ + ": "@ + text::listed(
                failures@,
                "; "@,
                failures@.len(),
            ),
        ),
{
    if failures.len() == 0 {
        return Ok(());
    }
    let mut message: String = text::joined(
        "failed to delete ",
        text::decimal_text(failures.len() as u64).as_str(),
    );
    message.append(" legacy audio file(s) for session ");
    message.append(session_id);
    message.append(": ");
    message.append(text::list(failures, "; ").as_str());
    Err(CommandError::Internal { message })
}

// --- What holds of names ---

/// Where paths are separated by slashes alone, the file name is what stands behind the
/// last one, and slashes at the end do not count.
pub proof fn law_file_name_is_behind_the_last_slash(
    dir: Seq<char>,
    name: Seq<char>,
    os: TargetOs,
)
    requires
        !(os is Windows),
        name.len() > 0,
        !name.contains('/'),
        name != seq!['.'],
        name != seq!['.', '.'],
    ensures
        file_name(name, os) == Some(name),
        file_name(dir + seq!['/'] + name, os) == Some(name),
        file_name(dir + seq!['/'] + name + seq!['/'], os) == Some(name),
{
    let seps = Separators::Slash;
    let path = dir + seq!['/'] + name;
    let slashed = path + seq!['/'];
    assert forall|k: int| 0 <= k < name.len() implies !seps.splits(#[trigger] name[k]) by {
        if name[k] == '/' {
            assert(name.contains('/'));
        }
    }
    lemma_last_named(name, 0, name);
    assert(name.skip(0) =~= name);
    lemma_last_named(path, dir.len() as int + 1, name);
    assert(slashed.drop_last() =~= path);
    assert(last_component(slashed, seps, false) == last_component(path, seps, false));
    lemma_body(name, os, name);
    lemma_body(path, os, name);
    lemma_body(slashed, os, name);
}

proof fn lemma_last_named(path: Seq<char>, from: int, name: Seq<char>)
    requires
        0 <= from,
        from + name.len() == path.len(),
        name.len() > 0,
        from == 0 || path[from - 1] == '/',
        forall|k: int| 0 <= k < name.len() ==> #[trigger] path[from + k] == name[k] && name[k] != '/',
        name != seq!['.'],
    ensures
        last_component(path, Separators::Slash, false) == name,
{
    let seps = Separators::Slash;
    assert forall|k: int| from <= k < path.len() implies !seps.splits(#[trigger] path[k]) by {
        assert(path[from + (k - from)] == name[k - from]);
    }
    lemma_last_segment(path, from, seps);
    assert forall|k: int| 0 <= k < name.len() implies path.skip(from)[k] == name[k] by {
        assert(path[from + k] == name[k]);
    }
    assert(path.skip(from) =~= name);
    assert(path.last() == path[from + (name.len() - 1)]);
}

/// The root that is taken off in front changes nothing about the last component.
proof fn lemma_body(path: Seq<char>, os: TargetOs, name: Seq<char>)
    requires
        !(os is Windows),
        name.len() > 0,
        last_component(path, Separators::Slash, false) == name,
    ensures
        last_component(body(path, os), Separators::Slash, false) == name,
{
    if root_written(path, os) {
        assert(path[0] == '/');
        lemma_last_without_root(path);
        assert(body(path, os) =~= path.drop_first());
    } else {
        assert(body(path, os) =~= path);
    }
}

proof fn lemma_last_without_root(path: Seq<char>)
    requires
        path.len() > 0,
        path[0] == '/',
    ensures
        last_component(path, Separators::Slash, false) == last_component(
            path.drop_first(),
            Separators::Slash,
            false,
        ),
        last_segment(path, Separators::Slash) == last_segment(
            path.drop_first(),
            Separators::Slash,
        ),
    decreases path.len(),
{
    let rest = path.drop_first();
    if path.len() == 1 {
        assert(path.drop_last() =~= Seq::<char>::empty());
        assert(rest =~= Seq::<char>::empty());
        assert(path.last() == '/');
        reveal_with_fuel(last_component, 2);
    } else {
        let init = path.drop_last();
        lemma_last_without_root(init);
        assert(init.drop_first() =~= rest.drop_last());
        assert(rest.last() == path.last());
    }
}

/// The extension is what stands behind the last dot, and only a dot that does not begin
/// the name counts.
pub proof fn law_extension_is_behind_the_last_dot(stem: Seq<char>, e: Seq<char>)
    requires
        !e.contains('.'),
    ensures
        stem.len() > 0 ==> extension(stem + seq!['.'] + e) == Some(e),
        extension(seq!['.'] + e) is None,
        extension(e) is None,
{
    let name = stem + seq!['.'] + e;
    lemma_dot_before(stem, e);
    lemma_dot_before(Seq::empty(), e);
    assert(Seq::<char>::empty() + seq!['.'] + e =~= seq!['.'] + e);
    assert(name.skip(stem.len() as int + 1) =~= e);
    lemma_no_dot(e);
}

proof fn lemma_dot_before(stem: Seq<char>, e: Seq<char>)
    requires
        !e.contains('.'),
    ensures
        last_dot(stem + seq!['.'] + e) == stem.len(),
    decreases e.len(),
{
    let name = stem + seq!['.'] + e;
    if e.len() == 0 {
        assert(name.last() == '.');
    } else {
        let init = e.drop_last();
        assert(e.last() != '.') by {
            assert(e.contains(e.last()) || e.last() != '.');
            if e.last() == '.' {
                assert(e[e.len() - 1] == '.');
            }
        }
        assert(!init.contains('.')) by {
            if init.contains('.') {
                let i = choose|i: int| 0 <= i < init.len() && init[i] == '.';
                assert(e[i] == '.');
            }
        }
        lemma_dot_before(stem, init);
        assert(name.drop_last() =~= stem + seq!['.'] + init);
        assert(name.last() == e.last());
    }
}

proof fn lemma_no_dot(e: Seq<char>)
    requires
        !e.contains('.'),
    ensures
        last_dot(e) == -1,
    decreases e.len(),
{
    if e.len() > 0 {
        let init = e.drop_last();
        if e.last() == '.' {
            assert(e[e.len() - 1] == '.');
        }
        if init.contains('.') {
            let i = choose|i: int| 0 <= i < init.len() && init[i] == '.';
            assert(e[i] == '.');
        }
        lemma_no_dot(init);
    }
}

/// A text export may be written under the extensions of text, in any case, and under no
/// other.
pub proof fn law_exports_are_text(
    dir: Seq<char>,
    stem: Seq<char>,
    e: Seq<char>,
    os: TargetOs,
)
    requires
        !(os is Windows),
        stem.len() > 0,
        !stem.contains('/'),
        !e.contains('/'),
        !e.contains('.'),
        e.len() > 0,
    ensures
        allowed_export(dir + seq!['/'] + (stem + seq!['.'] + e), os) <==> text::lowered(e)
            == "md"@ || text::lowered(e) == "markdown"@ || text::lowered(e) == "txt"@
            || text::lowered(e) == "text"@,
{
    let name = stem + seq!['.'] + e;
    assert(name.len() > 2 || (stem.len() == 1 && e.len() == 0));
    assert(!name.contains('/')) by {
        if name.contains('/') {
            let i = choose|i: int| 0 <= i < name.len() && name[i] == '/';
            if i < stem.len() {
                assert(stem[i] == '/');
            } else if i > stem.len() {
                assert(e[i - stem.len() - 1] == '/');
            }
        }
    }
    law_file_name_is_behind_the_last_slash(dir, name, os);
    law_extension_is_behind_the_last_dot(stem, e);
}

/// A recording of a session bears the session's id and a dot in front, and only such a
/// file is the session's: one of a session whose id goes on differently is not.
pub proof fn law_session_file_bears_the_id(session_id: Seq<char>, rest: Seq<char>, c: char)
    requires
        c != '.',
    ensures
        session_file(session_id + seq!['.'] + rest + ".wav"@, session_id),
        session_file(session_id + seq!['.'] + rest + ".mp3"@, session_id),
        !session_file(session_id + seq![c] + rest, session_id),
{
    let wav = session_id + seq!['.'] + rest + ".wav"@;
    let mp3 = session_id + seq!['.'] + rest + ".mp3"@;
    let other = session_id + seq![c] + rest;
    let prefix = session_id.push('.');
    reveal_strlit(".wav");
    reveal_strlit(".mp3");
    assert(wav.take(prefix.len() as int) =~= prefix);
    assert(mp3.take(prefix.len() as int) =~= prefix);
    assert(text::lowered(wav).skip(wav.len() - 4) =~= ".wav"@);
    assert(text::lowered(mp3).skip(mp3.len() - 4) =~= ".mp3"@);
    if text::begins(other, prefix) {
        assert(other.take(prefix.len() as int)[session_id.len() as int] == c);
        assert(prefix[session_id.len() as int] == '.');
    }
}

// --- What holds of whole paths ---

proof fn lemma_run_joined(x: Seq<char>, c: char, y: Seq<char>, seps: Separators)
    requires
        seps.splits(c),
    ensures
        run(x, seps) <= x.len(),
        run(x + seq![c] + y, seps) == run(x, seps),
    decreases x.len(),
{
    let all = x + seq![c] + y;
    if x.len() == 0 {
        assert(all[0] == c);
    } else {
        assert(all[0] == x[0]);
        assert(all.drop_first() =~= x.drop_first() + seq![c] + y);
        lemma_run_joined(x.drop_first(), c, y, seps);
    }
}

/// What a separator joins names what its two sides name, one after the other.
proof fn lemma_names_joined(x: Seq<char>, c: char, y: Seq<char>, seps: Separators, dots: bool)
    requires
        seps.splits(c),
    ensures
        names(x + seq![c] + y, seps, dots) == names(x, seps, dots) + names(y, seps, dots),
    decreases x.len(),
{
    let all = x + seq![c] + y;
    let r = run(x, seps) as int;
    lemma_run_joined(x, c, y, seps);
    assert(all.take(r) =~= x.take(r));
    if x.len() == 0 {
        assert(all.skip(1) =~= y);
        assert(names(x, seps, dots) + names(y, seps, dots) =~= names(y, seps, dots));
    } else if r < x.len() {
        let rest = behind_run(x, seps);
        assert(all.skip(r + 1) =~= rest + seq![c] + y);
        lemma_names_joined(rest, c, y, seps, dots);
        assert(names(all, seps, dots) =~= names(x, seps, dots) + names(y, seps, dots));
    } else {
        assert(all.skip(r + 1) =~= y);
        assert(behind_run(all, seps) == y);
        assert(behind_run(x, seps) =~= Seq::<char>::empty());
        assert(names(Seq::<char>::empty(), seps, dots) =~= Seq::<Seq<char>>::empty());
        let first = x.take(r);
        assert(first_segment(x, seps) == first && first_segment(all, seps) == first);
        if first.len() == 0 || (!dots && first == seq!['.']) {
            assert(names(x, seps, dots) =~= Seq::<Seq<char>>::empty());
        } else {
            assert(names(x, seps, dots) =~= seq![first]);
        }
        assert(names(all, seps, dots) =~= names(x, seps, dots) + names(y, seps, dots));
    }
}

proof fn lemma_one_name(name: Seq<char>, seps: Separators, dots: bool)
    requires
        name.len() > 0,
        forall|k: int| 0 <= k < name.len() ==> !seps.splits(#[trigger] name[k]),
        name != seq!['.'],
    ensures
        names(name, seps, dots) == seq![name],
        run(name, seps) == name.len(),
{
    lemma_whole_run(name, seps);
    assert(name.take(name.len() as int) =~= name);
    assert(behind_run(name, seps) =~= Seq::<char>::empty());
    assert(names(Seq::empty(), seps, dots) =~= Seq::<Seq<char>>::empty());
    assert(names(name, seps, dots) =~= seq![name]);
}

proof fn lemma_whole_run(name: Seq<char>, seps: Separators)
    requires
        forall|k: int| 0 <= k < name.len() ==> !seps.splits(#[trigger] name[k]),
    ensures
        run(name, seps) == name.len(),
    decreases name.len(),
{
    if name.len() > 0 {
        assert(!seps.splits(name[0]));
        assert forall|k: int| 0 <= k < name.len() - 1 implies !seps.splits(
            #[trigger] name.drop_first()[k],
        ) by {
            assert(name.drop_first()[k] == name[k + 1]);
        }
        lemma_whole_run(name.drop_first(), seps);
    }
}

/// Where slashes alone separate, a path is its components and whether it begins at the root.
proof fn lemma_slashed(path: Seq<char>, os: TargetOs)
    requires
        !(os is Windows),
    ensures
        prefix_kind(path, os) is Absent,
        separators(path, os) is Slash,
        !verbatim(path, os),
        rooted(path, os) <==> path.len() > 0 && path[0] == '/',
        names(body(path, os), Separators::Slash, false) == names(path, Separators::Slash, false),
        from_here(path, os) <==> !rooted(path, os) && first_segment(path, Separators::Slash)
            == seq!['.'],
{
    if path.len() > 0 && path[0] == '/' {
        assert(body(path, os) =~= path.skip(1));
        lemma_names_joined(Seq::empty(), '/', path.skip(1), Separators::Slash, false);
        assert(Seq::<char>::empty() + seq!['/'] + path.skip(1) =~= path);
        assert(names(Seq::empty(), Separators::Slash, false) =~= Seq::<Seq<char>>::empty());
        assert(Seq::<Seq<char>>::empty() + names(path.skip(1), Separators::Slash, false)
            =~= names(path.skip(1), Separators::Slash, false));
    } else {
        assert(body(path, os) =~= path);
    }
}

/// Where slashes alone separate, one more slash between two components, one at the end, and
/// a single dot between them make no other path.
pub proof fn law_same_path_whatever_separates(dir: Seq<char>, rest: Seq<char>, os: TargetOs)
    requires
        !(os is Windows),
        dir.len() > 0,
    ensures
        same_path(dir, dir, os),
        same_path(dir, dir + seq!['/'], os),
        same_path(dir + seq!['/'] + rest, dir + seq!['/'] + (seq!['/'] + rest), os),
        same_path(dir + seq!['/'] + rest, dir + seq!['/'] + (seq!['.', '/'] + rest), os),
{
    let seps = Separators::Slash;
    let ended = dir + seq!['/'] + Seq::empty();
    let one = dir + seq!['/'] + rest;
    let two = dir + seq!['/'] + (seq!['/'] + rest);
    let dotted = dir + seq!['/'] + (seq!['.', '/'] + rest);
    assert(dir + seq!['/'] =~= ended);
    lemma_slashed(dir, os);
    lemma_slashed(ended, os);
    lemma_slashed(one, os);
    lemma_slashed(two, os);
    lemma_slashed(dotted, os);
    lemma_run_joined(dir, '/', Seq::empty(), seps);
    lemma_run_joined(dir, '/', rest, seps);
    lemma_run_joined(dir, '/', seq!['/'] + rest, seps);
    lemma_run_joined(dir, '/', seq!['.', '/'] + rest, seps);
    let r = run(dir, seps) as int;
    assert(ended.take(r) =~= dir.take(r));
    assert(one.take(r) =~= dir.take(r));
    assert(two.take(r) =~= dir.take(r));
    assert(dotted.take(r) =~= dir.take(r));
    assert(ended[0] == dir[0] && one[0] == dir[0] && two[0] == dir[0] && dotted[0] == dir[0]);
    lemma_names_joined(dir, '/', Seq::empty(), seps, false);
    lemma_names_joined(dir, '/', rest, seps, false);
    lemma_names_joined(dir, '/', seq!['/'] + rest, seps, false);
    lemma_names_joined(dir, '/', seq!['.', '/'] + rest, seps, false);
    let none = Seq::<Seq<char>>::empty();
    assert(names(Seq::empty(), seps, false) =~= none);
    assert(names(dir, seps, false) + none =~= names(dir, seps, false));
    lemma_names_joined(Seq::empty(), '/', rest, seps, false);
    assert(Seq::<char>::empty() + seq!['/'] + rest =~= seq!['/'] + rest);
    assert(none + names(rest, seps, false) =~= names(rest, seps, false));
    lemma_names_joined(seq!['.'], '/', rest, seps, false);
    assert(seq!['.'] + seq!['/'] + rest =~= seq!['.', '/'] + rest);
    let dot = seq!['.'];
    assert(dot.drop_first() =~= Seq::<char>::empty());
    assert(run(dot.drop_first(), seps) == 0);
    assert(!seps.splits(dot[0]));
    assert(run(dot, seps) == 1);
    assert(dot.take(1) =~= dot);
    assert(names(dot, seps, false) =~= none);
}

/// Where slashes alone separate, a path with another component in one place is another, and
/// so is one that begins at the root where the other does not, or with a single dot.
pub proof fn law_other_component_is_other_path(
    dir: Seq<char>,
    a: Seq<char>,
    b: Seq<char>,
    rest: Seq<char>,
    os: TargetOs,
)
    requires
        !(os is Windows),
        a.len() > 0 && b.len() > 0,
        a != b && a != seq!['.'] && b != seq!['.'],
        forall|k: int| 0 <= k < a.len() ==> #[trigger] a[k] != '/',
        forall|k: int| 0 <= k < b.len() ==> #[trigger] b[k] != '/',
    ensures
        !same_path(
            dir + seq!['/'] + (a + seq!['/'] + rest),
            dir + seq!['/'] + (b + seq!['/'] + rest),
            os,
        ),
        !same_path(a, b, os),
        !same_path(a, seq!['/'] + a, os),
        !same_path(a, seq!['.', '/'] + a, os),
{
    let seps = Separators::Slash;
    let p = dir + seq!['/'] + (a + seq!['/'] + rest);
    let q = dir + seq!['/'] + (b + seq!['/'] + rest);
    lemma_slashed(p, os);
    lemma_slashed(q, os);
    lemma_slashed(a, os);
    lemma_slashed(b, os);
    lemma_slashed(seq!['/'] + a, os);
    lemma_slashed(seq!['.', '/'] + a, os);
    lemma_names_joined(dir, '/', a + seq!['/'] + rest, seps, false);
    lemma_names_joined(dir, '/', b + seq!['/'] + rest, seps, false);
    lemma_names_joined(a, '/', rest, seps, false);
    lemma_names_joined(b, '/', rest, seps, false);
    lemma_one_name(a, seps, false);
    lemma_one_name(b, seps, false);
    let before = names(dir, seps, false);
    let n = before.len() as int;
    assert(names(p, seps, false)[n] == a);
    assert(names(q, seps, false)[n] == b);
    assert(names(a, seps, false)[0] == a);
    assert(names(b, seps, false)[0] == b);
    assert(a[0] != '/');
    assert((seq!['/'] + a)[0] == '/');
    lemma_run_joined(seq!['.'], '/', a, seps);
    let dot = seq!['.'];
    assert(dot + seq!['/'] + a =~= seq!['.', '/'] + a);
    assert(dot.drop_first() =~= Seq::<char>::empty());
    assert(run(dot.drop_first(), seps) == 0);
    assert(!seps.splits(dot[0]));
    assert(run(dot, seps) == 1);
    assert((seq!['.', '/'] + a).take(1) =~= dot);
    assert((seq!['.', '/'] + a)[0] == '.');
    assert(a.take(a.len() as int) =~= a);
}

/// On Windows a slash and a backslash separate alike, and the letter of a drive is the same
/// in either case; another letter, another component, and a path that does not begin at the
/// root of its drive make another path.
pub proof fn law_drive_path_goes_by_components(
    letters: (char, char),
    s: (char, char),
    dir: Seq<char>,
    a: Seq<char>,
    b: Seq<char>,
    os: TargetOs,
)
    requires
        os is Windows,
        ('a' <= letters.0 && letters.0 <= 'z') || ('A' <= letters.0 && letters.0 <= 'Z'),
        ('a' <= letters.1 && letters.1 <= 'z') || ('A' <= letters.1 && letters.1 <= 'Z'),
        (s.0 == '/' || s.0 == '\\') && (s.1 == '/' || s.1 == '\\'),
        a.len() > 0 && b.len() > 0,
        a != seq!['.'] && b != seq!['.'],
        forall|k: int| 0 <= k < a.len() ==> #[trigger] a[k] != '/' && a[k] != '\\',
        forall|k: int| 0 <= k < b.len() ==> #[trigger] b[k] != '/' && b[k] != '\\',
    ensures
        same_path(
            seq![letters.0, ':', s.0] + (dir + seq![s.0] + a),
            seq![letters.1, ':', s.1] + (dir + seq![s.1] + b),
            os,
        ) <==> a == b && text::ascii_lower(letters.0) == text::ascii_lower(letters.1),
        !same_path(seq![letters.0, ':', s.0] + a, seq![letters.0, ':'] + a, os),
{
    let seps = Separators::Both;
    let p = seq![letters.0, ':', s.0] + (dir + seq![s.0] + a);
    let q = seq![letters.1, ':', s.1] + (dir + seq![s.1] + b);
    assert(p[0] == letters.0 && p[1] == ':' && p[2] == s.0);
    assert(q[0] == letters.1 && q[1] == ':' && q[2] == s.1);
    assert(prefix_kind(p, os) is Drive && prefix_kind(q, os) is Drive);
    assert(body(p, os) =~= dir + seq![s.0] + a);
    assert(body(q, os) =~= dir + seq![s.1] + b);
    lemma_names_joined(dir, s.0, a, seps, false);
    lemma_names_joined(dir, s.1, b, seps, false);
    lemma_one_name(a, seps, false);
    lemma_one_name(b, seps, false);
    let n = names(dir, seps, false).len() as int;
    assert(names(body(p, os), seps, false)[n] == a);
    assert(names(body(q, os), seps, false)[n] == b);
    let x = text::lowered(p.take(1));
    let y = text::lowered(q.take(1));
    assert(x[0] == text::ascii_lower(letters.0));
    assert(y[0] == text::ascii_lower(letters.1));
    if text::ascii_lower(letters.0) == text::ascii_lower(letters.1) {
        assert(x =~= y);
    }
    let u = seq![letters.0, ':', s.0] + a;
    let v = seq![letters.0, ':'] + a;
    assert(u[0] == letters.0 && u[1] == ':' && u[2] == s.0);
    assert(v[0] == letters.0 && v[1] == ':' && v[2] == a[0]);
    assert(prefix_kind(u, os) is Drive && prefix_kind(v, os) is Drive);
    assert(root_written(u, os) && !root_written(v, os));
}

} // verus!
