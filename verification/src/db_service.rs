//! The database service: which migrations still run and how one is applied, when
//! queries are let through, which reader serves, and how values cross over.

use vstd::prelude::*;
use vstd::utf8::*;

use crate::migrations::Migration;
use crate::single::Double;
use crate::text;

verus! {

/// How many connections serve reads.
pub const READER_COUNT: usize = 4;

/// The reply while the file of the database is being exchanged.
pub const SWAP_IN_PROGRESS: &'static str = "DB_SWAP_IN_PROGRESS: the database is briefly unavailable while sync is being enabled; retry shortly";

/// The table in which applied migrations are kept.
pub const MIGRATIONS_TABLE_SQL: &'static str = r#"
    CREATE TABLE IF NOT EXISTS _sqlx_migrations (
        version BIGINT PRIMARY KEY,
        description TEXT NOT NULL,
        installed_on TIMESTAMP NOT NULL DEFAULT CURRENT_TIMESTAMP,
        success BOOLEAN NOT NULL,
        checksum BLOB NOT NULL,
        execution_time BIGINT NOT NULL
    );
"#;

/// The statement that keeps an applied migration.
pub const RECORD_MIGRATION_SQL: &'static str = r#"
    INSERT INTO _sqlx_migrations
        (version, description, success, checksum, execution_time)
    VALUES (?, ?, 1, ?, ?)
"#;

/// The reply to a statement that writes.
#[derive(Clone, Copy, Debug, PartialEq, Eq, Structural)]
pub struct DbExecuteResult {
    pub rows_affected: u64,
    pub last_insert_id: i64,
}

// --- Which migrations run ---

/// The migrations among the first `n` whose version is not among the applied ones, in
/// their order.
pub open spec fn pending(all: Seq<Migration>, applied: Seq<i64>, n: nat) -> Seq<Migration>
    decreases n,
{
    if n == 0 {
        Seq::empty()
    } else {
        let before = pending(all, applied, (n - 1) as nat);
        if applied.contains(all[n - 1].version) {
            before
        } else {
            before.push(all[n - 1])
        }
    }
}

fn is_applied(applied: &Vec<i64>, version: i64) -> (r: bool)
    ensures
        r == applied@.contains(version),
{
    let mut i: usize = 0;
    while i < applied.len()
        invariant
            i <= applied@.len(),
            forall|k: int| 0 <= k < i ==> applied@[k] != version,
        decreases applied@.len() - i,
    {
        if applied[i] == version {
            return true;
        }
        i = i + 1;
    }
    false
}

/// The migrations that still run, in their order: those whose version is not kept as
/// applied.
pub fn pending_migrations(all: &Vec<Migration>, applied: &Vec<i64>) -> (r: Vec<Migration>)
    ensures
        r@ == pending(all@, applied@, all@.len()),
{
    let mut out: Vec<Migration> = Vec::new();
    let mut i: usize = 0;
    while i < all.len()
        invariant
            i <= all@.len(),
            out@ == pending(all@, applied@, i as nat),
        decreases all@.len() - i,
    {
        if !is_applied(applied, all[i].version) {
            out.push(all[i]);
        }
        i = i + 1;
    }
    out
}

/// The versions among the first `n` whose application went well, in their order.
pub open spec fn succeeded(run: Seq<Migration>, outcomes: Seq<bool>, n: nat) -> Seq<i64>
    decreases n,
{
    if n == 0 {
        Seq::empty()
    } else {
        let before = succeeded(run, outcomes, (n - 1) as nat);
        if outcomes[n - 1] {
            before.push(run[n - 1].version)
        } else {
            before
        }
    }
}

/// The versions that a run applied. One that fails is skipped, and the run goes on.
pub fn run_migrations_list(run: &Vec<Migration>, outcomes: &Vec<bool>) -> (r: Vec<i64>)
    requires
        run@.len() == outcomes@.len(),
    ensures
        r@ == succeeded(run@, outcomes@, run@.len()),
{
    let mut out: Vec<i64> = Vec::new();
    let mut i: usize = 0;
    while i < run.len()
        invariant
            i <= run@.len() == outcomes@.len(),
            out@ == succeeded(run@, outcomes@, i as nat),
        decreases run@.len() - i,
    {
        if outcomes[i] {
            out.push(run[i].version);
        }
        i = i + 1;
    }
    out
}

/// A run over migrations that are all kept as applied has nothing to do. In particular
/// a second run has none after a first that applied them all.
pub proof fn law_second_run_is_empty(all: Seq<Migration>, applied: Seq<i64>, n: nat)
    requires
        n <= all.len(),
        forall|i: int| 0 <= i < all.len() ==> applied.contains((#[trigger] all[i]).version),
    ensures
        pending(all, applied, n) == Seq::<Migration>::empty(),
    decreases n,
{
    if n > 0 {
        law_second_run_is_empty(all, applied, (n - 1) as nat);
        assert(applied.contains(all[n - 1].version));
    }
}

/// No migration whose version is kept as applied runs, and every other one does.
pub proof fn law_pending_is_exact(all: Seq<Migration>, applied: Seq<i64>, n: nat)
    requires
        n <= all.len(),
    ensures
        forall|i: int|
            0 <= i < pending(all, applied, n).len() ==> !applied.contains(
                (#[trigger] pending(all, applied, n)[i]).version,
            ),
        forall|i: int|
            0 <= i < n && !applied.contains((#[trigger] all[i]).version) ==> pending(
                all,
                applied,
                n,
            ).contains(all[i]),
    decreases n,
{
    if n > 0 {
        law_pending_is_exact(all, applied, (n - 1) as nat);
        let before = pending(all, applied, (n - 1) as nat);
        let now = pending(all, applied, n);
        assert forall|i: int|
            0 <= i < n && !applied.contains((#[trigger] all[i]).version) implies now.contains(
            all[i],
        ) by {
            if i == n - 1 {
                assert(now[now.len() - 1] == all[i]);
            } else {
                let k = choose|k: int| 0 <= k < before.len() && before[k] == all[i];
                assert(now[k] == all[i]);
            }
        }
    }
}

/// On a fresh database every migration runs, in its order.
pub proof fn law_fresh_database_runs_all(all: Seq<Migration>, n: nat)
    requires
        n <= all.len(),
    ensures
        pending(all, Seq::empty(), n) == all.take(n as int),
    decreases n,
{
    if n > 0 {
        law_fresh_database_runs_all(all, (n - 1) as nat);
        assert(all.take(n as int) =~= all.take(n - 1).push(all[n - 1]));
    } else {
        assert(all.take(0) =~= Seq::<Migration>::empty());
    }
}

proof fn lemma_succeeded(run: Seq<Migration>, outcomes: Seq<bool>, n: nat)
    requires
        n <= run.len() == outcomes.len(),
    ensures
        forall|k: int|
            0 <= k < n && outcomes[k] ==> succeeded(run, outcomes, n).contains(
                (#[trigger] run[k]).version,
            ),
        forall|v: i64| #[trigger]
            succeeded(run, outcomes, n).contains(v) ==> exists|k: int|
                0 <= k < n && outcomes[k] && (#[trigger] run[k]).version == v,
    decreases n,
{
    if n > 0 {
        lemma_succeeded(run, outcomes, (n - 1) as nat);
        let before = succeeded(run, outcomes, (n - 1) as nat);
        let now = succeeded(run, outcomes, n);
        assert forall|k: int| 0 <= k < n && outcomes[k] implies now.contains(
            (#[trigger] run[k]).version,
        ) by {
            if k == n - 1 {
                assert(now[now.len() - 1] == run[k].version);
            } else {
                let i = choose|i: int| 0 <= i < before.len() && before[i] == run[k].version;
                assert(now[i] == run[k].version);
            }
        }
        assert forall|v: i64| #[trigger] now.contains(v) implies exists|k: int|
            0 <= k < n && outcomes[k] && (#[trigger] run[k]).version == v by {
            let i = choose|i: int| 0 <= i < now.len() && now[i] == v;
            if i < before.len() {
                assert(before[i] == v);
                assert(before.contains(v));
            } else {
                assert(run[n - 1].version == v);
            }
        }
    }
}

proof fn lemma_pending_from(all: Seq<Migration>, applied: Seq<i64>, n: nat, i: int)
    requires
        n <= all.len(),
        0 <= i < pending(all, applied, n).len(),
    ensures
        exists|j: int| 0 <= j < n && #[trigger] all[j] == pending(all, applied, n)[i],
    decreases n,
{
    if n > 0 {
        let before = pending(all, applied, (n - 1) as nat);
        if i < before.len() {
            lemma_pending_from(all, applied, (n - 1) as nat, i);
        } else {
            assert(all[n - 1] == pending(all, applied, n)[i]);
        }
    }
}

proof fn lemma_pending_apart(all: Seq<Migration>, applied: Seq<i64>, n: nat, a: int, b: int)
    requires
        n <= all.len(),
        forall|i: int, j: int|
            0 <= i < j < all.len() ==> (#[trigger] all[i]).version != (#[trigger] all[j]).version,
        0 <= a < pending(all, applied, n).len(),
        0 <= b < pending(all, applied, n).len(),
        a != b,
    ensures
        pending(all, applied, n)[a].version != pending(all, applied, n)[b].version,
    decreases n,
{
    let before = pending(all, applied, (n - 1) as nat);
    if a < before.len() && b < before.len() {
        lemma_pending_apart(all, applied, (n - 1) as nat, a, b);
    } else if a < before.len() {
        lemma_pending_from(all, applied, (n - 1) as nat, a);
    } else {
        lemma_pending_from(all, applied, (n - 1) as nat, b);
    }
}

/// A further run takes up exactly the migrations that failed in the run before, and no
/// other.
pub proof fn law_rerun_is_what_failed(all: Seq<Migration>, applied: Seq<i64>, outcomes: Seq<bool>)
    requires
        forall|i: int, j: int|
            0 <= i < j < all.len() ==> (#[trigger] all[i]).version != (#[trigger] all[j]).version,
        outcomes.len() == pending(all, applied, all.len()).len(),
    ensures
        ({
            let run = pending(all, applied, all.len());
            let kept = applied + succeeded(run, outcomes, run.len());
            let rerun = pending(all, kept, all.len());
            &&& forall|i: int|
                0 <= i < rerun.len() ==> exists|k: int|
                    0 <= k < run.len() && !outcomes[k] && #[trigger] run[k] == #[trigger] rerun[i]
            &&& forall|k: int|
                0 <= k < run.len() && !outcomes[k] ==> rerun.contains(#[trigger] run[k])
        }),
{
    let n = all.len();
    let run = pending(all, applied, n);
    let good = succeeded(run, outcomes, run.len());
    let kept = applied + good;
    let rerun = pending(all, kept, n);
    law_pending_is_exact(all, applied, n);
    law_pending_is_exact(all, kept, n);
    lemma_succeeded(run, outcomes, run.len());
    assert forall|i: int| 0 <= i < rerun.len() implies exists|k: int|
        0 <= k < run.len() && !outcomes[k] && #[trigger] run[k] == #[trigger] rerun[i] by {
        lemma_pending_from(all, kept, n, i);
        let j = choose|j: int| 0 <= j < n && #[trigger] all[j] == rerun[i];
        let v = all[j].version;
        if applied.contains(v) {
            let a = choose|a: int| 0 <= a < applied.len() && applied[a] == v;
            assert(kept[a] == v);
        }
        assert(run.contains(all[j]));
        let k = choose|k: int| 0 <= k < run.len() && run[k] == all[j];
        if outcomes[k] {
            assert(good.contains(run[k].version));
            let g = choose|g: int| 0 <= g < good.len() && good[g] == v;
            assert(kept[applied.len() + g] == v);
        }
        assert(run[k] == rerun[i]);
    }
    assert forall|k: int| 0 <= k < run.len() && !outcomes[k] implies rerun.contains(
        #[trigger] run[k],
    ) by {
        lemma_pending_from(all, applied, n, k);
        let j = choose|j: int| 0 <= j < n && #[trigger] all[j] == run[k];
        let v = all[j].version;
        assert(!applied.contains(v));
        if kept.contains(v) {
            let q = choose|q: int| 0 <= q < kept.len() && kept[q] == v;
            if q < applied.len() {
                assert(applied[q] == v);
            } else {
                assert(good[q - applied.len()] == v);
                assert(good.contains(v));
                let other = choose|o: int|
                    0 <= o < run.len() && outcomes[o] && (#[trigger] run[o]).version == v;
                lemma_pending_apart(all, applied, n, other, k);
            }
        }
    }
}

// --- How one migration is applied ---

/// Whether `c` quotes a name.
pub open spec fn quote(c: char) -> bool {
    c == '"' || c == '`' || c == '[' || c == ']' || c == '\''
}

/// `s` without leading quotes.
pub open spec fn unquoted_start(s: Seq<char>) -> Seq<char>
    decreases s.len(),
{
    if s.len() > 0 && quote(s[0]) {
        unquoted_start(s.drop_first())
    } else {
        s
    }
}

/// `s` without trailing quotes.
pub open spec fn unquoted_end(s: Seq<char>) -> Seq<char>
    decreases s.len(),
{
    if s.len() > 0 && quote(s.last()) {
        unquoted_end(s.drop_last())
    } else {
        s
    }
}

/// `s` without trailing semicolons.
pub open spec fn without_semicolons(s: Seq<char>) -> Seq<char>
    decreases s.len(),
{
    if s.len() > 0 && s.last() == ';' {
        without_semicolons(s.drop_last())
    } else {
        s
    }
}

/// How many characters lead up to the first white space.
pub open spec fn word_end(s: Seq<char>) -> nat
    decreases s.len(),
{
    if s.len() == 0 || text::white(s[0]) {
        0
    } else {
        1 + word_end(s.drop_first())
    }
}

/// The first word of `s` and what follows it.
pub open spec fn first_word(s: Seq<char>) -> Option<(Seq<char>, Seq<char>)> {
    let t = text::trimmed_start(s);
    if t.len() == 0 {
        None
    } else {
        Some((t.take(word_end(t) as int), t.skip(word_end(t) as int)))
    }
}

/// What follows the first word, where that is `word` in any case.
pub open spec fn behind_word(s: Seq<char>, word: Seq<char>) -> Option<Seq<char>> {
    match first_word(s) {
        Some(w) => if text::lowered(w.0) == word {
            Some(w.1)
        } else {
            None
        },
        None => None,
    }
}

/// The table that `sql` alters, where it is a single such statement.
pub open spec fn altered_table(sql: Seq<char>) -> Option<Seq<char>> {
    let t = text::trimmed(without_semicolons(text::trimmed(sql)));
    if t.contains(';') {
        None
    } else {
        match behind_word(t, "alter"@) {
            Some(a) => match behind_word(a, "table"@) {
                Some(b) => match first_word(b) {
                    Some(w) => {
                        let name = unquoted_end(unquoted_start(w.0));
                        if name.len() == 0 {
                            None
                        } else {
                            Some(name)
                        }
                    },
                    None => None,
                },
                None => None,
            },
            None => None,
        }
    }
}

proof fn lemma_word_end(s: Seq<char>, n: int)
    requires
        0 <= n <= s.len(),
        forall|k: int| 0 <= k < n ==> !text::white(#[trigger] s[k]),
        n < s.len() ==> text::white(s[n]),
    ensures
        word_end(s) == n,
    decreases n,
{
    if n > 0 {
        assert(!text::white(s[0]));
        assert forall|k: int| 0 <= k < n - 1 implies !text::white(
            #[trigger] s.drop_first()[k],
        ) by {
            assert(s.drop_first()[k] == s[k + 1]);
        }
        lemma_word_end(s.drop_first(), n - 1);
    }
}

fn split_word(s: &[char]) -> (r: Option<(Vec<char>, Vec<char>)>)
    ensures
        match r {
            Some(p) => first_word(s@) == Some((p.0@, p.1@)),
            None => first_word(s@) is None,
        },
{
    let n: usize = s.len();
    let mut from: usize = 0;
    assert(s@.skip(0) =~= s@);
    while from < n && text::is_white(s[from])
        invariant
            from <= n == s@.len(),
            text::trimmed_start(s@) == text::trimmed_start(s@.skip(from as int)),
        decreases n - from,
    {
        assert(s@.skip(from as int).drop_first() =~= s@.skip(from + 1));
        from = from + 1;
    }
    let ghost t = s@.skip(from as int);
    assert(text::trimmed_start(s@) == t);
    if from == n {
        return None;
    }
    let mut to: usize = from;
    while to < n && !text::is_white(s[to])
        invariant
            from <= to <= n == s@.len(),
            t == s@.skip(from as int),
            forall|k: int| 0 <= k < to - from ==> !text::white(#[trigger] t[k]),
        decreases n - to,
    {
        assert(t[to - from] == s@[to as int]);
        to = to + 1;
    }
    proof {
        if to < n {
            assert(t[to - from] == s@[to as int]);
        }
        lemma_word_end(t, to - from);
    }
    let word = text::slice_chars(s, from, to);
    assert(word@ =~= t.take(to - from));
    let rest = text::slice_chars(s, to, n);
    assert(rest@ =~= t.skip(to - from));
    Some((word, rest))
}

fn skip_word(s: &[char], word: &str) -> (r: Option<Vec<char>>)
    ensures
        match r {
            Some(rest) => behind_word(s@, word@) == Some(rest@),
            None => behind_word(s@, word@) is None,
        },
{
    match split_word(s) {
        Some((w, rest)) => {
            let low = text::lower_chars(w.as_slice());
            if text::same_chars(low.as_slice(), text::chars_of(word).as_slice()) {
                Some(rest)
            } else {
                None
            }
        },
        None => None,
    }
}

fn is_quote(c: char) -> (r: bool)
    ensures
        r == quote(c),
{
    c == '"' || c == '`' || c == '[' || c == ']' || c == '\''
}

fn unquote(s: &[char]) -> (r: Vec<char>)
    ensures
        r@ == unquoted_end(unquoted_start(s@)),
{
    let n: usize = s.len();
    let mut from: usize = 0;
    assert(s@.skip(0) =~= s@);
    while from < n && is_quote(s[from])
        invariant
            from <= n == s@.len(),
            unquoted_start(s@) == unquoted_start(s@.skip(from as int)),
        decreases n - from,
    {
        assert(s@.skip(from as int).drop_first() =~= s@.skip(from + 1));
        from = from + 1;
    }
    let ghost t = s@.skip(from as int);
    let mut to: usize = n;
    assert(s@.subrange(from as int, n as int) =~= t);
    while to > from && is_quote(s[to - 1])
        invariant
            from <= to <= n == s@.len(),
            unquoted_end(t) == unquoted_end(s@.subrange(from as int, to as int)),
        decreases to,
    {
        assert(s@.subrange(from as int, to as int).drop_last() =~= s@.subrange(
            from as int,
            to - 1,
        ));
        to = to - 1;
    }
    text::slice_chars(s, from, to)
}

fn drop_semicolons(s: &[char]) -> (r: Vec<char>)
    ensures
        r@ == without_semicolons(s@),
{
    let mut to: usize = s.len();
    assert(s@.take(to as int) =~= s@);
    while to > 0 && s[to - 1] == ';'
        invariant
            to <= s@.len(),
            without_semicolons(s@) == without_semicolons(s@.take(to as int)),
        decreases to,
    {
        assert(s@.take(to as int).drop_last() =~= s@.take(to - 1));
        to = to - 1;
    }
    let r = text::slice_chars(s, 0, to);
    assert(r@ =~= s@.take(to as int));
    r
}

/// The table that `sql` alters, where it is exactly one such statement.
pub fn parse_single_alter_table(sql: &str) -> (r: Option<String>)
    ensures
        match r {
            Some(t) => altered_table(sql@) == Some(t@),
            None => altered_table(sql@) is None,
        },
{
    let once = text::trim_chars(text::chars_of(sql).as_slice());
    let bare = text::trim_chars(drop_semicolons(once.as_slice()).as_slice());
    if text::contains_char(bare.as_slice(), ';') {
        return None;
    }
    let behind_alter = match skip_word(bare.as_slice(), "alter") {
        Some(rest) => rest,
        None => return None,
    };
    let behind_table = match skip_word(behind_alter.as_slice(), "table") {
        Some(rest) => rest,
        None => return None,
    };
    let (word, _rest) = match split_word(behind_table.as_slice()) {
        Some(p) => p,
        None => return None,
    };
    let name = unquote(word.as_slice());
    if name.len() == 0 {
        None
    } else {
        Some(text::string_of(name.as_slice()))
    }
}

/// The replicated table that a migration alters through the replication layer: the
/// database is prepared for replication, and the migration is a single alteration of
/// one of its tables.
pub open spec fn alter_target(crr_prepared: bool, sql: Seq<char>, sync_tables: Seq<String>) -> Option<
    Seq<char>,
> {
    match altered_table(sql) {
        Some(t) => if crr_prepared && exists|i: int|
            0 <= i < sync_tables.len() && (#[trigger] sync_tables[i])@ == t {
            Some(t)
        } else {
            None
        },
        None => None,
    }
}

/// The replicated table that a migration alters through the replication layer.
pub fn crr_alter_target(crr_prepared: bool, sql: &str, sync_tables: &Vec<String>) -> (r: Option<
    String,
>)
    ensures
        match r {
            Some(t) => alter_target(crr_prepared, sql@, sync_tables@) == Some(t@),
            None => alter_target(crr_prepared, sql@, sync_tables@) is None,
        },
        r matches Some(t) ==> crr_prepared && altered_table(sql@) == Some(t@) && exists|i: int|
            0 <= i < sync_tables@.len() && (#[trigger] sync_tables@[i])@ == t@,
        r is None && crr_prepared && altered_table(sql@) is Some ==> forall|i: int|
            0 <= i < sync_tables@.len() ==> altered_table(sql@) != Some(
                (#[trigger] sync_tables@[i])@,
            ),
{
    if !crr_prepared {
        return None;
    }
    let table = match parse_single_alter_table(sql) {
        Some(t) => t,
        None => return None,
    };
    let mut i: usize = 0;
    while i < sync_tables.len()
        invariant
            crr_prepared,
            i <= sync_tables@.len(),
            altered_table(sql@) == Some(table@),
            forall|k: int| 0 <= k < i ==> (#[trigger] sync_tables@[k])@ != table@,
        decreases sync_tables@.len() - i,
    {
        if text::same_text(sync_tables[i].as_str(), table.as_str()) {
            return Some(table);
        }
        i = i + 1;
    }
    None
}

/// What is done next for one migration.
#[derive(Clone, Copy, Debug, PartialEq, Eq, Structural)]
pub enum ApplyStep {
    /// Open a transaction.
    Begin,
    /// Run the statements of the migration.
    Execute,
    /// Keep the migration as applied, inside the transaction.
    Record,
    /// Close the transaction.
    Commit,
    /// Undo the transaction.
    Rollback,
    /// Alter the table through the replication layer, which has its own transaction.
    Alter,
    /// Keep the altering migration as applied.
    RecordAlter,
    /// The migration is applied and kept.
    Applied,
    /// The migration failed.
    Failed,
}

/// The step that follows, by how the last one went.
pub open spec fn step_after(step: ApplyStep, ok: bool) -> ApplyStep {
    match step {
        ApplyStep::Begin => if ok {
            ApplyStep::Execute
        } else {
            ApplyStep::Failed
        },
        ApplyStep::Execute => if ok {
            ApplyStep::Record
        } else {
            ApplyStep::Rollback
        },
        ApplyStep::Record => if ok {
            ApplyStep::Commit
        } else {
            ApplyStep::Rollback
        },
        ApplyStep::Commit => if ok {
            ApplyStep::Applied
        } else {
            ApplyStep::Failed
        },
        ApplyStep::Alter => if ok {
            ApplyStep::RecordAlter
        } else {
            ApplyStep::Failed
        },
        ApplyStep::RecordAlter => if ok {
            ApplyStep::Applied
        } else {
            ApplyStep::Failed
        },
        ApplyStep::Rollback => ApplyStep::Failed,
        ApplyStep::Applied => ApplyStep::Applied,
        ApplyStep::Failed => ApplyStep::Failed,
    }
}

impl ApplyStep {
    /// The first step of a migration.
    pub fn first(through_replication: bool) -> (r: ApplyStep)
        ensures
            r == (if through_replication {
                ApplyStep::Alter
            } else {
                ApplyStep::Begin
            }),
    {
        if through_replication {
            ApplyStep::Alter
        } else {
            ApplyStep::Begin
        }
    }

    /// The step that follows, by how this one went.
    pub fn next(self, ok: bool) -> (r: ApplyStep)
        ensures
            r == step_after(self, ok),
    {
        match self {
            ApplyStep::Begin => if ok {
                ApplyStep::Execute
            } else {
                ApplyStep::Failed
            },
            ApplyStep::Execute => if ok {
                ApplyStep::Record
            } else {
                ApplyStep::Rollback
            },
            ApplyStep::Record => if ok {
                ApplyStep::Commit
            } else {
                ApplyStep::Rollback
            },
            ApplyStep::Commit => if ok {
                ApplyStep::Applied
            } else {
                ApplyStep::Failed
            },
            ApplyStep::Alter => if ok {
                ApplyStep::RecordAlter
            } else {
                ApplyStep::Failed
            },
            ApplyStep::RecordAlter => if ok {
                ApplyStep::Applied
            } else {
                ApplyStep::Failed
            },
            ApplyStep::Rollback => ApplyStep::Failed,
            ApplyStep::Applied => ApplyStep::Applied,
            ApplyStep::Failed => ApplyStep::Failed,
        }
    }
}

/// The step reached after the given outcomes.
pub open spec fn step_reached(first: ApplyStep, outcomes: Seq<bool>) -> ApplyStep
    decreases outcomes.len(),
{
    if outcomes.len() == 0 {
        first
    } else {
        step_after(step_reached(first, outcomes.drop_last()), outcomes.last())
    }
}

/// A migration counts as applied only where its statements and its record both went
/// well, and a statement that fails inside the transaction leads to a rollback.
pub proof fn law_applied_means_recorded(a: bool, b: bool, c: bool, d: bool)
    ensures
        step_reached(ApplyStep::Begin, seq![a, b, c, d]) == ApplyStep::Applied <==> a && b && c
            && d,
        step_reached(ApplyStep::Alter, seq![a, b]) == ApplyStep::Applied <==> a && b,
        step_reached(ApplyStep::Begin, seq![a, b]) == ApplyStep::Rollback <==> a && !b,
        step_reached(ApplyStep::Begin, seq![a, b, c]) == ApplyStep::Rollback <==> a && b && !c,
{
    reveal_with_fuel(step_reached, 5);
    assert(seq![a, b, c, d].drop_last() =~= seq![a, b, c]);
    assert(seq![a, b, c].drop_last() =~= seq![a, b]);
    assert(seq![a, b].drop_last() =~= seq![a]);
    assert(seq![a].drop_last() =~= Seq::<bool>::empty());
}

// --- When queries are let through ---

/// What stands in front of the connections while the file of the database is exchanged.
#[derive(Clone, Copy, Debug, PartialEq, Eq, Structural)]
pub struct SwapGate {
    pub swapping: bool,
    pub open: bool,
}

impl SwapGate {
    /// Whether a query goes through.
    pub open spec fn passes(self) -> bool {
        !self.swapping && self.open
    }

    /// A service whose connections are open.
    pub fn new() -> (r: SwapGate)
        ensures
            r.passes(),
    {
        SwapGate { swapping: false, open: true }
    }

    /// Lets a query through, or turns it away with a reply that invites to try again.
    pub fn enter(&self) -> (r: Result<(), &'static str>)
        ensures
            r is Ok <==> self.passes(),
            r is Ok <==> self.open && !self.swapping,
            r matches Err(e) ==> e == SWAP_IN_PROGRESS,
    {
        if !self.swapping && self.open {
            Ok(())
        } else {
            Err(SWAP_IN_PROGRESS)
        }
    }

    /// Closes the connections before the file is exchanged.
    pub fn close_for_swap(&mut self)
        ensures
            !final(self).open,
            final(self).swapping,
    {
        self.swapping = true;
        self.open = false;
    }

    /// Notes whether the connections could be opened on the new file. Where they could
    /// not, everything stays as it was.
    pub fn reopen(&mut self, opened: bool)
        ensures
            *final(self) == (if opened {
                (SwapGate { swapping: false, open: true })
            } else {
                *old(self)
            }),
    {
        if opened {
            self.swapping = false;
            self.open = true;
        }
    }
}

/// The reader that serves a query, by the count of queries before it.
pub open spec fn reader_of(count: usize) -> usize {
    count % READER_COUNT
}

/// Picks the reader for a query and counts it.
pub fn pick_reader(count: &mut usize) -> (r: usize)
    ensures
        r == reader_of(*old(count)),
        r == *old(count) % 4,
        r < READER_COUNT,
        *final(count) == old(count).wrapping_add(1),
{
    let picked: usize = *count % READER_COUNT;
    *count = count.wrapping_add(1);
    picked
}

proof fn lemma_turn(count: usize, i: usize)
    requires
        i < READER_COUNT,
    ensures
        reader_of(count.wrapping_add(i)) == (count + i) % (READER_COUNT as int),
{
    let turn: int = count + i;
    if turn > usize::MAX {
        assert(usize::MAX == 0xffff_ffff || usize::MAX == 0xffff_ffff_ffff_ffff);
        assert((turn - (usize::MAX + 1)) % 4 == turn % 4);
    }
}

/// Any four queries in a row are served by four different readers, also where the
/// count starts over.
pub proof fn law_readers_take_turns(count: usize, i: usize, j: usize)
    requires
        i < j < READER_COUNT,
    ensures
        reader_of(count.wrapping_add(i)) != reader_of(count.wrapping_add(j)),
{
    lemma_turn(count, i);
    lemma_turn(count, j);
}

// --- Values that cross over ---

/// A value of a request, as it comes in.
#[derive(Clone, Debug)]
pub enum RequestValue {
    Null,
    Bool(bool),
    Number(Double),
    Text(String),
    /// An array or an object, written out.
    Composite(String),
}

/// A value as it is bound to a statement.
#[derive(Clone, Debug)]
pub enum BoundValue {
    Null,
    Integer(i64),
    Real(Double),
    Text(String),
}

/// Binds a value: every number as a real number, whose column turns it into an integer
/// where it holds integers.
pub fn bind_value(value: RequestValue) -> (r: BoundValue)
    ensures
        match value {
            RequestValue::Null => r is Null,
            RequestValue::Bool(b) => r == BoundValue::Integer(if b {
                1
            } else {
                0
            }),
            RequestValue::Number(n) => r == BoundValue::Real(n),
            RequestValue::Text(s) => r == BoundValue::Text(s),
            RequestValue::Composite(s) => r == BoundValue::Text(s),
        },
{
    match value {
        RequestValue::Null => BoundValue::Null,
        RequestValue::Bool(b) => BoundValue::Integer(
            if b {
                1
            } else {
                0
            },
        ),
        RequestValue::Number(n) => BoundValue::Real(n),
        RequestValue::Text(s) => BoundValue::Text(s),
        RequestValue::Composite(s) => BoundValue::Text(s),
    }
}

/// A value of a row, by its storage class.
#[derive(Clone, Debug)]
pub enum StoredValue {
    Null,
    Integer(i64),
    Real(Double),
    Text(Vec<u8>),
    Blob(Vec<u8>),
}

/// A value as it is handed to the frontend.
#[derive(Clone, Debug)]
pub enum ReplyValue {
    Null,
    Integer(i64),
    Real(Double),
    Text(String),
    Bytes(Vec<u8>),
}

/// Hands a value of a row on: a real number that is not finite as null, a text with its
/// invalid bytes replaced, bytes as numbers.
pub fn value_ref_to_json(value: StoredValue) -> (r: ReplyValue)
    ensures
        match value {
            StoredValue::Null => r is Null,
            StoredValue::Integer(i) => r == ReplyValue::Integer(i),
            StoredValue::Real(f) => r == (if f.finite() {
                ReplyValue::Real(f)
            } else {
                ReplyValue::Null
            }),
            StoredValue::Text(b) => r matches ReplyValue::Text(s) && s@ == text::utf8_lossy(b@) && (
            valid_utf8(b@) ==> s@ == decode_utf8(b@)),
            StoredValue::Blob(b) => r == ReplyValue::Bytes(b),
        },
{
    match value {
        StoredValue::Null => ReplyValue::Null,
        StoredValue::Integer(i) => ReplyValue::Integer(i),
        StoredValue::Real(f) => if f.is_finite() {
            ReplyValue::Real(f)
        } else {
            ReplyValue::Null
        },
        StoredValue::Text(b) => ReplyValue::Text(text::lossy_text(b.as_slice())),
        StoredValue::Blob(b) => ReplyValue::Bytes(b),
    }
}

/// What is pending keeps its order, and is of the list: the entry at `i` is the one at the
/// place that is given, and of two entries the earlier one stands earlier in the list.
pub proof fn law_pending_keeps_order(
    all: Seq<Migration>,
    applied: Seq<i64>,
    n: nat,
    a: int,
    b: int,
) -> (at: (int, int))
    requires
        n <= all.len(),
        0 <= a < b < pending(all, applied, n).len(),
    ensures
        0 <= at.0 < at.1 < n,
        all[at.0] == pending(all, applied, n)[a],
        all[at.1] == pending(all, applied, n)[b],
    decreases n,
{
    let before = pending(all, applied, (n - 1) as nat);
    if b < before.len() {
        law_pending_keeps_order(all, applied, (n - 1) as nat, a, b)
    } else {
        lemma_pending_from(all, applied, (n - 1) as nat, a);
        let i = choose|i: int| 0 <= i < n - 1 && #[trigger] all[i] == before[a];
        (i, n - 1)
    }
}

/// A migration that fails is not applied: at its beginning or at its end it fails as it
/// stands, in between it is rolled back first; and an end, good or bad, stays.
pub proof fn law_failure_is_rolled_back(ok: bool)
    ensures
        step_after(ApplyStep::Begin, false) is Failed,
        step_after(ApplyStep::Execute, false) is Rollback,
        step_after(ApplyStep::Record, false) is Rollback,
        step_after(ApplyStep::Commit, false) is Failed,
        step_after(ApplyStep::Alter, false) is Failed,
        step_after(ApplyStep::RecordAlter, false) is Failed,
        step_after(ApplyStep::Rollback, ok) is Failed,
        step_after(ApplyStep::Failed, ok) is Failed,
        step_after(ApplyStep::Applied, ok) is Applied,
        step_after(ApplyStep::Begin, true) is Execute,
        step_after(ApplyStep::Execute, true) is Record,
        step_after(ApplyStep::Record, true) is Commit,
        step_after(ApplyStep::Commit, true) is Applied,
        step_after(ApplyStep::Alter, true) is RecordAlter,
        step_after(ApplyStep::RecordAlter, true) is Applied,
{
}

proof fn lemma_quotes_in_front(q: Seq<char>, s: Seq<char>)
    requires
        forall|i: int| 0 <= i < q.len() ==> quote(#[trigger] q[i]),
        s.len() > 0,
        !quote(s[0]),
    ensures
        unquoted_start(q + s) == s,
    decreases q.len(),
{
    if q.len() == 0 {
        assert(q + s =~= s);
    } else {
        assert(quote(q[0]));
        assert((q + s).drop_first() =~= q.drop_first() + s);
        lemma_quotes_in_front(q.drop_first(), s);
    }
}

proof fn lemma_quotes_behind(s: Seq<char>, q: Seq<char>)
    requires
        forall|i: int| 0 <= i < q.len() ==> quote(#[trigger] q[i]),
        s.len() > 0,
        !quote(s.last()),
    ensures
        unquoted_end(s + q) == s,
    decreases q.len(),
{
    if q.len() == 0 {
        assert(s + q =~= s);
    } else {
        assert(quote(q[q.len() - 1]));
        assert((s + q).drop_last() =~= s + q.drop_last());
        lemma_quotes_behind(s, q.drop_last());
    }
}

proof fn lemma_semicolons_behind(s: Seq<char>, q: Seq<char>)
    requires
        forall|i: int| 0 <= i < q.len() ==> #[trigger] q[i] == ';',
        s.len() > 0,
        s.last() != ';',
    ensures
        without_semicolons(s + q) == s,
    decreases q.len(),
{
    if q.len() == 0 {
        assert(s + q =~= s);
    } else {
        assert(q[q.len() - 1] == ';');
        assert((s + q).drop_last() =~= s + q.drop_last());
        lemma_semicolons_behind(s, q.drop_last());
    }
}

/// The first word of a text that begins with one, and of one that has a gap in front.
proof fn lemma_first_word(gap: Option<char>, word: Seq<char>, rest: Seq<char>)
    requires
        gap matches Some(c) ==> text::white(c),
        word.len() > 0,
        forall|i: int| 0 <= i < word.len() ==> !text::white(#[trigger] word[i]),
        rest.len() > 0 ==> text::white(rest[0]),
    ensures
        first_word(match gap {
            Some(c) => seq![c] + (word + rest),
            None => word + rest,
        }) == Some((word, rest)),
{
    let bare = word + rest;
    assert(bare[0] == word[0]);
    assert(text::trimmed_start(bare) == bare);
    if let Some(c) = gap {
        let s = seq![c] + bare;
        assert(s[0] == c);
        assert(s.drop_first() =~= bare);
        assert(text::trimmed_start(s) == bare);
    }
    assert forall|k: int| 0 <= k < word.len() implies !text::white(#[trigger] bare[k]) by {
        assert(bare[k] == word[k]);
    }
    if rest.len() > 0 {
        assert(bare[word.len() as int] == rest[0]);
    }
    lemma_word_end(bare, word.len() as int);
    assert(bare.take(word.len() as int) =~= word);
    assert(bare.skip(word.len() as int) =~= rest);
}

/// A single alteration names its table, in whatever case its two words are written, quoted
/// or not, and with or without semicolons at its end. Where the two words are others,
/// nothing is altered.
pub proof fn law_alteration_names_its_table(
    first: Seq<char>,
    second: Seq<char>,
    gaps: (char, char),
    quotes: (Seq<char>, Seq<char>),
    name: Seq<char>,
    rest: Seq<char>,
    end: Seq<char>,
)
    requires
        first.len() > 0 && second.len() > 0 && name.len() > 0,
        text::white(gaps.0) && text::white(gaps.1),
        forall|i: int|
            0 <= i < first.len() ==> !text::white(#[trigger] first[i]) && first[i] != ';',
        forall|i: int|
            0 <= i < second.len() ==> !text::white(#[trigger] second[i]) && second[i] != ';',
        forall|i: int| 0 <= i < name.len() ==> !text::white(#[trigger] name[i]) && name[i] != ';',
        forall|i: int| 0 <= i < quotes.0.len() ==> quote(#[trigger] quotes.0[i]),
        forall|i: int| 0 <= i < quotes.1.len() ==> quote(#[trigger] quotes.1[i]),
        !quote(name[0]) && !quote(name.last()),
        forall|i: int| 0 <= i < rest.len() ==> #[trigger] rest[i] != ';',
        rest.len() > 0 ==> text::white(rest[0]) && !text::white(rest.last()),
        forall|i: int| 0 <= i < end.len() ==> #[trigger] end[i] == ';',
    ensures
        altered_table(
            first + (seq![gaps.0] + (second + (seq![gaps.1] + (quotes.0 + name + quotes.1 + rest))))
                + end,
        ) == (if text::lowered(first) == "alter"@ && text::lowered(second) == "table"@ {
            Some(name)
        } else {
            None
        }),
{
    let word = quotes.0 + name + quotes.1;
    let c = word + rest;
    let b = seq![gaps.1] + c;
    let a = seq![gaps.0] + (second + b);
    let s = first + a;
    let sql = s + end;
    assert forall|i: int| 0 <= i < word.len() implies !text::white(#[trigger] word[i]) && word[i]
        != ';' by {
        if i < quotes.0.len() {
            assert(quote(quotes.0[i]));
        } else if i < quotes.0.len() + name.len() {
            assert(word[i] == name[i - quotes.0.len()]);
        } else {
            assert(word[i] == quotes.1[i - quotes.0.len() - name.len()]);
        }
    }
    assert(!text::white(s.last()) && s.last() != ';') by {
        if rest.len() > 0 {
            assert(s.last() == rest.last());
            assert(rest[rest.len() - 1] != ';');
        } else {
            assert(s.last() == word[word.len() - 1]);
        }
    }
    assert(s[0] == first[0]);
    assert(!text::white(sql.last())) by {
        if end.len() > 0 {
            assert(sql.last() == end[end.len() - 1]);
        } else {
            assert(sql =~= s);
        }
    }
    assert(sql[0] == first[0]);
    assert(text::trimmed_start(sql) == sql);
    assert(text::trimmed(sql) == sql);
    lemma_semicolons_behind(s, end);
    assert(text::trimmed_start(s) == s);
    assert(text::trimmed(s) == s);
    assert(!s.contains(';')) by {
        assert forall|i: int| 0 <= i < s.len() implies #[trigger] s[i] != ';' by {
            let n = first.len();
            let m = n + 1 + second.len();
            if i < n {
                assert(s[i] == first[i]);
            } else if i == n {
                assert(s[i] == gaps.0);
            } else if i < m {
                assert(s[i] == second[i - n - 1]);
            } else if i == m {
                assert(s[i] == gaps.1);
            } else if i < m + 1 + word.len() {
                assert(s[i] == word[i - m - 1]);
            } else {
                assert(s[i] == rest[i - m - 1 - word.len()]);
            }
        }
    }
    lemma_first_word(None, first, a);
    lemma_first_word(Some(gaps.0), second, b);
    lemma_first_word(Some(gaps.1), word, rest);
    let tail = name + quotes.1;
    assert(quotes.0 + tail =~= word);
    assert(tail[0] == name[0]);
    lemma_quotes_in_front(quotes.0, tail);
    lemma_quotes_behind(name, quotes.1);
}

/// Two statements in one migration are no single alteration.
pub proof fn law_two_statements_alter_nothing(sql: Seq<char>, at: int)
    requires
        0 <= at < sql.len(),
        sql[at] == ';',
        !text::white(sql[0]) && !text::white(sql.last()) && sql.last() != ';',
    ensures
        altered_table(sql) is None,
{
    assert(text::trimmed(sql) == sql);
    assert(sql.contains(';'));
}

} // verus!
