//! The sweep at start-up: what becomes of sessions that are still marked as recording.

use vstd::prelude::*;

use crate::text;

verus! {

/// How long, in minutes, a session may go without a sign of life before it counts as
/// crashed rather than live.
pub const RECORDING_STALE_THRESHOLD_MINUTES: i64 = 3;

/// The table of directories in which recordings were started.
pub const AUDIO_SAVE_LOCATIONS_DDL: &'static str = "CREATE TABLE IF NOT EXISTS audio_save_locations (dir TEXT PRIMARY KEY,registered_at TEXT NOT NULL DEFAULT (datetime('now')))";

/// The table that replication leaves behind once it has prepared a database.
pub const CLOCK_TABLE: &'static str = "sessions__crsql_clock";

/// The statement that finds out whether a table exists.
pub const TABLE_EXISTS_SQL: &'static str = "SELECT 1 FROM sqlite_master WHERE type='table' AND name=?";

/// Every session that is still recording, with its owner, whether it is empty, and
/// whether its last sign of life is older than the modifier given as the parameter.
pub const RECORDING_ROWS_SQL: &'static str = r#"
    SELECT id, recording_device_id,
           NOT EXISTS (SELECT 1 FROM segments WHERE session_id = sessions.id)
           AND NOT EXISTS (SELECT 1 FROM session_audio_parts WHERE session_id = sessions.id),
           COALESCE(datetime(COALESCE(
               (SELECT MAX(created_at) FROM segments WHERE session_id = sessions.id),
               created_at
           )) <= datetime('now', ?1), 0)
    FROM sessions WHERE status = 'recording'
"#;

/// The same for a database that has no table of parts yet.
pub const RECORDING_ROWS_WITHOUT_PARTS_SQL: &'static str = r#"
    SELECT id, recording_device_id,
           NOT EXISTS (SELECT 1 FROM segments WHERE session_id = sessions.id),
           COALESCE(datetime(COALESCE(
               (SELECT MAX(created_at) FROM segments WHERE session_id = sessions.id),
               created_at
           )) <= datetime('now', ?1), 0)
    FROM sessions WHERE status = 'recording'
"#;

/// Deletes one session that is still recording.
pub const DELETE_RECORDING_SQL: &'static str = "DELETE FROM sessions WHERE id = ?1 AND status = 'recording'";

/// Completes one session that is still recording: it counts its segments, and takes its
/// length from its parts, else from its segments, else keeps the one it has.
pub const FINALIZE_RECORDING_SQL: &'static str = r#"
    UPDATE sessions SET
        status = 'completed',
        total_segments = (SELECT COUNT(*) FROM segments WHERE session_id = sessions.id),
        duration_seconds = COALESCE(
            (SELECT SUM(duration_seconds) FROM session_audio_parts WHERE session_id = sessions.id),
            (SELECT MAX(audio_offset_seconds + chunk_duration_seconds)
             FROM segments WHERE session_id = sessions.id),
            duration_seconds
        ),
        updated_at = datetime('now')
    WHERE id = ?1 AND status = 'recording'
"#;

/// The same for a database that has no table of parts yet.
pub const FINALIZE_RECORDING_WITHOUT_PARTS_SQL: &'static str = r#"
    UPDATE sessions SET
        status = 'completed',
        total_segments = (SELECT COUNT(*) FROM segments WHERE session_id = sessions.id),
        duration_seconds = COALESCE(
            (SELECT MAX(audio_offset_seconds + chunk_duration_seconds)
             FROM segments WHERE session_id = sessions.id),
            duration_seconds
        ),
        updated_at = datetime('now')
    WHERE id = ?1 AND status = 'recording'
"#;

/// The statement that lists the sessions that are still recording.
pub fn recording_rows_sql(has_parts: bool) -> (r: &'static str)
    ensures
        r == (if has_parts {
            RECORDING_ROWS_SQL
        } else {
            RECORDING_ROWS_WITHOUT_PARTS_SQL
        }),
{
    if has_parts {
        RECORDING_ROWS_SQL
    } else {
        RECORDING_ROWS_WITHOUT_PARTS_SQL
    }
}

/// The statement that completes one session.
pub fn finalize_recording_sql(has_parts: bool) -> (r: &'static str)
    ensures
        r == (if has_parts {
            FINALIZE_RECORDING_SQL
        } else {
            FINALIZE_RECORDING_WITHOUT_PARTS_SQL
        }),
{
    if has_parts {
        FINALIZE_RECORDING_SQL
    } else {
        FINALIZE_RECORDING_WITHOUT_PARTS_SQL
    }
}

/// The modifier of a point in time that lies the threshold back.
pub fn stale_modifier() -> (r: String)
    ensures
        r@ == "-"@ + text::decimal(RECORDING_STALE_THRESHOLD_MINUTES as nat) + " minutes"@,
        r@ == "-"@ + text::decimal(3) + " minutes"@,
{
    let mut out = text::joined(
        "-",
        text::decimal_text(RECORDING_STALE_THRESHOLD_MINUTES as u64).as_str(),
    );
    out.append(" minutes");
    out
}

/// A session that is still marked as recording.
#[derive(Clone, Debug)]
pub struct RecordingRow {
    pub id: String,
    /// The device that records it, where that is known.
    pub owner: Option<String>,
    /// Whether it has neither segments nor audio parts.
    pub is_empty: bool,
    /// Whether its last sign of life is older than the threshold.
    pub is_stale: bool,
}

/// What the sweep does with a session.
#[derive(Clone, Copy, Debug, PartialEq, Eq, Structural)]
pub enum SweepAction {
    Leave,
    Delete,
    Finalize,
}

/// The identity behind an optional text.
pub open spec fn identity(owner: Option<String>) -> Option<Seq<char>> {
    match owner {
        Some(s) => Some(s@),
        None => None,
    }
}

/// The identity behind an optional borrowed text.
pub open spec fn identity_of(me: Option<&str>) -> Option<Seq<char>> {
    match me {
        Some(s) => Some(s@),
        None => None,
    }
}

/// Whether another device owns the session.
pub open spec fn foreign(me: Option<Seq<char>>, owner: Option<Seq<char>>) -> bool {
    owner is Some && owner != me
}

/// What the sweep does with a session of this owner. Without an own identity there is
/// no synchronization.
pub open spec fn fate(
    me: Option<Seq<char>>,
    owner: Option<Seq<char>>,
    empty: bool,
    stale: bool,
) -> SweepAction {
    let own = me is Some && owner == me;
    if foreign(me, owner) {
        SweepAction::Leave
    } else if empty && (me is None || own) {
        SweepAction::Delete
    } else if own || stale {
        SweepAction::Finalize
    } else {
        SweepAction::Leave
    }
}

/// What the sweep does with the row.
pub open spec fn row_fate(me: Option<Seq<char>>, row: RecordingRow) -> SweepAction {
    fate(me, identity(row.owner), row.is_empty, row.is_stale)
}

fn same_identity(me: Option<&str>, owner: &Option<String>) -> (r: bool)
    ensures
        r == (identity_of(me) == identity(*owner)),
{
    match (me, owner) {
        (Some(a), Some(b)) => text::same_text(a, b.as_str()),
        (None, None) => true,
        _ => false,
    }
}

/// Decides over one session.
pub fn sweep_row(me: Option<&str>, row: &RecordingRow) -> (r: SweepAction)
    ensures
        r == row_fate(identity_of(me), *row),
        r == fate(
            match me {
                Some(m) => Some(m@),
                None => None,
            },
            match row.owner {
                Some(o) => Some(o@),
                None => None,
            },
            row.is_empty,
            row.is_stale,
        ),
{
    let same = same_identity(me, &row.owner);
    if row.owner.is_some() && !same {
        return SweepAction::Leave;
    }
    let own = me.is_some() && same;
    if row.is_empty && (me.is_none() || own) {
        SweepAction::Delete
    } else if own || row.is_stale {
        SweepAction::Finalize
    } else {
        SweepAction::Leave
    }
}

/// Decides over every session that is still recording, each by itself.
pub fn sweep_orphaned_recordings(me: Option<&str>, rows: &Vec<RecordingRow>) -> (r: Vec<
    SweepAction,
>)
    ensures
        r@ == Seq::new(rows@.len(), |i: int| row_fate(identity_of(me), rows@[i])),
        r@.len() == rows@.len(),
        forall|i: int|
            0 <= i < rows@.len() ==> #[trigger] r@[i] == fate(
                match me {
                    Some(m) => Some(m@),
                    None => None,
                },
                match rows@[i].owner {
                    Some(o) => Some(o@),
                    None => None,
                },
                rows@[i].is_empty,
                rows@[i].is_stale,
            ),
{
    let mut out: Vec<SweepAction> = Vec::new();
    let mut i: usize = 0;
    while i < rows.len()
        invariant
            i <= rows@.len(),
            out@ == Seq::new(i as nat, |k: int| row_fate(identity_of(me), rows@[k])),
        decreases rows@.len() - i,
    {
        out.push(sweep_row(me, &rows[i]));
        i = i + 1;
    }
    out
}

/// Decides over every session that is still recording at start-up. A database that has
/// been prepared for replication and is opened without an identity leaves open whose
/// sessions they are: nothing is touched then.
pub fn close_orphaned_recordings(
    me: Option<&str>,
    crr_prepared: bool,
    rows: &Vec<RecordingRow>,
) -> (r: Vec<SweepAction>)
    ensures
        r@ == Seq::new(
            rows@.len(),
            |i: int|
                if me is None && crr_prepared {
                    SweepAction::Leave
                } else {
                    row_fate(identity_of(me), rows@[i])
                },
        ),
{
    if me.is_none() && crr_prepared {
        let mut out: Vec<SweepAction> = Vec::new();
        let mut i: usize = 0;
        while i < rows.len()
            invariant
                i <= rows@.len(),
                out@ == Seq::new(i as nat, |k: int| SweepAction::Leave),
            decreases rows@.len() - i,
        {
            out.push(SweepAction::Leave);
            i = i + 1;
        }
        out
    } else {
        sweep_orphaned_recordings(me, rows)
    }
}

/// How many sessions are deleted and how many completed.
pub open spec fn tally(actions: Seq<SweepAction>, action: SweepAction) -> nat
    decreases actions.len(),
{
    if actions.len() == 0 {
        0
    } else {
        tally(actions.drop_last(), action) + (if actions.last() == action {
            1nat
        } else {
            0
        })
    }
}

proof fn lemma_tally_bound(actions: Seq<SweepAction>, action: SweepAction)
    ensures
        tally(actions, action) <= actions.len(),
    decreases actions.len(),
{
    if actions.len() > 0 {
        lemma_tally_bound(actions.drop_last(), action);
    }
}

/// Counts the sessions that get an action.
pub fn count_actions(actions: &Vec<SweepAction>, action: SweepAction) -> (r: usize)
    ensures
        r == tally(actions@, action),
        r == actions@.to_multiset().count(action),
{
    proof {
        law_tally_counts(actions@, action);
    }
    let mut n: usize = 0;
    let mut i: usize = 0;
    while i < actions.len()
        invariant
            i <= actions@.len(),
            n == tally(actions@.take(i as int), action),
            n <= i,
        decreases actions@.len() - i,
    {
        assert(actions@.take(i + 1).drop_last() =~= actions@.take(i as int));
        proof {
            lemma_tally_bound(actions@.take(i as int), action);
        }
        if actions[i] == action {
            n = n + 1;
        }
        i = i + 1;
    }
    assert(actions@.take(actions@.len() as int) =~= actions@);
    n
}

/// Whether the patches before the migrations run: there is a database, it opens, and it
/// holds segments.
pub fn ensure_runtime_schema(db_exists: bool, opened: bool, has_segments: bool) -> (r: bool)
    ensures
        r == (db_exists && opened && has_segments),
{
    db_exists && opened && has_segments
}

/// Whether the audio directories are walked for parts without a row.
pub fn may_reconcile(db_exists: bool, opened: bool, has_parts: bool, has_sessions: bool) -> (r:
    bool)
    ensures
        r == (db_exists && opened && has_parts && has_sessions),
{
    db_exists && opened && has_parts && has_sessions
}

/// A session of another device is never touched, with or without an own identity.
pub proof fn law_foreign_is_left(
    me: Option<Seq<char>>,
    owner: Seq<char>,
    empty: bool,
    stale: bool,
)
    requires
        me != Some(owner),
    ensures
        fate(me, Some(owner), empty, stale) == SweepAction::Leave,
{
}

/// While synchronization is on, a session without an owner is never deleted, and ends
/// only once it is stale: it may be a peer's.
pub proof fn law_unowned_is_never_deleted_while_syncing(me: Seq<char>, empty: bool, stale: bool)
    ensures
        fate(Some(me), None, empty, stale) != SweepAction::Delete,
        fate(Some(me), None, empty, stale) == SweepAction::Finalize <==> stale,
{
}

/// An own session is a crash at the owner's start: it always ends, deleted where it is
/// empty and completed where it is not, however fresh it is.
pub proof fn law_own_session_ends(me: Seq<char>, empty: bool, stale: bool)
    ensures
        fate(Some(me), Some(me), empty, stale) == (if empty {
            SweepAction::Delete
        } else {
            SweepAction::Finalize
        }),
{
}

/// A session that holds segments or audio is never deleted.
pub proof fn law_content_is_never_deleted(
    me: Option<Seq<char>>,
    owner: Option<Seq<char>>,
    stale: bool,
)
    ensures
        fate(me, owner, false, stale) != SweepAction::Delete,
{
}

/// Without synchronization a session without an owner is deleted where it is empty,
/// completed where it is stale, and else left.
pub proof fn law_single_device(empty: bool, stale: bool)
    ensures
        fate(None, None, empty, stale) == (if empty {
            SweepAction::Delete
        } else if stale {
            SweepAction::Finalize
        } else {
            SweepAction::Leave
        }),
{
}

/// The tally of an action is how often it is taken.
pub proof fn law_tally_counts(actions: Seq<SweepAction>, action: SweepAction)
    ensures
        tally(actions, action) == actions.to_multiset().count(action),
    decreases actions.len(),
{
    broadcast use vstd::seq_lib::group_to_multiset_ensures;

    if actions.len() > 0 {
        let before = actions.drop_last();
        law_tally_counts(before, action);
        assert(before.push(actions.last()) =~= actions);
    }
}

} // verus!
