use rusqlite::types::Value as SqlValue;
use rusqlite::types::ValueRef;
use rusqlite::Connection;
use serde_json::Value as JsonValue;
use yapstack::db_service::{
    bind_value, crr_alter_target, parse_single_alter_table, pending_migrations, pick_reader,
    run_migrations_list, value_ref_to_json, ApplyStep, BoundValue, ReplyValue, RequestValue,
    StoredValue, SwapGate, MIGRATIONS_TABLE_SQL, RECORD_MIGRATION_SQL,
};
use yapstack::migrations::{migrations, Migration};
use yapstack::single::Double;
use yapstack::sweep::{
    close_orphaned_recordings, count_actions, ensure_runtime_schema, finalize_recording_sql,
    may_reconcile, recording_rows_sql, stale_modifier, sweep_orphaned_recordings, RecordingRow,
    SweepAction, AUDIO_SAVE_LOCATIONS_DDL, CLOCK_TABLE, DELETE_RECORDING_SQL, TABLE_EXISTS_SQL,
};

const ME: &str = "AAAABBBBCCCCDDDD";
const PEER: &str = "EEEEFFFFGGGGHHHH";

fn migrated_conn() -> Connection {
    let conn = Connection::open_in_memory().unwrap();
    for m in migrations() {
        conn.execute_batch(m.sql)
            .unwrap_or_else(|e| panic!("migration v{} failed: {}", m.version, e));
    }
    conn
}

fn table_exists(conn: &Connection, name: &str) -> bool {
    conn.query_row(TABLE_EXISTS_SQL, [name], |_| Ok(())).is_ok()
}

fn recording_rows(conn: &Connection) -> Vec<RecordingRow> {
    let has_parts = table_exists(conn, "session_audio_parts");
    let mut stmt = conn.prepare(recording_rows_sql(has_parts)).unwrap();
    let rows = stmt
        .query_map([stale_modifier()], |r| {
            Ok(RecordingRow {
                id: r.get(0)?,
                owner: r.get(1)?,
                is_empty: r.get(2)?,
                is_stale: r.get(3)?,
            })
        })
        .unwrap();
    rows.map(|r| r.unwrap()).collect()
}

fn carry_out(conn: &Connection, rows: &[RecordingRow], actions: &[SweepAction]) {
    let has_parts = table_exists(conn, "session_audio_parts");
    for (row, action) in rows.iter().zip(actions) {
        match action {
            SweepAction::Leave => {}
            SweepAction::Delete => {
                conn.execute(DELETE_RECORDING_SQL, [&row.id]).unwrap();
            }
            SweepAction::Finalize => {
                conn.execute(finalize_recording_sql(has_parts), [&row.id])
                    .unwrap();
            }
        }
    }
}

fn sweep(conn: &Connection, me: Option<&str>) {
    let rows = recording_rows(conn);
    let actions = sweep_orphaned_recordings(me, &rows);
    carry_out(conn, &rows, &actions);
}

fn close(conn: &Connection, me: Option<&str>) {
    let rows = recording_rows(conn);
    let actions = close_orphaned_recordings(me, table_exists(conn, CLOCK_TABLE), &rows);
    carry_out(conn, &rows, &actions);
}

fn mark_crr_prepared(conn: &Connection) {
    conn.execute_batch("CREATE TABLE sessions__crsql_clock (x INTEGER);")
        .unwrap();
}

fn insert_recording(conn: &Connection, id: &str, created_at_sql: &str) {
    insert_recording_owned(conn, id, created_at_sql, None);
}

fn insert_recording_owned(
    conn: &Connection,
    id: &str,
    created_at_sql: &str,
    owner: Option<&str>,
) {
    conn.execute(
        &format!(
            "INSERT INTO sessions \
                (id, title, source, status, created_at, updated_at, recording_device_id) \
             VALUES ('{id}', 't', 'MicOnly', 'recording', {created_at_sql}, {created_at_sql}, ?1)"
        ),
        [owner],
    )
    .unwrap();
}

fn insert_segment(conn: &Connection, seg_id: &str, session_id: &str, created_at_sql: &str) {
    conn.execute(
        &format!(
            "INSERT INTO segments \
                (id, session_id, source, text, audio_offset_seconds, chunk_duration_seconds, created_at) \
             VALUES ('{seg_id}', '{session_id}', 'mic', 'hi', 0.0, 1.0, {created_at_sql})"
        ),
        [],
    )
    .unwrap();
}

fn session_status(conn: &Connection, id: &str) -> String {
    conn.query_row("SELECT status FROM sessions WHERE id = ?1", [id], |r| {
        r.get(0)
    })
    .unwrap()
}

fn session_exists(conn: &Connection, id: &str) -> bool {
    let n: i64 = conn
        .query_row("SELECT COUNT(*) FROM sessions WHERE id = ?1", [id], |r| {
            r.get(0)
        })
        .unwrap();
    n == 1
}

// --- The schema ---

#[test]
fn test_migrations_versions_strictly_increase_from_one() {
    let versions: Vec<i64> = migrations().iter().map(|x| x.version).collect();
    assert_eq!(versions.first(), Some(&1), "the chain must start at v1");
    assert!(
        versions.windows(2).all(|w| w[1] > w[0]),
        "migration versions must strictly increase: {versions:?}"
    );
}

#[test]
fn test_migration_v16_adds_recording_device_id_column() {
    let m = migrations();
    assert_eq!(m[15].version, 16);
    let conn = migrated_conn();
    conn.execute(
        "INSERT INTO sessions (id, title, source, status) \
         VALUES ('s16', 't', 'MicOnly', 'recording')",
        [],
    )
    .unwrap();
    let owner: Option<String> = conn
        .query_row(
            "SELECT recording_device_id FROM sessions WHERE id = 's16'",
            [],
            |r| r.get(0),
        )
        .unwrap();
    assert_eq!(owner, None, "new column defaults NULL (pre-attribution)");
}

#[test]
fn test_migration_v17_creates_chat_context_settings() {
    let m = migrations();
    let v17 = &m[16];
    assert_eq!(v17.version, 17);
    let conn = migrated_conn();
    conn.execute(
        "INSERT INTO chat_context_settings (context_key, profile_id, updated_at) \
         VALUES ('ctx-a', NULL, '2026-01-01T00:00:00Z')",
        [],
    )
    .unwrap();
    let pid: Option<String> = conn
        .query_row(
            "SELECT profile_id FROM chat_context_settings WHERE context_key = 'ctx-a'",
            [],
            |r| r.get(0),
        )
        .unwrap();
    assert_eq!(pid, None, "NULL profile_id means 'use the live default'");
    conn.execute_batch(v17.sql).unwrap();
}

#[test]
fn test_migration_v15_is_idempotent() {
    let conn = migrated_conn();
    conn.execute(
        "INSERT INTO sessions (id, title, source, status, wav_file_path, wav_duration_seconds) \
         VALUES ('s1', 't', 'MicOnly', 'completed', '/tmp/s1.mp3', 12.5)",
        [],
    )
    .unwrap();
    let v15 = &migrations()[14];
    assert_eq!(v15.version, 15, "index 14 must still be the v15 migration");
    conn.execute_batch(v15.sql).unwrap();
    conn.execute_batch(v15.sql).unwrap();
    let count: i64 = conn
        .query_row(
            "SELECT COUNT(*) FROM session_audio_parts WHERE session_id = 's1'",
            [],
            |r| r.get(0),
        )
        .unwrap();
    assert_eq!(count, 1, "re-running v15 must not double-insert parts");
}

#[test]
fn test_migration_v13_adds_tool_calls_column() {
    let m = migrations();
    let v13 = &m[12];
    assert_eq!(v13.version, 13);
    let stmt = v13.sql.trim().trim_end_matches(';').trim();
    assert!(
        !stmt.contains(';'),
        "v13 must stay a single statement so the crsql alter-wrap applies"
    );
    let target = stmt
        .strip_prefix("ALTER TABLE ")
        .and_then(|rest| rest.split_whitespace().next())
        .expect("v13 must be a single ALTER TABLE");
    assert_eq!(target, "chat_messages");
    assert_eq!(
        parse_single_alter_table(v13.sql).as_deref(),
        Some("chat_messages")
    );

    let conn = migrated_conn();
    let has_col: bool = conn
        .query_row(
            "SELECT 1 FROM pragma_table_info('chat_messages') WHERE name = 'tool_calls'",
            [],
            |_| Ok(()),
        )
        .is_ok();
    assert!(has_col, "v13 must add chat_messages.tool_calls");
}

#[test]
fn test_all_migrations_execute_against_sqlite() {
    let conn = migrated_conn();
    for fts_table in [
        "segments_fts",
        "notes_fts",
        "sessions_fts",
        "dictations_fts",
    ] {
        let count: i64 = conn
            .query_row(&format!("SELECT count(*) FROM {fts_table}"), [], |row| {
                row.get(0)
            })
            .unwrap_or_else(|e| panic!("query against {fts_table} failed: {e}"));
        assert_eq!(count, 0, "{fts_table} should be empty after migration");
    }
}

#[test]
fn test_migration_v12_creates_fts_tables() {
    assert_eq!(migrations()[11].version, 12);
    let conn = migrated_conn();
    conn.execute_batch(
        "INSERT INTO sessions (id, title, source, status) \
             VALUES ('s12', 'kickoff call', 'MicOnly', 'completed'); \
         INSERT INTO segments (id, session_id, source, text, audio_offset_seconds, chunk_duration_seconds) \
             VALUES ('seg12', 's12', 'Mic', 'quarterly revenue', 0.0, 1.0); \
         INSERT INTO notes (id, session_id, content) VALUES ('n12', 's12', 'follow up thursday'); \
         INSERT INTO dictation_history (id, slot_id, slot_name, input_text, output_text, output_action) \
             VALUES ('d12', 'slot', 'Slot', 'raw words', 'polished words', 'Clipboard');",
    )
    .unwrap();
    for (table, id_col, id, term) in [
        ("sessions_fts", "session_id", "s12", "kickoff"),
        ("segments_fts", "segment_id", "seg12", "revenue"),
        ("notes_fts", "note_id", "n12", "thursday"),
        ("dictations_fts", "dictation_id", "d12", "polished"),
    ] {
        let hit: String = conn
            .query_row(
                &format!("SELECT {id_col} FROM {table} WHERE {table} MATCH ?"),
                [term],
                |r| r.get(0),
            )
            .unwrap_or_else(|e| panic!("{table} did not index the inserted row: {e}"));
        assert_eq!(hit, id, "{table} indexed the wrong row");
    }
}

// --- Applying migrations ---

fn apply(conn: &Connection, m: &Migration) -> bool {
    let mut step = ApplyStep::first(false);
    loop {
        let ok = match step {
            ApplyStep::Begin => conn.execute_batch("BEGIN;").is_ok(),
            ApplyStep::Execute => conn.execute_batch(m.sql).is_ok(),
            ApplyStep::Record => conn
                .execute(
                    RECORD_MIGRATION_SQL,
                    (m.version, m.description, Vec::<u8>::new(), 0i64),
                )
                .is_ok(),
            ApplyStep::Commit => conn.execute_batch("COMMIT;").is_ok(),
            ApplyStep::Rollback => conn.execute_batch("ROLLBACK;").is_ok(),
            ApplyStep::Applied => return true,
            _ => return false,
        };
        step = step.next(ok);
    }
}

fn run_list(conn: &Connection, all: &Vec<Migration>) -> Vec<i64> {
    conn.execute_batch(MIGRATIONS_TABLE_SQL).unwrap();
    let applied: Vec<i64> = conn
        .prepare("SELECT version FROM _sqlx_migrations")
        .unwrap()
        .query_map([], |r| r.get(0))
        .unwrap()
        .map(|r| r.unwrap())
        .collect();
    let run = pending_migrations(all, &applied);
    let outcomes: Vec<bool> = run.iter().map(|m| apply(conn, m)).collect();
    run_migrations_list(&run, &outcomes)
}

#[test]
fn every_migration_runs_on_a_fresh_database() {
    let conn = Connection::open_in_memory().unwrap();
    let applied = run_list(&conn, &migrations());
    assert_eq!(applied, (1..=17).collect::<Vec<i64>>());
    let count: i64 = conn
        .query_row("SELECT COUNT(*) FROM _sqlx_migrations", [], |r| r.get(0))
        .unwrap();
    assert_eq!(count, 17);
    for t in ["sessions", "segments", "notes", "chat_messages", "tags"] {
        assert!(
            table_exists(&conn, t),
            "table {t} should exist after migration"
        );
    }
}

#[test]
fn migrations_are_idempotent_second_run_is_noop() {
    let conn = Connection::open_in_memory().unwrap();
    run_list(&conn, &migrations());
    let applied2 = run_list(&conn, &migrations());
    assert!(applied2.is_empty(), "second run must apply nothing");
}

#[test]
fn a_further_run_takes_up_what_failed() {
    let all = migrations();
    let first = pending_migrations(&all, &Vec::new());
    let outcomes: Vec<bool> = first.iter().map(|m| m.version != 4 && m.version != 9).collect();
    let kept = run_migrations_list(&first, &outcomes);
    let versions: Vec<i64> = pending_migrations(&all, &kept)
        .iter()
        .map(|m| m.version)
        .collect();
    assert_eq!(versions, vec![4, 9]);
}

#[test]
fn recorded_versions_are_skipped_whatever_the_tables_are() {
    let conn = Connection::open_in_memory().unwrap();
    conn.execute_batch(MIGRATIONS_TABLE_SQL).unwrap();
    for v in 1..=17i64 {
        conn.execute(
            "INSERT INTO _sqlx_migrations (version, description, success, checksum, execution_time)
             VALUES (?, 'preexisting', 1, x'', 0)",
            [v],
        )
        .unwrap();
    }
    let applied = run_list(&conn, &migrations());
    assert!(applied.is_empty(), "recorded versions must not re-run");
    assert!(
        !table_exists(&conn, "sessions"),
        "skipped migrations must not have created tables"
    );
}

#[test]
fn migrations_apply_only_missing_versions() {
    let conn = Connection::open_in_memory().unwrap();
    run_list(&conn, &migrations());
    conn.execute("DELETE FROM _sqlx_migrations WHERE version = 15", [])
        .unwrap();
    let applied = run_list(&conn, &migrations());
    assert_eq!(applied, vec![15], "only the missing version re-runs");
}

#[test]
fn a_failing_migration_is_rolled_back_and_the_run_goes_on() {
    let conn = Connection::open_in_memory().unwrap();
    let list = vec![
        Migration {
            version: 900,
            description: "broken",
            sql: "CREATE TABLE half (id TEXT); THIS IS NOT SQL;",
        },
        Migration {
            version: 901,
            description: "fine",
            sql: "CREATE TABLE whole (id TEXT)",
        },
    ];
    assert_eq!(run_list(&conn, &list), vec![901]);
    assert!(!table_exists(&conn, "half"));
    assert!(table_exists(&conn, "whole"));
    assert_eq!(run_list(&conn, &list), Vec::<i64>::new());
}

#[test]
fn single_alterations_are_recognized() {
    let t = |sql: &str| parse_single_alter_table(sql);
    assert_eq!(
        t("ALTER TABLE segments ADD COLUMN a3_test_col TEXT").as_deref(),
        Some("segments")
    );
    assert_eq!(
        t("  alter\n table \"notes\" ADD COLUMN x TEXT ; ;").as_deref(),
        None
    );
    assert_eq!(
        t("  alter\n table \"notes\" ADD COLUMN x TEXT ;;").as_deref(),
        Some("notes")
    );
    assert_eq!(t("ALTER TABLE [a] RENAME TO b;").as_deref(), Some("a"));
    assert_eq!(t("ALTER TABLE a ADD b TEXT; SELECT 1").as_deref(), None);
    assert_eq!(t("CREATE TABLE a3_local (id TEXT PRIMARY KEY)"), None);
    assert_eq!(t("ALTER TABLE"), None);
    assert_eq!(t("ALTER TABLE ''"), None);
    assert_eq!(t(""), None);
}

#[test]
fn only_replicated_tables_of_a_prepared_database_take_the_detour() {
    let tables = vec!["sessions".to_string(), "segments".to_string()];
    let sql = "ALTER TABLE segments ADD COLUMN a3_test_col TEXT";
    assert_eq!(
        crr_alter_target(true, sql, &tables).as_deref(),
        Some("segments")
    );
    assert_eq!(crr_alter_target(false, sql, &tables), None);
    assert_eq!(
        crr_alter_target(true, "ALTER TABLE local ADD COLUMN x TEXT", &tables),
        None
    );
    assert_eq!(
        crr_alter_target(true, migrations()[15].sql, &tables).as_deref(),
        Some("sessions")
    );
    assert_eq!(ApplyStep::first(true), ApplyStep::Alter);
    assert_eq!(
        ApplyStep::Alter.next(true).next(true),
        ApplyStep::Applied
    );
    assert_eq!(ApplyStep::Alter.next(false), ApplyStep::Failed);
}

// --- Queries ---

#[test]
fn close_for_swap_then_reopen_restores_service() {
    let mut gate = SwapGate::new();
    assert!(gate.enter().is_ok());
    gate.close_for_swap();
    let err = gate.enter().expect_err("closed pool must reject");
    assert!(err.contains("DB_SWAP_IN_PROGRESS"));
    gate.reopen(false);
    assert!(gate.enter().is_err());
    gate.reopen(true);
    assert!(gate.enter().is_ok());
}

#[test]
fn readers_take_turns() {
    let mut count: usize = 6;
    let picked: Vec<usize> = (0..5).map(|_| pick_reader(&mut count)).collect();
    assert_eq!(picked, vec![2, 3, 0, 1, 2]);
    let mut count: usize = usize::MAX;
    assert_eq!(pick_reader(&mut count), 3);
    assert_eq!(count, 0);
}

fn incoming(v: &JsonValue) -> RequestValue {
    match v {
        JsonValue::Null => RequestValue::Null,
        JsonValue::Bool(b) => RequestValue::Bool(*b),
        JsonValue::Number(n) => RequestValue::Number(Double {
            bits: n.as_f64().unwrap_or_default().to_bits(),
        }),
        JsonValue::String(s) => RequestValue::Text(s.clone()),
        other => RequestValue::Composite(serde_json::to_string(other).unwrap_or_default()),
    }
}

fn bound(v: &JsonValue) -> SqlValue {
    match bind_value(incoming(v)) {
        BoundValue::Null => SqlValue::Null,
        BoundValue::Integer(i) => SqlValue::Integer(i),
        BoundValue::Real(d) => SqlValue::Real(f64::from_bits(d.bits)),
        BoundValue::Text(s) => SqlValue::Text(s),
    }
}

fn outgoing(v: ValueRef<'_>) -> JsonValue {
    let stored = match v {
        ValueRef::Null => StoredValue::Null,
        ValueRef::Integer(i) => StoredValue::Integer(i),
        ValueRef::Real(f) => StoredValue::Real(Double { bits: f.to_bits() }),
        ValueRef::Text(b) => StoredValue::Text(b.to_vec()),
        ValueRef::Blob(b) => StoredValue::Blob(b.to_vec()),
    };
    match value_ref_to_json(stored) {
        ReplyValue::Null => JsonValue::Null,
        ReplyValue::Integer(i) => JsonValue::from(i),
        ReplyValue::Real(d) => JsonValue::from(f64::from_bits(d.bits)),
        ReplyValue::Text(s) => JsonValue::from(s),
        ReplyValue::Bytes(b) => JsonValue::from(b),
    }
}

fn execute(conn: &Connection, query: &str, values: &[JsonValue]) -> usize {
    conn.execute(
        query,
        rusqlite::params_from_iter(values.iter().map(bound)),
    )
    .unwrap()
}

fn select(conn: &Connection, query: &str, values: &[JsonValue]) -> Vec<Vec<JsonValue>> {
    let mut stmt = conn.prepare(query).unwrap();
    let n = stmt.column_count();
    let mut rows = stmt
        .query(rusqlite::params_from_iter(values.iter().map(bound)))
        .unwrap();
    let mut out = Vec::new();
    while let Some(row) = rows.next().unwrap() {
        out.push((0..n).map(|i| outgoing(row.get_ref(i).unwrap())).collect());
    }
    out
}

#[test]
fn execute_and_select_round_trip_with_param_binding() {
    let conn = migrated_conn();
    let affected = execute(
        &conn,
        "INSERT INTO sessions (id, title, source) VALUES ($1, $2, $3)",
        &[
            JsonValue::from("s1"),
            JsonValue::from("Title"),
            JsonValue::from("Mic"),
        ],
    );
    assert_eq!(affected, 1);
    let rows = select(
        &conn,
        "SELECT id, title, total_segments FROM sessions WHERE id = $1",
        &[JsonValue::from("s1")],
    );
    assert_eq!(rows.len(), 1);
    assert_eq!(rows[0][0], JsonValue::from("s1"));
    assert_eq!(rows[0][1], JsonValue::from("Title"));
    assert_eq!(rows[0][2], JsonValue::from(0));
}

#[test]
fn value_mapping_int_float_text_blob_null() {
    let conn = migrated_conn();
    execute(
        &conn,
        "CREATE TABLE vals (i INTEGER, f REAL, t TEXT, b BLOB, n TEXT)",
        &[],
    );
    execute(
        &conn,
        "INSERT INTO vals (i, f, t, b, n) VALUES (42, 3.5, 'hi', x'01020304', NULL)",
        &[],
    );
    let rows = select(&conn, "SELECT i, f, t, b, n FROM vals", &[]);
    let r = &rows[0];
    assert_eq!(r[0], JsonValue::from(42));
    assert_eq!(r[1], JsonValue::from(3.5));
    assert_eq!(r[2], JsonValue::from("hi"));
    assert_eq!(r[3], JsonValue::from(vec![1, 2, 3, 4]));
    assert_eq!(r[4], JsonValue::Null);
}

#[test]
fn number_param_binds_like_plugin_and_reads_back_by_affinity() {
    let conn = migrated_conn();
    execute(&conn, "CREATE TABLE t (i INTEGER, r REAL)", &[]);
    execute(
        &conn,
        "INSERT INTO t (i, r) VALUES ($1, $2)",
        &[JsonValue::from(7), JsonValue::from(2.5)],
    );
    let rows = select(&conn, "SELECT i, r FROM t", &[]);
    assert_eq!(rows[0][0], JsonValue::from(7));
    assert_eq!(rows[0][1], JsonValue::from(2.5));
}

#[test]
fn values_that_json_cannot_hold() {
    assert!(matches!(
        value_ref_to_json(StoredValue::Real(Double {
            bits: f64::INFINITY.to_bits()
        })),
        ReplyValue::Null
    ));
    match value_ref_to_json(StoredValue::Text(vec![b'a', 0xff, b'b'])) {
        ReplyValue::Text(s) => assert_eq!(s, "a\u{fffd}b"),
        other => panic!("unexpected {:?}", other),
    }
    assert!(matches!(
        bind_value(RequestValue::Bool(true)),
        BoundValue::Integer(1)
    ));
    assert!(matches!(
        bind_value(RequestValue::Composite("[1]".to_string())),
        BoundValue::Text(s) if s == "[1]"
    ));
}

// --- The sweep at start-up ---

#[test]
fn db_was_crr_prepared_detects_clock_shadow_table() {
    let conn = migrated_conn();
    assert!(
        !table_exists(&conn, CLOCK_TABLE),
        "a freshly-migrated DB has never been CRR-prepared"
    );
    mark_crr_prepared(&conn);
    assert!(
        table_exists(&conn, CLOCK_TABLE),
        "presence of sessions__crsql_clock means the DB was CRR-prepared"
    );
}

#[test]
fn final_foreign_rows_are_never_touched_sync_on() {
    let conn = migrated_conn();
    insert_recording_owned(&conn, "f-empty-fresh", "datetime('now')", Some(PEER));
    insert_recording_owned(
        &conn,
        "f-empty-stale",
        "datetime('now', '-1 hour')",
        Some(PEER),
    );
    insert_recording_owned(&conn, "f-full-fresh", "datetime('now')", Some(PEER));
    insert_segment(&conn, "sf1", "f-full-fresh", "datetime('now')");
    insert_recording_owned(
        &conn,
        "f-full-stale",
        "datetime('now', '-1 hour')",
        Some(PEER),
    );
    insert_segment(&conn, "sf2", "f-full-stale", "datetime('now', '-1 hour')");

    sweep(&conn, Some(ME));

    for id in [
        "f-empty-fresh",
        "f-empty-stale",
        "f-full-fresh",
        "f-full-stale",
    ] {
        assert!(
            session_exists(&conn, id),
            "{id}: foreign row must not be deleted"
        );
        assert_eq!(
            session_status(&conn, id),
            "recording",
            "{id}: foreign row must not be finalized"
        );
    }
}

#[test]
fn final_foreign_rows_are_never_touched_even_sync_off() {
    let conn = migrated_conn();
    insert_recording_owned(&conn, "peer-live", "datetime('now', '-1 hour')", Some(PEER));
    insert_segment(&conn, "sp", "peer-live", "datetime('now', '-1 hour')");

    sweep(&conn, None);

    assert!(session_exists(&conn, "peer-live"));
    assert_eq!(session_status(&conn, "peer-live"), "recording");
}

#[test]
fn final_owned_rows_finalize_regardless_of_stale_and_empties_delete() {
    let conn = migrated_conn();
    insert_recording_owned(&conn, "own-full-fresh", "datetime('now')", Some(ME));
    insert_segment(&conn, "of1", "own-full-fresh", "datetime('now')");
    insert_recording_owned(
        &conn,
        "own-full-stale",
        "datetime('now', '-1 hour')",
        Some(ME),
    );
    insert_segment(&conn, "of2", "own-full-stale", "datetime('now', '-1 hour')");
    insert_recording_owned(&conn, "own-empty", "datetime('now')", Some(ME));

    sweep(&conn, Some(ME));

    assert_eq!(session_status(&conn, "own-full-fresh"), "completed");
    assert_eq!(session_status(&conn, "own-full-stale"), "completed");
    assert!(
        !session_exists(&conn, "own-empty"),
        "an owned empty recording row is delete-eligible on a sync-on device"
    );
}

#[test]
fn final_null_owner_sync_on_never_deleted_finalized_only_when_stale() {
    let conn = migrated_conn();
    insert_recording(&conn, "null-empty-stale", "datetime('now', '-1 hour')");
    insert_recording(&conn, "null-empty-fresh", "datetime('now')");
    insert_recording(&conn, "null-full-stale", "datetime('now', '-1 hour')");
    insert_segment(
        &conn,
        "nfs",
        "null-full-stale",
        "datetime('now', '-1 hour')",
    );
    insert_recording(&conn, "null-full-fresh", "datetime('now')");
    insert_segment(&conn, "nff", "null-full-fresh", "datetime('now')");

    sweep(&conn, Some(ME));

    assert!(
        session_exists(&conn, "null-empty-stale"),
        "NULL-owner row on sync-on must never be DELETEd"
    );
    assert!(session_exists(&conn, "null-empty-fresh"));
    assert_eq!(session_status(&conn, "null-empty-stale"), "completed");
    assert_eq!(session_status(&conn, "null-empty-fresh"), "recording");
    assert_eq!(session_status(&conn, "null-full-stale"), "completed");
    assert_eq!(
        session_status(&conn, "null-full-fresh"),
        "recording",
        "a fresh NULL-owner row may be a not-yet-updated live peer"
    );
}

#[test]
fn final_sync_off_deletes_empties_and_finalizes_stale() {
    let conn = migrated_conn();
    insert_recording(&conn, "off-empty-stale", "datetime('now', '-1 hour')");
    insert_recording(&conn, "off-empty-fresh", "datetime('now')");
    insert_recording(&conn, "off-full-stale", "datetime('now', '-1 hour')");
    insert_segment(&conn, "ofs", "off-full-stale", "datetime('now', '-1 hour')");
    insert_recording(&conn, "off-full-fresh", "datetime('now')");
    insert_segment(&conn, "off", "off-full-fresh", "datetime('now')");

    sweep(&conn, None);

    assert!(
        !session_exists(&conn, "off-empty-stale"),
        "sync-off empties delete"
    );
    assert!(
        !session_exists(&conn, "off-empty-fresh"),
        "sync-off empties delete"
    );
    assert_eq!(session_status(&conn, "off-full-stale"), "completed");
    assert_eq!(session_status(&conn, "off-full-fresh"), "recording");
}

#[test]
fn close_orphaned_recordings_never_crr_runs_sync_off_rule() {
    let conn = migrated_conn();
    insert_recording(&conn, "e", "datetime('now', '-1 hour')");
    insert_recording(&conn, "s", "datetime('now', '-1 hour')");
    insert_segment(&conn, "sseg", "s", "datetime('now', '-1 hour')");

    close(&conn, None);

    assert!(
        !session_exists(&conn, "e"),
        "sync-off empty deleted at boot"
    );
    assert_eq!(session_status(&conn, "s"), "completed");
}

#[test]
fn close_orphaned_recordings_crr_prepared_no_fingerprint_touches_nothing() {
    let conn = migrated_conn();
    mark_crr_prepared(&conn);
    insert_recording_owned(&conn, "own-stale", "datetime('now', '-1 hour')", Some(ME));
    insert_segment(&conn, "os", "own-stale", "datetime('now', '-1 hour')");
    insert_recording_owned(
        &conn,
        "peer-stale",
        "datetime('now', '-1 hour')",
        Some(PEER),
    );
    insert_recording(&conn, "null-empty-stale", "datetime('now', '-1 hour')");

    close(&conn, None);

    for id in ["own-stale", "peer-stale", "null-empty-stale"] {
        assert!(session_exists(&conn, id), "{id} must not be deleted");
        assert_eq!(
            session_status(&conn, id),
            "recording",
            "{id} must stay 'recording' on a CRR-prepared DB with no fingerprint"
        );
    }
}

#[test]
fn close_orphaned_recordings_crr_prepared_with_fingerprint_runs_owner_scoped_rule() {
    let conn = migrated_conn();
    mark_crr_prepared(&conn);
    insert_recording_owned(&conn, "own-stale", "datetime('now', '-1 hour')", Some(ME));
    insert_segment(&conn, "os", "own-stale", "datetime('now', '-1 hour')");
    insert_recording_owned(&conn, "own-empty", "datetime('now')", Some(ME));
    insert_recording_owned(
        &conn,
        "peer-stale",
        "datetime('now', '-1 hour')",
        Some(PEER),
    );
    insert_segment(&conn, "ps", "peer-stale", "datetime('now', '-1 hour')");
    insert_recording(&conn, "null-stale", "datetime('now', '-1 hour')");
    insert_segment(&conn, "ns", "null-stale", "datetime('now', '-1 hour')");
    insert_recording(&conn, "null-fresh", "datetime('now')");
    insert_segment(&conn, "nf", "null-fresh", "datetime('now')");

    close(&conn, Some(ME));

    assert_eq!(
        session_status(&conn, "own-stale"),
        "completed",
        "own crashed row must finalize"
    );
    assert!(
        !session_exists(&conn, "own-empty"),
        "own empty recording row must delete on a sync-on device"
    );
    assert!(
        session_exists(&conn, "peer-stale"),
        "foreign row must never be deleted"
    );
    assert_eq!(
        session_status(&conn, "peer-stale"),
        "recording",
        "foreign row must never be finalized"
    );
    assert_eq!(session_status(&conn, "null-stale"), "completed");
    assert_eq!(
        session_status(&conn, "null-fresh"),
        "recording",
        "a fresh NULL-owner row may be a not-yet-updated live peer"
    );
}

#[test]
fn finalizing_counts_segments_and_takes_the_length_of_the_parts() {
    let conn = migrated_conn();
    insert_recording_owned(&conn, "with-parts", "datetime('now')", Some(ME));
    insert_segment(&conn, "a", "with-parts", "datetime('now')");
    insert_segment(&conn, "b", "with-parts", "datetime('now')");
    conn.execute(
        "INSERT INTO session_audio_parts \
            (id, session_id, part_index, file_path, format, duration_seconds, sample_rate, created_at) \
         VALUES ('p', 'with-parts', 0, '/a', 'wav', 9.5, 48000, 'now')",
        [],
    )
    .unwrap();
    sweep(&conn, Some(ME));
    let (n, d): (i64, f64) = conn
        .query_row(
            "SELECT total_segments, duration_seconds FROM sessions WHERE id = 'with-parts'",
            [],
            |r| Ok((r.get(0)?, r.get(1)?)),
        )
        .unwrap();
    assert_eq!(n, 2);
    assert_eq!(d, 9.5);
}

#[test]
fn the_sweep_works_without_a_table_of_parts() {
    let conn = migrated_conn();
    conn.execute_batch("DROP TABLE session_audio_parts;").unwrap();
    insert_recording(&conn, "empty", "datetime('now')");
    insert_recording(&conn, "full", "datetime('now', '-1 hour')");
    insert_segment(&conn, "seg", "full", "datetime('now', '-4 minutes')");
    close(&conn, None);
    assert!(!session_exists(&conn, "empty"));
    assert_eq!(session_status(&conn, "full"), "completed");
}

#[test]
fn what_the_sweep_did_is_counted() {
    assert_eq!(stale_modifier(), "-3 minutes");
    let actions = vec![SweepAction::Delete, SweepAction::Leave, SweepAction::Delete];
    assert_eq!(count_actions(&actions, SweepAction::Delete), 2);
    assert_eq!(count_actions(&actions, SweepAction::Finalize), 0);
    assert!(ensure_runtime_schema(true, true, true));
    assert!(!ensure_runtime_schema(true, true, false));
    assert!(may_reconcile(true, true, true, true));
    assert!(!may_reconcile(true, true, true, false));
    let conn = Connection::open_in_memory().unwrap();
    conn.execute(AUDIO_SAVE_LOCATIONS_DDL, []).unwrap();
    assert!(table_exists(&conn, "audio_save_locations"));
}
