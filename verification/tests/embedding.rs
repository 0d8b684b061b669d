use rusqlite::Connection;
use yapstack::embedding::{
    check_length, content_hash, count_written, delete_rows, embedding_model_status,
    ensure_supervisor, hex_text, inner_k, lookup_sql, missing_sql, plan_by_hash, rank_hits,
    require_model, row_sql, search_is_idle, search_sql, session_rows_sql, supervisor_missing,
    text_to_embed, upsert, vec_table_sql, vec_to_bytes, BatchOutcome, EmbedStep, EmbeddingMeta,
    EmbeddingModel, RowStatement, SearchHit, SourceKind, SourceKindDto, SupervisorStep,
    SurfaceHits, UpsertPlan, EMBEDDING_DIMENSIONS,
};
use yapstack::error::CommandError;
use yapstack::single::Single;

fn s(x: f32) -> Single {
    Single { bits: x.to_bits() }
}

fn fake_vec(seed: f32) -> Vec<Single> {
    (0..EMBEDDING_DIMENSIONS)
        .map(|i| s(seed + (i as f32) * 0.001))
        .collect()
}

/// The tables of the index, with plain tables in the place of the vector tables.
fn setup() -> Connection {
    let conn = Connection::open_in_memory().unwrap();
    conn.execute_batch(
        "CREATE TABLE sessions (id TEXT PRIMARY KEY);
         CREATE TABLE segments (
            id TEXT PRIMARY KEY, session_id TEXT, text TEXT,
            deleted_at TEXT, hidden INTEGER NOT NULL DEFAULT 0
         );
         CREATE TABLE notes (
            id TEXT PRIMARY KEY, session_id TEXT, content TEXT
         );
         CREATE TABLE dictation_history (
            id TEXT PRIMARY KEY, session_id TEXT,
            input_text TEXT, output_text TEXT
         );
         CREATE TABLE segment_embeddings_meta (
            rowid INTEGER PRIMARY KEY, segment_id TEXT NOT NULL UNIQUE,
            content_hash TEXT NOT NULL, model_name TEXT NOT NULL,
            model_version TEXT NOT NULL, dimensions INTEGER NOT NULL,
            created_at TEXT NOT NULL, updated_at TEXT NOT NULL
         );
         CREATE TABLE dictation_embeddings_meta (
            rowid INTEGER PRIMARY KEY, dictation_id TEXT NOT NULL UNIQUE,
            content_hash TEXT NOT NULL, model_name TEXT NOT NULL,
            model_version TEXT NOT NULL, dimensions INTEGER NOT NULL,
            created_at TEXT NOT NULL, updated_at TEXT NOT NULL
         );
         CREATE TABLE note_embeddings_meta (
            rowid INTEGER PRIMARY KEY, note_id TEXT NOT NULL UNIQUE,
            content_hash TEXT NOT NULL, model_name TEXT NOT NULL,
            model_version TEXT NOT NULL, dimensions INTEGER NOT NULL,
            created_at TEXT NOT NULL, updated_at TEXT NOT NULL
         );
         CREATE TABLE segment_embeddings_vec (embedding BLOB);
         CREATE TABLE dictation_embeddings_vec (embedding BLOB);
         CREATE TABLE note_embeddings_vec (embedding BLOB);",
    )
    .unwrap();
    conn
}

fn store(conn: &Connection, kind: SourceKind, id: &str, text: &str, v: &Vec<Single>) -> bool {
    let existing = conn
        .query_row(&lookup_sql(kind), [id], |r| {
            Ok(EmbeddingMeta {
                rowid: r.get(0)?,
                content_hash: r.get(1)?,
                model_name: r.get(2)?,
                model_version: r.get(3)?,
            })
        })
        .ok();
    let (plan, hash) = upsert(text, v.len(), "bge-small-en-v1.5", "1.5.0", &existing).unwrap();
    let dims = EMBEDDING_DIMENSIONS as i64;
    for statement in plan.statements() {
        let sql = statement.sql(kind);
        let done = match statement {
            RowStatement::DeleteVector(row) | RowStatement::DeleteMeta(row) => {
                conn.execute(&sql, [row])
            }
            RowStatement::InsertVectorAt(row) => conn.execute(&sql, (row, vec_to_bytes(v))),
            RowStatement::InsertVector => conn.execute(&sql, [vec_to_bytes(v)]),
            RowStatement::UpdateMeta(row) => conn.execute(
                &sql,
                (&hash, "bge-small-en-v1.5", "1.5.0", dims, "now", row),
            ),
            RowStatement::InsertMeta => conn.execute(
                &sql,
                (
                    conn.last_insert_rowid(),
                    id,
                    &hash,
                    "bge-small-en-v1.5",
                    "1.5.0",
                    dims,
                    "now",
                    "now",
                ),
            ),
        };
        assert_eq!(done.unwrap(), 1);
    }
    plan.is_write()
}

/// The rows of both tables of a surface.
fn rows_of(conn: &Connection, kind: SourceKind) -> (Vec<i64>, Vec<i64>) {
    let read = |table: &str| -> Vec<i64> {
        conn.prepare(&format!("SELECT rowid FROM {} ORDER BY rowid", table))
            .unwrap()
            .query_map([], |r| r.get(0))
            .unwrap()
            .map(|r| r.unwrap())
            .collect()
    };
    (read(kind.vec_table()), read(kind.meta_table()))
}

#[test]
fn statements_of_an_update_by_its_plan() {
    assert!(UpsertPlan::Unchanged.statements().is_empty());
    assert_eq!(
        UpsertPlan::Replace(7).statements(),
        vec![
            RowStatement::DeleteVector(7),
            RowStatement::InsertVectorAt(7),
            RowStatement::UpdateMeta(7)
        ]
    );
    assert_eq!(
        UpsertPlan::Insert.statements(),
        vec![RowStatement::InsertVector, RowStatement::InsertMeta]
    );
    assert_eq!(
        delete_rows(&vec![3, 9]),
        vec![
            RowStatement::DeleteVector(3),
            RowStatement::DeleteMeta(3),
            RowStatement::DeleteVector(9),
            RowStatement::DeleteMeta(9)
        ]
    );
    assert!(!UpsertPlan::Unchanged.is_write());
    assert!(UpsertPlan::Insert.is_write());
}

#[test]
fn both_tables_stay_in_step() {
    let conn = setup();
    let kind = SourceKind::Note;
    for (id, text) in [("a", "x"), ("b", "y"), ("a", "z"), ("c", "w"), ("b", "y")] {
        store(&conn, kind, id, text, &fake_vec(0.3));
        let (vectors, metas) = rows_of(&conn, kind);
        assert_eq!(vectors, metas);
    }
    assert_eq!(rows_of(&conn, kind).0.len(), 3);
    let row: i64 = conn.query_row(&row_sql(kind), ["b"], |r| r.get(0)).unwrap();
    for statement in delete_rows(&vec![row]) {
        conn.execute(&statement.sql(kind), [row]).unwrap();
    }
    let (vectors, metas) = rows_of(&conn, kind);
    assert_eq!(vectors, metas);
    assert_eq!(vectors.len(), 2);
    assert!(!vectors.contains(&row));
}

#[test]
fn upsert_idempotent_on_same_text() {
    let conn = setup();
    let v = fake_vec(0.1);
    let wrote = store(&conn, SourceKind::Segment, "s1", "hello", &v);
    assert!(wrote);
    let wrote2 = store(&conn, SourceKind::Segment, "s1", "hello", &v);
    assert!(!wrote2, "same hash + model should be a no-op");
}

#[test]
fn upsert_replaces_on_text_change() {
    let conn = setup();
    store(&conn, SourceKind::Segment, "s1", "a", &fake_vec(0.1));
    let wrote = store(&conn, SourceKind::Segment, "s1", "b", &fake_vec(0.2));
    assert!(wrote);
    let count: i64 = conn
        .query_row("SELECT COUNT(*) FROM segment_embeddings_vec", [], |r| {
            r.get(0)
        })
        .unwrap();
    assert_eq!(count, 1);
    let bytes: Vec<u8> = conn
        .query_row("SELECT embedding FROM segment_embeddings_vec", [], |r| {
            r.get(0)
        })
        .unwrap();
    assert_eq!(&bytes[0..4], &0.2f32.to_le_bytes());
}

#[test]
fn delete_by_session_cascades() {
    let conn = setup();
    conn.execute_batch(
        "INSERT INTO sessions (id) VALUES ('S');
         INSERT INTO segments (id, session_id, text) VALUES ('s1', 'S', 'a');
         INSERT INTO segments (id, session_id, text) VALUES ('s2', 'S', 'b');
         INSERT INTO notes (id, session_id, content) VALUES ('n1', 'S', 'note');",
    )
    .unwrap();
    store(&conn, SourceKind::Segment, "s1", "a", &fake_vec(0.0));
    store(&conn, SourceKind::Segment, "s2", "b", &fake_vec(0.5));
    store(&conn, SourceKind::Note, "n1", "note", &fake_vec(0.7));
    let mut removed = 0;
    for kind in [SourceKind::Segment, SourceKind::Dictation, SourceKind::Note] {
        let rows: Vec<i64> = conn
            .prepare(&session_rows_sql(kind))
            .unwrap()
            .query_map(["S"], |r| r.get(0))
            .unwrap()
            .map(|r| r.unwrap())
            .collect();
        for statement in delete_rows(&rows) {
            match statement {
                RowStatement::DeleteVector(row) | RowStatement::DeleteMeta(row) => {
                    assert_eq!(conn.execute(&statement.sql(kind), [row]).unwrap(), 1);
                }
                _ => unreachable!(),
            }
        }
        removed += rows.len();
    }
    assert_eq!(removed, 3);
}

#[test]
fn missing_returns_unembedded_rows() {
    let conn = setup();
    conn.execute_batch(
        "INSERT INTO segments (id, session_id, text) VALUES ('s1', 'S', 'a');
         INSERT INTO segments (id, session_id, text) VALUES ('s2', 'S', 'b');",
    )
    .unwrap();
    store(&conn, SourceKind::Segment, "s1", "a", &fake_vec(0.0));
    let missing: Vec<(String, String)> = conn
        .prepare(&missing_sql(SourceKind::Segment))
        .unwrap()
        .query_map([10i64], |r| Ok((r.get(0)?, r.get(1)?)))
        .unwrap()
        .map(|r| r.unwrap())
        .collect();
    assert_eq!(missing.len(), 1);
    assert_eq!(missing[0].0, "s2");
}

#[test]
fn empty_notes_and_dictations_are_not_missing() {
    let conn = setup();
    conn.execute_batch(
        "INSERT INTO notes (id, content) VALUES ('n1', ' <p></p> '), ('n2', '<p>x</p>');
         INSERT INTO dictation_history (id, input_text, output_text)
            VALUES ('d1', 'raw', ''), ('d2', '', ''), ('d3', 'raw', 'out');",
    )
    .unwrap();
    let rows = |kind| -> Vec<(String, String)> {
        conn.prepare(&missing_sql(kind))
            .unwrap()
            .query_map([10i64], |r| Ok((r.get(0)?, r.get(1)?)))
            .unwrap()
            .map(|r| r.unwrap())
            .collect()
    };
    let notes = rows(SourceKind::Note);
    assert_eq!(notes.len(), 1);
    assert_eq!(notes[0].0, "n2");
    let dictations = rows(SourceKind::Dictation);
    assert_eq!(
        dictations,
        vec![
            ("d1".to_string(), "raw".to_string()),
            ("d3".to_string(), "out".to_string())
        ]
    );
}

#[test]
fn the_mark_of_a_text_is_its_digest() {
    assert_eq!(
        content_hash("hello world"),
        "b94d27b9934d3e08a52e52d7da7dabfac484efe37a5380ee9088f7ace2efcde9"
    );
    assert_eq!(
        content_hash(""),
        "e3b0c44298fc1c149afbf4c8996fb92427ae41e4649b934ca495991b7852b855"
    );
    assert_eq!(hex_text(&vec![0x00, 0x0f, 0xa0, 0xff]), "000fa0ff");
}

#[test]
fn vectors_are_stored_lowest_byte_first() {
    let v = vec![s(1.0), s(-0.15625)];
    let mut expected = 1.0f32.to_le_bytes().to_vec();
    expected.extend((-0.15625f32).to_le_bytes());
    assert_eq!(vec_to_bytes(&v), expected);
}

#[test]
fn vectors_of_the_wrong_length_are_refused() {
    assert_eq!(
        upsert("t", 3, "m", "1", &None).unwrap_err(),
        "expected 384-dim vector, got 3"
    );
    assert_eq!(
        check_length("query vector", 385).unwrap_err(),
        "expected 384-dim query vector, got 385"
    );
    assert!(check_length("vector", 384).is_ok());
}

#[test]
fn plans_by_mark_and_model() {
    let kept = Some(EmbeddingMeta {
        rowid: 9,
        content_hash: "aa".to_string(),
        model_name: "m".to_string(),
        model_version: "1".to_string(),
    });
    assert_eq!(plan_by_hash("aa", "m", "1", &kept), UpsertPlan::Unchanged);
    assert_eq!(plan_by_hash("ab", "m", "1", &kept), UpsertPlan::Replace(9));
    assert_eq!(plan_by_hash("aa", "m", "2", &kept), UpsertPlan::Replace(9));
    assert_eq!(plan_by_hash("aa", "m", "1", &None), UpsertPlan::Insert);
}

#[test]
fn statements_of_a_search() {
    assert_eq!(
        search_sql(SourceKind::Note, None),
        "SELECT m.note_id, v.distance FROM note_embeddings_vec v JOIN note_embeddings_meta m \
         ON m.rowid = v.rowid WHERE v.embedding MATCH ? AND k = ? ORDER BY v.distance LIMIT ?"
    );
    assert_eq!(
        search_sql(SourceKind::Segment, Some(2)),
        "SELECT m.segment_id, v.distance FROM segment_embeddings_vec v JOIN \
         segment_embeddings_meta m ON m.rowid = v.rowid JOIN segments s ON s.id = m.segment_id \
         WHERE v.embedding MATCH ? AND k = ? AND s.deleted_at IS NULL AND s.hidden = 0 \
         AND s.session_id IN (?,?) ORDER BY v.distance LIMIT ?"
    );
    assert!(!search_sql(SourceKind::Dictation, Some(0)).contains("IN ("));
    assert_eq!(
        row_sql(SourceKind::Dictation),
        "SELECT rowid FROM dictation_embeddings_meta WHERE dictation_id = ?"
    );
    assert_eq!(
        vec_table_sql(SourceKind::Segment),
        "CREATE VIRTUAL TABLE IF NOT EXISTS segment_embeddings_vec USING vec0(embedding FLOAT[384])"
    );
}

#[test]
fn a_scoped_search_looks_further() {
    assert_eq!(inner_k(10, false), 10);
    assert_eq!(inner_k(10, true), 320);
    assert_eq!(inner_k(100, true), 500);
    assert_eq!(inner_k(500, true), 500);
    assert!(search_is_idle("  ", 5, 1));
    assert!(search_is_idle("q", 0, 1));
    assert!(search_is_idle("q", 5, 0));
    assert!(!search_is_idle("q", 5, 1));
}

#[test]
fn hits_of_all_surfaces_are_ranked_together() {
    let hit = |id: &str, d: f32| SearchHit {
        source_id: id.to_string(),
        distance: s(d),
    };
    let results = vec![
        SurfaceHits {
            kind: SourceKindDto::Segment,
            hits: vec![hit("a", 0.5), hit("b", 0.9)],
        },
        SurfaceHits {
            kind: SourceKindDto::Note,
            hits: vec![hit("c", 0.1), hit("d", 0.5), hit("e", -0.0)],
        },
    ];
    let ranked = rank_hits(results.clone(), 4);
    let ids: Vec<&str> = ranked.iter().map(|h| h.source_id.as_str()).collect();
    assert_eq!(ids, vec!["e", "c", "a", "d"]);
    assert_eq!(ranked[2].source_kind, SourceKindDto::Segment);
    assert_eq!(ranked[3].source_kind, SourceKindDto::Note);
    assert_eq!(rank_hits(results, 50).len(), 5);
}

#[test]
fn indexing_one_text_goes_step_by_step() {
    assert_eq!(EmbedStep::first(" \n"), EmbedStep::Finished);
    let mut step = EmbedStep::first("text");
    let mut seen = vec![step];
    while step != EmbedStep::Finished {
        step = step.next(true);
        seen.push(step);
    }
    assert_eq!(
        seen,
        vec![
            EmbedStep::EnsureSupervisor,
            EmbedStep::ReadModel,
            EmbedStep::DeleteStale,
            EmbedStep::Embed,
            EmbedStep::Store,
            EmbedStep::Finished
        ]
    );
    assert_eq!(EmbedStep::Embed.next(false), EmbedStep::Failed);
    assert_eq!(text_to_embed("  hi \n").as_deref(), Some("hi"));
    assert_eq!(text_to_embed("\t"), None);
}

#[test]
fn the_model_and_its_process() {
    assert_eq!(ensure_supervisor(Some(true)), SupervisorStep::Keep);
    assert_eq!(ensure_supervisor(Some(false)), SupervisorStep::Replace);
    assert_eq!(ensure_supervisor(None), SupervisorStep::Spawn);
    let model = EmbeddingModel {
        name: "bge".to_string(),
        version: "1".to_string(),
        dimensions: 384,
    };
    let status = embedding_model_status(Some(model.clone()));
    assert!(status.ready);
    assert_eq!(status.dimensions, Some(384));
    assert!(!embedding_model_status(None).ready);
    assert_eq!(require_model(Some(model)).unwrap().name, "bge");
    assert_eq!(
        require_model(None).unwrap_err().to_string(),
        "not initialized: embedding model not ready"
    );
    assert!(matches!(
        supervisor_missing(),
        CommandError::NotInitialized { .. }
    ));
    assert_eq!(
        count_written(&vec![
            BatchOutcome::Written,
            BatchOutcome::Failed,
            BatchOutcome::Unchanged,
            BatchOutcome::Written
        ]),
        2
    );
    assert_eq!(SourceKind::from(SourceKindDto::Note), SourceKind::Note);
}
