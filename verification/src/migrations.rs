//! The schema, as an ordered list of migrations.

use vstd::prelude::*;

verus! {

/// One step of the schema.
#[derive(Clone, Copy, Debug)]
pub struct Migration {
    pub version: i64,
    pub description: &'static str,
    pub sql: &'static str,
}

/// Sessions and their segments.
pub const SCHEMA_01: &'static str = r#"
            CREATE TABLE sessions (
                id TEXT PRIMARY KEY,
                title TEXT NOT NULL DEFAULT '',
                created_at TEXT NOT NULL DEFAULT (datetime('now')),
                updated_at TEXT NOT NULL DEFAULT (datetime('now')),
                source TEXT NOT NULL DEFAULT 'Mixed',
                status TEXT NOT NULL DEFAULT 'recording',
                duration_seconds REAL,
                total_segments INTEGER NOT NULL DEFAULT 0
            );

            CREATE TABLE segments (
                id TEXT PRIMARY KEY,
                session_id TEXT NOT NULL,
                source TEXT NOT NULL,
                text TEXT NOT NULL,
                audio_offset_seconds REAL NOT NULL,
                chunk_duration_seconds REAL NOT NULL,
                confidence REAL NOT NULL DEFAULT 1.0,
                created_at TEXT NOT NULL DEFAULT (datetime('now')),
                chunk_index INTEGER NOT NULL DEFAULT 0,
                FOREIGN KEY (session_id) REFERENCES sessions(id) ON DELETE CASCADE
            );

            CREATE INDEX idx_segments_session_id ON segments(session_id);
            CREATE INDEX idx_segments_offset ON segments(session_id, audio_offset_seconds);
            CREATE INDEX idx_sessions_created ON sessions(created_at DESC);
        "#;

/// Folders, pins, and the folder of a session.
pub const SCHEMA_02: &'static str = r#"
            CREATE TABLE folders (
                id TEXT PRIMARY KEY,
                name TEXT NOT NULL,
                parent_id TEXT REFERENCES folders(id) ON DELETE SET NULL,
                sort_order INTEGER NOT NULL DEFAULT 0,
                created_at TEXT NOT NULL DEFAULT (datetime('now')),
                updated_at TEXT NOT NULL DEFAULT (datetime('now'))
            );
            CREATE INDEX idx_folders_parent ON folders(parent_id);

            ALTER TABLE sessions ADD COLUMN folder_id TEXT REFERENCES folders(id) ON DELETE SET NULL;
            ALTER TABLE sessions ADD COLUMN is_pinned INTEGER NOT NULL DEFAULT 0;
            ALTER TABLE sessions ADD COLUMN pinned_at TEXT;
            CREATE INDEX idx_sessions_folder ON sessions(folder_id);
            CREATE INDEX idx_sessions_pinned ON sessions(is_pinned, pinned_at DESC);
        "#;

/// Columns for edited, hidden and deleted segments.
pub const SCHEMA_03: &'static str = r#"
            ALTER TABLE segments ADD COLUMN original_text TEXT;
            ALTER TABLE segments ADD COLUMN edited_at TEXT;
            ALTER TABLE segments ADD COLUMN deleted_at TEXT;
            ALTER TABLE segments ADD COLUMN hidden INTEGER NOT NULL DEFAULT 0;
        "#;

/// Notes with their versions, and the type of a session.
pub const SCHEMA_04: &'static str = r#"
            CREATE TABLE notes (
                id TEXT PRIMARY KEY,
                session_id TEXT NOT NULL UNIQUE,
                content TEXT NOT NULL DEFAULT '',
                updated_at TEXT NOT NULL DEFAULT (datetime('now')),
                FOREIGN KEY (session_id) REFERENCES sessions(id) ON DELETE CASCADE
            );

            CREATE TABLE note_versions (
                id TEXT PRIMARY KEY,
                note_id TEXT NOT NULL,
                content TEXT NOT NULL,
                created_at TEXT NOT NULL DEFAULT (datetime('now')),
                FOREIGN KEY (note_id) REFERENCES notes(id) ON DELETE CASCADE
            );
            CREATE INDEX idx_note_versions_note ON note_versions(note_id, created_at DESC);

            ALTER TABLE sessions ADD COLUMN session_type TEXT NOT NULL DEFAULT 'transcription';
        "#;

/// The recording of a session as one file.
pub const SCHEMA_05: &'static str = r#"
            ALTER TABLE sessions ADD COLUMN wav_file_path TEXT;
            ALTER TABLE sessions ADD COLUMN wav_duration_seconds REAL;
        "#;

/// The order of sessions, and shares.
pub const SCHEMA_06: &'static str = r#"
            ALTER TABLE sessions ADD COLUMN sort_order INTEGER NOT NULL DEFAULT 0;

            CREATE TABLE shares (
                id TEXT PRIMARY KEY,
                folder_id TEXT NOT NULL,
                shared_with_email TEXT,
                permission TEXT NOT NULL DEFAULT 'viewer',
                created_at TEXT NOT NULL DEFAULT (datetime('now')),
                expires_at TEXT,
                FOREIGN KEY (folder_id) REFERENCES folders(id) ON DELETE CASCADE
            );
            CREATE INDEX idx_shares_folder ON shares(folder_id);
        "#;

/// Chat messages.
pub const SCHEMA_07: &'static str = r#"
            CREATE TABLE chat_messages (
                id TEXT PRIMARY KEY,
                session_id TEXT NOT NULL,
                role TEXT NOT NULL,
                content TEXT NOT NULL,
                action TEXT,
                created_at TEXT NOT NULL DEFAULT (datetime('now')),
                FOREIGN KEY (session_id) REFERENCES sessions(id) ON DELETE CASCADE
            );
            CREATE INDEX idx_chat_messages_session ON chat_messages(session_id, created_at ASC);
        "#;

/// Chat messages by context, with or without a session.
pub const SCHEMA_08: &'static str = r#"
            CREATE TABLE chat_messages_new (
                id TEXT PRIMARY KEY,
                context_key TEXT NOT NULL,
                session_id TEXT,
                role TEXT NOT NULL,
                content TEXT NOT NULL,
                action TEXT,
                created_at TEXT NOT NULL DEFAULT (datetime('now')),
                FOREIGN KEY (session_id) REFERENCES sessions(id) ON DELETE CASCADE
            );
            INSERT INTO chat_messages_new (id, context_key, session_id, role, content, action, created_at)
            SELECT id, session_id, session_id, role, content, action, created_at FROM chat_messages;
            DROP TABLE chat_messages;
            ALTER TABLE chat_messages_new RENAME TO chat_messages;
            CREATE INDEX idx_chat_messages_context ON chat_messages(context_key, created_at ASC);
            CREATE INDEX idx_chat_messages_session ON chat_messages(session_id);
        "#;

/// Folder metadata, and sessions in several folders.
pub const SCHEMA_09: &'static str = r#"
            ALTER TABLE folders ADD COLUMN icon TEXT;
            ALTER TABLE folders ADD COLUMN color TEXT;
            ALTER TABLE folders ADD COLUMN description TEXT;

            CREATE TABLE session_folders (
                session_id TEXT NOT NULL,
                folder_id TEXT NOT NULL,
                created_at TEXT NOT NULL DEFAULT (datetime('now')),
                PRIMARY KEY (session_id, folder_id),
                FOREIGN KEY (session_id) REFERENCES sessions(id) ON DELETE CASCADE,
                FOREIGN KEY (folder_id) REFERENCES folders(id) ON DELETE CASCADE
            );
            CREATE INDEX idx_session_folders_folder ON session_folders(folder_id);
            CREATE INDEX idx_session_folders_session ON session_folders(session_id);

            INSERT INTO session_folders (session_id, folder_id)
            SELECT id, folder_id FROM sessions WHERE folder_id IS NOT NULL;
        "#;

/// The history of dictations.
pub const SCHEMA_10: &'static str = r#"
            CREATE TABLE dictation_history (
                id TEXT PRIMARY KEY,
                slot_id TEXT NOT NULL,
                slot_name TEXT NOT NULL,
                input_text TEXT NOT NULL,
                output_text TEXT NOT NULL,
                ai_enabled INTEGER NOT NULL DEFAULT 0,
                ai_prompt TEXT,
                output_action TEXT NOT NULL,
                wav_file_path TEXT,
                wav_duration_seconds REAL,
                session_id TEXT,
                created_at TEXT NOT NULL DEFAULT (datetime('now'))
            );
            CREATE INDEX idx_dictation_history_created ON dictation_history(created_at DESC);
            CREATE INDEX idx_dictation_history_slot ON dictation_history(slot_id);
        "#;

/// Tags.
pub const SCHEMA_11: &'static str = r#"
            CREATE TABLE tags (
                id TEXT PRIMARY KEY,
                name TEXT NOT NULL UNIQUE COLLATE NOCASE,
                color TEXT,
                created_at TEXT NOT NULL DEFAULT (datetime('now'))
            );
            CREATE INDEX idx_tags_name ON tags(name);

            CREATE TABLE session_tags (
                session_id TEXT NOT NULL,
                tag_id TEXT NOT NULL,
                source TEXT NOT NULL DEFAULT 'manual',
                confidence REAL,
                created_at TEXT NOT NULL DEFAULT (datetime('now')),
                PRIMARY KEY (session_id, tag_id),
                FOREIGN KEY (session_id) REFERENCES sessions(id) ON DELETE CASCADE,
                FOREIGN KEY (tag_id) REFERENCES tags(id) ON DELETE CASCADE
            );
            CREATE INDEX idx_session_tags_tag ON session_tags(tag_id);
            CREATE INDEX idx_session_tags_session ON session_tags(session_id);
        "#;

/// Full-text search, kept up to date by triggers.
pub const SCHEMA_12: &'static str = r#"
            -- Contentless FTS5 tables that own their searchable text plus the
            -- source-row TEXT primary key as UNINDEXED columns. Search queries
            -- return the PK directly; no rowid mapping needed for our UUID PKs.

            CREATE VIRTUAL TABLE segments_fts USING fts5(
                segment_id UNINDEXED,
                session_id UNINDEXED,
                text,
                tokenize = 'porter unicode61 remove_diacritics 2'
            );

            CREATE VIRTUAL TABLE notes_fts USING fts5(
                note_id UNINDEXED,
                session_id UNINDEXED,
                content,
                tokenize = 'porter unicode61 remove_diacritics 2'
            );

            CREATE VIRTUAL TABLE sessions_fts USING fts5(
                session_id UNINDEXED,
                title,
                tokenize = 'porter unicode61 remove_diacritics 2'
            );

            CREATE VIRTUAL TABLE dictations_fts USING fts5(
                dictation_id UNINDEXED,
                output_text,
                input_text,
                tokenize = 'porter unicode61 remove_diacritics 2'
            );

            -- Backfill from existing rows. segments_fts skips soft-deleted rows.
            INSERT INTO segments_fts (segment_id, session_id, text)
                SELECT id, session_id, text FROM segments WHERE deleted_at IS NULL;

            INSERT INTO notes_fts (note_id, session_id, content)
                SELECT id, session_id, content FROM notes;

            INSERT INTO sessions_fts (session_id, title)
                SELECT id, title FROM sessions;

            INSERT INTO dictations_fts (dictation_id, output_text, input_text)
                SELECT id, output_text, input_text FROM dictation_history;

            -- Triggers: keep FTS in sync with source tables.

            CREATE TRIGGER segments_ai AFTER INSERT ON segments
            WHEN new.deleted_at IS NULL
            BEGIN
                INSERT INTO segments_fts (segment_id, session_id, text)
                    VALUES (new.id, new.session_id, new.text);
            END;

            CREATE TRIGGER segments_ad AFTER DELETE ON segments BEGIN
                DELETE FROM segments_fts WHERE segment_id = old.id;
            END;

            CREATE TRIGGER segments_au AFTER UPDATE ON segments BEGIN
                DELETE FROM segments_fts WHERE segment_id = old.id;
                INSERT INTO segments_fts (segment_id, session_id, text)
                    SELECT new.id, new.session_id, new.text WHERE new.deleted_at IS NULL;
            END;

            CREATE TRIGGER notes_ai AFTER INSERT ON notes BEGIN
                INSERT INTO notes_fts (note_id, session_id, content)
                    VALUES (new.id, new.session_id, new.content);
            END;

            CREATE TRIGGER notes_ad AFTER DELETE ON notes BEGIN
                DELETE FROM notes_fts WHERE note_id = old.id;
            END;

            CREATE TRIGGER notes_au AFTER UPDATE ON notes BEGIN
                DELETE FROM notes_fts WHERE note_id = old.id;
                INSERT INTO notes_fts (note_id, session_id, content)
                    VALUES (new.id, new.session_id, new.content);
            END;

            CREATE TRIGGER sessions_ai AFTER INSERT ON sessions BEGIN
                INSERT INTO sessions_fts (session_id, title)
                    VALUES (new.id, new.title);
            END;

            CREATE TRIGGER sessions_ad AFTER DELETE ON sessions BEGIN
                DELETE FROM sessions_fts WHERE session_id = old.id;
            END;

            CREATE TRIGGER sessions_au AFTER UPDATE OF title ON sessions BEGIN
                DELETE FROM sessions_fts WHERE session_id = old.id;
                INSERT INTO sessions_fts (session_id, title)
                    VALUES (new.id, new.title);
            END;

            CREATE TRIGGER dictations_ai AFTER INSERT ON dictation_history BEGIN
                INSERT INTO dictations_fts (dictation_id, output_text, input_text)
                    VALUES (new.id, new.output_text, new.input_text);
            END;

            CREATE TRIGGER dictations_ad AFTER DELETE ON dictation_history BEGIN
                DELETE FROM dictations_fts WHERE dictation_id = old.id;
            END;

            CREATE TRIGGER dictations_au AFTER UPDATE ON dictation_history BEGIN
                DELETE FROM dictations_fts WHERE dictation_id = old.id;
                INSERT INTO dictations_fts (dictation_id, output_text, input_text)
                    VALUES (new.id, new.output_text, new.input_text);
            END;
        "#;

/// Tool calls of chat messages.
pub const SCHEMA_13: &'static str = r#"
            ALTER TABLE chat_messages ADD COLUMN tool_calls TEXT;
        "#;

/// One row for every response, grouped by `send_id` and ordered by `sequence`. Every
/// earlier row becomes a group of its own.
pub const SCHEMA_14: &'static str = r#"
            ALTER TABLE chat_messages ADD COLUMN send_id TEXT;
            ALTER TABLE chat_messages ADD COLUMN sequence INTEGER;
            ALTER TABLE chat_messages ADD COLUMN tool_call_id TEXT;
            ALTER TABLE chat_messages ADD COLUMN observation TEXT;
            ALTER TABLE chat_messages ADD COLUMN status TEXT;
            UPDATE chat_messages SET send_id = id WHERE send_id IS NULL;
            UPDATE chat_messages SET sequence = 0 WHERE sequence IS NULL;
            CREATE INDEX IF NOT EXISTS idx_chat_messages_send
                ON chat_messages(context_key, send_id, sequence);
        "#;

/// The parts of a recording. A session with one file becomes a session with one part.
/// Every statement may run again: what is there is left alone.
pub const SCHEMA_15: &'static str = r#"
            CREATE TABLE IF NOT EXISTS session_audio_parts (
                id TEXT PRIMARY KEY,
                session_id TEXT NOT NULL REFERENCES sessions(id) ON DELETE CASCADE,
                part_index INTEGER NOT NULL,
                file_path TEXT NOT NULL,
                format TEXT NOT NULL CHECK (format IN ('wav','mp3')),
                duration_seconds REAL NOT NULL,
                sample_rate INTEGER NOT NULL,
                created_at TEXT NOT NULL,
                UNIQUE (session_id, part_index)
            );
            CREATE INDEX IF NOT EXISTS idx_audio_parts_session
                ON session_audio_parts(session_id, part_index);

            INSERT OR IGNORE INTO session_audio_parts (
                id, session_id, part_index, file_path, format,
                duration_seconds, sample_rate, created_at
            )
            SELECT
                lower(hex(randomblob(16))),
                id,
                0,
                wav_file_path,
                CASE WHEN wav_file_path LIKE '%.mp3' THEN 'mp3' ELSE 'wav' END,
                COALESCE(wav_duration_seconds, 0),
                48000,
                COALESCE(updated_at, created_at)
            FROM sessions
            WHERE wav_file_path IS NOT NULL;
        "#;

/// The device that records a session. It stays a single statement, so that it can be
/// applied to a replicated table as one alteration.
pub const SCHEMA_16: &'static str = r#"
            ALTER TABLE sessions ADD COLUMN recording_device_id TEXT;
        "#;

/// The profile chosen for a chat context; a null profile stands for the default.
pub const SCHEMA_17: &'static str = r#"
            CREATE TABLE IF NOT EXISTS chat_context_settings (
                context_key TEXT PRIMARY KEY,
                profile_id  TEXT NULL,
                updated_at  TEXT NOT NULL
            );
        "#;

/// Every migration, the earliest first.
pub open spec fn all_migrations() -> Seq<Migration> {
    seq![
        Migration {
            version: 1,
            description: "create sessions and segments tables",
            sql: SCHEMA_01,
        },
        Migration {
            version: 2,
            description: "add folders, pins, and folder_id to sessions",
            sql: SCHEMA_02,
        },
        Migration {
            version: 3,
            description: "add segment editing columns",
            sql: SCHEMA_03,
        },
        Migration {
            version: 4,
            description: "add notes, note_versions, and session_type",
            sql: SCHEMA_04,
        },
        Migration {
            version: 5,
            description: "add wav file path and duration to sessions",
            sql: SCHEMA_05,
        },
        Migration {
            version: 6,
            description: "add sort_order to sessions and shares table",
            sql: SCHEMA_06,
        },
        Migration {
            version: 7,
            description: "add chat_messages table for AI chat persistence",
            sql: SCHEMA_07,
        },
        Migration {
            version: 8,
            description: "add context_key to chat_messages, make session_id nullable",
            sql: SCHEMA_08,
        },
        Migration {
            version: 9,
            description: "add folder metadata and session_folders junction table",
            sql: SCHEMA_09,
        },
        Migration {
            version: 10,
            description: "add dictation_history table",
            sql: SCHEMA_10,
        },
        Migration {
            version: 11,
            description: "add tags and session_tags tables",
            sql: SCHEMA_11,
        },
        Migration {
            version: 12,
            description: "add FTS5 search tables for segments, notes, sessions, dictation_history",
            sql: SCHEMA_12,
        },
        Migration {
            version: 13,
            description: "add tool_calls JSON column to chat_messages",
            sql: SCHEMA_13,
        },
        Migration {
            version: 14,
            description: "per-LLM-response chat_messages rows for tool replay",
            sql: SCHEMA_14,
        },
        Migration {
            version: 15,
            description: "session_audio_parts table + backfill from sessions.wav_file_path",
            sql: SCHEMA_15,
        },
        Migration {
            version: 16,
            description: "sessions.recording_device_id attribution column (LIVE_SESSION_STATE D2)",
            sql: SCHEMA_16,
        },
        Migration {
            version: 17,
            description: "chat_context_settings table (per-chat-context Profile override)",
            sql: SCHEMA_17,
        },
    ]
}

/// Every migration, the earliest first.
pub fn migrations() -> (r: Vec<Migration>)
    ensures
        r@ == all_migrations(),
{
    vec![
        Migration {
            version: 1,
            description: "create sessions and segments tables",
            sql: SCHEMA_01,
        },
        Migration {
            version: 2,
            description: "add folders, pins, and folder_id to sessions",
            sql: SCHEMA_02,
        },
        Migration {
            version: 3,
            description: "add segment editing columns",
            sql: SCHEMA_03,
        },
        Migration {
            version: 4,
            description: "add notes, note_versions, and session_type",
            sql: SCHEMA_04,
        },
        Migration {
            version: 5,
            description: "add wav file path and duration to sessions",
            sql: SCHEMA_05,
        },
        Migration {
            version: 6,
            description: "add sort_order to sessions and shares table",
            sql: SCHEMA_06,
        },
        Migration {
            version: 7,
            description: "add chat_messages table for AI chat persistence",
            sql: SCHEMA_07,
        },
        Migration {
            version: 8,
            description: "add context_key to chat_messages, make session_id nullable",
            sql: SCHEMA_08,
        },
        Migration {
            version: 9,
            description: "add folder metadata and session_folders junction table",
            sql: SCHEMA_09,
        },
        Migration {
            version: 10,
            description: "add dictation_history table",
            sql: SCHEMA_10,
        },
        Migration {
            version: 11,
            description: "add tags and session_tags tables",
            sql: SCHEMA_11,
        },
        Migration {
            version: 12,
            description: "add FTS5 search tables for segments, notes, sessions, dictation_history",
            sql: SCHEMA_12,
        },
        Migration {
            version: 13,
            description: "add tool_calls JSON column to chat_messages",
            sql: SCHEMA_13,
        },
        Migration {
            version: 14,
            description: "per-LLM-response chat_messages rows for tool replay",
            sql: SCHEMA_14,
        },
        Migration {
            version: 15,
            description: "session_audio_parts table + backfill from sessions.wav_file_path",
            sql: SCHEMA_15,
        },
        Migration {
            version: 16,
            description: "sessions.recording_device_id attribution column (LIVE_SESSION_STATE D2)",
            sql: SCHEMA_16,
        },
        Migration {
            version: 17,
            description: "chat_context_settings table (per-chat-context Profile override)",
            sql: SCHEMA_17,
        },
    ]
}

/// The versions count up from one without a gap.
pub proof fn law_versions_count_up(i: int)
    requires
        0 <= i < all_migrations().len(),
    ensures
        all_migrations()[i].version == i + 1,
{
}

} // verus!
