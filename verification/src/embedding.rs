//! The index of embeddings: which tables an entry lives in, when a vector is written,
//! what a search asks for, and how the hits of several surfaces are ranked together.

use sha2::{Digest, Sha256};
use vstd::prelude::*;
use vstd::utf8::*;

use crate::error::CommandError;
use crate::single::Single;
use crate::text;

verus! {

/// How many numbers a vector holds.
pub const EMBEDDING_DIMENSIONS: usize = 384;

/// The most neighbours that a scoped search looks at.
pub const MOST_NEIGHBOURS: usize = 500;

// --- Surfaces ---

/// What an entry was made from.
#[derive(Clone, Copy, Debug, PartialEq, Eq, Structural)]
pub enum SourceKind {
    Segment,
    Dictation,
    Note,
}

/// What an entry was made from, as the frontend names it.
#[derive(Clone, Copy, Debug, PartialEq, Eq, Structural)]
pub enum SourceKindDto {
    Segment,
    Dictation,
    Note,
}

impl vstd::std_specs::convert::FromSpecImpl<SourceKindDto> for SourceKind {
    open spec fn obeys_from_spec() -> bool {
        true
    }

    open spec fn from_spec(d: SourceKindDto) -> SourceKind {
        match d {
            SourceKindDto::Segment => SourceKind::Segment,
            SourceKindDto::Dictation => SourceKind::Dictation,
            SourceKindDto::Note => SourceKind::Note,
        }
    }
}

impl From<SourceKindDto> for SourceKind {
    fn from(d: SourceKindDto) -> SourceKind {
        match d {
            SourceKindDto::Segment => SourceKind::Segment,
            SourceKindDto::Dictation => SourceKind::Dictation,
            SourceKindDto::Note => SourceKind::Note,
        }
    }
}

impl SourceKind {
    /// The name of the table of vectors.
    pub open spec fn vec_name(self) -> Seq<char> {
        match self {
            SourceKind::Segment => "segment_embeddings_vec"@,
            SourceKind::Dictation => "dictation_embeddings_vec"@,
            SourceKind::Note => "note_embeddings_vec"@,
        }
    }

    /// The name of the table of what belongs to the vectors.
    pub open spec fn meta_name(self) -> Seq<char> {
        match self {
            SourceKind::Segment => "segment_embeddings_meta"@,
            SourceKind::Dictation => "dictation_embeddings_meta"@,
            SourceKind::Note => "note_embeddings_meta"@,
        }
    }

    /// The name of the column that names the entry.
    pub open spec fn id_name(self) -> Seq<char> {
        match self {
            SourceKind::Segment => "segment_id"@,
            SourceKind::Dictation => "dictation_id"@,
            SourceKind::Note => "note_id"@,
        }
    }

    /// The name of the table that the entry comes from.
    pub open spec fn source_name(self) -> Seq<char> {
        match self {
            SourceKind::Segment => "segments"@,
            SourceKind::Dictation => "dictation_history"@,
            SourceKind::Note => "notes"@,
        }
    }

    /// What else an entry must meet to be found by a scoped search.
    pub open spec fn lifecycle_text(self) -> Seq<char> {
        match self {
            SourceKind::Segment => " AND s.deleted_at IS NULL AND s.hidden = 0"@,
            SourceKind::Dictation => ""@,
            SourceKind::Note => ""@,
        }
    }

    /// The name of the table of vectors.
    pub fn vec_table(self) -> (r: &'static str)
        ensures
            r@ == self.vec_name(),
            self is Segment ==> r@ == "segment_embeddings_vec"@,
            self is Dictation ==> r@ == "dictation_embeddings_vec"@,
            self is Note ==> r@ == "note_embeddings_vec"@,
    {
        match self {
            SourceKind::Segment => "segment_embeddings_vec",
            SourceKind::Dictation => "dictation_embeddings_vec",
            SourceKind::Note => "note_embeddings_vec",
        }
    }

    /// The name of the table of what belongs to the vectors.
    pub fn meta_table(self) -> (r: &'static str)
        ensures
            r@ == self.meta_name(),
            self is Segment ==> r@ == "segment_embeddings_meta"@,
            self is Dictation ==> r@ == "dictation_embeddings_meta"@,
            self is Note ==> r@ == "note_embeddings_meta"@,
    {
        match self {
            SourceKind::Segment => "segment_embeddings_meta",
            SourceKind::Dictation => "dictation_embeddings_meta",
            SourceKind::Note => "note_embeddings_meta",
        }
    }

    /// The name of the column that names the entry.
    pub fn id_column(self) -> (r: &'static str)
        ensures
            r@ == self.id_name(),
            self is Segment ==> r@ == "segment_id"@,
            self is Dictation ==> r@ == "dictation_id"@,
            self is Note ==> r@ == "note_id"@,
    {
        match self {
            SourceKind::Segment => "segment_id",
            SourceKind::Dictation => "dictation_id",
            SourceKind::Note => "note_id",
        }
    }

    /// The name of the table that the entry comes from.
    pub fn source_table(self) -> (r: &'static str)
        ensures
            r@ == self.source_name(),
            self is Segment ==> r@ == "segments"@,
            self is Dictation ==> r@ == "dictation_history"@,
            self is Note ==> r@ == "notes"@,
    {
        match self {
            SourceKind::Segment => "segments",
            SourceKind::Dictation => "dictation_history",
            SourceKind::Note => "notes",
        }
    }

    fn lifecycle(self) -> (r: &'static str)
        ensures
            r@ == self.lifecycle_text(),
    {
        match self {
            SourceKind::Segment => " AND s.deleted_at IS NULL AND s.hidden = 0",
            SourceKind::Dictation => "",
            SourceKind::Note => "",
        }
    }
}

// --- Statements ---

/// The statement that creates the table of vectors.
pub fn vec_table_sql(kind: SourceKind) -> (r: String)
    ensures
        r@ == "CREATE VIRTUAL TABLE IF NOT EXISTS "@ + kind.vec_name() + " USING vec0(embedding FLOAT["@ + text::decimal(EMBEDDING_DIMENSIONS as nat) + "])"@,
{
    let mut out: String = "CREATE VIRTUAL TABLE IF NOT EXISTS ".to_owned();
    out.append(kind.vec_table());
    out.append(" USING vec0(embedding FLOAT[");
    out.append(text::decimal_text(EMBEDDING_DIMENSIONS as u64).as_str());
    out.append("])");
    out
}

/// The statement that reads what is kept of an entry.
pub fn lookup_sql(kind: SourceKind) -> (r: String)
    ensures
        r@ == "SELECT rowid, content_hash, model_name, model_version FROM "@ + kind.meta_name() + " WHERE "@ + kind.id_name() + " = ?"@,
{
    let mut out: String = "SELECT rowid, content_hash, model_name, model_version FROM ".to_owned();
    out.append(kind.meta_table());
    out.append(" WHERE ");
    out.append(kind.id_column());
    out.append(" = ?");
    out
}

/// The statement that deletes a row of a table.
pub open spec fn delete_text(table: Seq<char>) -> Seq<char> {
    "DELETE FROM "@ + table + " WHERE rowid = ?"@
}

/// The statement that deletes a vector by its row.
fn delete_vector_sql(kind: SourceKind) -> (r: String)
    ensures
        r@ == delete_text(kind.vec_name()),
{
    let mut out: String = "DELETE FROM ".to_owned();
    out.append(kind.vec_table());
    out.append(" WHERE rowid = ?");
    out
}

/// The statement that deletes what is kept of a vector, by its row.
fn delete_meta_sql(kind: SourceKind) -> (r: String)
    ensures
        r@ == delete_text(kind.meta_name()),
{
    let mut out: String = "DELETE FROM ".to_owned();
    out.append(kind.meta_table());
    out.append(" WHERE rowid = ?");
    out
}

/// The statement that stores a vector under a given row.
pub open spec fn insert_vector_at_text(kind: SourceKind) -> Seq<char> {
    "INSERT INTO "@ + kind.vec_name() + " (rowid, embedding) VALUES (?, ?)"@
}

/// The statement that stores a vector under a given row.
fn insert_vector_at_sql(kind: SourceKind) -> (r: String)
    ensures
        r@ == insert_vector_at_text(kind),
{
    let mut out: String = "INSERT INTO ".to_owned();
    out.append(kind.vec_table());
    out.append(" (rowid, embedding) VALUES (?, ?)");
    out
}

/// The statement that stores a vector under a new row.
pub open spec fn insert_vector_text(kind: SourceKind) -> Seq<char> {
    "INSERT INTO "@ + kind.vec_name() + " (embedding) VALUES (?)"@
}

/// The statement that stores a vector under a new row.
fn insert_vector_sql(kind: SourceKind) -> (r: String)
    ensures
        r@ == insert_vector_text(kind),
{
    let mut out: String = "INSERT INTO ".to_owned();
    out.append(kind.vec_table());
    out.append(" (embedding) VALUES (?)");
    out
}

/// The statement that brings up to date what is kept of a vector.
pub open spec fn update_meta_text(kind: SourceKind) -> Seq<char> {
    "UPDATE "@ + kind.meta_name() + " SET content_hash = ?, model_name = ?, model_version = ?, dimensions = ?, updated_at = ? WHERE rowid = ?"@
}

/// The statement that brings up to date what is kept of a vector.
fn update_meta_sql(kind: SourceKind) -> (r: String)
    ensures
        r@ == update_meta_text(kind),
{
    let mut out: String = "UPDATE ".to_owned();
    out.append(kind.meta_table());
    out.append(" SET content_hash = ?, model_name = ?, model_version = ?, dimensions = ?, updated_at = ? WHERE rowid = ?");
    out
}

/// The statement that keeps what belongs to a new vector.
pub open spec fn insert_meta_text(kind: SourceKind) -> Seq<char> {
    "INSERT INTO "@ + kind.meta_name() + " (rowid, "@ + kind.id_name() + ", content_hash, model_name, model_version, dimensions, created_at, updated_at) VALUES (?, ?, ?, ?, ?, ?, ?, ?)"@
}

/// The statement that keeps what belongs to a new vector.
fn insert_meta_sql(kind: SourceKind) -> (r: String)
    ensures
        r@ == insert_meta_text(kind),
{
    let mut out: String = "INSERT INTO ".to_owned();
    out.append(kind.meta_table());
    out.append(" (rowid, ");
    out.append(kind.id_column());
    out.append(", content_hash, model_name, model_version, dimensions, created_at, updated_at) VALUES (?, ?, ?, ?, ?, ?, ?, ?)");
    out
}

/// The statement that finds the row of an entry.
pub fn row_sql(kind: SourceKind) -> (r: String)
    ensures
        r@ == "SELECT rowid FROM "@ + kind.meta_name() + " WHERE "@ + kind.id_name() + " = ?"@,
{
    let mut out: String = "SELECT rowid FROM ".to_owned();
    out.append(kind.meta_table());
    out.append(" WHERE ");
    out.append(kind.id_column());
    out.append(" = ?");
    out
}

/// The statement that finds the rows of every entry of a session.
pub fn session_rows_sql(kind: SourceKind) -> (r: String)
    ensures
        r@ == "SELECT m.rowid FROM "@ + kind.meta_name() + " m JOIN "@ + kind.source_name() + " s ON s.id = m."@ + kind.id_name() + " WHERE s.session_id = ?"@,
{
    let mut out: String = "SELECT m.rowid FROM ".to_owned();
    out.append(kind.meta_table());
    out.append(" m JOIN ");
    out.append(kind.source_table());
    out.append(" s ON s.id = m.");
    out.append(kind.id_column());
    out.append(" WHERE s.session_id = ?");
    out
}

/// A statement's placeholders for `n` values, with commas between them.
pub open spec fn placeholders(n: nat) -> Seq<char>
    decreases n,
{
    if n == 0 {
        Seq::empty()
    } else if n == 1 {
        "?"@
    } else {
        placeholders((n - 1) as nat) + ",?"@
    }
}

fn write_placeholders(n: usize) -> (r: String)
    ensures
        r@ == placeholders(n as nat),
{
    let mut out: String = String::new();
    let mut i: usize = 0;
    while i < n
        invariant
            i <= n,
            out@ == placeholders(i as nat),
        decreases n - i,
    {
        if i == 0 {
            out = "?".to_owned();
        } else {
            out.append(",?");
        }
        i = i + 1;
    }
    out
}

/// The restriction of a search to `n` sessions. None at all where no session is named.
pub open spec fn session_clause(n: nat) -> Seq<char> {
    if n == 0 {
        Seq::empty()
    } else {
        " AND s.session_id IN ("@ + placeholders(n) + ")"@
    }
}

/// The statement of a search. Its parameters are the vector, how many neighbours to look
/// at, the sessions of the scope in their order, and how many hits to return. A scope of
/// no session restricts nothing but leaves hidden and deleted entries out.
pub open spec fn search_text(kind: SourceKind, scope: Option<nat>) -> Seq<char> {
    let head = "SELECT m."@ + kind.id_name() + ", v.distance FROM "@ + kind.vec_name() + " v JOIN "@
        + kind.meta_name() + " m ON m.rowid = v.rowid"@;
    match scope {
        Some(n) => head + " JOIN "@ + kind.source_name() + " s ON s.id = m."@ + kind.id_name()
            + " WHERE v.embedding MATCH ? AND k = ?"@ + kind.lifecycle_text() + session_clause(n)
            + " ORDER BY v.distance LIMIT ?"@,
        None => head + " WHERE v.embedding MATCH ? AND k = ? ORDER BY v.distance LIMIT ?"@,
    }
}

/// The statement of a search, by how many sessions the scope names.
pub fn search_sql(kind: SourceKind, scope: Option<usize>) -> (r: String)
    ensures
        r@ == search_text(
            kind,
            match scope {
                Some(n) => Some(n as nat),
                None => None,
            },
        ),
{
    let mut out: String = "SELECT m.".to_owned();
    out.append(kind.id_column());
    out.append(", v.distance FROM ");
    out.append(kind.vec_table());
    out.append(" v JOIN ");
    out.append(kind.meta_table());
    out.append(" m ON m.rowid = v.rowid");
    match scope {
        Some(n) => {
            out.append(" JOIN ");
            out.append(kind.source_table());
            out.append(" s ON s.id = m.");
            out.append(kind.id_column());
            out.append(" WHERE v.embedding MATCH ? AND k = ?");
            out.append(kind.lifecycle());
            if n > 0 {
                let mut clause: String = " AND s.session_id IN (".to_owned();
                clause.append(write_placeholders(n).as_str());
                clause.append(")");
                out.append(clause.as_str());
            } else {
                assert(out@ + session_clause(0) =~= out@);
            }
            out.append(" ORDER BY v.distance LIMIT ?");
        },
        None => {
            out.append(" WHERE v.embedding MATCH ? AND k = ? ORDER BY v.distance LIMIT ?");
        },
    }
    out
}

/// The statement that finds entries without a vector. Its parameter is how many.
pub open spec fn missing_text(kind: SourceKind) -> Seq<char> {
    let join = " LEFT JOIN "@ + kind.meta_name() + " m ON m."@ + kind.id_name();
    match kind {
        SourceKind::Segment => "SELECT s.id, s.text FROM segments s"@ + join + " = s.id WHERE m."@
            + kind.id_name() + " IS NULL AND s.deleted_at IS NULL AND s.text != '' LIMIT ?"@,
        SourceKind::Dictation =>
        "SELECT d.id, COALESCE(NULLIF(d.output_text, ''), d.input_text) FROM dictation_history d"@
            + join + " = d.id WHERE m."@ + kind.id_name()
            + " IS NULL AND COALESCE(NULLIF(d.output_text, ''), d.input_text) != '' LIMIT ?"@,
        SourceKind::Note => "SELECT n.id, n.content FROM notes n"@ + join + " = n.id WHERE m."@
            + kind.id_name()
            + " IS NULL AND trim(n.content) NOT IN ( '', '<p></p>', '<p><br></p>', '<p><br/></p>', '<p><br /></p>', '<p> </p>', '<p>&nbsp;</p>' ) LIMIT ?"@,
    }
}

/// The statement that finds entries without a vector.
pub fn missing_sql(kind: SourceKind) -> (r: String)
    ensures
        r@ == missing_text(kind),
{
    let mut join: String = " LEFT JOIN ".to_owned();
    join.append(kind.meta_table());
    join.append(" m ON m.");
    join.append(kind.id_column());
    match kind {
        SourceKind::Segment => {
            let mut out: String = "SELECT s.id, s.text FROM segments s".to_owned();
            out.append(join.as_str());
            out.append(" = s.id WHERE m.");
            out.append(kind.id_column());
            out.append(" IS NULL AND s.deleted_at IS NULL AND s.text != '' LIMIT ?");
            out
        },
        SourceKind::Dictation => {
            let mut out: String =
                "SELECT d.id, COALESCE(NULLIF(d.output_text, ''), d.input_text) FROM dictation_history d".to_owned();
            out.append(join.as_str());
            out.append(" = d.id WHERE m.");
            out.append(kind.id_column());
            out.append(" IS NULL AND COALESCE(NULLIF(d.output_text, ''), d.input_text) != '' LIMIT ?");
            out
        },
        SourceKind::Note => {
            let mut out: String = "SELECT n.id, n.content FROM notes n".to_owned();
            out.append(join.as_str());
            out.append(" = n.id WHERE m.");
            out.append(kind.id_column());
            out.append(
                " IS NULL AND trim(n.content) NOT IN ( '', '<p></p>', '<p><br></p>', '<p><br/></p>', '<p><br /></p>', '<p> </p>', '<p>&nbsp;</p>' ) LIMIT ?",
            );
            out
        },
    }
}

// --- The content of an entry ---

/// The SHA-256 digest of bytes.
pub uninterp spec fn sha256(bytes: Seq<u8>) -> Seq<u8>;

/// `Digest::digest` of `sha2::Sha256`: the digest of the bytes, which is a function of
/// them alone and thirty-two bytes long. Which bytes they are is left to the crate.
#[verifier::external_body]
fn digest_of(bytes: &[u8]) -> (r: Vec<u8>)
    ensures
        r@ == sha256(bytes@),
        r@.len() == 32,
{
    Sha256::digest(bytes).to_vec()
}

/// The hexadecimal digit of a value below sixteen.
pub open spec fn hex_char(v: int) -> char {
    if v < 10 {
        (48 + v) as char
    } else {
        (87 + v) as char
    }
}

/// The bytes in small hexadecimal digits, two for each byte.
pub open spec fn hex(bytes: Seq<u8>) -> Seq<char> {
    Seq::new(
        2 * bytes.len(),
        |i: int|
            if i % 2 == 0 {
                hex_char((bytes[i / 2] / 16) as int)
            } else {
                hex_char((bytes[i / 2] % 16) as int)
            },
    )
}

fn write_hex_digit(v: u8) -> (r: char)
    requires
        v < 16,
    ensures
        r == hex_char(v as int),
{
    if v < 10 {
        (48 + v) as char
    } else {
        (87 + v) as char
    }
}

/// The bytes in small hexadecimal digits.
pub fn hex_text(bytes: &Vec<u8>) -> (r: String)
    ensures
        r@ == hex(bytes@),
{
    let mut out: Vec<char> = Vec::new();
    let mut i: usize = 0;
    while i < bytes.len()
        invariant
            i <= bytes@.len(),
            out@ == hex(bytes@.take(i as int)),
        decreases bytes@.len() - i,
    {
        let b: u8 = bytes[i];
        out.push(write_hex_digit(b / 16));
        out.push(write_hex_digit(b % 16));
        assert(out@ =~= hex(bytes@.take(i + 1)));
        i = i + 1;
    }
    assert(bytes@.take(bytes@.len() as int) =~= bytes@);
    text::string_of(out.as_slice())
}

/// The mark of a text: its digest in hexadecimal digits.
pub fn content_hash(text: &str) -> (r: String)
    ensures
        r@ == hex(sha256(encode_utf8(text@))),
        r@.len() == 64,
{
    hex_text(&digest_of(text.as_bytes()))
}

/// One byte of a number, the lowest first.
pub open spec fn byte_of(bits: u32, k: int) -> u8 {
    if k == 0 {
        (bits % 256) as u8
    } else if k == 1 {
        ((bits / 256) % 256) as u8
    } else if k == 2 {
        ((bits / 65_536) % 256) as u8
    } else {
        (bits / 16_777_216) as u8
    }
}

/// The bytes of a vector: four for each number, the lowest first.
pub open spec fn vector_bytes(v: Seq<Single>) -> Seq<u8> {
    Seq::new(4 * v.len(), |i: int| byte_of(v[i / 4].bits, i % 4))
}

/// The bytes of a vector, as they are stored.
pub fn vec_to_bytes(v: &Vec<Single>) -> (r: Vec<u8>)
    ensures
        r@ == vector_bytes(v@),
{
    let mut out: Vec<u8> = Vec::new();
    let mut i: usize = 0;
    while i < v.len()
        invariant
            i <= v@.len(),
            out@ == vector_bytes(v@.take(i as int)),
        decreases v@.len() - i,
    {
        let b: u32 = v[i].bits;
        out.push((b % 256) as u8);
        out.push(((b / 256) % 256) as u8);
        out.push(((b / 65_536) % 256) as u8);
        out.push((b / 16_777_216) as u8);
        assert(out@ =~= vector_bytes(v@.take(i + 1)));
        i = i + 1;
    }
    assert(v@.take(v@.len() as int) =~= v@);
    out
}

proof fn lemma_bytes_sum(bits: u32)
    ensures
        bits == byte_of(bits, 0) + 256 * byte_of(bits, 1) + 65_536 * byte_of(bits, 2) + 16_777_216
            * byte_of(bits, 3),
{
    let high = bits / 256;
    let higher = bits / 65_536;
    assert(bits == 256 * high + bits % 256);
    assert(higher == high / 256);
    assert(high == 256 * higher + high % 256);
    assert(bits / 16_777_216 == higher / 256);
    assert(higher == 256 * (higher / 256) + higher % 256);
}

/// The bytes of a vector give every number of it back.
pub proof fn law_vector_bytes_read_back(v: Seq<Single>, i: int)
    requires
        0 <= i < v.len(),
    ensures
        vector_bytes(v).len() == 4 * v.len(),
        v[i].bits == vector_bytes(v)[4 * i] + 256 * vector_bytes(v)[4 * i + 1] + 65_536
            * vector_bytes(v)[4 * i + 2] + 16_777_216 * vector_bytes(v)[4 * i + 3],
{
    let bits = v[i].bits;
    let bytes = vector_bytes(v);
    assert((4 * i) / 4 == i && (4 * i) % 4 == 0);
    assert(bytes[4 * i] == byte_of(bits, 0));
    assert((4 * i + 1) / 4 == i && (4 * i + 1) % 4 == 1);
    assert(bytes[4 * i + 1] == byte_of(bits, 1));
    assert((4 * i + 2) / 4 == i && (4 * i + 2) % 4 == 2);
    assert(bytes[4 * i + 2] == byte_of(bits, 2));
    assert((4 * i + 3) / 4 == i && (4 * i + 3) % 4 == 3);
    assert(bytes[4 * i + 3] == byte_of(bits, 3));
    lemma_bytes_sum(bits);
}

// --- When a vector is written ---

/// What is kept of an entry.
#[derive(Clone, Debug)]
pub struct EmbeddingMeta {
    pub rowid: i64,
    pub content_hash: String,
    pub model_name: String,
    pub model_version: String,
}

/// What an update of an entry does.
#[derive(Clone, Copy, Debug, PartialEq, Eq, Structural)]
pub enum UpsertPlan {
    /// The vector is up to date.
    Unchanged,
    /// The vector of this row is replaced.
    Replace(i64),
    /// The entry has no vector yet.
    Insert,
}

/// What an update does, by the mark of the text.
pub open spec fn upsert_plan(
    hash: Seq<char>,
    model_name: Seq<char>,
    model_version: Seq<char>,
    existing: Option<EmbeddingMeta>,
) -> UpsertPlan {
    match existing {
        Some(m) => if m.content_hash@ == hash && m.model_name@ == model_name && m.model_version@
            == model_version {
            UpsertPlan::Unchanged
        } else {
            UpsertPlan::Replace(m.rowid)
        },
        None => UpsertPlan::Insert,
    }
}

/// Whether the update writes.
pub open spec fn writes(plan: UpsertPlan) -> bool {
    !(plan is Unchanged)
}

/// What a vector of the wrong length is refused with.
pub open spec fn wrong_length(what: Seq<char>, len: nat) -> Seq<char> {
    "expected "@ + text::decimal(EMBEDDING_DIMENSIONS as nat) + "-dim "@ + what + ", got "@
        + text::decimal(len)
}

/// Refuses a vector of the wrong length.
pub fn check_length(what: &str, len: usize) -> (r: Result<(), String>)
    ensures
        r is Ok <==> len == EMBEDDING_DIMENSIONS,
        r matches Err(e) ==> e@ == wrong_length(what@, len as nat),
{
    if len == EMBEDDING_DIMENSIONS {
        return Ok(());
    }
    let mut out: String = "expected ".to_owned();
    out.append(text::decimal_text(EMBEDDING_DIMENSIONS as u64).as_str());
    out.append("-dim ");
    out.append(what);
    out.append(", got ");
    out.append(text::decimal_text(len as u64).as_str());
    Err(out)
}

/// What an update does, by the mark of the text.
pub fn plan_by_hash(
    hash: &str,
    model_name: &str,
    model_version: &str,
    existing: &Option<EmbeddingMeta>,
) -> (r: UpsertPlan)
    ensures
        r == upsert_plan(hash@, model_name@, model_version@, *existing),
{
    match existing {
        Some(m) => if text::same_text(m.content_hash.as_str(), hash) && text::same_text(
            m.model_name.as_str(),
            model_name,
        ) && text::same_text(m.model_version.as_str(), model_version) {
            UpsertPlan::Unchanged
        } else {
            UpsertPlan::Replace(m.rowid)
        },
        None => UpsertPlan::Insert,
    }
}

/// Plans the update of an entry, with the mark that is kept for its text. A vector of the
/// wrong length is refused; a vector that is up to date is left alone.
pub fn upsert(
    text: &str,
    vector_len: usize,
    model_name: &str,
    model_version: &str,
    existing: &Option<EmbeddingMeta>,
) -> (r: Result<(UpsertPlan, String), String>)
    ensures
        match r {
            Ok(p) => vector_len == EMBEDDING_DIMENSIONS && p.1@ == hex(sha256(encode_utf8(text@)))
                && p.0 == upsert_plan(p.1@, model_name@, model_version@, *existing),
            Err(e) => vector_len != EMBEDDING_DIMENSIONS && e@ == wrong_length(
                "vector"@,
                vector_len as nat,
            ),
        },
{
    match check_length("vector", vector_len) {
        Ok(_) => {
            let hash = content_hash(text);
            let plan = plan_by_hash(hash.as_str(), model_name, model_version, existing);
            Ok((plan, hash))
        },
        Err(e) => Err(e),
    }
}

// --- What is done to the two tables ---

/// One statement on the tables of a surface.
#[derive(Clone, Copy, Debug, PartialEq, Eq, Structural)]
pub enum RowStatement {
    DeleteVector(i64),
    DeleteMeta(i64),
    /// Stores the vector under a given row.
    InsertVectorAt(i64),
    /// Stores the vector under a new row.
    InsertVector,
    /// Brings up to date what is kept of a row.
    UpdateMeta(i64),
    /// Keeps what belongs to the row that was made last.
    InsertMeta,
}

impl RowStatement {
    /// The statement as it is sent to the database.
    pub fn sql(self, kind: SourceKind) -> (r: String)
        ensures
            r@ == (match self {
                RowStatement::DeleteVector(_) => delete_text(kind.vec_name()),
                RowStatement::DeleteMeta(_) => delete_text(kind.meta_name()),
                RowStatement::InsertVectorAt(_) => insert_vector_at_text(kind),
                RowStatement::InsertVector => insert_vector_text(kind),
                RowStatement::UpdateMeta(_) => update_meta_text(kind),
                RowStatement::InsertMeta => insert_meta_text(kind),
            }),
    {
        match self {
            RowStatement::DeleteVector(_) => delete_vector_sql(kind),
            RowStatement::DeleteMeta(_) => delete_meta_sql(kind),
            RowStatement::InsertVectorAt(_) => insert_vector_at_sql(kind),
            RowStatement::InsertVector => insert_vector_sql(kind),
            RowStatement::UpdateMeta(_) => update_meta_sql(kind),
            RowStatement::InsertMeta => insert_meta_sql(kind),
        }
    }
}

/// The statements of an update, in their order.
pub open spec fn upsert_statements(plan: UpsertPlan) -> Seq<RowStatement> {
    match plan {
        UpsertPlan::Unchanged => Seq::empty(),
        UpsertPlan::Replace(row) => seq![
            RowStatement::DeleteVector(row),
            RowStatement::InsertVectorAt(row),
            RowStatement::UpdateMeta(row),
        ],
        UpsertPlan::Insert => seq![RowStatement::InsertVector, RowStatement::InsertMeta],
    }
}

/// The statements that delete the first `n` of some rows: of each the vector, then what
/// is kept of it.
pub open spec fn delete_statements(rows: Seq<i64>, n: nat) -> Seq<RowStatement>
    decreases n,
{
    if n == 0 {
        Seq::empty()
    } else {
        delete_statements(rows, (n - 1) as nat) + seq![
            RowStatement::DeleteVector(rows[n - 1]),
            RowStatement::DeleteMeta(rows[n - 1]),
        ]
    }
}

impl UpsertPlan {
    /// The statements of the update.
    pub fn statements(self) -> (r: Vec<RowStatement>)
        ensures
            r@ == upsert_statements(self),
    {
        let mut out: Vec<RowStatement> = Vec::new();
        match self {
            UpsertPlan::Unchanged => {},
            UpsertPlan::Replace(row) => {
                out.push(RowStatement::DeleteVector(row));
                out.push(RowStatement::InsertVectorAt(row));
                out.push(RowStatement::UpdateMeta(row));
            },
            UpsertPlan::Insert => {
                out.push(RowStatement::InsertVector);
                out.push(RowStatement::InsertMeta);
            },
        }
        assert(out@ =~= upsert_statements(self));
        out
    }

    /// Whether the update writes.
    pub fn is_write(self) -> (r: bool)
        ensures
            r == writes(self),
            r <==> self != UpsertPlan::Unchanged,
    {
        self != UpsertPlan::Unchanged
    }
}

/// The statements that delete rows.
pub fn delete_rows(rows: &Vec<i64>) -> (r: Vec<RowStatement>)
    ensures
        r@ == delete_statements(rows@, rows@.len()),
{
    let mut out: Vec<RowStatement> = Vec::new();
    let mut i: usize = 0;
    while i < rows.len()
        invariant
            i <= rows@.len(),
            out@ == delete_statements(rows@, i as nat),
        decreases rows@.len() - i,
    {
        let ghost before = out@;
        out.push(RowStatement::DeleteVector(rows[i]));
        out.push(RowStatement::DeleteMeta(rows[i]));
        assert(out@ =~= before + seq![
            RowStatement::DeleteVector(rows@[i as int]),
            RowStatement::DeleteMeta(rows@[i as int]),
        ]);
        i = i + 1;
    }
    out
}

/// What the tables keep of an entry.
pub ghost struct Kept {
    pub source_id: Seq<char>,
    pub content_hash: Seq<char>,
    pub model_name: Seq<char>,
    pub model_version: Seq<char>,
}

/// The two tables of a surface, by their rows.
pub ghost struct Tables {
    pub vectors: Map<i64, Seq<u8>>,
    pub metas: Map<i64, Kept>,
}

/// What a statement writes: the entry, its vector, and the row that the database picks
/// for a new vector.
pub ghost struct Update {
    pub kept: Kept,
    pub vector: Seq<u8>,
    pub fresh: i64,
}

impl Tables {
    /// The tables after one statement.
    pub open spec fn executed(self, s: RowStatement, u: Update) -> Tables {
        match s {
            RowStatement::DeleteVector(row) => Tables { vectors: self.vectors.remove(row), ..self },
            RowStatement::DeleteMeta(row) => Tables { metas: self.metas.remove(row), ..self },
            RowStatement::InsertVectorAt(row) => Tables {
                vectors: self.vectors.insert(row, u.vector),
                ..self
            },
            RowStatement::InsertVector => Tables {
                vectors: self.vectors.insert(u.fresh, u.vector),
                ..self
            },
            RowStatement::UpdateMeta(row) => if self.metas.contains_key(row) {
                Tables {
                    metas: self.metas.insert(
                        row,
                        Kept { source_id: self.metas[row].source_id, ..u.kept },
                    ),
                    ..self
                }
            } else {
                self
            },
            RowStatement::InsertMeta => Tables {
                metas: self.metas.insert(u.fresh, u.kept),
                ..self
            },
        }
    }

    /// The tables after statements, one behind the other.
    pub open spec fn after(self, statements: Seq<RowStatement>, u: Update) -> Tables
        decreases statements.len(),
    {
        if statements.len() == 0 {
            self
        } else {
            self.after(statements.drop_last(), u).executed(statements.last(), u)
        }
    }

    /// Whether every vector has what belongs to it and the other way round, and no entry
    /// has two rows.
    pub open spec fn in_step(self) -> bool {
        &&& self.vectors.dom() == self.metas.dom()
        &&& forall|a: i64, b: i64|
            self.metas.contains_key(a) && self.metas.contains_key(b) && a != b ==> (
            #[trigger] self.metas[a]).source_id != (#[trigger] self.metas[b]).source_id
    }

    /// Whether a lookup of an entry gives `existing`.
    pub open spec fn finds(self, source_id: Seq<char>, existing: Option<EmbeddingMeta>) -> bool {
        match existing {
            Some(m) => self.metas.contains_key(m.rowid) && self.metas[m.rowid] == (Kept {
                source_id,
                content_hash: m.content_hash@,
                model_name: m.model_name@,
                model_version: m.model_version@,
            }),
            None => forall|row: i64| #[trigger]
                self.metas.contains_key(row) ==> self.metas[row].source_id != source_id,
        }
    }
}

/// The row of an entry once it is updated.
pub open spec fn row_of(existing: Option<EmbeddingMeta>, u: Update) -> i64 {
    match existing {
        Some(m) => m.rowid,
        None => u.fresh,
    }
}

/// What an update does, given what the lookup found.
pub open spec fn planned(u: Update, existing: Option<EmbeddingMeta>) -> UpsertPlan {
    upsert_plan(u.kept.content_hash, u.kept.model_name, u.kept.model_version, existing)
}

/// An update keeps the two tables in step, leaves every other row as it is, and leaves
/// the entry as it was to be kept, with the new vector wherever anything was written.
pub proof fn law_upsert_keeps_tables_in_step(t: Tables, existing: Option<EmbeddingMeta>, u: Update)
    requires
        t.in_step(),
        t.finds(u.kept.source_id, existing),
        !t.vectors.contains_key(u.fresh),
    ensures
        ({
            let plan = planned(u, existing);
            let now = t.after(upsert_statements(plan), u);
            let row = row_of(existing, u);
            &&& now.in_step()
            &&& now.metas == t.metas.insert(row, u.kept)
            &&& now.vectors == (if writes(plan) {
                t.vectors.insert(row, u.vector)
            } else {
                t.vectors
            })
        }),
{
    let plan = planned(u, existing);
    let all = upsert_statements(plan);
    let now = t.after(all, u);
    reveal_with_fuel(Tables::after, 4);
    match existing {
        Some(m) => {
            if writes(plan) {
                assert(all.drop_last() =~= seq![
                    RowStatement::DeleteVector(m.rowid),
                    RowStatement::InsertVectorAt(m.rowid),
                ]);
                assert(all.drop_last().drop_last() =~= seq![RowStatement::DeleteVector(m.rowid)]);
                assert(all.drop_last().drop_last().drop_last() =~= Seq::<RowStatement>::empty());
                assert(now.vectors =~= t.vectors.insert(m.rowid, u.vector));
                assert(now.metas =~= t.metas.insert(m.rowid, u.kept));
            } else {
                assert(now.metas =~= t.metas.insert(m.rowid, u.kept));
            }
        },
        None => {
            assert(all.drop_last() =~= seq![RowStatement::InsertVector]);
            assert(all.drop_last().drop_last() =~= Seq::<RowStatement>::empty());
            assert(now.vectors =~= t.vectors.insert(u.fresh, u.vector));
            assert(now.metas =~= t.metas.insert(u.fresh, u.kept));
        },
    }
    assert(now.vectors.dom() =~= now.metas.dom());
}

/// Updating twice with the same text and model writes at most once: whatever the lookup
/// finds after the first update, the second one leaves the vector alone.
pub proof fn law_upsert_twice_writes_once(
    t: Tables,
    existing: Option<EmbeddingMeta>,
    u: Update,
    found: Option<EmbeddingMeta>,
)
    requires
        t.in_step(),
        t.finds(u.kept.source_id, existing),
        !t.vectors.contains_key(u.fresh),
        t.after(upsert_statements(planned(u, existing)), u).finds(u.kept.source_id, found),
    ensures
        !writes(planned(u, found)),
{
    law_upsert_keeps_tables_in_step(t, existing, u);
    let now = t.after(upsert_statements(planned(u, existing)), u);
    let row = row_of(existing, u);
    assert(now.metas.contains_key(row) && now.metas[row] == u.kept);
    if let Some(m) = found {
        assert(now.metas[m.rowid].source_id == now.metas[row].source_id);
    }
}

/// A text with another mark, or another model, is always written, and to the row that
/// the entry has.
pub proof fn law_changed_entry_is_written(
    hash: Seq<char>,
    model_name: Seq<char>,
    model_version: Seq<char>,
    kept: EmbeddingMeta,
)
    requires
        kept.content_hash@ != hash || kept.model_name@ != model_name || kept.model_version@
            != model_version,
    ensures
        upsert_plan(hash, model_name, model_version, Some(kept)) == UpsertPlan::Replace(kept.rowid),
{
}

/// Deleting rows takes exactly them out of both tables, which stay in step.
pub proof fn law_delete_keeps_tables_in_step(t: Tables, rows: Seq<i64>, n: nat, u: Update)
    requires
        t.in_step(),
        n <= rows.len(),
    ensures
        ({
            let gone = rows.take(n as int).to_set();
            let now = t.after(delete_statements(rows, n), u);
            &&& now.in_step()
            &&& now.vectors == t.vectors.remove_keys(gone)
            &&& now.metas == t.metas.remove_keys(gone)
        }),
    decreases n,
{
    let gone = rows.take(n as int).to_set();
    let all = delete_statements(rows, n);
    let now = t.after(all, u);
    if n == 0 {
        assert(rows.take(0) =~= Seq::<i64>::empty());
        assert(now.vectors =~= t.vectors.remove_keys(gone));
        assert(now.metas =~= t.metas.remove_keys(gone));
    } else {
        let before = (n - 1) as nat;
        let row = rows[n - 1];
        law_delete_keeps_tables_in_step(t, rows, before, u);
        let earlier = rows.take(before as int).to_set();
        reveal_with_fuel(Tables::after, 3);
        assert(all.drop_last() =~= delete_statements(rows, before).push(
            RowStatement::DeleteVector(row),
        ));
        assert(all.drop_last().drop_last() =~= delete_statements(rows, before));
        assert(rows.take(n as int) =~= rows.take(before as int).push(row));
        assert forall|x: i64| gone.contains(x) == (earlier.contains(x) || x == row) by {
            if rows.take(n as int).contains(x) {
                let i = choose|i: int| 0 <= i < n && rows.take(n as int)[i] == x;
                if i < before {
                    assert(rows.take(before as int)[i] == x);
                }
            }
            if rows.take(before as int).contains(x) {
                let i = choose|i: int| 0 <= i < before && rows.take(before as int)[i] == x;
                assert(rows.take(n as int)[i] == x);
            }
            if x == row {
                assert(rows.take(n as int)[before as int] == x);
            }
        }
        assert(now.vectors =~= t.vectors.remove_keys(gone));
        assert(now.metas =~= t.metas.remove_keys(gone));
    }
    assert(now.vectors.dom() =~= now.metas.dom());
}

// --- Searching ---

/// One neighbour that a search found.
#[derive(Clone, Debug)]
pub struct SearchHit {
    pub source_id: String,
    pub distance: Single,
}

/// One hit as it is shown, with the surface that it comes from.
#[derive(Clone, Debug)]
pub struct SemanticHitDto {
    pub source_id: String,
    pub source_kind: SourceKindDto,
    pub distance: Single,
}

/// The hits that one surface gave.
#[derive(Clone, Debug)]
pub struct SurfaceHits {
    pub kind: SourceKindDto,
    pub hits: Vec<SearchHit>,
}

/// Whether a search has nothing to look for: a blank query, no hits wanted, or no
/// surface.
pub fn search_is_idle(query: &str, k: u32, kinds: usize) -> (r: bool)
    ensures
        r == (text::trimmed(query@).len() == 0 || k == 0 || kinds == 0),
{
    text::is_blank(query) || k == 0 || kinds == 0
}

/// How many neighbours a search looks at. A scoped search looks at many more than it
/// returns, since the scope leaves out most of them.
pub open spec fn neighbours(k: nat, scoped: bool) -> nat {
    if !scoped {
        k
    } else if k * 32 < MOST_NEIGHBOURS {
        k * 32
    } else {
        MOST_NEIGHBOURS as nat
    }
}

/// How many neighbours a search looks at.
pub fn inner_k(k: usize, scoped: bool) -> (r: usize)
    requires
        scoped ==> k <= MOST_NEIGHBOURS,
    ensures
        r == neighbours(k as nat, scoped),
        !scoped ==> r == k,
        scoped ==> r <= 500 && r <= 32 * k && (r == 500 || r == 32 * k),
{
    if !scoped {
        k
    } else if k * 32 < MOST_NEIGHBOURS {
        k * 32
    } else {
        MOST_NEIGHBOURS
    }
}

/// A search never looks at fewer neighbours than it is to return.
pub proof fn law_enough_neighbours(k: nat, scoped: bool)
    requires
        scoped ==> k <= MOST_NEIGHBOURS,
    ensures
        k <= neighbours(k, scoped),
{
}

/// A hit with its surface.
pub open spec fn tagged(kind: SourceKindDto, h: SearchHit) -> SemanticHitDto {
    SemanticHitDto { source_id: h.source_id, source_kind: kind, distance: h.distance }
}

/// The hits of the first `n` surfaces, one surface behind the other.
pub open spec fn gathered(results: Seq<SurfaceHits>, n: nat) -> Seq<SemanticHitDto>
    decreases n,
{
    if n == 0 {
        Seq::empty()
    } else {
        gathered(results, (n - 1) as nat) + results[n - 1].hits@.map_values(
            |h: SearchHit| tagged(results[n - 1].kind, h),
        )
    }
}

/// The hit put behind all that are not farther.
pub open spec fn placed(ranking: Seq<SemanticHitDto>, hit: SemanticHitDto) -> Seq<SemanticHitDto>
    decreases ranking.len(),
{
    if ranking.len() == 0 || !ranking.last().distance.gt(hit.distance) {
        ranking.push(hit)
    } else {
        placed(ranking.drop_last(), hit).push(ranking.last())
    }
}

/// The first `n` hits, the nearest first; hits at the same distance keep their order.
pub open spec fn ranked(hits: Seq<SemanticHitDto>, n: nat) -> Seq<SemanticHitDto>
    decreases n,
{
    if n == 0 {
        Seq::empty()
    } else {
        placed(ranked(hits, (n - 1) as nat), hits[n - 1])
    }
}

/// The first `k` of a sequence, or all of it.
pub open spec fn at_most(hits: Seq<SemanticHitDto>, k: nat) -> Seq<SemanticHitDto> {
    if hits.len() <= k {
        hits
    } else {
        hits.take(k as int)
    }
}

fn place(ranking: &mut Vec<SemanticHitDto>, hit: SemanticHitDto)
    ensures
        final(ranking)@ == placed(old(ranking)@, hit),
{
    let mut at: usize = ranking.len();
    let ghost all = ranking@;
    assert(all.take(at as int) =~= all);
    assert(placed(all, hit) =~= placed(all.take(at as int), hit) + all.skip(at as int));
    while at > 0 && ranking[at - 1].distance.above(hit.distance)
        invariant
            at <= all.len(),
            all == ranking@,
            all == old(ranking)@,
            placed(all, hit) == placed(all.take(at as int), hit) + all.skip(at as int),
        decreases at,
    {
        let ghost head = all.take(at as int);
        assert(head.drop_last() =~= all.take(at - 1));
        assert(head.last() == all[at - 1]);
        assert(placed(head, hit) + all.skip(at as int) =~= placed(all.take(at - 1), hit) + all.skip(
            at - 1,
        ));
        at = at - 1;
    }
    assert(at > 0 ==> all.take(at as int).last() == all[at - 1]);
    let ghost new = hit;
    ranking.insert(at, hit);
    assert(ranking@ =~= all.take(at as int).push(new) + all.skip(at as int));
}

/// The hits of all surfaces ranked together, at most `k` of them.
pub fn rank_hits(results: Vec<SurfaceHits>, k: u32) -> (r: Vec<SemanticHitDto>)
    ensures
        ({
            let all = gathered(results@, results@.len());
            r@ == at_most(ranked(all, all.len()), k as nat)
        }),
        r@.len() <= k,
{
    let ghost given = results@;
    let mut ranking: Vec<SemanticHitDto> = Vec::new();
    let ghost mut seen: Seq<SemanticHitDto> = Seq::empty();
    for surface in it: results
        invariant
            it.seq() == given,
            seen == gathered(given, it.index() as nat),
            ranking@ == ranked(seen, seen.len()),
    {
        let kind = surface.kind;
        let ghost these = surface.hits@;
        let ghost before = seen;
        for h in inner: surface.hits
            invariant
                inner.seq() == these,
                seen == before + these.take(inner.index() as int).map_values(
                    |h: SearchHit| tagged(kind, h),
                ),
                ranking@ == ranked(seen, seen.len()),
        {
            let hit = SemanticHitDto {
                source_id: h.source_id,
                source_kind: kind,
                distance: h.distance,
            };
            proof {
                let longer = seen.push(hit);
                assert(longer.take(seen.len() as int) =~= seen);
                lemma_ranked_prefix(seen, longer, seen.len());
                assert(these.take(inner.index() + 1) =~= these.take(inner.index() as int).push(h));
                assert(longer =~= before + these.take(inner.index() + 1).map_values(
                    |h: SearchHit| tagged(kind, h),
                ));
                seen = longer;
            }
            place(&mut ranking, hit);
        }
        assert(these.take(these.len() as int) =~= these);
    }
    let keep: usize = k as usize;
    if ranking.len() > keep {
        ranking.truncate(keep);
    }
    ranking
}

proof fn lemma_ranked_prefix(a: Seq<SemanticHitDto>, b: Seq<SemanticHitDto>, n: nat)
    requires
        n <= a.len() <= b.len(),
        b.take(a.len() as int) == a,
    ensures
        ranked(a, n) == ranked(b, n),
    decreases n,
{
    if n > 0 {
        lemma_ranked_prefix(a, b, (n - 1) as nat);
        assert(a[n - 1] == b.take(a.len() as int)[n - 1]);
    }
}

/// Whether no distance is undefined.
pub open spec fn all_ordered(hits: Seq<SemanticHitDto>) -> bool {
    forall|i: int| 0 <= i < hits.len() ==> !(#[trigger] hits[i]).distance.nan()
}

/// Whether nothing farther stands in front of something nearer.
pub open spec fn nearest_first(hits: Seq<SemanticHitDto>) -> bool {
    forall|i: int, j: int|
        0 <= i < j < hits.len() ==> !(#[trigger] hits[i]).distance.gt(
            (#[trigger] hits[j]).distance,
        )
}

proof fn lemma_placed(ranking: Seq<SemanticHitDto>, hit: SemanticHitDto)
    requires
        all_ordered(ranking),
        nearest_first(ranking),
        !hit.distance.nan(),
    ensures
        all_ordered(placed(ranking, hit)),
        nearest_first(placed(ranking, hit)),
        placed(ranking, hit).to_multiset() == ranking.to_multiset().insert(hit),
        forall|i: int|
            0 <= i < placed(ranking, hit).len() ==> placed(ranking, hit)[i] == hit
                || ranking.contains(#[trigger] placed(ranking, hit)[i]),
    decreases ranking.len(),
{
    broadcast use vstd::seq_lib::group_to_multiset_ensures;

    let now = placed(ranking, hit);
    if ranking.len() == 0 || !ranking.last().distance.gt(hit.distance) {
        assert forall|i: int, j: int| 0 <= i < j < now.len() implies !(
        #[trigger] now[i]).distance.gt((#[trigger] now[j]).distance) by {
            if j == ranking.len() {
                assert(!ranking[i].distance.gt(ranking.last().distance) || i == ranking.len() - 1);
            }
        }
        assert forall|i: int| 0 <= i < now.len() implies now[i] == hit || ranking.contains(
            #[trigger] now[i],
        ) by {
            if i < ranking.len() {
                assert(ranking[i] == now[i]);
            }
        }
    } else {
        let init = ranking.drop_last();
        lemma_placed(init, hit);
        let inner = placed(init, hit);
        assert(now == inner.push(ranking.last()));
        assert forall|i: int| 0 <= i < now.len() implies now[i] == hit || ranking.contains(
            #[trigger] now[i],
        ) by {
            if i == inner.len() {
                assert(ranking[ranking.len() - 1] == now[i]);
            } else {
                assert(now[i] == inner[i]);
                if inner[i] != hit {
                    let k = choose|k: int| 0 <= k < init.len() && init[k] == inner[i];
                    assert(ranking[k] == now[i]);
                }
            }
        }
        assert forall|i: int, j: int| 0 <= i < j < now.len() implies !(
        #[trigger] now[i]).distance.gt((#[trigger] now[j]).distance) by {
            if j == inner.len() {
                assert(now[i] == inner[i]);
                if inner[i] != hit {
                    let k = choose|k: int| 0 <= k < init.len() && init[k] == inner[i];
                    assert(ranking[k] == inner[i]);
                    assert(!ranking[k].distance.gt(ranking[ranking.len() - 1].distance));
                }
            }
        }
        assert(ranking =~= init.push(ranking.last()));
        assert(now.to_multiset() =~= ranking.to_multiset().insert(hit));
    }
}

/// A ranking holds the very hits it was made from, the nearest first.
pub proof fn law_ranking_is_sorted(hits: Seq<SemanticHitDto>, n: nat)
    requires
        n <= hits.len(),
        all_ordered(hits),
    ensures
        nearest_first(ranked(hits, n)),
        all_ordered(ranked(hits, n)),
        ranked(hits, n).to_multiset() == hits.take(n as int).to_multiset(),
    decreases n,
{
    broadcast use vstd::seq_lib::group_to_multiset_ensures;

    if n > 0 {
        law_ranking_is_sorted(hits, (n - 1) as nat);
        lemma_placed(ranked(hits, (n - 1) as nat), hits[n - 1]);
        assert(hits.take(n as int) =~= hits.take(n - 1).push(hits[n - 1]));
    } else {
        assert(hits.take(0) =~= Seq::<SemanticHitDto>::empty());
    }
}

proof fn lemma_placed_keeps_order(ranking: Seq<SemanticHitDto>, hit: SemanticHitDto, d: int)
    requires
        !hit.distance.nan(),
        all_ordered(ranking),
    ensures
        ({
            let same = |h: SemanticHitDto| h.distance.rank() == d;
            placed(ranking, hit).filter(same) == (if same(hit) {
                ranking.filter(same).push(hit)
            } else {
                ranking.filter(same)
            })
        }),
    decreases ranking.len(),
{
    reveal(Seq::filter);
    let same = |h: SemanticHitDto| h.distance.rank() == d;
    if ranking.len() == 0 || !ranking.last().distance.gt(hit.distance) {
        assert(ranking.push(hit).drop_last() =~= ranking);
    } else {
        let init = ranking.drop_last();
        lemma_placed_keeps_order(init, hit, d);
        let inner = placed(init, hit);
        assert(inner.push(ranking.last()).drop_last() =~= inner);
    }
}

/// Hits at the same distance come out in the order in which they were found.
pub proof fn law_ranking_is_stable(hits: Seq<SemanticHitDto>, n: nat, d: int)
    requires
        n <= hits.len(),
        all_ordered(hits),
    ensures
        ({
            let same = |h: SemanticHitDto| h.distance.rank() == d;
            ranked(hits, n).filter(same) == hits.take(n as int).filter(same)
        }),
    decreases n,
{
    reveal(Seq::filter);
    let same = |h: SemanticHitDto| h.distance.rank() == d;
    if n > 0 {
        law_ranking_is_stable(hits, (n - 1) as nat, d);
        law_ranking_is_sorted(hits, (n - 1) as nat);
        lemma_placed_keeps_order(ranked(hits, (n - 1) as nat), hits[n - 1], d);
        assert(hits.take(n as int).drop_last() =~= hits.take(n - 1));
        assert(hits.take(n as int).last() == hits[n - 1]);
    } else {
        assert(hits.take(0) =~= Seq::<SemanticHitDto>::empty());
    }
}

proof fn lemma_ranked_len(hits: Seq<SemanticHitDto>, n: nat)
    ensures
        ranked(hits, n).len() == n,
    decreases n,
{
    if n > 0 {
        lemma_ranked_len(hits, (n - 1) as nat);
        lemma_placed_len(ranked(hits, (n - 1) as nat), hits[n - 1]);
    }
}

proof fn lemma_placed_len(ranking: Seq<SemanticHitDto>, hit: SemanticHitDto)
    ensures
        placed(ranking, hit).len() == ranking.len() + 1,
    decreases ranking.len(),
{
    if ranking.len() > 0 {
        lemma_placed_len(ranking.drop_last(), hit);
    }
}

/// A search gives as many hits as were asked for, or all there are, and the nearest: they
/// come nearest first, and none that is left out is nearer than one that is given.
pub proof fn law_nearest_hits_are_given(hits: Seq<SemanticHitDto>, k: nat, i: int, j: int)
    requires
        all_ordered(hits),
        0 <= i < hits.len(),
        0 <= j < hits.len(),
        i < k,
        i <= j,
    ensures
        ({
            let all = ranked(hits, hits.len());
            let given = at_most(all, k);
            &&& all.to_multiset() == hits.to_multiset()
            &&& given.len() == (if hits.len() <= k {
                hits.len()
            } else {
                k
            })
            &&& given[i] == all[i]
            &&& all[j].distance.ge(given[i].distance)
        }),
{
    let all = ranked(hits, hits.len());
    law_ranking_is_sorted(hits, hits.len());
    lemma_ranked_len(hits, hits.len());
    assert(hits.take(hits.len() as int) =~= hits);
    assert(!all[i].distance.nan() && !all[j].distance.nan());
    if i < j {
        assert(!all[i].distance.gt(all[j].distance));
    }
}

/// Every hit of every surface is looked at, with the surface that gave it, and nothing
/// else: `s` and `i` say which one stands at `at`.
pub proof fn law_hits_of_all_surfaces(results: Seq<SurfaceHits>, n: nat, s: int, i: int) -> (at: int)
    requires
        0 <= s < n <= results.len(),
        0 <= i < results[s].hits@.len(),
    ensures
        0 <= at < gathered(results, n).len(),
        gathered(results, n)[at].source_id == results[s].hits@[i].source_id,
        gathered(results, n)[at].distance == results[s].hits@[i].distance,
        gathered(results, n)[at].source_kind == results[s].kind,
        gathered(results, n).len() == gathered(results, (n - 1) as nat).len() + results[n
            - 1].hits@.len(),
        gathered(results, 0).len() == 0,
    decreases n,
{
    let before = gathered(results, (n - 1) as nat);
    let last = results[n - 1].hits@.map_values(|h: SearchHit| tagged(results[n - 1].kind, h));
    if s == n - 1 {
        assert((before + last)[before.len() + i] == last[i]);
        before.len() + i
    } else {
        let at = law_hits_of_all_surfaces(results, (n - 1) as nat, s, i);
        assert((before + last)[at] == before[at]);
        at
    }
}

/// A scoped search of segments leaves out what was deleted or hidden, and one that is
/// scoped to sessions names as many of them as are given.
pub proof fn law_scoped_search_is_scoped(n: nat) -> (at: (int, int))
    ensures
        ({
            let t = search_text(SourceKind::Segment, Some(n));
            let p = " AND s.deleted_at IS NULL AND s.hidden = 0"@;
            let q = " AND s.session_id IN ("@ + placeholders(n) + ")"@;
            &&& 0 <= at.0 && at.0 + p.len() <= t.len() && t.subrange(at.0, at.0 + p.len()) == p
            &&& n > 0 ==> 0 <= at.1 && at.1 + q.len() <= t.len() && t.subrange(
                at.1,
                at.1 + q.len(),
            ) == q
        }),
{
    let kind = SourceKind::Segment;
    let p = " AND s.deleted_at IS NULL AND s.hidden = 0"@;
    let q = " AND s.session_id IN ("@ + placeholders(n) + ")"@;
    let head = "SELECT m."@ + kind.id_name() + ", v.distance FROM "@ + kind.vec_name() + " v JOIN "@
        + kind.meta_name() + " m ON m.rowid = v.rowid"@ + " JOIN "@ + kind.source_name()
        + " s ON s.id = m."@ + kind.id_name() + " WHERE v.embedding MATCH ? AND k = ?"@;
    let tail = " ORDER BY v.distance LIMIT ?"@;
    let t = search_text(kind, Some(n));
    assert(t == head + p + session_clause(n) + tail);
    let a = head.len() as int;
    let b = a + p.len();
    assert(t.subrange(a, a + p.len()) =~= p);
    if n > 0 {
        assert(t.subrange(b, b + q.len()) =~= q);
    }
    (a, b)
}

/// As many values are asked for as there are to be given, with a comma between them.
pub proof fn law_one_placeholder_for_each(n: nat, i: int)
    requires
        0 <= i < n,
    ensures
        placeholders(n).len() == 2 * n - 1,
        placeholders(n)[2 * i] == '?',
        i > 0 ==> placeholders(n)[2 * i - 1] == ',',
    decreases n,
{
    reveal_strlit("?");
    reveal_strlit(",?");
    if n > 1 {
        let before = placeholders((n - 1) as nat);
        if i < n - 1 {
            law_one_placeholder_for_each((n - 1) as nat, i);
        } else {
            law_one_placeholder_for_each((n - 1) as nat, 0);
            let at = before.len() as int;
            assert(placeholders(n)[at] == ',' && placeholders(n)[at + 1] == '?');
        }
    }
}

// --- The model ---

/// The model that is loaded.
#[derive(Clone, Debug)]
pub struct EmbeddingModel {
    pub name: String,
    pub version: String,
    pub dimensions: u32,
}

/// The state of the model, as it is shown.
#[derive(Clone, Debug)]
pub struct EmbeddingModelStatusDto {
    pub ready: bool,
    pub model_name: Option<String>,
    pub model_version: Option<String>,
    pub dimensions: Option<u32>,
}

/// The state of the model, by the one that is loaded.
pub fn embedding_model_status(model: Option<EmbeddingModel>) -> (r: EmbeddingModelStatusDto)
    ensures
        match model {
            Some(m) => r.ready && r.model_name == Some(m.name) && r.model_version == Some(m.version)
                && r.dimensions == Some(m.dimensions),
            None => !r.ready && r.model_name is None && r.model_version is None
                && r.dimensions is None,
        },
{
    match model {
        Some(m) => EmbeddingModelStatusDto {
            ready: true,
            model_name: Some(m.name),
            model_version: Some(m.version),
            dimensions: Some(m.dimensions),
        },
        None => EmbeddingModelStatusDto {
            ready: false,
            model_name: None,
            model_version: None,
            dimensions: None,
        },
    }
}

/// What is done about the process that computes vectors.
#[derive(Clone, Copy, Debug, PartialEq, Eq, Structural)]
pub enum SupervisorStep {
    Keep,
    /// One is there but dead: it is given up before another is started.
    Replace,
    Spawn,
}

/// Decides about the process, by whether one is there and alive.
pub fn ensure_supervisor(existing_alive: Option<bool>) -> (r: SupervisorStep)
    ensures
        r == (match existing_alive {
            Some(true) => SupervisorStep::Keep,
            Some(false) => SupervisorStep::Replace,
            None => SupervisorStep::Spawn,
        }),
{
    match existing_alive {
        Some(alive) => if alive {
            SupervisorStep::Keep
        } else {
            SupervisorStep::Replace
        },
        None => SupervisorStep::Spawn,
    }
}

/// The model, or the error where none is loaded.
pub fn require_model(model: Option<EmbeddingModel>) -> (r: Result<EmbeddingModel, CommandError>)
    ensures
        match model {
            Some(m) => r == Ok::<EmbeddingModel, CommandError>(m),
            None => r matches Err(CommandError::NotInitialized { message }) && message@
                == "embedding model not ready"@,
        },
{
    match model {
        Some(m) => Ok(m),
        None => Err(
            CommandError::NotInitialized { message: "embedding model not ready".to_owned() },
        ),
    }
}

/// The error where no process computes vectors.
pub fn supervisor_missing() -> (r: CommandError)
    ensures
        r matches CommandError::NotInitialized { message } && message@
            == "embedding sidecar not spawned"@,
{
    CommandError::NotInitialized { message: "embedding sidecar not spawned".to_owned() }
}

/// The text that is indexed: without the white space around it. A blank text is not
/// indexed.
pub fn text_to_embed(text: &str) -> (r: Option<String>)
    ensures
        match r {
            Some(t) => t@ == text::trimmed(text@) && t@.len() > 0,
            None => text::trimmed(text@).len() == 0,
        },
{
    let t = text::trim_chars(text::chars_of(text).as_slice());
    if t.len() == 0 {
        None
    } else {
        Some(text::string_of(t.as_slice()))
    }
}

/// What is done next to index one text.
#[derive(Clone, Copy, Debug, PartialEq, Eq, Structural)]
pub enum EmbedStep {
    /// See that the process is there.
    EnsureSupervisor,
    /// Ask for the model.
    ReadModel,
    /// Delete what is there of the entry, so that a failure leaves nothing stale behind.
    DeleteStale,
    /// Compute the vector.
    Embed,
    /// Store it.
    Store,
    Finished,
    Failed,
}

impl EmbedStep {
    /// The step that follows, by how this one went.
    pub open spec fn after(self, ok: bool) -> EmbedStep {
        if !ok && !(self is Finished) {
            EmbedStep::Failed
        } else {
            match self {
                EmbedStep::EnsureSupervisor => EmbedStep::ReadModel,
                EmbedStep::ReadModel => EmbedStep::DeleteStale,
                EmbedStep::DeleteStale => EmbedStep::Embed,
                EmbedStep::Embed => EmbedStep::Store,
                EmbedStep::Store => EmbedStep::Finished,
                EmbedStep::Finished => EmbedStep::Finished,
                EmbedStep::Failed => EmbedStep::Failed,
            }
        }
    }

    /// The first step for a text: none at all where it is blank.
    pub fn first(text: &str) -> (r: EmbedStep)
        ensures
            r == (if text::trimmed(text@).len() == 0 {
                EmbedStep::Finished
            } else {
                EmbedStep::EnsureSupervisor
            }),
    {
        if text::is_blank(text) {
            EmbedStep::Finished
        } else {
            EmbedStep::EnsureSupervisor
        }
    }

    /// The step that follows, by how this one went.
    pub fn next(self, ok: bool) -> (r: EmbedStep)
        ensures
            r == self.after(ok),
    {
        if !ok && self != EmbedStep::Finished {
            return EmbedStep::Failed;
        }
        match self {
            EmbedStep::EnsureSupervisor => EmbedStep::ReadModel,
            EmbedStep::ReadModel => EmbedStep::DeleteStale,
            EmbedStep::DeleteStale => EmbedStep::Embed,
            EmbedStep::Embed => EmbedStep::Store,
            EmbedStep::Store => EmbedStep::Finished,
            EmbedStep::Finished => EmbedStep::Finished,
            EmbedStep::Failed => EmbedStep::Failed,
        }
    }
}

/// A vector is computed only once the old one is deleted: whatever fails afterwards, no
/// stale vector is left behind.
pub proof fn law_stale_is_deleted_first(step: EmbedStep, ok: bool)
    ensures
        step.after(ok) is Embed ==> step is DeleteStale && ok,
        step.after(ok) is Store ==> step is Embed && ok,
{
}

/// Indexing a text goes through its steps one by one as long as each goes well, ends once
/// the vector is stored, and fails as soon as one step does.
pub proof fn law_indexing_goes_step_by_step(step: EmbedStep)
    ensures
        EmbedStep::EnsureSupervisor.after(true) is ReadModel,
        EmbedStep::ReadModel.after(true) is DeleteStale,
        EmbedStep::DeleteStale.after(true) is Embed,
        EmbedStep::Embed.after(true) is Store,
        EmbedStep::Store.after(true) is Finished,
        step is Finished <==> step.after(false) is Finished,
        !(step is Finished) ==> step.after(false) is Failed,
        step.after(true) is Finished ==> step is Store || step is Finished,
{
}

/// An entry without a vector, with the text to index.
#[derive(Clone, Debug)]
pub struct MissingRowDto {
    pub id: String,
    pub text: String,
}

/// What became of one entry of a batch.
#[derive(Clone, Copy, Debug, PartialEq, Eq, Structural)]
pub enum BatchOutcome {
    Written,
    Unchanged,
    Failed,
}

/// How many of the first `n` entries were written.
pub open spec fn written(outcomes: Seq<BatchOutcome>, n: nat) -> nat
    decreases n,
{
    if n == 0 {
        0
    } else {
        written(outcomes, (n - 1) as nat) + (if outcomes[n - 1] is Written {
            1nat
        } else {
            0
        })
    }
}

/// How many entries of a batch were written. One that fails does not stop the others.
pub fn count_written(outcomes: &Vec<BatchOutcome>) -> (r: u32)
    requires
        outcomes@.len() <= u32::MAX,
    ensures
        r == written(outcomes@, outcomes@.len()),
{
    let mut n: u32 = 0;
    let mut i: usize = 0;
    while i < outcomes.len()
        invariant
            i <= outcomes@.len() <= u32::MAX,
            n == written(outcomes@, i as nat),
            n <= i,
        decreases outcomes@.len() - i,
    {
        if matches!(outcomes[i], BatchOutcome::Written) {
            n = n + 1;
        }
        i = i + 1;
    }
    n
}

/// Of a batch exactly the entries that were written are counted.
pub proof fn law_written_are_counted(outcomes: Seq<BatchOutcome>, n: nat)
    requires
        n <= outcomes.len(),
    ensures
        written(outcomes, n) == outcomes.take(n as int).filter(|o: BatchOutcome| o is Written).len(),
    decreases n,
{
    reveal(Seq::filter);
    if n > 0 {
        law_written_are_counted(outcomes, (n - 1) as nat);
        assert(outcomes.take(n as int).drop_last() =~= outcomes.take(n - 1));
        assert(outcomes.take(n as int).last() == outcomes[n - 1]);
    }
}

/// A request for a surface keeps its meaning.
pub proof fn law_surface_keeps_its_meaning(kind: SourceKindDto)
    ensures
        ({
            let of = <SourceKind as vstd::std_specs::convert::FromSpec<SourceKindDto>>::from_spec(
                kind,
            );
            &&& kind is Segment <==> of is Segment
            &&& kind is Dictation <==> of is Dictation
            &&& kind is Note <==> of is Note
        }),
{
}

/// Two digits stand for each byte, the one of the higher half first; a digit is a figure up
/// to nine and a small letter from there on.
pub proof fn law_hex_has_two_digits_for_each(bytes: Seq<u8>, i: int)
    requires
        0 <= i < bytes.len(),
    ensures
        hex(bytes).len() == 2 * bytes.len(),
        ({
            let worth = |c: char|
                if c <= '9' {
                    c as int - '0' as int
                } else {
                    c as int - 'a' as int + 10
                };
            &&& forall|k: int|
                0 <= k < 2 * bytes.len() ==> {
                    let c = #[trigger] hex(bytes)[k];
                    ('0' <= c && c <= '9') || ('a' <= c && c <= 'f')
                }
            &&& 16 * worth(hex(bytes)[2 * i]) + worth(hex(bytes)[2 * i + 1]) == bytes[i]
        }),
{
    assert((2 * i + 1) / 2 == i && (2 * i + 1) % 2 == 1);
}

} // verus!
