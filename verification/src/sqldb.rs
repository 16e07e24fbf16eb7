//! The persisted catalog schema: tables for photos, tags, associations and
//! per-tag counts, a full-text index over filenames, and the triggers that
//! keep that index consistent with the photo rows inside every write. The
//! statement texts are pinned by `schema_statements`, and every statement
//! creates only what is absent, so a database file can be reopened across
//! process restarts.

use vstd::prelude::*;

use crate::errors::MeshError;

verus! {

#[verifier::external_type_specification]
#[verifier::external_body]
pub struct ExConnection(rusqlite::Connection);

#[verifier::external_type_specification]
#[verifier::external_body]
pub struct ExSqlError(rusqlite::Error);

/// Relies on `rusqlite::Connection::execute`: runs one SQL statement that
/// takes no parameters, returning how many rows it changed or the
/// database's error.
#[verifier::external_body]
fn exec_sql(conn: &rusqlite::Connection, sql: &str) -> (r: Result<usize, rusqlite::Error>)
{
    conn.execute(sql, [])
}

/// Relies on `rusqlite::Connection::query_row`: runs
/// `SELECT sqlite_version()` and reads the single text column of its one
/// result row.
#[verifier::external_body]
fn query_version(conn: &rusqlite::Connection) -> (r: Result<String, rusqlite::Error>)
{
    conn.query_row("SELECT sqlite_version()", [], |row| row.get(0))
}

/// A handle on the persisted catalog database, its schema created.
pub struct MeshDatabase {
    conn: rusqlite::Connection,
}

/// The text of the schema statement at the given position: the four base
/// tables, the full-text index, its three maintenance triggers, and the
/// three plain indexes, in creation order.
pub open spec fn schema_statement_text(i: int) -> Seq<char> {
    if i == 0 {
        "CREATE TABLE IF NOT EXISTS photos (
            id INTEGER PRIMARY KEY AUTOINCREMENT,
            path TEXT NOT NULL UNIQUE,
            file_hash TEXT NOT NULL UNIQUE,
            filename TEXT NOT NULL,
            width INTEGER NOT NULL,
            height INTEGER NOT NULL,
            size INTEGER NOT NULL,
            created_at DATETIME NOT NULL,
            modified_at DATETIME NOT NULL
        )"@
    } else if i == 1 {
        "CREATE TABLE IF NOT EXISTS tags (
            id INTEGER PRIMARY KEY AUTOINCREMENT,
            name TEXT NOT NULL UNIQUE,
            parent_id INTEGER,
            tag_color_hex  DEFAULT '#FFFFFF',
            FOREIGN KEY (parent_id) REFERENCES tags(id) ON DELETE SET NULL
        )"@
    } else if i == 2 {
        "CREATE TABLE IF NOT EXISTS photo_tags (
            photo_id INTEGER NOT NULL,
            tag_id INTEGER NOT NULL,
            PRIMARY KEY (photo_id, tag_id),
            FOREIGN KEY (photo_id) REFERENCES photos(id) ON DELETE CASCADE,
            FOREIGN KEY (tag_id) REFERENCES tags(id) ON DELETE CASCADE
        )"@
    } else if i == 3 {
        "CREATE TABLE IF NOT EXISTS tag_counts (
            tag_id INTEGER PRIMARY KEY,
            photo_count INTEGER NOT NULL,
            FOREIGN KEY (tag_id) REFERENCES tags(id) ON DELETE CASCADE
        )"@
    } else if i == 4 {
        "CREATE VIRTUAL TABLE IF NOT EXISTS photos_fts USING fts5(
            photo_id UNINDEXED,
            filename
        )"@
    } else if i == 5 {
        "CREATE TRIGGER IF NOT EXISTS photos_fts_ai AFTER INSERT ON photos BEGIN
          INSERT INTO photos_fts(rowid, filename) VALUES (new.id, new.filename);
        END"@
    } else if i == 6 {
        "CREATE TRIGGER IF NOT EXISTS photos_fts_au AFTER UPDATE OF filename ON photos BEGIN
          DELETE FROM photos_fts WHERE rowid = old.id;
          INSERT INTO photos_fts(rowid, filename) VALUES (new.id, new.filename);
        END"@
    } else if i == 7 {
        "CREATE TRIGGER IF NOT EXISTS photos_fts_ad AFTER DELETE ON photos BEGIN
          DELETE FROM photos_fts WHERE rowid = old.id;
        END"@
    } else if i == 8 {
        "CREATE INDEX IF NOT EXISTS idx_photo_tags_tag_id ON photo_tags (tag_id)"@
    } else if i == 9 {
        "CREATE INDEX IF NOT EXISTS idx_tags_parent_id ON tags (parent_id)"@
    } else {
        "CREATE UNIQUE INDEX IF NOT EXISTS idx_photos_file_hash ON photos (file_hash)"@
    }
}

/// The eleven schema statements, in creation order, each one's text pinned
/// to `schema_statement_text`.
pub fn schema_statements() -> (r: Vec<&'static str>)
    ensures
        r@.len() == 11,
        forall|i: int| 0 <= i < 11 ==> (#[trigger] r@[i])@ == schema_statement_text(i),
{
    let mut v: Vec<&'static str> = Vec::new();
    v.push(
        "CREATE TABLE IF NOT EXISTS photos (
            id INTEGER PRIMARY KEY AUTOINCREMENT,
            path TEXT NOT NULL UNIQUE,
            file_hash TEXT NOT NULL UNIQUE,
            filename TEXT NOT NULL,
            width INTEGER NOT NULL,
            height INTEGER NOT NULL,
            size INTEGER NOT NULL,
            created_at DATETIME NOT NULL,
            modified_at DATETIME NOT NULL
        )",
    );
    v.push(
        "CREATE TABLE IF NOT EXISTS tags (
            id INTEGER PRIMARY KEY AUTOINCREMENT,
            name TEXT NOT NULL UNIQUE,
            parent_id INTEGER,
            tag_color_hex  DEFAULT '#FFFFFF',
            FOREIGN KEY (parent_id) REFERENCES tags(id) ON DELETE SET NULL
        )",
    );
    v.push(
        "CREATE TABLE IF NOT EXISTS photo_tags (
            photo_id INTEGER NOT NULL,
            tag_id INTEGER NOT NULL,
            PRIMARY KEY (photo_id, tag_id),
            FOREIGN KEY (photo_id) REFERENCES photos(id) ON DELETE CASCADE,
            FOREIGN KEY (tag_id) REFERENCES tags(id) ON DELETE CASCADE
        )",
    );
    v.push(
        "CREATE TABLE IF NOT EXISTS tag_counts (
            tag_id INTEGER PRIMARY KEY,
            photo_count INTEGER NOT NULL,
            FOREIGN KEY (tag_id) REFERENCES tags(id) ON DELETE CASCADE
        )",
    );
    v.push(
        "CREATE VIRTUAL TABLE IF NOT EXISTS photos_fts USING fts5(
            photo_id UNINDEXED,
            filename
        )",
    );
    v.push(
        "CREATE TRIGGER IF NOT EXISTS photos_fts_ai AFTER INSERT ON photos BEGIN
          INSERT INTO photos_fts(rowid, filename) VALUES (new.id, new.filename);
        END",
    );
    v.push(
        "CREATE TRIGGER IF NOT EXISTS photos_fts_au AFTER UPDATE OF filename ON photos BEGIN
          DELETE FROM photos_fts WHERE rowid = old.id;
          INSERT INTO photos_fts(rowid, filename) VALUES (new.id, new.filename);
        END",
    );
    v.push(
        "CREATE TRIGGER IF NOT EXISTS photos_fts_ad AFTER DELETE ON photos BEGIN
          DELETE FROM photos_fts WHERE rowid = old.id;
        END",
    );
    v.push("CREATE INDEX IF NOT EXISTS idx_photo_tags_tag_id ON photo_tags (tag_id)");
    v.push("CREATE INDEX IF NOT EXISTS idx_tags_parent_id ON tags (parent_id)");
    v.push("CREATE UNIQUE INDEX IF NOT EXISTS idx_photos_file_hash ON photos (file_hash)");
    proof {
        assert forall|i: int| 0 <= i < 11 implies (#[trigger] v@[i])@ == schema_statement_text(
            i,
        ) by {
            if i == 0 {
                assert(v@[0]@ == schema_statement_text(0));
            } else if i == 1 {
                assert(v@[1]@ == schema_statement_text(1));
            } else if i == 2 {
                assert(v@[2]@ == schema_statement_text(2));
            } else if i == 3 {
                assert(v@[3]@ == schema_statement_text(3));
            } else if i == 4 {
                assert(v@[4]@ == schema_statement_text(4));
            } else if i == 5 {
                assert(v@[5]@ == schema_statement_text(5));
            } else if i == 6 {
                assert(v@[6]@ == schema_statement_text(6));
            } else if i == 7 {
                assert(v@[7]@ == schema_statement_text(7));
            } else if i == 8 {
                assert(v@[8]@ == schema_statement_text(8));
            } else if i == 9 {
                assert(v@[9]@ == schema_statement_text(9));
            } else {
                assert(v@[10]@ == schema_statement_text(10));
            }
        }
    }
    v
}

/// Creates the catalog schema on the given connection: executes exactly
/// the statements that `schema_statements` pins, in order, stopping at the
/// first one the database refuses.
fn init_execute(conn: &rusqlite::Connection) -> (r: Result<(), rusqlite::Error>) {
    let stmts = schema_statements();
    let n = stmts.len();
    let mut i: usize = 0;
    while i < n
        invariant
            0 <= i <= n,
            n == stmts@.len(),
        decreases n - i,
    {
        match exec_sql(conn, stmts[i]) {
            Ok(_) => {},
            Err(e) => {
                return Err(e);
            },
        }
        i = i + 1;
    }
    Ok(())
}

impl MeshDatabase {
    /// Creates the catalog schema on an opened connection and takes
    /// ownership of it. A connection whose database refuses any schema
    /// statement is rejected with `SchemaError`: the handle is never built
    /// in a half-initialized state.
    pub fn init(conn: rusqlite::Connection) -> (r: Result<MeshDatabase, MeshError>)
        ensures
            r matches Err(e) ==> e == MeshError::SchemaError,
    {
        match init_execute(&conn) {
            Ok(()) => Ok(MeshDatabase { conn }),
            Err(_) => Err(MeshError::SchemaError),
        }
    }

    /// The version string of the linked database engine; a failed query is
    /// reported as `SchemaError`.
    pub fn sqlite_version(&self) -> (r: Result<String, MeshError>)
        ensures
            r matches Err(e) ==> e == MeshError::SchemaError,
    {
        match query_version(&self.conn) {
            Ok(v) => Ok(v),
            Err(_) => Err(MeshError::SchemaError),
        }
    }

    /// The underlying connection, for callers that run their own
    /// statements against the initialized schema.
    pub fn connection(&self) -> &rusqlite::Connection {
        &self.conn
    }
}

} // verus!
