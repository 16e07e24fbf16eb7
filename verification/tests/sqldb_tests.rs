use mesh_core::sqldb::{schema_statements, MeshDatabase};

fn fresh_db() -> MeshDatabase {
    let conn = rusqlite::Connection::open_in_memory().unwrap();
    MeshDatabase::init(conn).unwrap()
}

#[test]
fn schema_initializes_and_reports_a_version() {
    let db = fresh_db();
    let version = db.sqlite_version().unwrap();
    assert!(!version.is_empty());
}

#[test]
fn schema_creation_is_idempotent() {
    let conn = rusqlite::Connection::open_in_memory().unwrap();
    let db = MeshDatabase::init(conn).unwrap();
    // Re-running the schema on the same database must succeed: every
    // statement creates only what is absent.
    let again = db.connection().execute(
        "CREATE TABLE IF NOT EXISTS photos (
            id INTEGER PRIMARY KEY AUTOINCREMENT,
            path TEXT NOT NULL UNIQUE,
            file_hash TEXT NOT NULL UNIQUE,
            filename TEXT NOT NULL,
            width INTEGER NOT NULL,
            height INTEGER NOT NULL,
            size INTEGER NOT NULL,
            created_at DATETIME NOT NULL,
            modified_at DATETIME NOT NULL
        )",
        [],
    );
    assert!(again.is_ok());
}

fn insert_photo_row(db: &MeshDatabase, path: &str, hash: &str, filename: &str) -> rusqlite::Result<usize> {
    db.connection().execute(
        "INSERT INTO photos (path, file_hash, filename, width, height, size, created_at, modified_at)
         VALUES (?1, ?2, ?3, 800, 600, 1024, 0, 0)",
        (path, hash, filename),
    )
}

#[test]
fn photo_table_enforces_unique_path_and_hash() {
    let db = fresh_db();
    insert_photo_row(&db, "/a/sunset.jpg", "h1", "sunset.jpg").unwrap();
    assert!(insert_photo_row(&db, "/a/sunset.jpg", "h2", "sunset.jpg").is_err());
    assert!(insert_photo_row(&db, "/b/other.jpg", "h1", "other.jpg").is_err());
}

#[test]
fn triggers_keep_the_filename_index_current() {
    let db = fresh_db();
    insert_photo_row(&db, "/a/sunset.jpg", "h1", "sunset.jpg").unwrap();
    let count = |q: &str| -> i64 {
        db.connection()
            .query_row(
                "SELECT count(*) FROM photos_fts WHERE photos_fts MATCH ?1",
                [q],
                |row| row.get(0),
            )
            .unwrap()
    };
    assert_eq!(count("sunset"), 1);
    db.connection()
        .execute("UPDATE photos SET filename = 'dusk.jpg' WHERE path = '/a/sunset.jpg'", [])
        .unwrap();
    assert_eq!(count("sunset"), 0);
    assert_eq!(count("dusk"), 1);
    db.connection()
        .execute("DELETE FROM photos WHERE path = '/a/sunset.jpg'", [])
        .unwrap();
    assert_eq!(count("dusk"), 0);
}

#[test]
fn schema_statements_are_pinned() {
    let stmts = schema_statements();
    assert_eq!(stmts.len(), 11);
    assert!(stmts[0].starts_with("CREATE TABLE IF NOT EXISTS photos"));
    assert!(stmts[4].contains("photos_fts USING fts5"));
    assert!(stmts[7].contains("AFTER DELETE ON photos"));
    assert!(stmts[10].contains("idx_photos_file_hash"));
}
