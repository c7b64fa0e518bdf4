use gallerynet::query::{folder_query, library_query, parse_tags, MediaFilter, SqlQuery, SqlValue};
use gallerynet::requests::{list_filter, Pagination};
use rusqlite::Connection;

fn filter() -> MediaFilter {
    MediaFilter {
        media_type: None,
        favorite: false,
        tags: None,
        person_id: None,
        cluster_id: None,
        sort_asc: false,
        sort_by: "date".to_string(),
        limit: 10,
        offset: 0,
    }
}

fn schema() -> Connection {
    let conn = Connection::open_in_memory().unwrap();
    conn.execute_batch(
        "CREATE TABLE media (id BLOB PRIMARY KEY, filename TEXT NOT NULL, original_filename TEXT NOT NULL,
            media_type TEXT NOT NULL DEFAULT 'image', phash TEXT NOT NULL, uploaded_at TEXT NOT NULL,
            original_date TEXT NOT NULL DEFAULT '', width INTEGER, height INTEGER,
            size_bytes INTEGER NOT NULL, exif_json TEXT);
         CREATE TABLE favorites (media_id BLOB PRIMARY KEY, created_at TEXT NOT NULL);
         CREATE TABLE tags (id INTEGER PRIMARY KEY AUTOINCREMENT, name TEXT NOT NULL UNIQUE);
         CREATE TABLE media_tags (media_id BLOB NOT NULL, tag_id INTEGER NOT NULL,
            is_auto BOOLEAN NOT NULL DEFAULT 0, confidence REAL, PRIMARY KEY (media_id, tag_id));
         CREATE TABLE faces (id BLOB PRIMARY KEY, media_id BLOB NOT NULL, person_id BLOB, cluster_id INTEGER);
         CREATE TABLE folder_media (folder_id BLOB NOT NULL, media_id BLOB NOT NULL, added_at TEXT NOT NULL,
            PRIMARY KEY (folder_id, media_id));",
    )
    .unwrap();
    conn
}

fn insert_media(conn: &Connection, id: u128, date: &str, size: i64, media_type: &str) {
    conn.execute(
        "INSERT INTO media (id, filename, original_filename, media_type, size_bytes, phash, uploaded_at, original_date)
         VALUES (?1, ?2, ?2, ?3, ?4, 'ph', '2024-01-01T00:00:00Z', ?5)",
        (id.to_be_bytes().to_vec(), format!("{}.jpg", id), media_type, size, date,),
    )
    .unwrap();
}

fn tag(conn: &Connection, id: u128, name: &str) {
    conn.execute("INSERT OR IGNORE INTO tags (name) VALUES (?1)", (name,)).unwrap();
    let tag_id: i64 = conn
        .query_row("SELECT id FROM tags WHERE name = ?1", (name,), |r| r.get(0))
        .unwrap();
    conn.execute(
        "INSERT INTO media_tags (media_id, tag_id) VALUES (?1, ?2)",
        (id.to_be_bytes().to_vec(), tag_id,),
    )
    .unwrap();
}

fn run(conn: &Connection, q: &SqlQuery) -> Vec<u128> {
    let values: Vec<rusqlite::types::Value> = q
        .params
        .iter()
        .map(|p| match p {
            SqlValue::Text(s) => rusqlite::types::Value::Text(s.clone()),
            SqlValue::Uuid(u) => rusqlite::types::Value::Blob(u.to_be_bytes().to_vec()),
            SqlValue::Integer(i) => rusqlite::types::Value::Integer(*i),
        })
        .collect();
    let mut stmt = conn.prepare(&q.sql).unwrap();
    assert_eq!(stmt.parameter_count(), values.len(), "placeholders and parameters differ");
    let rows = stmt
        .query_map(rusqlite::params_from_iter(values.iter()), |row| {
            let b: Vec<u8> = row.get(0)?;
            Ok(u128::from_be_bytes(b.try_into().unwrap()))
        })
        .unwrap();
    rows.map(|r| r.unwrap()).collect()
}

#[test]
fn library_statement_text() {
    let q = library_query(&filter());
    assert_eq!(
        q.sql,
        "SELECT m.id, m.filename, m.original_filename, m.media_type, m.uploaded_at, m.original_date, (f.media_id IS NOT NULL) as is_favorite, m.size_bytes, m.width, m.height FROM media m LEFT JOIN favorites f ON f.media_id = m.id ORDER BY m.original_date DESC LIMIT ? OFFSET ?"
    );
    assert_eq!(q.params.len(), 2);

    let mut f = filter();
    f.media_type = Some("video".to_string());
    f.favorite = true;
    f.tags = Some(vec!["a".to_string(), "b".to_string()]);
    f.sort_by = "size".to_string();
    f.sort_asc = true;
    let q = library_query(&f);
    assert_eq!(
        q.sql,
        "SELECT m.id, m.filename, m.original_filename, m.media_type, m.uploaded_at, m.original_date, (f.media_id IS NOT NULL) as is_favorite, m.size_bytes, m.width, m.height FROM media m LEFT JOIN favorites f ON f.media_id = m.id WHERE m.media_type = ? AND f.media_id IS NOT NULL AND EXISTS (SELECT 1 FROM media_tags mt2 JOIN tags t2 ON t2.id = mt2.tag_id WHERE mt2.media_id = m.id AND t2.name IN (?, ?)) ORDER BY m.size_bytes ASC LIMIT ? OFFSET ?"
    );
    assert_eq!(q.params.len(), 5);
}

#[test]
fn folder_statement_binds_folder_first() {
    let mut f = filter();
    f.person_id = Some(7);
    f.cluster_id = Some(3);
    let q = folder_query(99, &f);
    assert!(q.sql.ends_with(
        "WHERE fm.folder_id = ? AND EXISTS (SELECT 1 FROM faces f2 WHERE f2.media_id = m.id AND f2.person_id = ?) AND EXISTS (SELECT 1 FROM faces f2 WHERE f2.media_id = m.id AND f2.cluster_id = ?) ORDER BY m.original_date DESC LIMIT ? OFFSET ?"
    ));
    assert!(matches!(q.params[0], SqlValue::Uuid(99)));
    assert!(matches!(q.params[1], SqlValue::Uuid(7)));
    assert!(matches!(q.params[2], SqlValue::Integer(3)));
    assert!(matches!(q.params[3], SqlValue::Integer(10)));
    assert!(matches!(q.params[4], SqlValue::Integer(0)));
}

#[test]
fn statements_run_against_sqlite() {
    let conn = schema();
    insert_media(&conn, 1, "2024-01-01T00:00:00Z", 100, "image");
    insert_media(&conn, 2, "2024-06-15T00:00:00Z", 300, "video");
    insert_media(&conn, 3, "2024-03-10T00:00:00Z", 200, "image");
    tag(&conn, 1, "Nature");
    tag(&conn, 3, "City");
    conn.execute("INSERT INTO favorites (media_id, created_at) VALUES (?1, 'x')", (3u128.to_be_bytes().to_vec(),))
        .unwrap();

    assert_eq!(run(&conn, &library_query(&filter())), vec![2, 3, 1]);
    let mut f = filter();
    f.sort_asc = true;
    assert_eq!(run(&conn, &library_query(&f)), vec![1, 3, 2]);
    f.sort_by = "size".to_string();
    assert_eq!(run(&conn, &library_query(&f)), vec![1, 3, 2]);
    f.sort_asc = false;
    assert_eq!(run(&conn, &library_query(&f)), vec![2, 3, 1]);

    let mut f = filter();
    f.media_type = Some("image".to_string());
    assert_eq!(run(&conn, &library_query(&f)), vec![3, 1]);
    let mut f = filter();
    f.favorite = true;
    assert_eq!(run(&conn, &library_query(&f)), vec![3]);
    let mut f = filter();
    f.tags = Some(vec!["Nature".to_string(), "City".to_string()]);
    assert_eq!(run(&conn, &library_query(&f)), vec![3, 1]);
    let mut f = filter();
    f.limit = 1;
    f.offset = 1;
    assert_eq!(run(&conn, &library_query(&f)), vec![3]);
}

#[test]
fn injected_values_stay_values() {
    let conn = schema();
    insert_media(&conn, 1, "2024-01-01T00:00:00Z", 100, "image");
    insert_media(&conn, 2, "2024-06-15T00:00:00Z", 200, "image");
    tag(&conn, 1, "Safe");
    for payload in [
        "size; DROP TABLE media; --",
        "1 OR 1=1",
        "original_date; DELETE FROM media",
        "' OR '1'='1",
        "m.id; DROP TABLE media--",
        "CASE WHEN 1=1 THEN size_bytes ELSE original_date END",
    ] {
        let mut f = filter();
        f.sort_by = payload.to_string();
        assert_eq!(run(&conn, &library_query(&f)), vec![2, 1], "{}", payload);
    }
    for payload in ["image' OR '1'='1", "image; DROP TABLE media;--"] {
        let mut f = filter();
        f.media_type = Some(payload.to_string());
        assert!(run(&conn, &library_query(&f)).is_empty());
    }
    let mut f = filter();
    f.tags = Some(vec!["Safe' OR '1'='1".to_string()]);
    assert!(run(&conn, &library_query(&f)).is_empty());
    let mut f = filter();
    f.tags = Some(vec!["Safe".to_string()]);
    assert_eq!(run(&conn, &library_query(&f)), vec![1]);
}

#[test]
fn folder_statement_runs() {
    let conn = schema();
    insert_media(&conn, 1, "2024-01-01T00:00:00Z", 100, "image");
    insert_media(&conn, 2, "2024-06-15T00:00:00Z", 200, "image");
    conn.execute(
        "INSERT INTO folder_media (folder_id, media_id, added_at) VALUES (?1, ?2, 'x')",
        (5u128.to_be_bytes().to_vec(), 1u128.to_be_bytes().to_vec(),),
    )
    .unwrap();
    assert_eq!(run(&conn, &folder_query(5, &filter())), vec![1]);
    assert!(run(&conn, &folder_query(6, &filter())).is_empty());
}

#[test]
fn tag_parameter_parsing() {
    assert_eq!(parse_tags(None), None);
    assert_eq!(parse_tags(Some("")), None);
    assert_eq!(
        parse_tags(Some(" cats, dogs ,,  ")),
        Some(vec!["cats".to_string(), "dogs".to_string()])
    );
    assert_eq!(parse_tags(Some(" , ")), Some(vec![]));
}

#[test]
fn pagination_to_filter() {
    let p = Pagination {
        page: Some(3),
        limit: Some(500),
        media_type: Some("image".to_string()),
        favorite: Some(true),
        tags: Some("a,b".to_string()),
        sort: Some("asc".to_string()),
        sort_by: None,
    };
    let f = list_filter(&p);
    assert_eq!(f.limit, 200);
    assert_eq!(f.offset, 400);
    assert_eq!(f.media_type.as_deref(), Some("image"));
    assert!(f.favorite);
    assert_eq!(f.tags, Some(vec!["a".to_string(), "b".to_string()]));
    assert!(f.sort_asc);
    assert_eq!(f.sort_by, "date");

    let p = Pagination {
        page: None,
        limit: None,
        media_type: None,
        favorite: None,
        tags: None,
        sort: Some("ASC".to_string()),
        sort_by: Some("size".to_string()),
    };
    let f = list_filter(&p);
    assert_eq!((f.limit, f.offset), (20, 0));
    assert!(!f.sort_asc);
    assert!(!f.favorite);
    assert_eq!(f.sort_by, "size");
}
