use eh_archiver::tag_db::{
    apply_operations, get_operations, EhTagDb, NamespaceData, SyncOutcome, TagAction, TagDbError,
    TagOperation, TagRecord,
};

fn rec(raw: &str, name: &str, intro: &str, links: &str) -> TagRecord {
    TagRecord {
        raw: raw.to_string(),
        name: name.to_string(),
        intro: intro.to_string(),
        links: links.to_string(),
    }
}

const NAMESPACES: [&str; 12] = [
    "artist",
    "character",
    "cosplayer",
    "female",
    "group",
    "language",
    "male",
    "mixed",
    "other",
    "parody",
    "reclass",
    "rows",
];

/// A dataset holding every namespace, with `rows` under `fill`, empty
/// elsewhere.
fn dataset_with(fill: &str, rows: Vec<TagRecord>) -> Vec<NamespaceData> {
    let mut rows = Some(rows);
    let mut ds = Vec::new();
    for ns in NAMESPACES {
        let data = if ns == fill { rows.take().unwrap() } else { Vec::new() };
        ds.push(NamespaceData { namespace: ns.to_string(), data });
    }
    ds
}

#[test]
fn resync_applies_then_second_call_is_noop() {
    let mut db = EhTagDb::new();
    let ds = dataset_with("artist", vec![rec("abc", "Translated", "", "")]);
    let first = db.resync("v1", &ds).unwrap();
    assert_eq!(first, SyncOutcome::Applied { inserted: 1, updated: 0, skipped: 0 });
    assert_eq!(db.get_stored_version(), Some(&"v1".to_string()));
    // No upstream change: the second pass performs zero operations and
    // leaves the stored version unchanged.
    let second = db.resync("v1", &ds).unwrap();
    assert_eq!(second, SyncOutcome::NoOp);
    assert_eq!(db.get_stored_version(), Some(&"v1".to_string()));
}

#[test]
fn resync_new_version_updates_changed_rows() {
    let mut db = EhTagDb::new();
    let ds1 = dataset_with("artist", vec![rec("abc", "Old", "", "")]);
    db.resync("v1", &ds1).unwrap();
    let ds2 = dataset_with("artist", vec![rec("abc", "New", "", "")]);
    let out = db.resync("v2", &ds2).unwrap();
    assert_eq!(out, SyncOutcome::Applied { inserted: 0, updated: 1, skipped: 0 });
    assert_eq!(db.get_tag_name("artist", "abc").unwrap(), Some("New".to_string()));
    assert_eq!(db.get_stored_version(), Some(&"v2".to_string()));
}

#[test]
fn classification_update_skip_insert() {
    let mut db = EhTagDb::new();
    db.update_namespace("artist", &vec![rec("abc", "Old", "", "")]).unwrap();

    // A differing payload classifies as an update and the store reads
    // the new payload afterwards.
    let counts = db.update_namespace("artist", &vec![rec("abc", "New", "", "")]).unwrap();
    assert_eq!(counts, (0, 1, 0));
    assert_eq!(db.get_tag_name("artist", "abc").unwrap(), Some("New".to_string()));

    // An identical payload classifies as a skip: zero writes.
    let counts = db.update_namespace("artist", &vec![rec("abc", "New", "", "")]).unwrap();
    assert_eq!(counts, (0, 0, 1));

    // A key with no local row classifies as an insert.
    let counts = db.update_namespace("artist", &vec![rec("xyz", "Fresh", "", "")]).unwrap();
    assert_eq!(counts, (1, 0, 0));
    assert_eq!(db.get_tag_name("artist", "xyz").unwrap(), Some("Fresh".to_string()));
}

#[test]
fn get_operations_classifies_each_entry() {
    let existing = vec![rec("abc", "Old", "", ""), rec("same", "Kept", "i", "l")];
    let upstream = vec![
        rec("abc", "New", "", ""),
        rec("same", "Kept", "i", "l"),
        rec("xyz", "Fresh", "", ""),
    ];
    let ops = get_operations(&upstream, &existing);
    assert_eq!(ops.len(), 3);
    assert_eq!(ops[0].operation, TagAction::Update);
    assert_eq!(ops[1].operation, TagAction::Skip);
    assert_eq!(ops[2].operation, TagAction::Insert);
    assert_eq!(ops[0].raw, "abc".to_string());
    assert_eq!(ops[0].name, "New".to_string());
}

#[test]
fn apply_operations_counts_and_writes() {
    let mut table = vec![rec("abc", "Old", "", "")];
    let ops = vec![
        TagOperation {
            raw: "abc".to_string(),
            name: "New".to_string(),
            intro: String::new(),
            links: String::new(),
            operation: TagAction::Update,
        },
        TagOperation {
            raw: "xyz".to_string(),
            name: "Fresh".to_string(),
            intro: String::new(),
            links: String::new(),
            operation: TagAction::Insert,
        },
    ];
    let counts = apply_operations(&mut table, &ops);
    assert_eq!(counts, (1, 1, 0));
    assert_eq!(table.len(), 2);
    assert_eq!(table[0].name, "New".to_string());
    assert_eq!(table[1].raw, "xyz".to_string());
}

#[test]
fn raw_key_without_letter_is_excluded() {
    let mut db = EhTagDb::new();
    let ds = dataset_with(
        "artist",
        vec![rec("123", "Numeric", "x", "y"), rec("abc", "Lettered", "", "")],
    );
    let out = db.resync("v1", &ds).unwrap();
    // Only the lettered key is synced, whatever the other entry held.
    assert_eq!(out, SyncOutcome::Applied { inserted: 1, updated: 0, skipped: 0 });
    assert_eq!(db.get_tag_name("artist", "123").unwrap(), None);
    assert_eq!(db.get_tag_name("artist", "abc").unwrap(), Some("Lettered".to_string()));
    assert!(!EhTagDb::check("123"));
    assert!(EhTagDb::check("a1"));
}

#[test]
fn unknown_namespace_is_rejected() {
    let db = EhTagDb::new();
    let r = db.get_tag_name("uploader", "someone");
    assert_eq!(r, Err(TagDbError::UnknownNamespace));
    assert_eq!(TagDbError::UnknownNamespace.message(), "unknown namespace");
}

#[test]
fn missing_namespace_fails_resync_and_keeps_version() {
    let mut db = EhTagDb::new();
    // A dataset that lacks the last namespace.
    let mut ds = dataset_with("artist", vec![rec("abc", "A", "", "")]);
    ds.pop();
    let r = db.resync("v1", &ds);
    assert_eq!(r, Err(TagDbError::MissingNamespace));
    // The version is written only after a full pass: it stays absent.
    assert_eq!(db.get_stored_version(), None);
    assert_eq!(TagDbError::MissingNamespace.message(), "namespace not found in dataset");
}

#[test]
fn lookup_absence_is_not_an_error() {
    let db = EhTagDb::new();
    assert_eq!(db.get_tag_name("artist", "nobody").unwrap(), None);
}

#[test]
fn get_all_tags_snapshots_every_namespace() {
    let mut db = EhTagDb::new();
    db.update_namespace("language", &vec![rec("chinese", "Zh", "", "")]).unwrap();
    let all = db.get_all_tags();
    assert_eq!(all.len(), 12);
    assert_eq!(all[5].0, "language".to_string());
    assert_eq!(all[5].1, vec![("chinese".to_string(), "Zh".to_string())]);
    assert_eq!(all[0].0, "artist".to_string());
    assert!(all[0].1.is_empty());
}

#[test]
fn stored_version_roundtrip() {
    let mut db = EhTagDb::new();
    assert_eq!(db.get_stored_version(), None);
    db.update_stored_version("r2024".to_string());
    assert_eq!(db.get_stored_version(), Some(&"r2024".to_string()));
}
