use siphon::{
    aggregate_collections, poem_collections, update_collection_document, Aggregate, Config,
    ConfigError, ErrorKind,
};

#[test]
fn published_document_updates_its_collection() {
    let poem = "---\ncollections: sample\npublish: true\n---\n\nducky\n\n";
    let existing = "---\ntitle: sample collection\ncreated: 2021-06-20\n---\n\na description of the sample\n";
    let collections = poem_collections(poem).unwrap().unwrap();
    assert_eq!(collections, vec![String::from("sample")]);
    let mut index = Aggregate::new();
    index = aggregate_collections(String::from("2021-05-30"), collections, index);
    let members = index.get("sample").unwrap().clone();
    let text = update_collection_document(existing, members).unwrap();
    assert_eq!(
        text,
        "---\ntitle: sample collection\ncreated: 2021-06-20\npoems:\n- 2021-05-30\n---\n\na description of the sample\n"
    );
}

#[test]
fn unpublished_or_unlisted_document_joins_nothing() {
    assert_eq!(poem_collections("---\ncollections: a\n---\n").unwrap(), None);
    assert_eq!(poem_collections("---\ncollections: a\npublish: yes\n---\n").unwrap(), None);
    assert_eq!(poem_collections("---\npublish: true\n---\n").unwrap(), None);
    assert_eq!(
        poem_collections("---\npublish: true\ncollections:\n- a\n- b\n---\n").unwrap(),
        Some(vec![String::from("a"), String::from("b")])
    );
    assert_eq!(poem_collections("ducky").err().unwrap(), ErrorKind::MissingLeadingDelimiter);
}

#[test]
fn broken_collection_document_is_reported() {
    let err = update_collection_document("---\ntitle: t\n", vec![]).err().unwrap();
    assert_eq!(err, ErrorKind::MissingTrailingDelimiter);
}

#[test]
fn config_needs_path_and_target() {
    let ok = Config::build(vec![
        String::from("siphon"),
        String::from("src"),
        String::from("out"),
        String::from("extra"),
    ])
    .ok()
    .unwrap();
    assert_eq!(ok.path, "src");
    assert_eq!(ok.target_dir, "out");
    let err = Config::build(vec![String::from("siphon")]).err().unwrap();
    assert_eq!(err, ConfigError::MissingPath);
    assert_eq!(err.message(), "Path not specified");
    let err = Config::build(vec![String::from("siphon"), String::from("src")]).err().unwrap();
    assert_eq!(err, ConfigError::MissingTargetDir);
    assert_eq!(Config::build(vec![]).err().unwrap(), ConfigError::MissingPath);
}
