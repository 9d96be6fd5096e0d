use siphon::{
    aggregate_collections, create_collection_template, get_tags, is_published,
    parse_collection_template, parse_collections, update_collection_poems, Aggregate,
    CollectionData, ErrorKind,
};

#[test]
fn adds_poems_to_collection() {
    let col: CollectionData = CollectionData {
        title: String::from("collection title"),
        created: String::from("2023-03-08"),
        poems: vec![String::from("name1")],
        desc: String::from("A description of the contents"),
    };
    let poems: Vec<String> = vec![String::from("name1"), String::from("name2")];
    let expected: CollectionData = CollectionData {
        title: String::from("collection title"),
        created: String::from("2023-03-08"),
        poems: vec![String::from("name1"), String::from("name2")],
        desc: String::from("A description of the contents"),
    };
    assert_eq!(update_collection_poems(col, poems), expected);
}

#[test]
fn create_new_aggregate() {
    let file_name_1 = String::from("goat");
    let file_collections_1 = vec![String::from("animal")];
    let result = aggregate_collections(file_name_1, file_collections_1, Aggregate::new());
    assert_eq!(result.get("animal").unwrap()[0], "goat");
}

#[test]
fn add_to_aggregate() {
    let file_name_1 = String::from("goat");
    let file_collections_1 = vec![String::from("animal")];
    let result = aggregate_collections(file_name_1, file_collections_1, Aggregate::new());

    let file_name_2 = String::from("horse");
    let file_collections_2 = vec![String::from("animal")];
    let result_2 = aggregate_collections(file_name_2, file_collections_2, result);
    assert_eq!(result_2.get("animal").unwrap().len(), 2);
    assert_eq!(
        result_2
            .get("animal")
            .unwrap()
            .contains(&"goat".to_string()),
        true
    );
    assert_eq!(
        result_2
            .get("animal")
            .unwrap()
            .contains(&"horse".to_string()),
        true
    );
}

#[test]
fn add_multi_collection_to_aggregate() {
    let file_name_1 = String::from("goat");
    let file_collections_1 = vec![
        String::from("animal"),
        String::from("pet"),
        String::from("horned"),
    ];
    let result = aggregate_collections(file_name_1, file_collections_1, Aggregate::new());
    assert_eq!(result.get("animal").unwrap()[0], "goat");
    assert_eq!(result.get("pet").unwrap()[0], "goat");
    assert_eq!(result.get("horned").unwrap()[0], "goat");
}

#[test]
fn one_tag() {
    let contents = "\
---
tag: duck
---
";
    let result = get_tags(contents).unwrap();
    assert_eq!(*result.get("tag").unwrap(), "duck");
}

#[test]
fn two_tags() {
    let contents = "\
---
tag: duck
tag2: rabbit
---
";
    let result = get_tags(contents).unwrap();
    assert_eq!(*result.get("tag").unwrap(), "duck");
    assert_eq!(*result.get("tag2").unwrap(), "rabbit");
}

#[test]
fn missing_start_tag() {
    let contents = "\
tag: duck
---
";
    let result = get_tags(contents).err().unwrap();
    assert_eq!(result.message(), "Tag start was not at the beginning of the file");
}

#[test]
fn missing_end_tag() {
    let contents = "\
---
tag: duck
bloopy bolp
";
    let result = get_tags(contents).err().unwrap();
    assert_eq!(result.message(), "No end indicator for tags");
}

#[test]
fn multi_value_tags() {
    let contents = "\
---
tag: duck goat sheep chicken
tag2: rabbit
---
";
    let result = get_tags(contents).unwrap();
    assert_eq!(*result.get("tag").unwrap(), "duck goat sheep chicken");
    assert_eq!(*result.get("tag2").unwrap(), "rabbit");
}

#[test]
fn list_tags() {
    let contents = "\
---
tag:
- list1
- list2
---
";
    let result = get_tags(contents).unwrap();
    assert_eq!(*result.get("tag").unwrap(), "list1, list2");
}

#[test]
fn creates_template_from_collection() {
    let collection = CollectionData {
        title: String::from("collection title"),
        created: String::from("2023-03-08"),
        poems: vec![String::from("name1")],
        desc: String::from("A description of the contents"),
    };
    let expected = "\
---
title: collection title
created: 2023-03-08
poems:
- name1
---

A description of the contents
";
    assert_eq!(create_collection_template(collection), expected);
}

#[test]
fn parses_partial_collection() {
    let template = "\
---
title: collection title
created: 2023-03-08
---
";
    let expected = CollectionData {
        title: String::from("collection title"),
        created: String::from("2023-03-08"),
        poems: vec![],
        desc: String::from(""),
    };
    assert_eq!(parse_collection_template(template).unwrap(), expected);
}

#[test]
fn parses_full_template() {
    let template = "\
---
title: collection title
created: 2023-03-08
poems:
- name1
---

A description of the contents
";
    let expected = CollectionData {
        title: String::from("collection title"),
        created: String::from("2023-03-08"),
        poems: vec![String::from("name1")],
        desc: String::from("A description of the contents"),
    };
    assert_eq!(parse_collection_template(template).unwrap(), expected);
}

#[test]
fn publish_flag_needs_exact_true() {
    let missing = get_tags("---\ntitle: x\n---\n").unwrap();
    let no = get_tags("---\npublish: false\n---\n").unwrap();
    let upper = get_tags("---\npublish: TRUE\n---\n").unwrap();
    let yes = get_tags("---\npublish: true\n---\n").unwrap();
    assert!(!is_published(&missing));
    assert!(!is_published(&no));
    assert!(!is_published(&upper));
    assert!(is_published(&yes));
}

#[test]
fn aggregation_keeps_discovery_order() {
    let forward = aggregate_collections(
        String::from("b"),
        vec![String::from("x")],
        aggregate_collections(String::from("a"), vec![String::from("x")], Aggregate::new()),
    );
    assert_eq!(*forward.get("x").unwrap(), vec![String::from("a"), String::from("b")]);
    let backward = aggregate_collections(
        String::from("a"),
        vec![String::from("x")],
        aggregate_collections(String::from("b"), vec![String::from("x")], Aggregate::new()),
    );
    assert_eq!(*backward.get("x").unwrap(), vec![String::from("b"), String::from("a")]);
}

#[test]
fn aggregation_counts_repeated_collection_twice() {
    let result = aggregate_collections(
        String::from("a"),
        vec![String::from("x"), String::from("y"), String::from("x")],
        Aggregate::new(),
    );
    assert_eq!(*result.get("x").unwrap(), vec![String::from("a"), String::from("a")]);
    assert_eq!(*result.get("y").unwrap(), vec![String::from("a")]);
    assert_eq!(result.len(), 2);
    assert_eq!(result.entries()[0].0, "x");
    assert_eq!(result.entries()[1].0, "y");
    assert!(result.get("z").is_none());
}

#[test]
fn aggregation_with_no_collections_changes_nothing() {
    let result = aggregate_collections(String::from("a"), vec![], Aggregate::new());
    assert_eq!(result.len(), 0);
}

#[test]
fn list_value_splits_on_comma_space() {
    assert_eq!(parse_collections("  a, b,c  "), vec![String::from("a"), String::from("b,c")]);
    assert_eq!(parse_collections("sample"), vec![String::from("sample")]);
}

#[test]
fn blank_list_value_gives_one_empty_name() {
    assert_eq!(parse_collections("   "), vec![String::new()]);
}

#[test]
fn duplicate_key_keeps_last_value() {
    let tags = get_tags("---\na: 1\nb: 2\na: 3\n---\n").unwrap();
    assert_eq!(*tags.get("a").unwrap(), "3");
    assert_eq!(*tags.get("b").unwrap(), "2");
    assert_eq!(tags.len(), 2);
    assert!(tags.get("c").is_none());
}

#[test]
fn list_item_folds_into_latest_pair() {
    let tags = get_tags("---\na: 1\nb:\n- x\n- y\na: 3\n- z\n---\n").unwrap();
    assert_eq!(*tags.get("b").unwrap(), "x, y");
    assert_eq!(*tags.get("a").unwrap(), "3, z");
}

#[test]
fn value_keeps_later_colons() {
    let tags = get_tags("---\ntime: 10:30:00\n---\n").unwrap();
    assert_eq!(*tags.get("time").unwrap(), "10:30:00");
}

#[test]
fn blank_header_gives_empty_mapping() {
    let tags = get_tags("---\n  \n---\nbody").unwrap();
    assert_eq!(tags.len(), 0);
}

#[test]
fn line_without_colon_is_malformed() {
    let err = get_tags("---\ntag: duck\nbloopy bolp\n---\n").err().unwrap();
    assert_eq!(err, ErrorKind::MalformedLine);
}

#[test]
fn list_item_without_key_dangles() {
    let err = get_tags("---\n- duck\n---\n").err().unwrap();
    assert_eq!(err, ErrorKind::DanglingListItem);
}

#[test]
fn delimiter_errors_have_their_kinds() {
    assert_eq!(get_tags("tag: duck\n---\n").err().unwrap(), ErrorKind::MissingLeadingDelimiter);
    assert_eq!(get_tags("no header").err().unwrap(), ErrorKind::MissingLeadingDelimiter);
    assert_eq!(
        get_tags("---\ntag: duck\nbloopy bolp\n").err().unwrap(),
        ErrorKind::MissingTrailingDelimiter
    );
    assert_eq!(get_tags("----").err().unwrap(), ErrorKind::MissingTrailingDelimiter);
}

#[test]
fn collection_without_title_is_refused() {
    let err = parse_collection_template("---\ncreated: 2023-03-08\n---\n").err().unwrap();
    assert_eq!(err, ErrorKind::MissingRequiredField);
    let err = parse_collection_template("---\ntitle: t\n---\n").err().unwrap();
    assert_eq!(err, ErrorKind::MissingRequiredField);
    let err = parse_collection_template("title: t\n").err().unwrap();
    assert_eq!(err, ErrorKind::MissingLeadingDelimiter);
}

#[test]
fn description_loses_text_up_to_last_delimiter() {
    let doc = "---\ntitle: t\ncreated: c\n---\n\nfirst part\n---\nsecond part\n";
    let parsed = parse_collection_template(doc).unwrap();
    assert_eq!(parsed.desc, "second part");
    assert_eq!(parsed.title, "t");
}

#[test]
fn empty_member_list_renders_no_member_lines() {
    let collection = CollectionData {
        title: String::from("t"),
        created: String::from("c"),
        poems: vec![],
        desc: String::from("d"),
    };
    assert_eq!(
        create_collection_template(collection),
        "---\ntitle: t\ncreated: c\npoems:\n---\n\nd\n"
    );
}

#[test]
fn record_survives_render_and_parse() {
    let collection = CollectionData {
        title: String::from("sample collection"),
        created: String::from("2021-06-20"),
        poems: vec![String::from("one"), String::from("two words"), String::from("three")],
        desc: String::from("line one\n\nline two"),
    };
    let expected = CollectionData {
        title: String::from("sample collection"),
        created: String::from("2021-06-20"),
        poems: vec![String::from("one"), String::from("two words"), String::from("three")],
        desc: String::from("line one\n\nline two"),
    };
    let text = create_collection_template(collection);
    assert_eq!(parse_collection_template(&text).unwrap(), expected);
}

#[test]
fn empty_member_list_reads_back_as_one_empty_name() {
    let parsed = parse_collection_template("---\ntitle: t\ncreated: c\npoems:\n---\n\nd\n").unwrap();
    assert_eq!(parsed.poems, vec![String::new()]);
    assert_eq!(parsed.desc, "d");
}
