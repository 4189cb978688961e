use org::model::OrgFileId;
use org::parser::parse_org_from_str;
use org::tags::{Tag, TagSet};
use org::workspace::{
    lowest_common_directory, make_file_entry, FileStats, Folder, OrgWorkspace, RelPath,
};
use std::path::PathBuf;

fn segments(path: &str) -> Vec<String> {
    path.split('/').map(|s| s.to_string()).collect()
}

#[test]
fn lowest_common_directory_handles_nested_paths() {
    let paths: Vec<Vec<String>> = [
        "work/journal/2025",
        "work/journal/2024",
        "work/journal/2025/wip",
    ]
    .into_iter()
    .map(segments)
    .collect();

    let lcd = lowest_common_directory(&paths).expect("lcd");
    assert_eq!(lcd, segments("work/journal"));
}

#[test]
fn lowest_common_directory_edge_cases() {
    assert_eq!(lowest_common_directory(&vec![]), None);
    assert_eq!(
        lowest_common_directory(&vec![segments("a/b")]),
        Some(segments("a/b"))
    );
    // Relative paths always share the empty path.
    assert_eq!(
        lowest_common_directory(&vec![segments("a/b"), segments("c")]),
        Some(vec![])
    );
    // Nothing lies above the root.
    let root = vec!["/".to_string(), "a".to_string()];
    assert_eq!(lowest_common_directory(&vec![root.clone(), segments("a")]), None);
    assert_eq!(
        lowest_common_directory(&vec![root, vec!["/".to_string(), "b".to_string()]]),
        Some(vec!["/".to_string()])
    );
}

#[test]
fn rel_path_operations() {
    let root = RelPath::root();
    assert_eq!(root.0, "");
    assert_eq!(root.parent(), None);
    assert_eq!(root.file_name(), None);
    let a = root.join("journal");
    assert_eq!(a.0, "journal");
    let b = a.join("2025-01-31.org");
    assert_eq!(b.0, "journal/2025-01-31.org");
    assert_eq!(b.parent(), Some(a.clone()));
    assert_eq!(b.file_name(), Some("2025-01-31.org"));
    assert_eq!(a.parent(), Some(RelPath::root()));
    assert_eq!(a.file_name(), Some("journal"));
    assert_eq!(RelPath("a/".to_string()).file_name(), Some(""));
    assert_eq!(RelPath("a/".to_string()).parent(), Some(RelPath("a".to_string())));
}

fn stats() -> FileStats {
    FileStats {
        size_bytes: Some(3),
        modified_utc: None,
        is_symlink: false,
    }
}

#[test]
fn folders_are_walked_parent_first() {
    let mut ws = OrgWorkspace::new(PathBuf::from("/ws"));
    let parsed = parse_org_from_str(None, "* H\n").expect("parse");
    let parsed_id = parsed.id;
    let top = make_file_entry(
        &ws,
        RelPath("top.org".to_string()),
        stats(),
        None,
        TagSet::new(),
        Some(parsed),
    );
    assert_eq!(top.file_id, parsed_id);
    assert_eq!(top.file_name, "top.org");
    assert!(top.is_loaded());
    assert_eq!(top.loaded().map(|f| f.headings.len()), Some(1));

    let mut tags = TagSet::new();
    tags.insert(Tag::new("x"));
    let deep = make_file_entry(
        &ws,
        RelPath("a/b/deep.org".to_string()),
        stats(),
        Some("Deep".to_string()),
        tags,
        None,
    );
    assert!(!deep.is_loaded());
    assert!(deep.loaded().is_none());
    let deep_id = deep.file_id;

    let mut a = Folder::new_child(&RelPath::root(), "a".to_string());
    let mut b = Folder::new_child(&a.rel_path, "b".to_string());
    assert_eq!(b.rel_path.0, "a/b");
    b.files.push(deep);
    a.subdirs.push(b);
    let c = Folder::new_child(&RelPath::root(), "c".to_string());
    ws.root.files.push(top);
    ws.root.subdirs.push(a);
    ws.root.subdirs.push(c);

    let mut seen = Vec::new();
    ws.root.walk(&mut seen);
    let names: Vec<&str> = seen.iter().map(|f| f.rel_path.0.as_str()).collect();
    assert_eq!(names, vec!["", "a", "a/b", "c"]);

    assert_eq!(
        ws.root.find_dir(&RelPath("a/b".to_string())).map(|f| f.name.as_str()),
        Some("b")
    );
    assert!(ws.root.find_dir(&RelPath("a/x".to_string())).is_none());

    let files: Vec<&str> = ws.all_files().iter().map(|f| f.file_name.as_str()).collect();
    assert_eq!(files, vec!["top.org", "deep.org"]);
    assert_eq!(
        ws.find_file_by_id(deep_id).map(|f| f.rel_path.0.as_str()),
        Some("a/b/deep.org")
    );
    assert!(ws.find_file_by_id(OrgFileId(0)).is_none());

    ws.rebuild_path_index();
    let index: Vec<(&str, u128)> = ws
        .indexes
        .files_by_relpath
        .iter()
        .map(|(k, v)| (k.as_str(), *v))
        .collect();
    assert_eq!(index, vec![("top.org", parsed_id.0), ("a/b/deep.org", deep_id.0)]);

    assert_eq!(ws.abs_path(&RelPath::root()), PathBuf::from("/ws"));
    assert_eq!(
        ws.abs_path(&RelPath("a/b".to_string())),
        PathBuf::from("/ws/a/b")
    );

    let copy = ws.clone();
    assert_eq!(copy, ws);
    assert_eq!(copy.indexes.files_by_relpath.get("a/b/deep.org"), Some(&deep_id.0));
}

#[test]
fn a_loaded_file_is_changed_in_place() {
    let ws = OrgWorkspace::new(PathBuf::from("/ws"));
    let parsed = parse_org_from_str(None, "* H\n").expect("parse");
    let mut entry = make_file_entry(
        &ws,
        RelPath("top.org".to_string()),
        stats(),
        None,
        TagSet::new(),
        Some(parsed),
    );
    let id = entry.file_id;
    match entry.loaded_mut() {
        Some(file) => file.title = Some("Changed".to_string()),
        None => panic!("the file is loaded"),
    }
    assert_eq!(entry.file_id, id);
    assert_eq!(entry.file_name, "top.org");
    assert_eq!(
        entry.loaded().and_then(|f| f.title.clone()),
        Some("Changed".to_string())
    );

    let mut stub = make_file_entry(
        &ws,
        RelPath("stub.org".to_string()),
        stats(),
        None,
        TagSet::new(),
        None,
    );
    assert!(stub.loaded_mut().is_none());
    assert!(!stub.is_loaded());
}
