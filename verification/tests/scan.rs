use cinder::types::{EntryKind, FileEntry, FsNode};
use cinder::workspace::{is_hidden_name, is_markdown_name, scan_directory_recursive};

fn file(path: &str, name: &str) -> FsNode {
    FsNode::File { path: path.to_string(), name: name.to_string() }
}

fn dir(path: &str, name: &str, entries: Vec<FsNode>) -> FsNode {
    FsNode::Dir { path: path.to_string(), name: name.to_string(), entries }
}

fn names(entries: &[FileEntry]) -> Vec<String> {
    entries.iter().map(|e| e.name.clone()).collect()
}

#[test]
fn test_scan_empty_directory() {
    let nodes: Vec<FsNode> = Vec::new();
    let result = scan_directory_recursive(&nodes);
    assert!(result.is_empty());
}

#[test]
fn test_scan_with_markdown_files() {
    let nodes = vec![file("/ws/test.md", "test.md"), file("/ws/other.txt", "other.txt")];
    let result = scan_directory_recursive(&nodes);
    assert_eq!(result.len(), 1);
    assert_eq!(result[0].name, "test.md");
}

#[test]
fn test_hidden_files_ignored() {
    let nodes = vec![file("/ws/.hidden.md", ".hidden.md")];
    let result = scan_directory_recursive(&nodes);
    assert!(result.is_empty());
}

#[test]
fn folder_first_then_files_sorted_case_insensitively() {
    let nodes = vec![
        file("/ws/b.md", "b.md"),
        dir("/ws/A", "A", Vec::new()),
        file("/ws/a.md", "a.md"),
        file("/ws/.secret.md", ".secret.md"),
    ];
    let result = scan_directory_recursive(&nodes);
    assert_eq!(names(&result), vec!["A", "a.md", "b.md"]);
    assert_eq!(result[0].entry_type, EntryKind::Folder);
    assert_eq!(result[0].children.as_ref().map(|c| c.len()), Some(0));
    assert_eq!(result[1].entry_type, EntryKind::File);
    assert_eq!(result[2].entry_type, EntryKind::File);
}

#[test]
fn non_markdown_file_dropped_without_error() {
    let nodes = vec![file("/ws/notes.txt", "notes.txt")];
    let result = scan_directory_recursive(&nodes);
    assert!(result.is_empty());
}

#[test]
fn folder_with_only_hidden_content_stays_as_empty_folder() {
    let nodes = vec![dir("/ws/B", "B", vec![file("/ws/B/.hidden.md", ".hidden.md")])];
    let result = scan_directory_recursive(&nodes);
    assert_eq!(result.len(), 1);
    assert_eq!(result[0].name, "B");
    assert_eq!(result[0].entry_type, EntryKind::Folder);
    assert_eq!(result[0].children.as_ref().map(|c| c.len()), Some(0));
}

#[test]
fn sorting_compares_lowercased_names() {
    // By raw scalar values "Banana.md" would sort before "apple.md"; the
    // case-insensitive order puts apple first.
    let nodes = vec![file("/ws/Banana.md", "Banana.md"), file("/ws/apple.md", "apple.md")];
    let result = scan_directory_recursive(&nodes);
    assert_eq!(names(&result), vec!["apple.md", "Banana.md"]);
}

#[test]
fn folders_sort_before_files_regardless_of_name() {
    let nodes = vec![file("/ws/a.md", "a.md"), dir("/ws/z", "z", Vec::new())];
    let result = scan_directory_recursive(&nodes);
    assert_eq!(names(&result), vec!["z", "a.md"]);
    assert_eq!(result[0].entry_type, EntryKind::Folder);
}

#[test]
fn equal_names_after_lowercasing_keep_their_input_order() {
    let nodes = vec![file("/ws/A.md", "A.md"), file("/ws/a.md", "a.md")];
    let result = scan_directory_recursive(&nodes);
    assert_eq!(names(&result), vec!["A.md", "a.md"]);

    let nodes = vec![file("/ws/a.md", "a.md"), file("/ws/A.md", "A.md")];
    let result = scan_directory_recursive(&nodes);
    assert_eq!(names(&result), vec!["a.md", "A.md"]);
}

#[test]
fn nested_folders_are_scanned_recursively() {
    let nodes = vec![dir(
        "/ws/notes",
        "notes",
        vec![
            file("/ws/notes/todo.md", "todo.md"),
            file("/ws/notes/skip.txt", "skip.txt"),
            dir("/ws/notes/deep", "deep", vec![file("/ws/notes/deep/x.md", "x.md")]),
        ],
    )];
    let result = scan_directory_recursive(&nodes);
    assert_eq!(result.len(), 1);
    let notes = &result[0];
    assert_eq!(notes.id, "/ws/notes");
    assert_eq!(notes.path, "/ws/notes");
    assert_eq!(notes.entry_type, EntryKind::Folder);
    let children = notes.children.as_ref().unwrap();
    assert_eq!(names(children), vec!["deep", "todo.md"]);
    assert_eq!(children[0].entry_type, EntryKind::Folder);
    let deep = children[0].children.as_ref().unwrap();
    assert_eq!(names(deep), vec!["x.md"]);
    assert_eq!(deep[0].id, "/ws/notes/deep/x.md");
    assert!(deep[0].children.is_none());
}

#[test]
fn hidden_folders_are_not_recursed_into() {
    let nodes = vec![dir(".git", ".git", vec![file(".git/readme.md", "readme.md")])];
    let result = scan_directory_recursive(&nodes);
    assert!(result.is_empty());
}

#[test]
fn scanning_twice_gives_identical_results() {
    let nodes = vec![
        dir("/ws/A", "A", vec![file("/ws/A/n.md", "n.md")]),
        file("/ws/b.md", "b.md"),
        file("/ws/c.txt", "c.txt"),
    ];
    let first = scan_directory_recursive(&nodes);
    let second = scan_directory_recursive(&nodes);
    assert_eq!(first.len(), second.len());
    for (a, b) in first.iter().zip(second.iter()) {
        assert_eq!(a.id, b.id);
        assert_eq!(a.name, b.name);
        assert_eq!(a.entry_type, b.entry_type);
        assert_eq!(a.path, b.path);
        assert_eq!(a.children.is_some(), b.children.is_some());
    }
}

#[test]
fn hidden_name_means_leading_dot() {
    assert!(is_hidden_name(".secret.md"));
    assert!(is_hidden_name(".md"));
    assert!(is_hidden_name("."));
    assert!(!is_hidden_name(""));
    assert!(!is_hidden_name("note.md"));
    assert!(!is_hidden_name("a.b"));
}

#[test]
fn markdown_name_means_md_suffix_exactly() {
    assert!(is_markdown_name("note.md"));
    assert!(is_markdown_name("a.md"));
    assert!(!is_markdown_name("md"));
    assert!(!is_markdown_name(".m"));
    assert!(!is_markdown_name(""));
    assert!(!is_markdown_name("note.MD"));
    assert!(!is_markdown_name("note.mdx"));
    assert!(!is_markdown_name("note.txt"));
}

#[test]
fn file_entry_constructors_fill_every_field() {
    let f = FileEntry::new_file("/ws/a.md".to_string(), "a.md".to_string());
    assert_eq!(f.id, "/ws/a.md");
    assert_eq!(f.name, "a.md");
    assert_eq!(f.entry_type, EntryKind::File);
    assert_eq!(f.path, "/ws/a.md");
    assert!(f.children.is_none());

    let d = FileEntry::new_folder("/ws/A".to_string(), "A".to_string(), vec![f]);
    assert_eq!(d.id, "/ws/A");
    assert_eq!(d.name, "A");
    assert_eq!(d.entry_type, EntryKind::Folder);
    assert_eq!(d.path, "/ws/A");
    assert_eq!(d.children.as_ref().map(|c| c.len()), Some(1));
}
