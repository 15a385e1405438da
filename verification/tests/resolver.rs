use anon_flatten::resolve::resolve_name_conflicts;
use anon_flatten::resolve::NameAssignment;
use anon_flatten::resolve::SourceFile;

fn entry(path: &str, file_name: &str, parent_name: &str) -> SourceFile {
    SourceFile {
        path: path.to_string(),
        file_name: file_name.to_string(),
        parent_name: parent_name.to_string(),
    }
}

fn dest_names(assignments: &[NameAssignment]) -> Vec<String> {
    assignments.iter().map(|a| a.dest_name.clone()).collect()
}

/// The seven files of a tree with docs/, docs/notes/, images/,
/// images/screenshots/ and duplicate/ subdirectories, where
/// `file1.txt` occurs both at top level and under duplicate/.
fn seven_file_tree() -> Vec<SourceFile> {
    vec![
        entry("source/file1.txt", "file1.txt", "source"),
        entry("source/docs/report.pdf", "report.pdf", "docs"),
        entry("source/docs/notes/meeting.txt", "meeting.txt", "notes"),
        entry("source/images/photo.jpg", "photo.jpg", "images"),
        entry("source/images/screenshots/screen1.png", "screen1.png", "screenshots"),
        entry("source/images/screenshots/screen2.png", "screen2.png", "screenshots"),
        entry("source/duplicate/file1.txt", "file1.txt", "duplicate"),
    ]
}

#[test]
fn test_resolve_name_conflicts() {
    let files = seven_file_tree();
    let name_map = resolve_name_conflicts(&files);

    assert_eq!(name_map.len(), 7);

    let target_names = dest_names(&name_map);
    let file1_count = target_names.iter().filter(|name| name.starts_with("file1")).count();
    assert_eq!(file1_count, 2);
    assert!(target_names.contains(&"file1.txt".to_string()));

    let mut sorted_names = target_names.clone();
    sorted_names.sort();
    sorted_names.dedup();
    assert_eq!(sorted_names.len(), target_names.len());
}

#[test]
fn every_file_gets_one_assignment() {
    let files = seven_file_tree();
    let name_map = resolve_name_conflicts(&files);
    assert_eq!(name_map.len(), files.len());
    for (assignment, file) in name_map.iter().zip(files.iter()) {
        assert_eq!(assignment.source, file.path);
    }
}

#[test]
fn duplicate_basename_gets_parent_suffix() {
    let files = vec![
        entry("file1.txt", "file1.txt", "source"),
        entry("duplicate/file1.txt", "file1.txt", "duplicate"),
    ];
    let name_map = resolve_name_conflicts(&files);
    let names = dest_names(&name_map);
    assert_eq!(names, vec!["file1.txt".to_string(), "file1_duplicate.txt".to_string()]);
    assert_eq!(names.iter().filter(|n| n.starts_with("file1")).count(), 2);
}

#[test]
fn empty_parent_falls_back_to_position() {
    let files = vec![
        entry("/a.txt", "a.txt", ""),
        entry("/mnt/../a.txt", "a.txt", ""),
        entry("/media/../a.txt", "a.txt", ""),
    ];
    let names = dest_names(&resolve_name_conflicts(&files));
    assert_eq!(
        names,
        vec!["a.txt".to_string(), "a_1.txt".to_string(), "a_2.txt".to_string()],
    );
}

#[test]
fn group_without_extension_gets_bare_suffix() {
    let files = vec![
        entry("x/README", "README", "x"),
        entry("y/README", "README", "y"),
    ];
    let names = dest_names(&resolve_name_conflicts(&files));
    assert_eq!(names, vec!["README".to_string(), "README_y".to_string()]);
}

#[test]
fn trailing_dot_loses_dot_when_renamed() {
    let files = vec![
        entry("p/file.", "file.", "p"),
        entry("q/file.", "file.", "q"),
    ];
    let names = dest_names(&resolve_name_conflicts(&files));
    assert_eq!(names, vec!["file.".to_string(), "file_q".to_string()]);
}

#[test]
fn unique_names_kept_unchanged() {
    let files = vec![
        entry("a/one.txt", "one.txt", "a"),
        entry("b/two.txt", "two.txt", "b"),
    ];
    let names = dest_names(&resolve_name_conflicts(&files));
    assert_eq!(names, vec!["one.txt".to_string(), "two.txt".to_string()]);
}

#[test]
fn empty_input_resolves_to_nothing() {
    let files: Vec<SourceFile> = Vec::new();
    assert!(resolve_name_conflicts(&files).is_empty());
}

#[test]
fn renamed_destinations_can_collide_across_groups() {
    // Renamed destinations are not re-checked against other groups:
    // a second `a.txt` under directory b/ becomes `a_b.txt`, which
    // collides with an unrelated unique `a_b.txt`.
    let files = vec![
        entry("top/a.txt", "a.txt", "top"),
        entry("top/b/a.txt", "a.txt", "b"),
        entry("top/a_b.txt", "a_b.txt", "top"),
    ];
    let names = dest_names(&resolve_name_conflicts(&files));
    assert_eq!(
        names,
        vec!["a.txt".to_string(), "a_b.txt".to_string(), "a_b.txt".to_string()],
    );
}

#[test]
fn resolution_is_deterministic() {
    let files = seven_file_tree();
    let first = dest_names(&resolve_name_conflicts(&files));
    let second = dest_names(&resolve_name_conflicts(&files));
    assert_eq!(first, second);
}
