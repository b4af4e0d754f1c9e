use llama_recipe_manager::models::{is_gguf_path, progress_event, GgufKind, ScanWalk};

/// A directory tree in memory: (path, is_dir, size).
fn tree() -> Vec<(&'static str, bool, u64)> {
    vec![
        ("/r/top.gguf", false, 1),
        ("/r/readme.txt", false, 2),
        ("/r/nested", true, 0),
        ("/r/nested/deep.gguf", false, 3),
        ("/r/nested/more", true, 0),
        ("/r/nested/more/deeper.gguf", false, 4),
    ]
}

fn children(dir: &str) -> Vec<(&'static str, bool, u64)> {
    tree()
        .into_iter()
        .filter(|(p, _, _)| {
            p.strip_prefix(dir)
                .and_then(|rest| rest.strip_prefix('/'))
                .is_some_and(|rest| !rest.contains('/'))
        })
        .collect()
}

fn scan(max_depth: usize, filter: Option<GgufKind>, page: usize, size: usize) -> (usize, Vec<String>) {
    let mut walk = ScanWalk::new("/r".to_string(), max_depth, filter, page, size);
    while let Some((dir, depth)) = walk.next_dir() {
        for (path, is_dir, bytes) in children(&dir) {
            if is_dir {
                walk.push_subdir(path.to_string(), depth);
                continue;
            }
            if !is_gguf_path(path) {
                continue;
            }
            let kind = if path.contains("deep") { GgufKind::Mmproj } else { GgufKind::Model };
            walk.add_file(path.to_string(), bytes, kind);
        }
    }
    let (total, items) = walk.finish();
    (total, items.into_iter().map(|m| m.name).collect())
}

#[test]
fn walk_respects_max_depth() {
    assert_eq!(scan(1, None, 1, 100).0, 1);
    assert_eq!(scan(2, None, 1, 100).0, 2);
    assert_eq!(scan(3, None, 1, 100).0, 3);
    assert_eq!(scan(0, None, 1, 100).0, 0);
}

#[test]
fn walk_filters_kinds() {
    assert_eq!(scan(8, Some(GgufKind::Model), 1, 100), (1, vec!["top.gguf".to_string()]));
    assert_eq!(scan(8, Some(GgufKind::Mmproj), 1, 100).0, 2);
}

#[test]
fn walk_pages() {
    let (t1, p1) = scan(8, None, 1, 2);
    let (t2, p2) = scan(8, None, 2, 2);
    let (t3, p3) = scan(8, None, 3, 2);
    assert_eq!((t1, t2, t3), (3, 3, 3));
    assert_eq!(p1.len(), 2);
    assert_eq!(p2.len(), 1);
    assert!(p3.is_empty());
    let mut all: Vec<String> = p1.into_iter().chain(p2).collect();
    all.sort();
    assert_eq!(all, vec!["deep.gguf", "deeper.gguf", "top.gguf"]);
}

#[test]
fn walk_records_the_file() {
    let mut walk = ScanWalk::new("/r".to_string(), 1, None, 1, 10);
    let (dir, depth) = walk.next_dir().expect("root");
    assert_eq!((dir.as_str(), depth), ("/r", 1));
    walk.add_file("/r/a.gguf".to_string(), 77, GgufKind::Mmproj);
    assert!(walk.next_dir().is_none());
    let (total, items) = walk.finish();
    assert_eq!(total, 1);
    assert_eq!(items[0].path, "/r/a.gguf");
    assert_eq!(items[0].name, "a.gguf");
    assert_eq!(items[0].size_bytes, 77);
    assert_eq!(items[0].kind, GgufKind::Mmproj);
}

#[test]
fn progress_only_with_a_length() {
    assert!(progress_event("org/repo", "a.gguf", 10, 0).is_none());
    let p = progress_event("org/repo", "a.gguf", 10, 100).expect("event");
    assert_eq!(p.repo_id, "org/repo");
    assert_eq!(p.filename, "a.gguf");
    assert_eq!((p.bytes_downloaded, p.total_bytes), (10, 100));
}

/// A tree in memory with `count` model files at its root.
fn flat_tree(count: usize) -> Vec<(String, bool)> {
    (0..count).map(|i| (format!("/r/model-{}.gguf", i), false)).collect()
}

/// The scan of a tree in memory, as the application runs it on the disk.
/// Every file counts as a model (as unparseable files do).
fn scan_gguf_files(
    tree: &[(String, bool)],
    max_depth: usize,
    filter: Option<GgufKind>,
    page: usize,
    page_size: usize,
) -> (usize, Vec<String>) {
    let mut walk = ScanWalk::new("/r".to_string(), max_depth, filter, page, page_size);
    while let Some((dir, depth)) = walk.next_dir() {
        let prefix = format!("{}/", dir);
        for (path, is_dir) in tree {
            let Some(rest) = path.strip_prefix(&prefix) else { continue };
            if rest.contains('/') {
                continue;
            }
            if *is_dir {
                walk.push_subdir(path.clone(), depth);
                continue;
            }
            if !is_gguf_path(path) {
                continue;
            }
            walk.add_file(path.clone(), 1, GgufKind::Model);
        }
    }
    let (total, items) = walk.finish();
    (total, items.into_iter().map(|m| m.name).collect())
}

#[test]
fn scan_returns_total_across_all_pages() {
    let tree = flat_tree(10);
    for page in 1..=3 {
        let (total, items) = scan_gguf_files(&tree, 8, Some(GgufKind::Model), page, 4);
        assert_eq!(total, 10, "total must be stable across pages");
        assert!(items.len() <= 4);
    }
}

#[test]
fn scan_pages_cover_every_file_exactly_once() {
    let tree = flat_tree(10);
    let mut names = Vec::new();
    let mut seen_total = 0;
    for page in 1..=3 {
        let (total, items) = scan_gguf_files(&tree, 8, Some(GgufKind::Model), page, 4);
        seen_total = total;
        names.extend(items);
    }
    assert_eq!(seen_total, 10);
    assert_eq!(names.len(), 10, "each file must appear in exactly one page");
    let expected: Vec<String> = (0..10).map(|i| format!("model-{}.gguf", i)).collect();
    names.sort();
    let mut expected_sorted = expected;
    expected_sorted.sort();
    assert_eq!(names, expected_sorted);
}

#[test]
fn scan_returns_empty_page_when_page_is_out_of_range() {
    let tree = flat_tree(10);
    let (total, items) = scan_gguf_files(&tree, 8, Some(GgufKind::Model), 99, 4);
    assert_eq!(total, 10);
    assert!(items.is_empty());
}

#[test]
fn scan_filters_out_non_matching_kinds() {
    let tree = flat_tree(5);
    let (total, items) = scan_gguf_files(&tree, 8, Some(GgufKind::Mmproj), 1, 100);
    assert_eq!(total, 0);
    assert!(items.is_empty());
}

#[test]
fn scan_with_no_filter_matches_every_file() {
    let tree = flat_tree(4);
    let (total, items) = scan_gguf_files(&tree, 8, None, 1, 100);
    assert_eq!(total, 4);
    assert_eq!(items.len(), 4);
}

#[test]
fn scan_respects_max_depth() {
    let tree = vec![
        ("/r/top.gguf".to_string(), false),
        ("/r/nested".to_string(), true),
        ("/r/nested/deep.gguf".to_string(), false),
    ];
    // Depth 1: only the top-level file is reached.
    let (total, _) = scan_gguf_files(&tree, 1, None, 1, 100);
    assert_eq!(total, 1);
    // Depth 2: both files.
    let (total2, _) = scan_gguf_files(&tree, 2, None, 1, 100);
    assert_eq!(total2, 2);
}
