use llama_recipe_manager::models::page_fits;
use llama_recipe_manager::models::{
    classify_gguf, count_match, hf_auth_header, hf_repo_id, hf_resolve_url, hf_tree_url,
    is_gguf_path, is_orphan_part, page_window, part_file_name, safe_file_name, scan_filter,
    scan_page, scan_page_size, select_hf_files, wants_kind, GgufKind, HfEntry,
};

#[test]
fn download_sanitizes_path_traversal() {
    let malicious = "../../etc/passwd".to_string();
    let safe = safe_file_name(&malicious).unwrap();
    assert_eq!(safe, "passwd");
    assert_ne!(safe, "../../etc/passwd");
}

#[test]
fn download_keeps_simple_filename() {
    let filename = "qwen3-35b-q4.gguf".to_string();
    let safe = safe_file_name(&filename).unwrap();
    assert_eq!(safe, "qwen3-35b-q4.gguf");
}

#[test]
fn download_strips_subdirectory_prefix() {
    let filename = "gguf/qwen3-35b-q4.gguf".to_string();
    let safe = safe_file_name(&filename).unwrap();
    assert_eq!(safe, "qwen3-35b-q4.gguf");
}

// ── more cases ───────────────────────────────────────────────────────────────

#[test]
fn download_name_of_parent_or_root_is_refused() {
    assert_eq!(safe_file_name(".."), None);
    assert_eq!(safe_file_name("/"), None);
    assert_eq!(safe_file_name(""), None);
    assert_eq!(safe_file_name("a/b/./"), Some("b".to_string()));
}

#[test]
fn gguf_kind_from_metadata() {
    assert_eq!(classify_gguf(Some("mmproj"), None), GgufKind::Mmproj);
    assert_eq!(classify_gguf(Some("\"MMPROJ\""), None), GgufKind::Mmproj);
    assert_eq!(classify_gguf(None, Some("clip")), GgufKind::Mmproj);
    assert_eq!(classify_gguf(Some("model"), Some("llama")), GgufKind::Model);
    assert_eq!(classify_gguf(None, None), GgufKind::Model);
}

#[test]
fn scan_request_defaults_and_clamps() {
    assert_eq!(scan_filter("all"), None);
    assert_eq!(scan_filter("mmproj"), Some(GgufKind::Mmproj));
    assert_eq!(scan_filter("model"), Some(GgufKind::Model));
    assert_eq!(scan_filter("anything"), Some(GgufKind::Model));
    assert_eq!(scan_page(None), 1);
    assert_eq!(scan_page(Some(0)), 1);
    assert_eq!(scan_page(Some(7)), 7);
    assert_eq!(scan_page_size(None), 100);
    assert_eq!(scan_page_size(Some(0)), 1);
    assert_eq!(scan_page_size(Some(5000)), 1000);
    assert_eq!(scan_page_size(Some(25)), 25);
}

#[test]
fn kinds_match_filter() {
    assert!(wants_kind(None, GgufKind::Mmproj));
    assert!(wants_kind(Some(GgufKind::Model), GgufKind::Model));
    assert!(!wants_kind(Some(GgufKind::Mmproj), GgufKind::Model));
}

#[test]
fn pages_cover_every_match_exactly_once() {
    // Ten matching files, pages of four: 4 + 4 + 2, every match in one page.
    let mut seen = vec![0u32; 10];
    for page in 1..=3usize {
        let (start, end) = page_window(page, 4);
        let mut total = 0usize;
        for k in 0..10usize {
            let (t, in_page) = count_match(total, start, end);
            total = t;
            if in_page {
                seen[k] += 1;
            }
        }
        assert_eq!(total, 10, "total must be stable across pages");
    }
    assert!(seen.iter().all(|&n| n == 1), "each file must appear in exactly one page");
    assert_eq!(page_window(99, 4), (392, 396));
    assert_eq!(page_window(0, 4), (0, 4));
}

fn entry(t: &str, path: &str, size: Option<u64>) -> HfEntry {
    HfEntry { entry_type: Some(t.to_string()), path: Some(path.to_string()), size }
}

#[test]
fn hf_listing_filters_and_sorts() {
    let entries = vec![
        entry("file", "zeta-Q4.gguf", Some(10)),
        entry("directory", "sub.gguf", None),
        entry("file", "README.md", Some(1)),
        entry("file", "mmproj-f16.GGUF", Some(5)),
        entry("file", "alpha-Q8.gguf", None),
        HfEntry { entry_type: Some("file".to_string()), path: None, size: Some(3) },
    ];
    let all = select_hf_files(&entries, "all");
    let names: Vec<&str> = all.iter().map(|f| f.name.as_str()).collect();
    assert_eq!(names, vec!["alpha-Q8.gguf", "mmproj-f16.GGUF", "zeta-Q4.gguf"]);
    assert_eq!(all[0].size_bytes, 0);
    assert_eq!(all[2].size_bytes, 10);

    let models = select_hf_files(&entries, "model");
    let names: Vec<&str> = models.iter().map(|f| f.name.as_str()).collect();
    assert_eq!(names, vec!["alpha-Q8.gguf", "zeta-Q4.gguf"]);

    let mm = select_hf_files(&entries, "mmproj");
    assert_eq!(mm.len(), 1);
    assert_eq!(mm[0].name, "mmproj-f16.GGUF");
    assert_eq!(mm[0].size_bytes, 5);
}

#[test]
fn hf_listing_keeps_order_of_equal_names() {
    let entries = vec![
        entry("file", "b.gguf", Some(1)),
        entry("file", "a.gguf", Some(2)),
        entry("file", "b.gguf", Some(3)),
        entry("file", "B.gguf", Some(4)),
    ];
    let r = select_hf_files(&entries, "all");
    let got: Vec<(&str, u64)> = r.iter().map(|f| (f.name.as_str(), f.size_bytes)).collect();
    assert_eq!(got, vec![("B.gguf", 4), ("a.gguf", 2), ("b.gguf", 1), ("b.gguf", 3)]);
}

#[test]
fn hf_addresses() {
    assert_eq!(hf_repo_id("  org/repo// "), "org/repo");
    assert_eq!(
        hf_tree_url("  org/repo// "),
        "https://huggingface.co/api/models/org/repo/tree/main"
    );
    assert_eq!(
        hf_resolve_url("org/repo/", "sub/x.gguf"),
        "https://huggingface.co/org/repo/resolve/main/sub/x.gguf"
    );
    assert_eq!(hf_auth_header("  tok "), Some("Bearer tok".to_string()));
    assert_eq!(hf_auth_header(" \t"), None);
}

#[test]
fn part_files() {
    assert_eq!(part_file_name("a.gguf"), "a.gguf.part");
    assert!(is_orphan_part("/m/a.gguf.part"));
    assert!(!is_orphan_part("/m/a.gguf"));
    assert!(!is_orphan_part("part"));
}

#[test]
fn local_scan_extension_is_exact() {
    assert!(is_gguf_path("/m/a.gguf"));
    assert!(is_gguf_path("/m/a.b.gguf"));
    assert!(!is_gguf_path("/m/a.GGUF"));
    assert!(!is_gguf_path("/m/.gguf"));
    assert!(!is_gguf_path("/m/a.gguf.part"));
    assert!(!is_gguf_path("/m/gguf"));
}

#[test]
fn page_window_must_fit() {
    assert!(page_fits(1, 1000));
    assert!(page_fits(0, usize::MAX));
    assert!(!page_fits(usize::MAX, 1000));
    assert!(!page_fits(2, usize::MAX));
}

#[test]
fn part_file_of_a_download_is_cleaned_up() {
    for name in ["a.gguf", "model-Q4_K_M.gguf", ".gguf"] {
        assert!(is_orphan_part(&part_file_name(name)));
    }
}

#[test]
fn saved_names_are_plain() {
    for p in ["../../etc/passwd", "a/b/../c.gguf", "/abs/x.gguf", "x/.", "./y"] {
        if let Some(n) = safe_file_name(p) {
            assert!(!n.is_empty() && !n.contains('/') && n != "." && n != "..", "{}", n);
        }
    }
    assert_eq!(safe_file_name("a/b/../c.gguf"), Some("c.gguf".to_string()));
    assert_eq!(safe_file_name("x/."), Some("x".to_string()));
}
