use llama_recipe_manager::paths::{
    check_containment, lexical_normalize, slashed_exec, path_join_exec, path_starts_with_exec,
    plan_model_path, ModelPathPlan,
};

#[test]
fn lexical_normalize_drops_dots() {
    assert_eq!(lexical_normalize("/models/../etc/passwd"), "/etc/passwd");
    assert_eq!(lexical_normalize("/models/./a/b/../c.gguf"), "/models/a/c.gguf");
    assert_eq!(lexical_normalize("/.."), "/");
    assert_eq!(lexical_normalize("a/../../b"), "b");
    assert_eq!(lexical_normalize("a//b/"), "a/b");
}

#[test]
fn joining_paths() {
    assert_eq!(path_join_exec("/models", "a.gguf"), "/models/a.gguf");
    assert_eq!(path_join_exec("/models/", "a.gguf"), "/models/a.gguf");
    assert_eq!(path_join_exec("/models", "/abs.gguf"), "/abs.gguf");
}

#[test]
fn prefix_is_by_component() {
    assert!(path_starts_with_exec("/models/a.gguf", "/models"));
    assert!(path_starts_with_exec("/models", "/models/"));
    assert!(!path_starts_with_exec("/models-evil/a.gguf", "/models"));
    assert!(!path_starts_with_exec("/etc/passwd", "/models"));
}

#[test]
fn planning_model_paths() {
    match plan_model_path("Model path", "~/m/a.gguf", "~/Models", Some("/h")) {
        Ok(ModelPathPlan::AsGiven(p)) => assert_eq!(p, "/h/m/a.gguf"),
        _ => panic!("expected an absolute path"),
    }
    match plan_model_path("Model path", "a.gguf", "~/Models", Some("/h")) {
        Ok(ModelPathPlan::UnderModelDir { dir, joined }) => {
            assert_eq!(dir, "/h/Models");
            assert_eq!(joined, "/h/Models/a.gguf");
        }
        _ => panic!("expected a relative path"),
    }
    match plan_model_path("Mmproj path", "a\n.gguf", "/m", None) {
        Err(e) => assert_eq!(e, "Mmproj path contains invalid characters"),
        _ => panic!("expected an error"),
    }
}

#[test]
fn containment_refuses_escapes() {
    assert_eq!(
        check_containment("Model path", "../x.gguf", "/m", "/x.gguf", "/m/../x.gguf".to_string(), false),
        Err("Model path '../x.gguf' resolves outside the configured model directory".to_string())
    );
    assert_eq!(
        check_containment("Model path", "a.gguf", "/m", "/m/a.gguf", "/m/a.gguf".to_string(), false),
        Ok("/m/a.gguf".to_string())
    );
}

use llama_recipe_manager::paths::{augment_path, gui_path_candidates, same_path_exec};

#[test]
fn gui_candidates_in_order() {
    let c = gui_path_candidates(Some("/home/u"));
    assert_eq!(c.len(), 12);
    assert_eq!(c[0], "/opt/homebrew/bin");
    assert_eq!(c[7], "/opt/miniconda3/bin");
    assert_eq!(c[8], "/home/u/.cargo/bin");
    assert_eq!(c[11], "/home/u/.linuxbrew/bin");
    assert_eq!(gui_path_candidates(None).len(), 8);
}

#[test]
fn path_equality_by_component() {
    assert!(same_path_exec("/usr/local/bin/", "/usr/local/bin"));
    assert!(same_path_exec("/usr//local/./bin", "/usr/local/bin"));
    assert!(!same_path_exec("/usr/local/bin", "/usr/local"));
}

#[test]
fn search_path_gets_only_new_directories() {
    let dirs: Vec<String> = ["/opt/homebrew/bin", "/usr/local/bin", "/usr/local/bin/", "/h/.cargo/bin"]
        .iter()
        .map(|s| s.to_string())
        .collect();
    let entries: Vec<String> = ["/usr/bin", "/usr/local/bin"].iter().map(|s| s.to_string()).collect();
    assert_eq!(
        augment_path(&dirs, &entries, "/usr/bin:/usr/local/bin", ':'),
        Some("/opt/homebrew/bin:/h/.cargo/bin:/usr/bin:/usr/local/bin".to_string())
    );
    assert_eq!(
        augment_path(&dirs, &Vec::new(), "", ':'),
        Some("/opt/homebrew/bin:/usr/local/bin:/h/.cargo/bin".to_string())
    );
    let known: Vec<String> = dirs.clone();
    assert_eq!(augment_path(&dirs, &known, "x", ';'), None);
}

#[test]
fn augmenting_twice_adds_nothing() {
    let dirs: Vec<String> = vec![
        "/opt/homebrew/bin".to_string(),
        "/usr/local/bin".to_string(),
        "/h/.cargo/bin".to_string(),
    ];
    let entries: Vec<String> = vec!["/usr/bin".to_string(), "/usr/local/bin".to_string()];
    let first = augment_path(&dirs, &entries, "/usr/bin:/usr/local/bin", ':').expect("added");
    let again: Vec<String> = first.split(':').map(|s| s.to_string()).collect();
    assert_eq!(augment_path(&dirs, &again, &first, ':'), None);
}

#[test]
fn containment_reads_backslashes_on_windows() {
    let dir = "\\\\?\\C:\\models";
    assert_eq!(
        check_containment("Model path", "a.gguf", dir, "\\\\?\\C:\\models\\a.gguf", "m/a.gguf".to_string(), true),
        Ok("m/a.gguf".to_string())
    );
    assert!(check_containment("Model path", "../a.gguf", dir, "\\\\?\\C:\\other\\a.gguf", "x".to_string(), true).is_err());
    // On Unix a backslash is part of a name, so the same texts are one component each.
    assert!(check_containment("Model path", "a.gguf", dir, "\\\\?\\C:\\models\\a.gguf", "x".to_string(), false).is_err());
    assert_eq!(slashed_exec("C:\\a\\b", true), "C:/a/b");
    assert_eq!(slashed_exec("C:\\a\\b", false), "C:\\a\\b");
}
