use llama_recipe_manager::db::{
    duplicate_input, migrations, pending_migrations, prepare_new_recipe, prepare_update,
    rows_changed, settings_from_rows, settings_to_pairs, CreateRecipe, Recipe, Settings,
    UpdateRecipe,
};

fn sample_recipe() -> CreateRecipe {
    CreateRecipe {
        name: "Llama 3 8B".to_string(),
        description: "Local chat".to_string(),
        command: "--ctx-size 4096".to_string(),
        model_path: "llama-3-8b.gguf".to_string(),
        mmproj_path: String::new(),
        gpu_info: "RTX 4090".to_string(),
        tags: "chat,local".to_string(),
    }
}

fn is_uuid(s: &str) -> bool {
    s.len() == 36
        && s.chars().enumerate().all(|(i, c)| {
            if [8, 13, 18, 23].contains(&i) {
                c == '-'
            } else {
                c.is_ascii_digit() || ('a'..='f').contains(&c)
            }
        })
}

#[test]
fn defaults_are_the_fresh_install_settings() {
    let s = Settings::default();
    assert_eq!(s.host, "127.0.0.1");
    assert_eq!(s.port, 8080);
    assert_eq!(s.model_dir, "~/Models");
    assert_eq!(s.llama_server_path, "llama-server");
    assert!(s.webui_enabled && s.metrics_enabled && s.slots_enabled);
    assert!(!s.keep_server_on_exit);
    assert_eq!(s.timeout_secs, 600);
    assert_eq!(s.log_verbosity, 3);
    assert_eq!(s.theme, "system");
}

#[test]
fn settings_roundtrip_through_rows() {
    let mut s = Settings::default();
    s.host = "127.0.0.1".to_string();
    s.port = 9090;
    s.api_key = "secret-key".to_string();
    s.webui_enabled = false;
    s.keep_server_on_exit = true;
    s.timeout_secs = 42;
    let rows = settings_to_pairs(&s);
    assert_eq!(rows.len(), 16);
    assert!(rows.contains(&("port".to_string(), "9090".to_string())));
    assert!(rows.contains(&("webui_enabled".to_string(), "false".to_string())));
    let read = settings_from_rows(&rows);
    assert_eq!(read.host, "127.0.0.1");
    assert_eq!(read.port, 9090);
    assert_eq!(read.api_key, "secret-key");
    assert!(!read.webui_enabled);
    assert!(read.keep_server_on_exit);
    assert_eq!(read.timeout_secs, 42);
}

#[test]
fn unreadable_rows_keep_defaults() {
    let rows = vec![
        ("port".to_string(), "not-a-number".to_string()),
        ("port".to_string(), "70000".to_string()),
        ("webui_enabled".to_string(), "yes".to_string()),
        ("unknown".to_string(), "x".to_string()),
        ("theme".to_string(), "dark".to_string()),
    ];
    let s = settings_from_rows(&rows);
    assert_eq!(s.port, 8080);
    assert!(s.webui_enabled);
    assert_eq!(s.theme, "dark");
}

#[test]
fn create_accepts_a_good_recipe() {
    let r = prepare_new_recipe(sample_recipe()).expect("create");
    assert_eq!(r.name, "Llama 3 8B");
    assert_eq!(r.command, "--ctx-size 4096");
    assert!(is_uuid(&r.id));
    assert_eq!(r.created_at, r.updated_at);
    let other = prepare_new_recipe(sample_recipe()).expect("create");
    assert_ne!(other.id, r.id);
}

#[test]
fn update_checks_the_new_fields() {
    let up = UpdateRecipe {
        id: "x".to_string(),
        name: "n".to_string(),
        description: String::new(),
        command: "--port 1".to_string(),
        model_path: "m.gguf".to_string(),
        mmproj_path: String::new(),
        gpu_info: String::new(),
        tags: String::new(),
    };
    assert!(prepare_update(&up).unwrap_err().contains("--port"));
    let good = UpdateRecipe { command: "--ctx-size 8192".to_string(), ..up };
    assert!(prepare_update(&good).is_ok());
}

#[test]
fn missing_rows_mean_not_found() {
    assert_eq!(rows_changed(0), Err("Recipe not found".to_string()));
    assert_eq!(rows_changed(1), Ok(()));
}

#[test]
fn duplicate_marks_the_copy() {
    let r = Recipe {
        id: "id".to_string(),
        name: "Base".to_string(),
        description: "d".to_string(),
        command: "--ctx 1".to_string(),
        model_path: "m.gguf".to_string(),
        mmproj_path: "p.gguf".to_string(),
        gpu_info: "g".to_string(),
        tags: "t".to_string(),
        created_at: "c".to_string(),
        updated_at: "u".to_string(),
    };
    let c = duplicate_input(r);
    assert_eq!(c.name, "Base (copy)");
    assert_eq!(c.mmproj_path, "p.gguf");
}

#[test]
fn migrations_apply_forward_only() {
    let all = migrations();
    assert_eq!(all.len(), 2);
    assert_eq!(pending_migrations(&all, 0), vec![0, 1]);
    assert_eq!(pending_migrations(&all, 1), vec![1]);
    assert_eq!(pending_migrations(&all, 2), Vec::<usize>::new());
    assert_eq!(all[1].description, "enable metrics by default");
}

#[test]
fn migrations_carry_their_sql() {
    let all = migrations();
    assert_eq!(all[0].description, "initial schema");
    assert!(all[0].sql.contains("CREATE TABLE IF NOT EXISTS recipes"));
    assert!(all[0].sql.contains("CREATE TABLE IF NOT EXISTS settings"));
    assert_eq!(all[1].description, "enable metrics by default");
    assert!(all[1].sql.contains("'metrics_enabled', 'true'"));
}

#[test]
fn time_stamps_are_utc_rfc3339() {
    let r = prepare_new_recipe(CreateRecipe {
        name: "n".to_string(),
        description: String::new(),
        command: "--ctx-size 1".to_string(),
        model_path: "m.gguf".to_string(),
        mmproj_path: String::new(),
        gpu_info: String::new(),
        tags: String::new(),
    })
    .expect("valid");
    let t: Vec<char> = r.created_at.chars().collect();
    assert!(r.created_at.ends_with("+00:00"));
    assert_eq!(t[4], '-');
    assert_eq!(t[7], '-');
    assert_eq!(t[10], 'T');
    assert_eq!(t[13], ':');
    assert_eq!(t[16], ':');
    assert_eq!(r.created_at, r.updated_at);
}
