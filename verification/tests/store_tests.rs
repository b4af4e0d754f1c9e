use std::path::Path;

use rusqlite::Connection;

use llama_recipe_manager::db::{
    duplicate_input, migrations, pending_migrations, prepare_new_recipe, prepare_update,
    rows_changed, settings_from_rows, settings_to_pairs, CreateRecipe, Recipe, Settings,
    UpdateRecipe,
};

/// A SQLite store on disk that runs the library's migrations and decisions.
struct Store {
    conn: Connection,
}

fn recipe_from_row(row: &rusqlite::Row<'_>) -> rusqlite::Result<Recipe> {
    Ok(Recipe {
        id: row.get(0)?,
        name: row.get(1)?,
        description: row.get(2)?,
        command: row.get(3)?,
        model_path: row.get(4)?,
        mmproj_path: row.get(5)?,
        gpu_info: row.get(6)?,
        tags: row.get(7)?,
        created_at: row.get(8)?,
        updated_at: row.get(9)?,
    })
}

impl Store {
    fn open(dir: &Path) -> Result<Self, String> {
        let mut conn = Connection::open(dir.join("recipes.db")).map_err(|e| e.to_string())?;
        let current: i32 = conn
            .query_row("PRAGMA user_version", [], |r| r.get(0))
            .map_err(|e| e.to_string())?;
        let all = migrations();
        for i in pending_migrations(&all, current) {
            let m = &all[i];
            let tx = conn.transaction().map_err(|e| e.to_string())?;
            tx.execute_batch(m.sql).map_err(|e| e.to_string())?;
            tx.pragma_update(None, "user_version", m.version).map_err(|e| e.to_string())?;
            tx.commit().map_err(|e| e.to_string())?;
        }
        Ok(Store { conn })
    }

    fn version(&self) -> i32 {
        self.conn.query_row("PRAGMA user_version", [], |r| r.get(0)).expect("version")
    }

    fn get_settings(&self) -> Result<Settings, String> {
        let mut stmt = self
            .conn
            .prepare("SELECT key, value FROM settings")
            .map_err(|e| e.to_string())?;
        let rows = stmt
            .query_map([], |row| Ok((row.get::<_, String>(0)?, row.get::<_, String>(1)?)))
            .map_err(|e| e.to_string())?
            .collect::<Result<Vec<_>, _>>()
            .map_err(|e| e.to_string())?;
        Ok(settings_from_rows(&rows))
    }

    fn update_settings(&self, s: &Settings) -> Result<(), String> {
        for (key, value) in settings_to_pairs(s) {
            self.conn
                .execute(
                    "INSERT INTO settings (key, value) VALUES (?1, ?2)
                     ON CONFLICT(key) DO UPDATE SET value = excluded.value",
                    (key, value),
                )
                .map_err(|e| e.to_string())?;
        }
        Ok(())
    }

    fn list_recipes(&self) -> Result<Vec<Recipe>, String> {
        let mut stmt = self
            .conn
            .prepare(
                "SELECT id, name, description, command, model_path, mmproj_path, gpu_info, tags, created_at, updated_at
                 FROM recipes ORDER BY updated_at DESC",
            )
            .map_err(|e| e.to_string())?;
        let recipes = stmt
            .query_map([], recipe_from_row)
            .map_err(|e| e.to_string())?
            .collect::<Result<Vec<_>, _>>()
            .map_err(|e| e.to_string())?;
        Ok(recipes)
    }

    fn get_recipe(&self, id: &str) -> Result<Recipe, String> {
        self.conn
            .query_row(
                "SELECT id, name, description, command, model_path, mmproj_path, gpu_info, tags, created_at, updated_at
                 FROM recipes WHERE id = ?1",
                (id,),
                recipe_from_row,
            )
            .map_err(|e| e.to_string())
    }

    fn create_recipe(&self, input: CreateRecipe) -> Result<Recipe, String> {
        let r = prepare_new_recipe(input)?;
        self.conn
            .execute(
                "INSERT INTO recipes (id, name, description, command, model_path, mmproj_path, gpu_info, tags, created_at, updated_at)
                 VALUES (?1, ?2, ?3, ?4, ?5, ?6, ?7, ?8, ?9, ?10)",
                (&r.id, &r.name, &r.description, &r.command, &r.model_path, &r.mmproj_path,
                    &r.gpu_info, &r.tags, &r.created_at, &r.updated_at),
            )
            .map_err(|e| e.to_string())?;
        self.get_recipe(&r.id)
    }

    fn update_recipe(&self, input: UpdateRecipe) -> Result<Recipe, String> {
        let now = prepare_update(&input)?;
        let rows = self
            .conn
            .execute(
                "UPDATE recipes SET name = ?1, description = ?2, command = ?3, model_path = ?4, mmproj_path = ?5, gpu_info = ?6, tags = ?7, updated_at = ?8
                 WHERE id = ?9",
                (&input.name, &input.description, &input.command, &input.model_path,
                    &input.mmproj_path, &input.gpu_info, &input.tags, &now, &input.id),
            )
            .map_err(|e| e.to_string())?;
        rows_changed(rows)?;
        self.get_recipe(&input.id)
    }

    fn delete_recipe(&self, id: &str) -> Result<(), String> {
        let rows = self
            .conn
            .execute("DELETE FROM recipes WHERE id = ?1", (id,))
            .map_err(|e| e.to_string())?;
        rows_changed(rows)
    }

    fn duplicate_recipe(&self, id: &str) -> Result<Recipe, String> {
        let recipe = self.get_recipe(id)?;
        self.create_recipe(duplicate_input(recipe))
    }
}

fn fresh_db() -> (Store, tempfile::TempDir) {
    let dir = tempfile::tempdir().expect("tempdir");
    let db = Store::open(dir.path()).expect("open db");
    (db, dir)
}

fn sample_recipe() -> CreateRecipe {
    CreateRecipe {
        name: "Llama 3 8B".to_string(),
        description: "Local chat".to_string(),
        command: "--ctx-size 4096".to_string(),
        model_path: "llama-3-8b.gguf".to_string(),
        mmproj_path: String::new(),
        gpu_info: "RTX 4090".to_string(),
        tags: "chat,local".to_string(),
    }
}

#[test]
fn migrations_create_a_usable_db() {
    let (db, _dir) = fresh_db();
    assert!(db.list_recipes().expect("list").is_empty());
    let _ = db.get_settings().expect("settings have defaults");
}

#[test]
fn opening_twice_is_idempotent() {
    let dir = tempfile::tempdir().expect("tempdir");
    let first = Store::open(dir.path()).expect("open 1");
    let version = first.version();
    drop(first);
    let again = Store::open(dir.path()).expect("open 2");
    assert_eq!(again.version(), version);
    assert_eq!(version, 2);
    assert!(pending_migrations(&migrations(), again.version()).is_empty());
    assert!(again.get_settings().expect("settings").metrics_enabled);
}

#[test]
fn create_get_update_delete_roundtrip() {
    let (db, _dir) = fresh_db();

    let created = db.create_recipe(sample_recipe()).expect("create");
    assert_eq!(created.name, "Llama 3 8B");
    assert!(!created.id.is_empty());

    let fetched = db.get_recipe(&created.id).expect("get");
    assert_eq!(fetched.id, created.id);
    assert_eq!(fetched.command, "--ctx-size 4096");

    let updated = db
        .update_recipe(UpdateRecipe {
            id: created.id.clone(),
            name: "Llama 3 8B (tuned)".to_string(),
            description: created.description.clone(),
            command: "--ctx-size 8192".to_string(),
            model_path: created.model_path.clone(),
            mmproj_path: String::new(),
            gpu_info: created.gpu_info.clone(),
            tags: created.tags.clone(),
        })
        .expect("update");
    assert_eq!(updated.name, "Llama 3 8B (tuned)");
    assert_eq!(updated.command, "--ctx-size 8192");

    db.delete_recipe(&created.id).expect("delete");
    assert!(
        db.get_recipe(&created.id).is_err(),
        "deleted recipe should be gone"
    );
    assert_eq!(db.delete_recipe(&created.id), Err("Recipe not found".to_string()));
}

#[test]
fn duplicate_creates_new_id() {
    let (db, _dir) = fresh_db();
    let original = db.create_recipe(sample_recipe()).expect("create");
    let dup = db.duplicate_recipe(&original.id).expect("duplicate");
    assert_ne!(dup.id, original.id);
    assert!(dup.name.contains(&original.name) || dup.name.contains("Copy"));
    assert_eq!(db.list_recipes().unwrap().len(), 2);
}

#[test]
fn create_rejects_forbidden_flag_in_command() {
    let (db, _dir) = fresh_db();
    let mut bad = sample_recipe();
    bad.command = "--host 0.0.0.0".to_string();
    let err = db.create_recipe(bad).unwrap_err();
    assert!(
        err.contains("--host"),
        "expected --host rejection, got {}",
        err
    );
}

#[test]
fn create_rejects_oversized_name() {
    let (db, _dir) = fresh_db();
    let mut bad = sample_recipe();
    bad.name = "x".repeat(10_000);
    assert!(db.create_recipe(bad).is_err());
}

#[test]
fn create_requires_model_path() {
    let (db, _dir) = fresh_db();
    let mut bad = sample_recipe();
    bad.model_path = String::new();
    let err = db.create_recipe(bad).unwrap_err();
    assert!(err.to_lowercase().contains("model path"));
}

#[test]
fn settings_roundtrip() {
    let (db, _dir) = fresh_db();
    let mut s = db.get_settings().expect("defaults");
    s.host = "127.0.0.1".to_string();
    s.port = 9090;
    s.api_key = "secret-key".to_string();
    s.webui_enabled = false;
    s.keep_server_on_exit = true;
    db.update_settings(&s).expect("update");
    let read = db.get_settings().expect("read");
    assert_eq!(read.host, "127.0.0.1");
    assert_eq!(read.port, 9090);
    assert_eq!(read.api_key, "secret-key");
    assert!(!read.webui_enabled);
    assert!(read.keep_server_on_exit);
}

#[test]
fn update_of_missing_recipe_changes_nothing() {
    let (db, _dir) = fresh_db();
    let created = db.create_recipe(sample_recipe()).expect("create");
    let missing = UpdateRecipe {
        id: "no-such-id".to_string(),
        name: "n".to_string(),
        description: String::new(),
        command: "--ctx-size 1".to_string(),
        model_path: "m.gguf".to_string(),
        mmproj_path: String::new(),
        gpu_info: String::new(),
        tags: String::new(),
    };
    assert_eq!(db.update_recipe(missing).err(), Some("Recipe not found".to_string()));
    assert_eq!(db.get_recipe(&created.id).expect("get").name, "Llama 3 8B");
}
