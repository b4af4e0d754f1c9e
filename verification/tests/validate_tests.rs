use llama_recipe_manager::validate::{denied_flag_in, lowercase_words};
use llama_recipe_manager::validate::{
    forbidden_flags, unsafe_flags, validate_recipe_command, validate_recipe_command_for_source,
    validate_recipe_fields, RecipeSource, MAX_NAME_LEN, MAX_TAGS_LEN,
};

fn ok(r: Result<(), String>) {
    if let Err(e) = r {
        panic!("expected Ok, got Err({:?})", e);
    }
}

fn err_contains(r: Result<(), String>, needle: &str) {
    match r {
        Ok(()) => panic!("expected error containing {:?}, got Ok", needle),
        Err(e) => assert!(
            e.contains(needle),
            "expected error containing {:?}, got {:?}",
            needle,
            e
        ),
    }
}

// ── command-flag deny-lists ──────────────────────────────────────────────────

#[test]
fn local_recipes_allow_unsafe_flags() {
    for flag in unsafe_flags() {
        let cmd = format!("llama-server {}", flag);
        assert!(
            validate_recipe_command_for_source(&cmd, RecipeSource::Local).is_ok(),
            "{} should be allowed locally",
            flag
        );
    }
}

#[test]
fn community_recipes_block_unsafe_flags() {
    for flag in unsafe_flags() {
        let cmd = format!("llama-server {}", flag);
        err_contains(
            validate_recipe_command_for_source(&cmd, RecipeSource::Community),
            flag,
        );
    }
}

#[test]
fn forbidden_flags_blocked_for_every_source() {
    for flag in forbidden_flags() {
        let cmd = format!("llama-server {} foo", flag);
        err_contains(
            validate_recipe_command_for_source(&cmd, RecipeSource::Local),
            flag,
        );
        err_contains(
            validate_recipe_command_for_source(&cmd, RecipeSource::Community),
            flag,
        );
    }
}

#[test]
fn flag_match_is_case_insensitive() {
    err_contains(
        validate_recipe_command("llama-server --HOST 0.0.0.0"),
        "--host",
    );
}

#[test]
fn flag_equals_form_is_caught() {
    err_contains(
        validate_recipe_command("llama-server --host=0.0.0.0"),
        "--host",
    );
}

#[test]
fn legitimate_recipe_passes() {
    ok(validate_recipe_command(
        "--ctx-size 8192 --n-gpu-layers 999 --threads 8",
    ));
}

#[test]
fn invalid_shell_syntax_reports_clearly() {
    err_contains(
        validate_recipe_command("--quote \"unterminated"),
        "Invalid command syntax",
    );
}

#[test]
fn nul_byte_in_command_rejected() {
    err_contains(validate_recipe_command("foo\0bar"), "NUL byte");
}

#[test]
fn forbidden_and_unsafe_lists_are_disjoint() {
    let unsafe_list = unsafe_flags();
    for f in forbidden_flags() {
        assert!(
            !unsafe_list.contains(&f),
            "{} appears in both FORBIDDEN_FLAGS and UNSAFE_FLAGS",
            f
        );
    }
}

// ── field-level hygiene ──────────────────────────────────────────────────────

fn good_fields() -> [&'static str; 7] {
    [
        "My recipe",
        "A description.",
        "--ctx 8192",
        "model.gguf",
        "",
        "RTX 4090",
        "vision,chat",
    ]
}

#[test]
fn good_fields_pass() {
    let f = good_fields();
    ok(validate_recipe_fields(
        f[0], f[1], f[2], f[3], f[4], f[5], f[6],
    ));
}

#[test]
fn name_length_capped() {
    let big = "x".repeat(MAX_NAME_LEN + 1);
    let f = good_fields();
    err_contains(
        validate_recipe_fields(&big, f[1], f[2], f[3], f[4], f[5], f[6]),
        "Name is too long",
    );
}

#[test]
fn name_rejects_newlines() {
    let f = good_fields();
    err_contains(
        validate_recipe_fields("multi\nline", f[1], f[2], f[3], f[4], f[5], f[6]),
        "newline",
    );
}

#[test]
fn description_allows_newlines() {
    let f = good_fields();
    ok(validate_recipe_fields(
        f[0],
        "line1\nline2",
        f[2],
        f[3],
        f[4],
        f[5],
        f[6],
    ));
}

#[test]
fn paths_reject_newlines() {
    let f = good_fields();
    err_contains(
        validate_recipe_fields(f[0], f[1], f[2], "model\n.gguf", f[4], f[5], f[6]),
        "Model path",
    );
    err_contains(
        validate_recipe_fields(f[0], f[1], f[2], f[3], "mm\r.gguf", f[5], f[6]),
        "Mmproj path",
    );
}

#[test]
fn nul_in_any_field_rejected() {
    let f = good_fields();
    err_contains(
        validate_recipe_fields(f[0], "with\0nul", f[2], f[3], f[4], f[5], f[6]),
        "NUL byte",
    );
}

#[test]
fn tags_capped() {
    let big = "a,".repeat(MAX_TAGS_LEN);
    let f = good_fields();
    err_contains(
        validate_recipe_fields(f[0], f[1], f[2], f[3], f[4], f[5], &big),
        "Tags is too long",
    );
}

// ── more cases ───────────────────────────────────────────────────────────────

#[test]
fn forbidden_flag_message_names_the_flag() {
    assert_eq!(
        validate_recipe_command("--ctx-size 4096 --api-key secret"),
        Err("Recipe command must not contain '--api-key'. This flag is either managed by the app or has been blocked for safety reasons.".to_string())
    );
}

#[test]
fn syntax_error_message_is_exact() {
    assert_eq!(
        validate_recipe_command("--quote 'open"),
        Err("Invalid command syntax: missing closing quote".to_string())
    );
}

#[test]
fn field_too_long_message_gives_sizes() {
    let big = "x".repeat(MAX_NAME_LEN + 1);
    let f = good_fields();
    assert_eq!(
        validate_recipe_fields(&big, f[1], f[2], f[3], f[4], f[5], f[6]),
        Err(format!("Name is too long ({} bytes, max {})", MAX_NAME_LEN + 1, MAX_NAME_LEN))
    );
}

#[test]
fn flags_are_matched_as_whole_tokens() {
    // A flag's name inside a value, or as the prefix of a longer flag,
    // is no hit.
    ok(validate_recipe_command("--alias my--host-model"));
    ok(validate_recipe_command("--hostname-like"));
}

#[test]
fn empty_command_passes() {
    ok(validate_recipe_command(""));
    ok(validate_recipe_command_for_source("", RecipeSource::Community));
}

#[test]
fn community_refuses_what_local_refuses() {
    for cmd in ["--port 8080", "llama-server --ssl-key-file k", "--ctx 1"] {
        if validate_recipe_command_for_source(cmd, RecipeSource::Local).is_err() {
            assert!(validate_recipe_command_for_source(cmd, RecipeSource::Community).is_err());
        }
    }
}

#[test]
fn fields_at_exact_limit_pass() {
    let name = "x".repeat(MAX_NAME_LEN);
    let f = good_fields();
    ok(validate_recipe_fields(&name, f[1], f[2], f[3], f[4], f[5], f[6]));
}

#[test]
fn gpu_info_rejects_carriage_return() {
    let f = good_fields();
    err_contains(
        validate_recipe_fields(f[0], f[1], f[2], f[3], f[4], "RTX\r4090", f[6]),
        "newline",
    );
}

#[test]
fn denied_flag_of_given_words() {
    let words: Vec<String> = ["--Ctx", "--HOST=x", "--port"].iter().map(|s| s.to_string()).collect();
    let lowered = lowercase_words(&words);
    assert_eq!(lowered, vec!["--ctx", "--host=x", "--port"]);
    assert_eq!(denied_flag_in(&lowered, &forbidden_flags()), Some("--host"));
    assert_eq!(denied_flag_in(&vec!["--ctx".to_string()], &forbidden_flags()), None);
}
