//! Recipes and settings as the store keeps them, and the rules that decide
//! what a create, update, delete or duplicate writes.

use vstd::prelude::*;
use crate::text::{
    chars_of, decimal, decimal_exec, lemma_parse_decimal, parse_uint, parse_uint_exec, string_of,
    trim, trimmed,
};
use crate::validate::{
    RecipeSource, and_then_check, check_flags_result, deny_list, fields_result, result_view,
    validate_recipe_command, validate_recipe_fields,
};

verus! {

/// A stored recipe.
#[derive(Debug, Clone)]
pub struct Recipe {
    pub id: String,
    pub name: String,
    pub description: String,
    pub command: String,
    pub model_path: String,
    pub mmproj_path: String,
    pub gpu_info: String,
    pub tags: String,
    pub created_at: String,
    pub updated_at: String,
}

/// The fields of a new recipe.
#[derive(Debug, Clone)]
pub struct CreateRecipe {
    pub name: String,
    pub description: String,
    pub command: String,
    pub model_path: String,
    pub mmproj_path: String,
    pub gpu_info: String,
    pub tags: String,
}

/// The new fields of an existing recipe.
#[derive(Debug, Clone)]
pub struct UpdateRecipe {
    pub id: String,
    pub name: String,
    pub description: String,
    pub command: String,
    pub model_path: String,
    pub mmproj_path: String,
    pub gpu_info: String,
    pub tags: String,
}

/// Application settings.
#[derive(Debug, Clone)]
pub struct Settings {
    pub host: String,
    pub port: u16,
    pub model_dir: String,
    pub llama_server_path: String,
    pub api_key: String,
    pub ssl_cert_file: String,
    pub ssl_key_file: String,
    pub hf_token: String,
    pub webui_enabled: bool,
    pub metrics_enabled: bool,
    pub slots_enabled: bool,
    pub api_prefix: String,
    pub timeout_secs: u32,
    pub log_verbosity: u32,
    pub keep_server_on_exit: bool,
    pub theme: String,
}

/// The settings as plain values.
pub struct SettingsView {
    pub host: Seq<char>,
    pub port: u16,
    pub model_dir: Seq<char>,
    pub llama_server_path: Seq<char>,
    pub api_key: Seq<char>,
    pub ssl_cert_file: Seq<char>,
    pub ssl_key_file: Seq<char>,
    pub hf_token: Seq<char>,
    pub webui_enabled: bool,
    pub metrics_enabled: bool,
    pub slots_enabled: bool,
    pub api_prefix: Seq<char>,
    pub timeout_secs: u32,
    pub log_verbosity: u32,
    pub keep_server_on_exit: bool,
    pub theme: Seq<char>,
}

impl View for Settings {
    type V = SettingsView;

    open spec fn view(&self) -> SettingsView {
        SettingsView {
            host: self.host@,
            port: self.port,
            model_dir: self.model_dir@,
            llama_server_path: self.llama_server_path@,
            api_key: self.api_key@,
            ssl_cert_file: self.ssl_cert_file@,
            ssl_key_file: self.ssl_key_file@,
            hf_token: self.hf_token@,
            webui_enabled: self.webui_enabled,
            metrics_enabled: self.metrics_enabled,
            slots_enabled: self.slots_enabled,
            api_prefix: self.api_prefix@,
            timeout_secs: self.timeout_secs,
            log_verbosity: self.log_verbosity,
            keep_server_on_exit: self.keep_server_on_exit,
            theme: self.theme@,
        }
    }
}

/// The settings of a fresh installation.
pub open spec fn default_settings() -> SettingsView {
    SettingsView {
        host: "127.0.0.1"@,
        port: 8080,
        model_dir: "~/Models"@,
        llama_server_path: "llama-server"@,
        api_key: Seq::<char>::empty(),
        ssl_cert_file: Seq::<char>::empty(),
        ssl_key_file: Seq::<char>::empty(),
        hf_token: Seq::<char>::empty(),
        webui_enabled: true,
        metrics_enabled: true,
        slots_enabled: true,
        api_prefix: Seq::<char>::empty(),
        timeout_secs: 600,
        log_verbosity: 3,
        keep_server_on_exit: false,
        theme: "system"@,
    }
}

impl Default for Settings {
    fn default() -> (s: Self)
        ensures
            s@ == default_settings(),
    {
        Settings {
            host: String::from_str("127.0.0.1"),
            port: 8080,
            model_dir: String::from_str("~/Models"),
            llama_server_path: String::from_str("llama-server"),
            api_key: String::new(),
            ssl_cert_file: String::new(),
            ssl_key_file: String::new(),
            hf_token: String::new(),
            webui_enabled: true,
            metrics_enabled: true,
            slots_enabled: true,
            api_prefix: String::new(),
            timeout_secs: 600,
            log_verbosity: 3,
            keep_server_on_exit: false,
            theme: String::from_str("system"),
        }
    }
}


// ── settings as key/value rows ───────────────────────────────────────────────

/// How a flag is stored: `true` or `false`.
pub open spec fn bool_text(b: bool) -> Seq<char> {
    if b {
        "true"@
    } else {
        "false"@
    }
}

/// `bool::from_str`: exactly `true` or `false`.
pub open spec fn parse_bool(s: Seq<char>) -> Option<bool> {
    if s == "true"@ {
        Some(true)
    } else if s == "false"@ {
        Some(false)
    } else {
        None
    }
}

/// The key/value rows that store the settings, in a fixed order.
pub open spec fn settings_pairs(v: SettingsView) -> Seq<(Seq<char>, Seq<char>)> {
    seq![
        ("host"@, v.host),
        ("port"@, decimal(v.port as nat)),
        ("model_dir"@, v.model_dir),
        ("llama_server_path"@, v.llama_server_path),
        ("api_key"@, v.api_key),
        ("ssl_cert_file"@, v.ssl_cert_file),
        ("ssl_key_file"@, v.ssl_key_file),
        ("hf_token"@, v.hf_token),
        ("webui_enabled"@, bool_text(v.webui_enabled)),
        ("metrics_enabled"@, bool_text(v.metrics_enabled)),
        ("slots_enabled"@, bool_text(v.slots_enabled)),
        ("api_prefix"@, v.api_prefix),
        ("timeout_secs"@, decimal(v.timeout_secs as nat)),
        ("log_verbosity"@, decimal(v.log_verbosity as nat)),
        ("keep_server_on_exit"@, bool_text(v.keep_server_on_exit)),
        ("theme"@, v.theme),
    ]
}

/// One stored row applied to the settings read so far: a known key whose
/// value reads as the field's type sets that field; anything else is ignored.
pub open spec fn apply_setting(v: SettingsView, key: Seq<char>, value: Seq<char>) -> SettingsView {
    if key == "host"@ {
        SettingsView { host: value, ..v }
    } else if key == "port"@ {
        match parse_uint(value, u16::MAX as nat) {
            Some(p) => SettingsView { port: p as u16, ..v },
            None => v,
        }
    } else if key == "model_dir"@ {
        SettingsView { model_dir: value, ..v }
    } else if key == "llama_server_path"@ {
        SettingsView { llama_server_path: value, ..v }
    } else if key == "api_key"@ {
        SettingsView { api_key: value, ..v }
    } else if key == "ssl_cert_file"@ {
        SettingsView { ssl_cert_file: value, ..v }
    } else if key == "ssl_key_file"@ {
        SettingsView { ssl_key_file: value, ..v }
    } else if key == "hf_token"@ {
        SettingsView { hf_token: value, ..v }
    } else if key == "webui_enabled"@ {
        match parse_bool(value) {
            Some(b) => SettingsView { webui_enabled: b, ..v },
            None => v,
        }
    } else if key == "metrics_enabled"@ {
        match parse_bool(value) {
            Some(b) => SettingsView { metrics_enabled: b, ..v },
            None => v,
        }
    } else if key == "slots_enabled"@ {
        match parse_bool(value) {
            Some(b) => SettingsView { slots_enabled: b, ..v },
            None => v,
        }
    } else if key == "api_prefix"@ {
        SettingsView { api_prefix: value, ..v }
    } else if key == "timeout_secs"@ {
        match parse_uint(value, u32::MAX as nat) {
            Some(t) => SettingsView { timeout_secs: t as u32, ..v },
            None => v,
        }
    } else if key == "log_verbosity"@ {
        match parse_uint(value, u32::MAX as nat) {
            Some(t) => SettingsView { log_verbosity: t as u32, ..v },
            None => v,
        }
    } else if key == "keep_server_on_exit"@ {
        match parse_bool(value) {
            Some(b) => SettingsView { keep_server_on_exit: b, ..v },
            None => v,
        }
    } else if key == "theme"@ {
        SettingsView { theme: value, ..v }
    } else {
        v
    }
}

/// Rows applied in order, starting from `v`.
pub open spec fn apply_rows(v: SettingsView, rows: Seq<(Seq<char>, Seq<char>)>) -> SettingsView
    decreases rows.len(),
{
    if rows.len() == 0 {
        v
    } else {
        let last = rows.last();
        apply_setting(apply_rows(v, rows.drop_last()), last.0, last.1)
    }
}

/// The character views of stored rows.
pub open spec fn row_views(rows: Seq<(String, String)>) -> Seq<(Seq<char>, Seq<char>)> {
    rows.map_values(|r: (String, String)| (r.0@, r.1@))
}

fn bool_string(b: bool) -> (s: String)
    ensures
        s@ == bool_text(b),
{
    if b {
        String::from_str("true")
    } else {
        String::from_str("false")
    }
}

fn number_string(n: u64) -> (s: String)
    ensures
        s@ == decimal(n as nat),
{
    string_of(decimal_exec(n).as_slice())
}

/// The rows that store `settings`.
pub fn settings_to_pairs(settings: &Settings) -> (rows: Vec<(String, String)>)
    ensures
        row_views(rows@) == settings_pairs(settings@),
{
    let rows = vec![
        (String::from_str("host"), settings.host.clone()),
        (String::from_str("port"), number_string(settings.port as u64)),
        (String::from_str("model_dir"), settings.model_dir.clone()),
        (String::from_str("llama_server_path"), settings.llama_server_path.clone()),
        (String::from_str("api_key"), settings.api_key.clone()),
        (String::from_str("ssl_cert_file"), settings.ssl_cert_file.clone()),
        (String::from_str("ssl_key_file"), settings.ssl_key_file.clone()),
        (String::from_str("hf_token"), settings.hf_token.clone()),
        (String::from_str("webui_enabled"), bool_string(settings.webui_enabled)),
        (String::from_str("metrics_enabled"), bool_string(settings.metrics_enabled)),
        (String::from_str("slots_enabled"), bool_string(settings.slots_enabled)),
        (String::from_str("api_prefix"), settings.api_prefix.clone()),
        (String::from_str("timeout_secs"), number_string(settings.timeout_secs as u64)),
        (String::from_str("log_verbosity"), number_string(settings.log_verbosity as u64)),
        (String::from_str("keep_server_on_exit"), bool_string(settings.keep_server_on_exit)),
        (String::from_str("theme"), settings.theme.clone()),
    ];
    assert(row_views(rows@) =~= settings_pairs(settings@));
    rows
}

fn is_key(key: &Vec<char>, name: &str) -> (b: bool)
    ensures
        b == (key@ == name@),
{
    crate::validate::same_chars(key, &chars_of(name))
}

fn parse_bool_exec(value: &Vec<char>) -> (r: Option<bool>)
    ensures
        r == parse_bool(value@),
{
    if is_key(value, "true") {
        Some(true)
    } else if is_key(value, "false") {
        Some(false)
    } else {
        None
    }
}

fn apply_setting_exec(settings: &mut Settings, key: &String, value: &String)
    ensures
        final(settings)@ == apply_setting(old(settings)@, key@, value@),
{
    let k = chars_of(key.as_str());
    let v = chars_of(value.as_str());
    if is_key(&k, "host") {
        settings.host = value.clone();
    } else if is_key(&k, "port") {
        match parse_uint_exec(&v, 65535) {
            Some(p) => {
                settings.port = p as u16;
            },
            None => {},
        }
    } else if is_key(&k, "model_dir") {
        settings.model_dir = value.clone();
    } else if is_key(&k, "llama_server_path") {
        settings.llama_server_path = value.clone();
    } else if is_key(&k, "api_key") {
        settings.api_key = value.clone();
    } else if is_key(&k, "ssl_cert_file") {
        settings.ssl_cert_file = value.clone();
    } else if is_key(&k, "ssl_key_file") {
        settings.ssl_key_file = value.clone();
    } else if is_key(&k, "hf_token") {
        settings.hf_token = value.clone();
    } else if is_key(&k, "webui_enabled") {
        match parse_bool_exec(&v) {
            Some(b) => {
                settings.webui_enabled = b;
            },
            None => {},
        }
    } else if is_key(&k, "metrics_enabled") {
        match parse_bool_exec(&v) {
            Some(b) => {
                settings.metrics_enabled = b;
            },
            None => {},
        }
    } else if is_key(&k, "slots_enabled") {
        match parse_bool_exec(&v) {
            Some(b) => {
                settings.slots_enabled = b;
            },
            None => {},
        }
    } else if is_key(&k, "api_prefix") {
        settings.api_prefix = value.clone();
    } else if is_key(&k, "timeout_secs") {
        match parse_uint_exec(&v, 4294967295) {
            Some(t) => {
                settings.timeout_secs = t as u32;
            },
            None => {},
        }
    } else if is_key(&k, "log_verbosity") {
        match parse_uint_exec(&v, 4294967295) {
            Some(t) => {
                settings.log_verbosity = t as u32;
            },
            None => {},
        }
    } else if is_key(&k, "keep_server_on_exit") {
        match parse_bool_exec(&v) {
            Some(b) => {
                settings.keep_server_on_exit = b;
            },
            None => {},
        }
    } else if is_key(&k, "theme") {
        settings.theme = value.clone();
    }
}

/// The settings that stored rows describe: the defaults, with each row
/// applied in order.
pub fn settings_from_rows(rows: &Vec<(String, String)>) -> (settings: Settings)
    ensures
        settings@ == apply_rows(default_settings(), row_views(rows@)),
{
    let mut settings = Settings::default();
    let mut i: usize = 0;
    while i < rows.len()
        invariant
            i <= rows.len(),
            settings@ == apply_rows(default_settings(), row_views(rows@).subrange(0, i as int)),
        decreases rows.len() - i,
    {
        let ghost pre = row_views(rows@).subrange(0, i + 1);
        assert(pre.drop_last() =~= row_views(rows@).subrange(0, i as int));
        assert(pre.last() == (rows@[i as int].0@, rows@[i as int].1@));
        apply_setting_exec(&mut settings, &rows[i].0, &rows[i].1);
        i += 1;
    }
    assert(row_views(rows@).subrange(0, i as int) =~= row_views(rows@));
    settings
}


proof fn lemma_bool_roundtrip(b: bool)
    ensures
        parse_bool(bool_text(b)) == Some(b),
{
    reveal_strlit("true");
    reveal_strlit("false");
    assert("true"@.len() == 4);
    assert("false"@.len() == 5);
}

/// Writing the settings as rows and reading the rows back, from whatever
/// settings were read before, gives the settings that were written.
pub proof fn lemma_settings_roundtrip(before: SettingsView, v: SettingsView)
    ensures
        apply_rows(before, settings_pairs(v)) == v,
{
    reveal_strlit("host");
    reveal_strlit("port");
    reveal_strlit("model_dir");
    reveal_strlit("llama_server_path");
    reveal_strlit("api_key");
    reveal_strlit("ssl_cert_file");
    reveal_strlit("ssl_key_file");
    reveal_strlit("hf_token");
    reveal_strlit("webui_enabled");
    reveal_strlit("metrics_enabled");
    reveal_strlit("slots_enabled");
    reveal_strlit("api_prefix");
    reveal_strlit("timeout_secs");
    reveal_strlit("log_verbosity");
    reveal_strlit("keep_server_on_exit");
    reveal_strlit("theme");
    assert("host"@.len() == 4);
    assert("port"@.len() == 4);
    assert("model_dir"@.len() == 9);
    assert("llama_server_path"@.len() == 17);
    assert("api_key"@.len() == 7);
    assert("ssl_cert_file"@.len() == 13);
    assert("ssl_key_file"@.len() == 12);
    assert("hf_token"@.len() == 8);
    assert("webui_enabled"@.len() == 13);
    assert("metrics_enabled"@.len() == 15);
    assert("slots_enabled"@.len() == 13);
    assert("api_prefix"@.len() == 10);
    assert("timeout_secs"@.len() == 12);
    assert("log_verbosity"@.len() == 13);
    assert("keep_server_on_exit"@.len() == 19);
    assert("theme"@.len() == 5);
    assert("port"@[0] != "host"@[0]);
    assert("webui_enabled"@[0] != "ssl_cert_file"@[0]);
    assert("slots_enabled"@[1] != "ssl_cert_file"@[1]);
    assert("slots_enabled"@[0] != "webui_enabled"@[0]);
    assert("log_verbosity"@[0] != "ssl_cert_file"@[0]);
    assert("log_verbosity"@[0] != "webui_enabled"@[0]);
    assert("log_verbosity"@[0] != "slots_enabled"@[0]);
    assert("timeout_secs"@[0] != "ssl_key_file"@[0]);
    lemma_parse_decimal(v.port as nat, u16::MAX as nat);
    lemma_parse_decimal(v.timeout_secs as nat, u32::MAX as nat);
    lemma_parse_decimal(v.log_verbosity as nat, u32::MAX as nat);
    lemma_bool_roundtrip(v.webui_enabled);
    lemma_bool_roundtrip(v.metrics_enabled);
    lemma_bool_roundtrip(v.slots_enabled);
    lemma_bool_roundtrip(v.keep_server_on_exit);
    let p = settings_pairs(v);
    assert(p.subrange(0, 16) =~= p);
    let s0 = apply_rows(before, p.subrange(0, 0));
    let s1 = apply_setting(s0, p[0].0, p[0].1);
    let s2 = apply_setting(s1, p[1].0, p[1].1);
    let s3 = apply_setting(s2, p[2].0, p[2].1);
    let s4 = apply_setting(s3, p[3].0, p[3].1);
    let s5 = apply_setting(s4, p[4].0, p[4].1);
    let s6 = apply_setting(s5, p[5].0, p[5].1);
    let s7 = apply_setting(s6, p[6].0, p[6].1);
    let s8 = apply_setting(s7, p[7].0, p[7].1);
    let s9 = apply_setting(s8, p[8].0, p[8].1);
    let s10 = apply_setting(s9, p[9].0, p[9].1);
    let s11 = apply_setting(s10, p[10].0, p[10].1);
    let s12 = apply_setting(s11, p[11].0, p[11].1);
    let s13 = apply_setting(s12, p[12].0, p[12].1);
    let s14 = apply_setting(s13, p[13].0, p[13].1);
    let s15 = apply_setting(s14, p[14].0, p[14].1);
    let s16 = apply_setting(s15, p[15].0, p[15].1);
    lemma_apply_rows_prefix(before, p, 0);
    lemma_apply_rows_prefix(before, p, 1);
    lemma_apply_rows_prefix(before, p, 2);
    lemma_apply_rows_prefix(before, p, 3);
    lemma_apply_rows_prefix(before, p, 4);
    lemma_apply_rows_prefix(before, p, 5);
    lemma_apply_rows_prefix(before, p, 6);
    lemma_apply_rows_prefix(before, p, 7);
    lemma_apply_rows_prefix(before, p, 8);
    lemma_apply_rows_prefix(before, p, 9);
    lemma_apply_rows_prefix(before, p, 10);
    lemma_apply_rows_prefix(before, p, 11);
    lemma_apply_rows_prefix(before, p, 12);
    lemma_apply_rows_prefix(before, p, 13);
    lemma_apply_rows_prefix(before, p, 14);
    lemma_apply_rows_prefix(before, p, 15);
    assert(s1.host == v.host);
    assert(s2.port == v.port);
    assert(s3.model_dir == v.model_dir);
    assert(s4.llama_server_path == v.llama_server_path);
    assert(s5.api_key == v.api_key);
    assert(s6.ssl_cert_file == v.ssl_cert_file);
    assert(s7.ssl_key_file == v.ssl_key_file);
    assert(s8.hf_token == v.hf_token);
    assert(s9.webui_enabled == v.webui_enabled);
    assert(s10.metrics_enabled == v.metrics_enabled);
    assert(s11.slots_enabled == v.slots_enabled);
    assert(s12.api_prefix == v.api_prefix);
    assert(s13.timeout_secs == v.timeout_secs);
    assert(s14.log_verbosity == v.log_verbosity);
    assert(s15.keep_server_on_exit == v.keep_server_on_exit);
    assert(s16.theme == v.theme);
    assert(s16 == v);
}

/// The settings with the fields whose keys are in `ks` taken from `v`, the
/// others from `b`.
pub open spec fn set_fields(b: SettingsView, v: SettingsView, ks: Set<Seq<char>>) -> SettingsView {
    SettingsView {
        host: if ks.contains("host"@) { v.host } else { b.host },
        port: if ks.contains("port"@) { v.port } else { b.port },
        model_dir: if ks.contains("model_dir"@) { v.model_dir } else { b.model_dir },
        llama_server_path: if ks.contains("llama_server_path"@) { v.llama_server_path } else { b.llama_server_path },
        api_key: if ks.contains("api_key"@) { v.api_key } else { b.api_key },
        ssl_cert_file: if ks.contains("ssl_cert_file"@) { v.ssl_cert_file } else { b.ssl_cert_file },
        ssl_key_file: if ks.contains("ssl_key_file"@) { v.ssl_key_file } else { b.ssl_key_file },
        hf_token: if ks.contains("hf_token"@) { v.hf_token } else { b.hf_token },
        webui_enabled: if ks.contains("webui_enabled"@) { v.webui_enabled } else { b.webui_enabled },
        metrics_enabled: if ks.contains("metrics_enabled"@) { v.metrics_enabled } else { b.metrics_enabled },
        slots_enabled: if ks.contains("slots_enabled"@) { v.slots_enabled } else { b.slots_enabled },
        api_prefix: if ks.contains("api_prefix"@) { v.api_prefix } else { b.api_prefix },
        timeout_secs: if ks.contains("timeout_secs"@) { v.timeout_secs } else { b.timeout_secs },
        log_verbosity: if ks.contains("log_verbosity"@) { v.log_verbosity } else { b.log_verbosity },
        keep_server_on_exit: if ks.contains("keep_server_on_exit"@) { v.keep_server_on_exit } else { b.keep_server_on_exit },
        theme: if ks.contains("theme"@) { v.theme } else { b.theme },
    }
}

/// The keys of some rows.
pub open spec fn row_keys(rows: Seq<(Seq<char>, Seq<char>)>) -> Set<Seq<char>> {
    Set::new(|k: Seq<char>| exists|i: int| 0 <= i < rows.len() && rows[i].0 == k)
}

/// One stored row of `v`, with a key not read yet, sets that field to `v`'s.
#[verifier::rlimit(60)]
proof fn lemma_apply_own_row(b: SettingsView, v: SettingsView, ks: Set<Seq<char>>, i: int)
    requires
        0 <= i < 16,
        !ks.contains(settings_pairs(v)[i].0),
    ensures
        apply_setting(set_fields(b, v, ks), settings_pairs(v)[i].0, settings_pairs(v)[i].1) == set_fields(
            b,
            v,
            ks.insert(settings_pairs(v)[i].0),
        ),
{
    reveal_strlit("host");
    reveal_strlit("port");
    reveal_strlit("model_dir");
    reveal_strlit("llama_server_path");
    reveal_strlit("api_key");
    reveal_strlit("ssl_cert_file");
    reveal_strlit("ssl_key_file");
    reveal_strlit("hf_token");
    reveal_strlit("webui_enabled");
    reveal_strlit("metrics_enabled");
    reveal_strlit("slots_enabled");
    reveal_strlit("api_prefix");
    reveal_strlit("timeout_secs");
    reveal_strlit("log_verbosity");
    reveal_strlit("keep_server_on_exit");
    reveal_strlit("theme");
    assert("host"@.len() == 4);
    assert("port"@.len() == 4);
    assert("model_dir"@.len() == 9);
    assert("llama_server_path"@.len() == 17);
    assert("api_key"@.len() == 7);
    assert("ssl_cert_file"@.len() == 13);
    assert("ssl_key_file"@.len() == 12);
    assert("hf_token"@.len() == 8);
    assert("webui_enabled"@.len() == 13);
    assert("metrics_enabled"@.len() == 15);
    assert("slots_enabled"@.len() == 13);
    assert("api_prefix"@.len() == 10);
    assert("timeout_secs"@.len() == 12);
    assert("log_verbosity"@.len() == 13);
    assert("keep_server_on_exit"@.len() == 19);
    assert("theme"@.len() == 5);
    assert("port"@[0] != "host"@[0]);
    assert("webui_enabled"@[0] != "ssl_cert_file"@[0]);
    assert("slots_enabled"@[1] != "ssl_cert_file"@[1]);
    assert("slots_enabled"@[0] != "webui_enabled"@[0]);
    assert("log_verbosity"@[0] != "ssl_cert_file"@[0]);
    assert("log_verbosity"@[0] != "webui_enabled"@[0]);
    assert("log_verbosity"@[0] != "slots_enabled"@[0]);
    assert("timeout_secs"@[0] != "ssl_key_file"@[0]);
    lemma_parse_decimal(v.port as nat, u16::MAX as nat);
    lemma_parse_decimal(v.timeout_secs as nat, u32::MAX as nat);
    lemma_parse_decimal(v.log_verbosity as nat, u32::MAX as nat);
    lemma_bool_roundtrip(v.webui_enabled);
    lemma_bool_roundtrip(v.metrics_enabled);
    lemma_bool_roundtrip(v.slots_enabled);
    lemma_bool_roundtrip(v.keep_server_on_exit);
    let k = settings_pairs(v)[i].0;
    let st = set_fields(b, v, ks);
    let r = apply_setting(st, k, settings_pairs(v)[i].1);
    let t = set_fields(b, v, ks.insert(k));
    if i == 0 {
        assert(r == t);
    } else if i == 1 {
        assert(r == t);
    } else if i == 2 {
        assert(r == t);
    } else if i == 3 {
        assert(r == t);
    } else if i == 4 {
        assert(r == t);
    } else if i == 5 {
        assert(r == t);
    } else if i == 6 {
        assert(r == t);
    } else if i == 7 {
        assert(r == t);
    } else if i == 8 {
        assert(r == t);
    } else if i == 9 {
        assert(r == t);
    } else if i == 10 {
        assert(r == t);
    } else if i == 11 {
        assert(r == t);
    } else if i == 12 {
        assert(r == t);
    } else if i == 13 {
        assert(r == t);
    } else if i == 14 {
        assert(r == t);
    } else {
        assert(r == t);
    }
}

proof fn lemma_apply_own_rows(b: SettingsView, v: SettingsView, rows: Seq<(Seq<char>, Seq<char>)>)
    requires
        forall|i: int| 0 <= i < rows.len() ==> settings_pairs(v).contains(#[trigger] rows[i]),
        forall|i: int, j: int| 0 <= i < j < rows.len() ==> (#[trigger] rows[i]).0 != (#[trigger] rows[j]).0,
    ensures
        apply_rows(b, rows) == set_fields(b, v, row_keys(rows)),
    decreases rows.len(),
{
    if rows.len() == 0 {
        assert(row_keys(rows) =~= Set::<Seq<char>>::empty());
        assert(set_fields(b, v, row_keys(rows)) == b);
    } else {
        let d = rows.drop_last();
        let l = rows.last();
        assert forall|i: int| 0 <= i < d.len() implies settings_pairs(v).contains(#[trigger] d[i]) by {
            assert(d[i] == rows[i]);
        }
        assert forall|i: int, j: int| 0 <= i < j < d.len() implies (#[trigger] d[i]).0 != (#[trigger] d[j]).0 by {
            assert(d[i] == rows[i] && d[j] == rows[j]);
        }
        lemma_apply_own_rows(b, v, d);
        assert(settings_pairs(v).contains(rows[rows.len() - 1]));
        let i = choose|i: int| 0 <= i < settings_pairs(v).len() && settings_pairs(v)[i] == l;
        assert(settings_pairs(v).len() == 16);
        assert(!row_keys(d).contains(l.0)) by {
            if row_keys(d).contains(l.0) {
                let j = choose|j: int| 0 <= j < d.len() && d[j].0 == l.0;
                assert(rows[j].0 != rows[rows.len() - 1].0);
            }
        }
        lemma_apply_own_row(b, v, row_keys(d), i);
        assert(row_keys(rows) =~= row_keys(d).insert(l.0)) by {
            assert forall|k: Seq<char>| row_keys(rows).contains(k) <==> row_keys(d).insert(l.0).contains(k) by {
                if row_keys(rows).contains(k) && k != l.0 {
                    let j = choose|j: int| 0 <= j < rows.len() && rows[j].0 == k;
                    assert(d[j] == rows[j]);
                }
                if row_keys(d).contains(k) {
                    let j = choose|j: int| 0 <= j < d.len() && d[j].0 == k;
                    assert(rows[j] == d[j]);
                }
                if k == l.0 {
                    assert(rows[rows.len() - 1].0 == k);
                }
            }
        }
        assert(rows =~= d.push(l));
    }
}

/// The store reads the settings rows back in no particular order: reading the
/// rows written for `v`, in any order, from whatever settings were read
/// before, gives `v`.
pub proof fn lemma_settings_any_order(before: SettingsView, v: SettingsView, rows: Seq<(Seq<char>, Seq<char>)>)
    requires
        forall|i: int| 0 <= i < rows.len() ==> settings_pairs(v).contains(#[trigger] rows[i]),
        forall|j: int| 0 <= j < settings_pairs(v).len() ==> rows.contains(#[trigger] settings_pairs(v)[j]),
        forall|i: int, j: int| 0 <= i < j < rows.len() ==> (#[trigger] rows[i]).0 != (#[trigger] rows[j]).0,
    ensures
        apply_rows(before, rows) == v,
{
    lemma_apply_own_rows(before, v, rows);
    let p = settings_pairs(v);
    let ks = row_keys(rows);
    assert forall|j: int| 0 <= j < 16 implies ks.contains(#[trigger] p[j].0) by {
        assert(rows.contains(p[j]));
        let i = choose|i: int| 0 <= i < rows.len() && rows[i] == p[j];
        assert(rows[i].0 == p[j].0);
    }
    assert(ks.contains(p[0].0));
    assert(ks.contains(p[1].0));
    assert(ks.contains(p[2].0));
    assert(ks.contains(p[3].0));
    assert(ks.contains(p[4].0));
    assert(ks.contains(p[5].0));
    assert(ks.contains(p[6].0));
    assert(ks.contains(p[7].0));
    assert(ks.contains(p[8].0));
    assert(ks.contains(p[9].0));
    assert(ks.contains(p[10].0));
    assert(ks.contains(p[11].0));
    assert(ks.contains(p[12].0));
    assert(ks.contains(p[13].0));
    assert(ks.contains(p[14].0));
    assert(ks.contains(p[15].0));
    assert(set_fields(before, v, ks) == v);
}

proof fn lemma_apply_rows_prefix(v: SettingsView, rows: Seq<(Seq<char>, Seq<char>)>, k: int)
    requires
        0 <= k < rows.len(),
    ensures
        apply_rows(v, rows.subrange(0, k + 1)) == apply_setting(
            apply_rows(v, rows.subrange(0, k)),
            rows[k].0,
            rows[k].1,
        ),
{
    assert(rows.subrange(0, k + 1).drop_last() =~= rows.subrange(0, k));
}


// ── recipes ──────────────────────────────────────────────────────────────────

/// The text of a hyphenated lowercase UUID: 36 characters, `-` at 8, 13, 18
/// and 23, lowercase hexadecimal digits elsewhere.
pub open spec fn uuid_text(s: Seq<char>) -> bool {
    &&& s.len() == 36
    &&& forall|i: int|
        0 <= i < 36 ==> if i == 8 || i == 13 || i == 18 || i == 23 {
            s[i] == '-'
        } else {
            ('0' <= #[trigger] s[i] && s[i] <= '9') || ('a' <= s[i] && s[i] <= 'f')
        }
}

/// Calls `uuid::Uuid::new_v4` and writes the id with `to_string`. Trusted: the
/// text is a hyphenated lowercase UUID (the crate's `Display`); its digits are
/// random and nothing more is claimed of them.
#[verifier::external_body]
fn new_recipe_id() -> (id: String)
    ensures
        uuid_text(id@),
{
    uuid::Uuid::new_v4().to_string()
}

pub open spec fn is_digit(c: char) -> bool {
    '0' <= c && c <= '9'
}

pub open spec fn all_digits(s: Seq<char>) -> bool {
    forall|i: int| 0 <= i < s.len() ==> is_digit(#[trigger] s[i])
}

/// The 15 characters after the year: `-MM-DDTHH:MM:SS`, digits standing for
/// the letters.
pub open spec fn date_time_shape(t: Seq<char>) -> bool {
    &&& t.len() == 15
    &&& forall|i: int|
        0 <= i < 15 ==> if i == 0 || i == 3 {
            #[trigger] t[i] == '-'
        } else if i == 6 {
            t[i] == 'T'
        } else if i == 9 || i == 12 {
            t[i] == ':'
        } else {
            is_digit(t[i])
        }
}

/// `s` split as a UTC time stamp with a year of `y` characters and a
/// fraction of `f` characters: the year (4 digits, or a sign and at least 4
/// digits), `-MM-DDTHH:MM:SS`, the fraction (nothing, or `.` and 3, 6 or 9
/// digits), then `+00:00`.
pub open spec fn utc_stamp_parts(s: Seq<char>, y: int, f: int) -> bool {
    &&& (f == 0 || f == 4 || f == 7 || f == 10)
    &&& s.len() == y + 15 + f + 6
    &&& ((y == 4 && all_digits(s.subrange(0, 4))) || (y >= 5 && (s[0] == '+' || s[0] == '-')
        && all_digits(s.subrange(1, y))))
    &&& date_time_shape(s.subrange(y, y + 15))
    &&& (f > 0 ==> s[y + 15] == '.' && all_digits(s.subrange(y + 16, y + 15 + f)))
    &&& s.subrange(y + 15 + f, s.len() as int) == "+00:00"@
}

/// An RFC 3339 time stamp in UTC, as chrono writes one.
pub open spec fn utc_stamp(s: Seq<char>) -> bool {
    exists|y: int, f: int| utc_stamp_parts(s, y, f)
}

/// Calls `chrono::Utc::now` and writes it with `to_rfc3339`. Trusted: the
/// text has the shape that `to_rfc3339` writes for a UTC time (the year, the
/// two-digit month, day, hour, minute and second, the fraction of a second
/// in 3, 6 or 9 digits when it is not zero, and the offset `+00:00`). Which
/// time it is depends on the clock, and the ranges of the fields (month 1 to
/// 12 and so on) are not stated.
#[verifier::external_body]
fn now_rfc3339() -> (t: String)
    ensures
        utc_stamp(t@),
{
    chrono::Utc::now().to_rfc3339()
}

pub open spec fn model_path_message() -> Seq<char> {
    "Model path is required"@
}

/// What checking a recipe's fields gives: the command against the forbidden
/// flags, then the field hygiene, then a model path that is not blank.
pub open spec fn recipe_check(
    name: Seq<char>,
    description: Seq<char>,
    command: Seq<char>,
    model_path: Seq<char>,
    mmproj_path: Seq<char>,
    gpu_info: Seq<char>,
    tags: Seq<char>,
) -> Result<(), Seq<char>> {
    match check_flags_result(command, deny_list(RecipeSource::Local)) {
        Err(e) => Err(e),
        Ok(()) => match fields_result(
            name,
            description,
            command,
            model_path,
            mmproj_path,
            gpu_info,
            tags,
        ) {
            Err(e) => Err(e),
            Ok(()) => if trim(model_path).len() == 0 {
                Err(model_path_message())
            } else {
                Ok(())
            },
        },
    }
}

pub open spec fn create_check(input: CreateRecipe) -> Result<(), Seq<char>> {
    recipe_check(
        input.name@,
        input.description@,
        input.command@,
        input.model_path@,
        input.mmproj_path@,
        input.gpu_info@,
        input.tags@,
    )
}

pub open spec fn update_check(input: UpdateRecipe) -> Result<(), Seq<char>> {
    recipe_check(
        input.name@,
        input.description@,
        input.command@,
        input.model_path@,
        input.mmproj_path@,
        input.gpu_info@,
        input.tags@,
    )
}

fn check_recipe(
    name: &String,
    description: &String,
    command: &String,
    model_path: &String,
    mmproj_path: &String,
    gpu_info: &String,
    tags: &String,
) -> (r: Result<(), String>)
    ensures
        result_view(r) == recipe_check(
            name@,
            description@,
            command@,
            model_path@,
            mmproj_path@,
            gpu_info@,
            tags@,
        ),
{
    validate_recipe_command(command.as_str())?;
    validate_recipe_fields(
        name.as_str(),
        description.as_str(),
        command.as_str(),
        model_path.as_str(),
        mmproj_path.as_str(),
        gpu_info.as_str(),
        tags.as_str(),
    )?;
    if trimmed(&chars_of(model_path.as_str())).len() == 0 {
        return Err(String::from_str("Model path is required"));
    }
    Ok(())
}

/// The recipe that creating `input` stores: refused as `create_check` says,
/// else the input's fields under a fresh id, created and updated now.
pub fn prepare_new_recipe(input: CreateRecipe) -> (r: Result<Recipe, String>)
    ensures
        match r {
            Ok(rec) => {
                &&& create_check(input) is Ok
                &&& rec.name@ == input.name@
                &&& rec.description@ == input.description@
                &&& rec.command@ == input.command@
                &&& rec.model_path@ == input.model_path@
                &&& rec.mmproj_path@ == input.mmproj_path@
                &&& rec.gpu_info@ == input.gpu_info@
                &&& rec.tags@ == input.tags@
                &&& uuid_text(rec.id@)
                &&& rec.created_at@ == rec.updated_at@
                &&& utc_stamp(rec.created_at@)
            },
            Err(e) => create_check(input) == Err::<(), Seq<char>>(e@),
        },
{
    check_recipe(
        &input.name,
        &input.description,
        &input.command,
        &input.model_path,
        &input.mmproj_path,
        &input.gpu_info,
        &input.tags,
    )?;
    let id = new_recipe_id();
    let now = now_rfc3339();
    Ok(
        Recipe {
            id,
            name: input.name,
            description: input.description,
            command: input.command,
            model_path: input.model_path,
            mmproj_path: input.mmproj_path,
            gpu_info: input.gpu_info,
            tags: input.tags,
            created_at: now.clone(),
            updated_at: now,
        },
    )
}

/// The time stamp that updating with `input` stores, once the new fields pass
/// `update_check`.
pub fn prepare_update(input: &UpdateRecipe) -> (r: Result<String, String>)
    ensures
        match r {
            Ok(t) => update_check(*input) is Ok && utc_stamp(t@),
            Err(e) => update_check(*input) == Err::<(), Seq<char>>(e@),
        },
{
    check_recipe(
        &input.name,
        &input.description,
        &input.command,
        &input.model_path,
        &input.mmproj_path,
        &input.gpu_info,
        &input.tags,
    )?;
    Ok(now_rfc3339())
}

pub open spec fn not_found_message() -> Seq<char> {
    "Recipe not found"@
}

/// An update or delete that touched no row refers to a recipe that is not
/// there.
pub fn rows_changed(rows: usize) -> (r: Result<(), String>)
    ensures
        r is Ok <==> rows > 0,
        r matches Err(e) ==> e@ == not_found_message(),
{
    if rows == 0 {
        Err(String::from_str("Recipe not found"))
    } else {
        Ok(())
    }
}

/// The new recipe that duplicating `recipe` creates: the same fields, its
/// name marked as a copy.
pub fn duplicate_input(recipe: Recipe) -> (c: CreateRecipe)
    ensures
        c.name@ == recipe.name@ + " (copy)"@,
        c.description@ == recipe.description@,
        c.command@ == recipe.command@,
        c.model_path@ == recipe.model_path@,
        c.mmproj_path@ == recipe.mmproj_path@,
        c.gpu_info@ == recipe.gpu_info@,
        c.tags@ == recipe.tags@,
{
    let mut name = recipe.name;
    name.append(" (copy)");
    CreateRecipe {
        name,
        description: recipe.description,
        command: recipe.command,
        model_path: recipe.model_path,
        mmproj_path: recipe.mmproj_path,
        gpu_info: recipe.gpu_info,
        tags: recipe.tags,
    }
}

// ── schema migrations ────────────────────────────────────────────────────────

/// A forward-only schema change, applied when the store's `user_version` is
/// below `version`.
pub struct Migration {
    pub version: i32,
    pub description: &'static str,
    pub sql: &'static str,
}

/// The schema that the first migration creates: the recipes and settings
/// tables.
pub const INITIAL_SCHEMA_SQL: &'static str = "CREATE TABLE IF NOT EXISTS recipes (
                id TEXT PRIMARY KEY,
                name TEXT NOT NULL,
                description TEXT NOT NULL DEFAULT '',
                command TEXT NOT NULL,
                model_path TEXT NOT NULL DEFAULT '',
                mmproj_path TEXT NOT NULL DEFAULT '',
                gpu_info TEXT NOT NULL DEFAULT '',
                tags TEXT NOT NULL DEFAULT '',
                created_at TEXT NOT NULL,
                updated_at TEXT NOT NULL
            );
            CREATE TABLE IF NOT EXISTS settings (
                key TEXT PRIMARY KEY,
                value TEXT NOT NULL
            );";

/// The second migration: metrics are on, whatever the store held before.
pub const METRICS_DEFAULT_SQL: &'static str = "INSERT INTO settings (key, value) VALUES ('metrics_enabled', 'true')
                  ON CONFLICT(key) DO UPDATE SET value = 'true';";

/// The migrations, in the order they are applied.
pub fn migrations() -> (m: Vec<Migration>)
    ensures
        m.len() == 2,
        m@[0].version == 1,
        m@[0].description@ == "initial schema"@,
        m@[0].sql@ == INITIAL_SCHEMA_SQL@,
        m@[1].version == 2,
        m@[1].description@ == "enable metrics by default"@,
        m@[1].sql@ == METRICS_DEFAULT_SQL@,
{
    vec![
        Migration {
            version: 1,
            description: "initial schema",
            sql: INITIAL_SCHEMA_SQL,
        },
        Migration {
            version: 2,
            description: "enable metrics by default",
            sql: METRICS_DEFAULT_SQL,
        },
    ]
}

/// The positions of the migrations of a version above `current`, in order.
pub open spec fn pending_spec(all: Seq<Migration>, current: i32) -> Seq<usize> {
    Seq::new(all.len() as nat, |i: int| i as usize).filter(above(all, current))
}

/// Is the migration at a position of a version above `current`?
pub open spec fn above(all: Seq<Migration>, current: i32) -> spec_fn(usize) -> bool {
    |i: usize| all[i as int].version > current
}

/// Each migration has a higher version than the one before it.
pub open spec fn versions_ascending(all: Seq<Migration>) -> bool {
    forall|i: int, j: int| 0 <= i < j < all.len() ==> all[i].version < all[j].version
}

/// The positions `k`, `k + 1`, ..., up to `n` (excluded).
pub open spec fn positions(k: nat, n: nat) -> Seq<usize> {
    Seq::new((n - k) as nat, |t: int| (k + t) as usize)
}

/// The first position at or after `i` of a version above `current`.
pub open spec fn first_above(all: Seq<Migration>, current: i32, i: nat) -> nat
    decreases all.len() - i,
{
    if i >= all.len() {
        all.len()
    } else if all[i as int].version > current {
        i
    } else {
        first_above(all, current, i + 1)
    }
}

proof fn lemma_first_above(all: Seq<Migration>, current: i32, i: nat)
    requires
        versions_ascending(all),
        i <= all.len(),
        forall|t: int| 0 <= t < i ==> all[t].version <= current,
    ensures
        first_above(all, current, i) <= all.len(),
        forall|t: int| 0 <= t < first_above(all, current, i) ==> all[t].version <= current,
        forall|t: int| first_above(all, current, i) <= t < all.len() ==> all[t].version > current,
    decreases all.len() - i,
{
    if i < all.len() && all[i as int].version <= current {
        lemma_first_above(all, current, i + 1);
    }
}

proof fn lemma_pending_positions(all: Seq<Migration>, current: i32, k: nat, n: nat)
    requires
        all.len() <= usize::MAX,
        k <= all.len(),
        n <= all.len(),
        forall|t: int| 0 <= t < k ==> all[t].version <= current,
        forall|t: int| k <= t < all.len() ==> all[t].version > current,
    ensures
        Seq::new(n, |i: int| i as usize).filter(above(all, current)) == positions(
            if k <= n { k } else { n },
            n,
        ),
    decreases n,
{
    let pred = above(all, current);
    if n == 0 {
        reveal(Seq::filter);
        assert(positions(0, 0) =~= Seq::<usize>::empty());
    } else {
        let m = (n - 1) as nat;
        lemma_pending_positions(all, current, k, m);
        let prev = Seq::new(m, |i: int| i as usize);
        assert(Seq::new(n, |i: int| i as usize) =~= prev.push(m as usize));
        prev.lemma_filter_push(m as usize, pred);
        if k <= m {
            assert(positions(k, n) =~= positions(k, m).push(m as usize));
        } else {
            assert(positions(n, n) =~= positions(m, m));
        }
    }
}

/// Migrations run once each, in order, and a run can be resumed: once the
/// pending migrations up to the `j`-th have run, each recording its version,
/// exactly those after it are pending. After the last one none is, so a
/// second run does nothing; after a failure of the next one, it and those
/// after it are still pending.
pub proof fn lemma_migrations_resume(all: Seq<Migration>, current: i32, j: int)
    requires
        all.len() <= usize::MAX,
        versions_ascending(all),
        0 <= j < pending_spec(all, current).len(),
    ensures
        pending_spec(all, all[pending_spec(all, current)[j] as int].version) == pending_spec(
            all,
            current,
        ).skip(j + 1),
{
    let k = first_above(all, current, 0);
    lemma_first_above(all, current, 0);
    let n = all.len();
    lemma_pending_positions(all, current, k, n);
    let p = pending_spec(all, current);
    assert(p == positions(k, n));
    let at = (k + j) as nat;
    assert(p[j] == at as usize);
    let after = all[at as int].version;
    let k2 = (at + 1) as nat;
    assert forall|t: int| k2 <= t < all.len() implies all[t].version > after by {}
    assert forall|t: int| 0 <= t < k2 implies all[t].version <= after by {
        if t < at {
        }
    }
    lemma_pending_positions(all, after, k2, n);
    assert(positions(k2, n) =~= p.skip(j + 1));
}

/// The migrations still to apply to a store at `current`: those of a higher
/// version, in order (as positions in `all`).
pub fn pending_migrations(all: &Vec<Migration>, current: i32) -> (p: Vec<usize>)
    ensures
        p@ == pending_spec(all@, current),
{
    let ghost idx = Seq::new(all.len() as nat, |i: int| i as usize);
    let ghost keep = above(all@, current);
    let mut p: Vec<usize> = Vec::new();
    let mut i: usize = 0;
    while i < all.len()
        invariant
            i <= all.len(),
            idx == Seq::new(all.len() as nat, |k: int| k as usize),
            keep == above(all@, current),
            p@ == idx.subrange(0, i as int).filter(keep),
        decreases all.len() - i,
    {
        reveal_with_fuel(Seq::<_>::filter, 1);
        assert(idx.subrange(0, i + 1).drop_last() =~= idx.subrange(0, i as int));
        if all[i].version > current {
            p.push(i);
        }
        i += 1;
    }
    assert(idx.subrange(0, i as int) =~= idx);
    p
}

} // verus!
