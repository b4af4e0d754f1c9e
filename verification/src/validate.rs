//! Validation rules shared by the recipe store and the server launcher.
//!
//! There are two flag deny-lists with different policies:
//!
//! * the forbidden flags are **always** rejected: they conflict with settings
//!   that the app manages (host, port, model, mmproj, log file, TLS, API key,
//!   HF token, timeouts, web UI / metrics / slots toggles, ...);
//! * the unsafe flags are powerful capabilities (shell tools, MCP proxy,
//!   alternate model loaders, LoRA, arbitrary file read/write) that a local
//!   user may want but that must be blocked for community-supplied recipes.
//!
//! Field-level hygiene (length caps, NUL / CR / LF) applies to every recipe.

use vstd::prelude::*;
use crate::shell::{shell_split, split_words, split_error_text, string_views};
use crate::text::{chars_of, decimal, decimal_exec, starts_with, string_of};
use vstd::utf8::encode_utf8;

verus! {

/// Origin of a recipe. Determines which flag policies are enforced.
#[derive(Clone, Copy, Debug)]
pub enum RecipeSource {
    /// Authored by the local user: only the forbidden flags are enforced.
    Local,
    /// Imported from an untrusted source: forbidden and unsafe flags are enforced.
    Community,
}

/// The always-blocked flags.
pub open spec fn forbidden_flag_list() -> Seq<Seq<char>> {
    seq![
        "--port"@, "-p"@, "--host"@,
        "-m"@, "--model"@, "--model-path"@, "--mmproj"@, "-mm"@, "--mmproj-url"@, "-mmu"@,
        "--log-file"@,
        "--api-key"@, "--api-key-file"@, "--ssl-cert-file"@, "--ssl-key-file"@, "--hf-token"@, "-hft"@,
        "--api-prefix"@, "--timeout"@, "-to"@, "--log-verbosity"@, "-lv"@, "--webui"@, "--no-webui"@,
        "--metrics"@, "--slots"@, "--no-slots"@,
    ]
}

/// The flags that only community recipes may not use.
pub open spec fn unsafe_flag_list() -> Seq<Seq<char>> {
    seq![
        "--tools"@, "--webui-mcp-proxy"@, "--no-webui-mcp-proxy"@,
        "--path"@,
        "-hf"@, "--hf-repo"@, "-hff"@, "--hf-file"@, "-hfd"@, "-hfrd"@, "--hf-repo-draft"@, "-hfv"@,
        "-hfrv"@, "--hf-repo-v"@, "-hffv"@, "--hf-file-v"@, "-mu"@, "--model-url"@, "-md"@,
        "--model-draft"@,
        "--lora"@, "--lora-scaled"@, "--lora-base"@,
        "--slot-save-path"@, "--media-path"@, "--models-dir"@, "--models-preset"@, "--models-max"@,
        "--models-autoload"@, "--no-models-autoload"@,
        "--webui-config"@, "--webui-config-file"@, "--grammar-file"@, "--json-schema-file"@, "-jf"@,
        "--chat-template-file"@,
    ]
}

/// The character sequences of a sequence of string slices.
pub open spec fn str_views(v: Seq<&str>) -> Seq<Seq<char>> {
    v.map_values(|s: &str| s@)
}

/// The always-blocked flags, in their documented order.
pub fn forbidden_flags() -> (r: Vec<&'static str>)
    ensures
        str_views(r@) == forbidden_flag_list(),
{
    let r = vec![
        "--port", "-p", "--host",
        "-m", "--model", "--model-path", "--mmproj", "-mm", "--mmproj-url", "-mmu",
        "--log-file",
        "--api-key", "--api-key-file", "--ssl-cert-file", "--ssl-key-file", "--hf-token", "-hft",
        "--api-prefix", "--timeout", "-to", "--log-verbosity", "-lv", "--webui", "--no-webui",
        "--metrics", "--slots", "--no-slots",
    ];
    assert(str_views(r@) =~= forbidden_flag_list());
    r
}

/// The flags blocked for community recipes on top of the forbidden ones.
pub fn unsafe_flags() -> (r: Vec<&'static str>)
    ensures
        str_views(r@) == unsafe_flag_list(),
{
    let r = vec![
        "--tools", "--webui-mcp-proxy", "--no-webui-mcp-proxy",
        "--path",
        "-hf", "--hf-repo", "-hff", "--hf-file", "-hfd", "-hfrd", "--hf-repo-draft", "-hfv",
        "-hfrv", "--hf-repo-v", "-hffv", "--hf-file-v", "-mu", "--model-url", "-md",
        "--model-draft",
        "--lora", "--lora-scaled", "--lora-base",
        "--slot-save-path", "--media-path", "--models-dir", "--models-preset", "--models-max",
        "--models-autoload", "--no-models-autoload",
        "--webui-config", "--webui-config-file", "--grammar-file", "--json-schema-file", "-jf",
        "--chat-template-file",
    ];
    assert(str_views(r@) =~= unsafe_flag_list());
    r
}

/// The flags denied to recipes of a source.
pub open spec fn deny_list(source: RecipeSource) -> Seq<Seq<char>> {
    match source {
        RecipeSource::Local => forbidden_flag_list(),
        RecipeSource::Community => forbidden_flag_list() + unsafe_flag_list(),
    }
}

// ── command flags ────────────────────────────────────────────────────────────

/// A (lowercased) token is the flag itself or the flag followed by `=`.
pub open spec fn flag_hit(token: Seq<char>, flag: Seq<char>) -> bool {
    token == flag || (flag + seq!['=']).is_prefix_of(token)
}

/// The first flag of `deny` that `token` hits.
pub open spec fn first_flag(token: Seq<char>, deny: Seq<Seq<char>>) -> Option<Seq<char>>
    decreases deny.len(),
{
    if deny.len() == 0 {
        None
    } else if flag_hit(token, deny[0]) {
        Some(deny[0])
    } else {
        first_flag(token, deny.drop_first())
    }
}

/// The flag reported for a list of lowercased tokens: the first one that the
/// first offending token hits.
pub open spec fn denied_flag(tokens: Seq<Seq<char>>, deny: Seq<Seq<char>>) -> Option<Seq<char>>
    decreases tokens.len(),
{
    if tokens.len() == 0 {
        None
    } else {
        match first_flag(tokens[0], deny) {
            Some(f) => Some(f),
            None => denied_flag(tokens.drop_first(), deny),
        }
    }
}

/// Name for what `str::to_lowercase` returns (full Unicode lowercase mapping).
pub uninterp spec fn to_lowercase(s: Seq<char>) -> Seq<char>;

/// Calls `str::to_lowercase`. Trusted: the result is what `to_lowercase` names.
#[verifier::external_body]
pub(crate) fn lowercase(s: &str) -> (r: String)
    ensures
        r@ == to_lowercase(s@),
{
    s.to_lowercase()
}

pub open spec fn lowercase_all(tokens: Seq<Seq<char>>) -> Seq<Seq<char>> {
    tokens.map_values(|t: Seq<char>| to_lowercase(t))
}

pub open spec fn nul_command_message() -> Seq<char> {
    "Recipe command contains a NUL byte"@
}

pub open spec fn syntax_message() -> Seq<char> {
    "Invalid command syntax: "@ + "missing closing quote"@
}

pub open spec fn flag_message(flag: Seq<char>) -> Seq<char> {
    "Recipe command must not contain '"@ + flag
        + "'. This flag is either managed by the app or has been blocked for safety reasons."@
}

/// What checking a command against a deny-list gives: a NUL byte is refused,
/// then a command that does not split, then the first denied flag.
pub open spec fn check_flags_result(command: Seq<char>, deny: Seq<Seq<char>>) -> Result<(), Seq<char>> {
    if command.contains('\0') {
        Err(nul_command_message())
    } else {
        match shell_split(command) {
            None => Err(syntax_message()),
            Some(tokens) => match denied_flag(lowercase_all(tokens), deny) {
                Some(f) => Err(flag_message(f)),
                None => Ok(()),
            },
        }
    }
}

/// The character view of a validation result.
pub open spec fn result_view(r: Result<(), String>) -> Result<(), Seq<char>> {
    match r {
        Ok(()) => Ok(()),
        Err(e) => Err(e@),
    }
}

/// Is `c` in `s`?
pub fn has_char(s: &Vec<char>, c: char) -> (b: bool)
    ensures
        b == s@.contains(c),
{
    let mut i: usize = 0;
    while i < s.len()
        invariant
            i <= s.len(),
            forall|j: int| 0 <= j < i ==> s@[j] != c,
        decreases s.len() - i,
    {
        if s[i] == c {
            return true;
        }
        i += 1;
    }
    false
}

/// Are two character vectors equal?
pub fn same_chars(a: &Vec<char>, b: &Vec<char>) -> (r: bool)
    ensures
        r == (a@ == b@),
{
    if a.len() != b.len() {
        return false;
    }
    let mut i: usize = 0;
    while i < a.len()
        invariant
            a.len() == b.len(),
            i <= a.len(),
            forall|j: int| 0 <= j < i ==> a@[j] == b@[j],
        decreases a.len() - i,
    {
        if a[i] != b[i] {
            return false;
        }
        i += 1;
    }
    assert(a@ =~= b@);
    true
}

/// The first flag of `deny` that `token` hits, as an index.
fn first_flag_index(token: &Vec<char>, deny: &Vec<&'static str>) -> (r: Option<usize>)
    ensures
        match r {
            Some(j) => j < deny.len() && first_flag(token@, str_views(deny@)) == Some(deny@[j as int]@),
            None => first_flag(token@, str_views(deny@)) is None,
        },
{
    let ghost d = str_views(deny@);
    assert(d.skip(0) =~= d);
    let mut j: usize = 0;
    while j < deny.len()
        invariant
            j <= deny.len(),
            d == str_views(deny@),
            first_flag(token@, d) == first_flag(token@, d.skip(j as int)),
        decreases deny.len() - j,
    {
        let flag = chars_of(deny[j]);
        let mut with_eq = chars_of(deny[j]);
        with_eq.push('=');
        assert(with_eq@ =~= flag@ + seq!['=']);
        let ghost rest = d.skip(j as int);
        assert(rest[0] == flag@);
        assert(rest.drop_first() =~= d.skip(j + 1));
        if same_chars(token, &flag) || starts_with(token, &with_eq) {
            return Some(j);
        }
        j += 1;
    }
    None
}

/// The words lowercased, each by `str::to_lowercase`.
pub fn lowercase_words(words: &Vec<String>) -> (r: Vec<String>)
    ensures
        string_views(r@) == lowercase_all(string_views(words@)),
{
    let mut r: Vec<String> = Vec::new();
    let mut i: usize = 0;
    while i < words.len()
        invariant
            i <= words.len(),
            string_views(r@) == lowercase_all(string_views(words@)).take(i as int),
        decreases words.len() - i,
    {
        let ghost before = string_views(r@);
        r.push(lowercase(words[i].as_str()));
        assert(string_views(r@) =~= lowercase_all(string_views(words@)).take(i + 1)) by {
            assert(string_views(r@) =~= before.push(to_lowercase(words@[i as int]@)));
            assert(string_views(words@)[i as int] == words@[i as int]@);
        }
        i += 1;
    }
    assert(lowercase_all(string_views(words@)).take(i as int) =~= lowercase_all(string_views(words@)));
    r
}

/// The flag of `deny` that the (lowercased) words are refused for: the first
/// one that the first offending word hits, as itself or followed by `=`.
pub fn denied_flag_in(lowered: &Vec<String>, deny: &Vec<&'static str>) -> (r: Option<&'static str>)
    ensures
        match r {
            Some(f) => denied_flag(string_views(lowered@), str_views(deny@)) == Some(f@),
            None => denied_flag(string_views(lowered@), str_views(deny@)) is None,
        },
{
    let ghost ws = string_views(lowered@);
    let ghost d = str_views(deny@);
    assert(ws.skip(0) =~= ws);
    let mut i: usize = 0;
    while i < lowered.len()
        invariant
            i <= lowered.len(),
            ws == string_views(lowered@),
            d == str_views(deny@),
            denied_flag(ws, d) == denied_flag(ws.skip(i as int), d),
        decreases lowered.len() - i,
    {
        let word = chars_of(lowered[i].as_str());
        let ghost rest = ws.skip(i as int);
        assert(rest[0] == word@);
        assert(rest.drop_first() =~= ws.skip(i + 1));
        match first_flag_index(&word, deny) {
            Some(j) => {
                return Some(deny[j]);
            },
            None => {},
        }
        i += 1;
    }
    None
}

/// Tokenise the command and ensure that none of the denied flags appears.
fn check_flags(command: &str, deny: &Vec<&'static str>) -> (r: Result<(), String>)
    ensures
        result_view(r) == check_flags_result(command@, str_views(deny@)),
{
    let cs = chars_of(command);
    if has_char(&cs, '\0') {
        return Err(String::from_str("Recipe command contains a NUL byte"));
    }
    let tokens = match split_words(command) {
        Ok(t) => t,
        Err(e) => {
            let mut msg = String::from_str("Invalid command syntax: ");
            let detail = split_error_text(&e);
            msg.append(detail.as_str());
            return Err(msg);
        },
    };
    let lowered = lowercase_words(&tokens);
    match denied_flag_in(&lowered, deny) {
        Some(flag) => {
            let mut msg = String::from_str("Recipe command must not contain '");
            msg.append(flag);
            msg.append(
                "'. This flag is either managed by the app or has been blocked for safety reasons.",
            );
            Err(msg)
        },
        None => Ok(()),
    }
}

/// Validate a recipe command against the forbidden flags only (the policy for
/// locally-authored recipes).
pub fn validate_recipe_command(command: &str) -> (r: Result<(), String>)
    ensures
        result_view(r) == check_flags_result(command@, deny_list(RecipeSource::Local)),
{
    validate_recipe_command_for_source(command, RecipeSource::Local)
}

/// Validate a recipe command according to its source policy: `Local` enforces
/// the forbidden flags, `Community` the forbidden and the unsafe flags.
pub fn validate_recipe_command_for_source(command: &str, source: RecipeSource) -> (r: Result<
    (),
    String,
>)
    ensures
        result_view(r) == check_flags_result(command@, deny_list(source)),
{
    match source {
        RecipeSource::Local => check_flags(command, &forbidden_flags()),
        RecipeSource::Community => {
            let mut deny = forbidden_flags();
            let mut more = unsafe_flags();
            let ghost a = deny@;
            let ghost b = more@;
            deny.append(&mut more);
            assert(str_views(deny@) =~= str_views(a) + str_views(b));
            check_flags(command, &deny)
        },
    }
}


// ── laws of the flag policy ──────────────────────────────────────────────────

proof fn lemma_first_flag_none(token: Seq<char>, deny: Seq<Seq<char>>)
    ensures
        first_flag(token, deny) is None <==> forall|j: int| 0 <= j < deny.len() ==> !flag_hit(token, #[trigger] deny[j]),
    decreases deny.len(),
{
    if deny.len() > 0 {
        lemma_first_flag_none(token, deny.drop_first());
        if !flag_hit(token, deny[0]) {
            assert forall|j: int| 0 <= j < deny.len() && !flag_hit(token, deny[0]) && (forall|k: int| 0 <= k < deny.drop_first().len() ==> !flag_hit(token, #[trigger] deny.drop_first()[k])) implies !flag_hit(token, #[trigger] deny[j]) by {
                if j > 0 {
                    assert(deny[j] == deny.drop_first()[j - 1]);
                }
            }
            assert((forall|j: int| 0 <= j < deny.len() ==> !flag_hit(token, #[trigger] deny[j])) ==> (forall|k: int| 0 <= k < deny.drop_first().len() ==> !flag_hit(token, #[trigger] deny.drop_first()[k]))) by {
                if forall|j: int| 0 <= j < deny.len() ==> !flag_hit(token, #[trigger] deny[j]) {
                    assert forall|k: int| 0 <= k < deny.drop_first().len() implies !flag_hit(token, #[trigger] deny.drop_first()[k]) by {
                        assert(deny.drop_first()[k] == deny[k + 1]);
                    }
                }
            }
        }
    }
}

proof fn lemma_denied_flag_none(tokens: Seq<Seq<char>>, deny: Seq<Seq<char>>)
    ensures
        denied_flag(tokens, deny) is None <==> forall|i: int, j: int|
            0 <= i < tokens.len() && 0 <= j < deny.len() ==> !flag_hit(#[trigger] tokens[i], #[trigger] deny[j]),
    decreases tokens.len(),
{
    if tokens.len() > 0 {
        lemma_denied_flag_none(tokens.drop_first(), deny);
        lemma_first_flag_none(tokens[0], deny);
        if denied_flag(tokens, deny) is None {
            assert forall|i: int, j: int| 0 <= i < tokens.len() && 0 <= j < deny.len() implies !flag_hit(#[trigger] tokens[i], #[trigger] deny[j]) by {
                if i > 0 {
                    assert(tokens[i] == tokens.drop_first()[i - 1]);
                }
            }
        } else {
            if forall|i: int, j: int| 0 <= i < tokens.len() && 0 <= j < deny.len() ==> !flag_hit(#[trigger] tokens[i], #[trigger] deny[j]) {
                assert forall|i: int, j: int| 0 <= i < tokens.drop_first().len() && 0 <= j < deny.len() implies !flag_hit(#[trigger] tokens.drop_first()[i], #[trigger] deny[j]) by {
                    assert(tokens.drop_first()[i] == tokens[i + 1]);
                }
                assert forall|j: int| 0 <= j < deny.len() implies !flag_hit(tokens[0], #[trigger] deny[j]) by {
                    assert(!flag_hit(tokens[0], deny[j]));
                }
            }
        }
    }
}

/// A command accepted under a policy splits into words, none of which (once
/// lowercased) is a denied flag or starts with a denied flag and `=`.
pub proof fn lemma_accepted_has_no_denied_flag(command: Seq<char>, source: RecipeSource)
    requires
        check_flags_result(command, deny_list(source)) is Ok,
    ensures
        !command.contains('\0'),
        shell_split(command) is Some,
        forall|i: int, j: int|
            0 <= i < shell_split(command)->0.len() && 0 <= j < deny_list(source).len() ==> !flag_hit(
                #[trigger] to_lowercase(shell_split(command)->0[i]),
                #[trigger] deny_list(source)[j],
            ),
{
    let tokens = shell_split(command)->0;
    let lowers = lowercase_all(tokens);
    lemma_denied_flag_none(lowers, deny_list(source));
    assert forall|i: int, j: int|
        0 <= i < tokens.len() && 0 <= j < deny_list(source).len() implies !flag_hit(
        #[trigger] to_lowercase(tokens[i]),
        #[trigger] deny_list(source)[j],
    ) by {
        assert(lowers[i] == to_lowercase(tokens[i]));
    }
}

/// A command in which some word, once lowercased, is a forbidden flag (or starts
/// with a forbidden flag and `=`) is refused whatever the recipe's source.
pub proof fn lemma_forbidden_flag_always_refused(command: Seq<char>, source: RecipeSource, i: int, j: int)
    requires
        shell_split(command) is Some,
        0 <= i < shell_split(command)->0.len(),
        0 <= j < forbidden_flag_list().len(),
        flag_hit(to_lowercase(shell_split(command)->0[i]), forbidden_flag_list()[j]),
    ensures
        check_flags_result(command, deny_list(source)) is Err,
{
    if check_flags_result(command, deny_list(source)) is Ok {
        lemma_accepted_has_no_denied_flag(command, source);
        assert(deny_list(source)[j] == forbidden_flag_list()[j]);
    }
}

/// The community policy is at least as strict as the local one: whatever a
/// local recipe may not contain, a community recipe may not contain either.
pub proof fn lemma_community_stricter(command: Seq<char>)
    requires
        check_flags_result(command, deny_list(RecipeSource::Community)) is Ok,
    ensures
        check_flags_result(command, deny_list(RecipeSource::Local)) is Ok,
{
    lemma_accepted_has_no_denied_flag(command, RecipeSource::Community);
    let tokens = shell_split(command)->0;
    let lowers = lowercase_all(tokens);
    let f = forbidden_flag_list();
    let all = deny_list(RecipeSource::Community);
    assert forall|i: int, j: int| 0 <= i < lowers.len() && 0 <= j < f.len() implies !flag_hit(#[trigger] lowers[i], #[trigger] f[j]) by {
        assert(all[j] == f[j]);
        assert(lowers[i] == to_lowercase(tokens[i]));
    }
    lemma_denied_flag_none(lowers, f);
}

/// The flags that settings of the app manage (host, port, model, mmproj, log
/// file, API key, TLS, HF token, API prefix, timeout, log verbosity, web UI,
/// metrics and slots), as documented for the forbidden list.
pub open spec fn app_managed_flag(f: Seq<char>) -> bool {
    ||| f == "--port"@
    ||| f == "-p"@
    ||| f == "--host"@
    ||| f == "-m"@
    ||| f == "--model"@
    ||| f == "--model-path"@
    ||| f == "--mmproj"@
    ||| f == "-mm"@
    ||| f == "--mmproj-url"@
    ||| f == "-mmu"@
    ||| f == "--log-file"@
    ||| f == "--api-key"@
    ||| f == "--api-key-file"@
    ||| f == "--ssl-cert-file"@
    ||| f == "--ssl-key-file"@
    ||| f == "--hf-token"@
    ||| f == "-hft"@
    ||| f == "--api-prefix"@
    ||| f == "--timeout"@
    ||| f == "-to"@
    ||| f == "--log-verbosity"@
    ||| f == "-lv"@
    ||| f == "--webui"@
    ||| f == "--no-webui"@
    ||| f == "--metrics"@
    ||| f == "--slots"@
    ||| f == "--no-slots"@
}

/// The powerful flags documented as blocked for community recipes: shell
/// tools, the MCP proxy, alternate model sources and loaders, LoRA, and
/// flags that read or write arbitrary files.
pub open spec fn documented_unsafe_flag(f: Seq<char>) -> bool {
    ||| f == "--tools"@
    ||| f == "--webui-mcp-proxy"@
    ||| f == "--no-webui-mcp-proxy"@
    ||| f == "--path"@
    ||| f == "-hf"@
    ||| f == "--hf-repo"@
    ||| f == "-hff"@
    ||| f == "--hf-file"@
    ||| f == "-hfd"@
    ||| f == "-hfrd"@
    ||| f == "--hf-repo-draft"@
    ||| f == "-hfv"@
    ||| f == "-hfrv"@
    ||| f == "--hf-repo-v"@
    ||| f == "-hffv"@
    ||| f == "--hf-file-v"@
    ||| f == "-mu"@
    ||| f == "--model-url"@
    ||| f == "-md"@
    ||| f == "--model-draft"@
    ||| f == "--lora"@
    ||| f == "--lora-scaled"@
    ||| f == "--lora-base"@
    ||| f == "--slot-save-path"@
    ||| f == "--media-path"@
    ||| f == "--models-dir"@
    ||| f == "--models-preset"@
    ||| f == "--models-max"@
    ||| f == "--models-autoload"@
    ||| f == "--no-models-autoload"@
    ||| f == "--webui-config"@
    ||| f == "--webui-config-file"@
    ||| f == "--grammar-file"@
    ||| f == "--json-schema-file"@
    ||| f == "-jf"@
    ||| f == "--chat-template-file"@
}

proof fn lemma_managed_is_forbidden(f: Seq<char>)
    requires
        app_managed_flag(f),
    ensures
        exists|j: int| 0 <= j < forbidden_flag_list().len() && forbidden_flag_list()[j] == f,
{
    if f == "--port"@ {
        assert(forbidden_flag_list()[0] == f);
    } else if f == "-p"@ {
        assert(forbidden_flag_list()[1] == f);
    } else if f == "--host"@ {
        assert(forbidden_flag_list()[2] == f);
    } else if f == "-m"@ {
        assert(forbidden_flag_list()[3] == f);
    } else if f == "--model"@ {
        assert(forbidden_flag_list()[4] == f);
    } else if f == "--model-path"@ {
        assert(forbidden_flag_list()[5] == f);
    } else if f == "--mmproj"@ {
        assert(forbidden_flag_list()[6] == f);
    } else if f == "-mm"@ {
        assert(forbidden_flag_list()[7] == f);
    } else if f == "--mmproj-url"@ {
        assert(forbidden_flag_list()[8] == f);
    } else if f == "-mmu"@ {
        assert(forbidden_flag_list()[9] == f);
    } else if f == "--log-file"@ {
        assert(forbidden_flag_list()[10] == f);
    } else if f == "--api-key"@ {
        assert(forbidden_flag_list()[11] == f);
    } else if f == "--api-key-file"@ {
        assert(forbidden_flag_list()[12] == f);
    } else if f == "--ssl-cert-file"@ {
        assert(forbidden_flag_list()[13] == f);
    } else if f == "--ssl-key-file"@ {
        assert(forbidden_flag_list()[14] == f);
    } else if f == "--hf-token"@ {
        assert(forbidden_flag_list()[15] == f);
    } else if f == "-hft"@ {
        assert(forbidden_flag_list()[16] == f);
    } else if f == "--api-prefix"@ {
        assert(forbidden_flag_list()[17] == f);
    } else if f == "--timeout"@ {
        assert(forbidden_flag_list()[18] == f);
    } else if f == "-to"@ {
        assert(forbidden_flag_list()[19] == f);
    } else if f == "--log-verbosity"@ {
        assert(forbidden_flag_list()[20] == f);
    } else if f == "-lv"@ {
        assert(forbidden_flag_list()[21] == f);
    } else if f == "--webui"@ {
        assert(forbidden_flag_list()[22] == f);
    } else if f == "--no-webui"@ {
        assert(forbidden_flag_list()[23] == f);
    } else if f == "--metrics"@ {
        assert(forbidden_flag_list()[24] == f);
    } else if f == "--slots"@ {
        assert(forbidden_flag_list()[25] == f);
    } else if f == "--no-slots"@ {
        assert(forbidden_flag_list()[26] == f);
    }
}

proof fn lemma_documented_is_unsafe(f: Seq<char>)
    requires
        documented_unsafe_flag(f),
    ensures
        exists|j: int| 0 <= j < unsafe_flag_list().len() && unsafe_flag_list()[j] == f,
{
    if f == "--tools"@ {
        assert(unsafe_flag_list()[0] == f);
    } else if f == "--webui-mcp-proxy"@ {
        assert(unsafe_flag_list()[1] == f);
    } else if f == "--no-webui-mcp-proxy"@ {
        assert(unsafe_flag_list()[2] == f);
    } else if f == "--path"@ {
        assert(unsafe_flag_list()[3] == f);
    } else if f == "-hf"@ {
        assert(unsafe_flag_list()[4] == f);
    } else if f == "--hf-repo"@ {
        assert(unsafe_flag_list()[5] == f);
    } else if f == "-hff"@ {
        assert(unsafe_flag_list()[6] == f);
    } else if f == "--hf-file"@ {
        assert(unsafe_flag_list()[7] == f);
    } else if f == "-hfd"@ {
        assert(unsafe_flag_list()[8] == f);
    } else if f == "-hfrd"@ {
        assert(unsafe_flag_list()[9] == f);
    } else if f == "--hf-repo-draft"@ {
        assert(unsafe_flag_list()[10] == f);
    } else if f == "-hfv"@ {
        assert(unsafe_flag_list()[11] == f);
    } else if f == "-hfrv"@ {
        assert(unsafe_flag_list()[12] == f);
    } else if f == "--hf-repo-v"@ {
        assert(unsafe_flag_list()[13] == f);
    } else if f == "-hffv"@ {
        assert(unsafe_flag_list()[14] == f);
    } else if f == "--hf-file-v"@ {
        assert(unsafe_flag_list()[15] == f);
    } else if f == "-mu"@ {
        assert(unsafe_flag_list()[16] == f);
    } else if f == "--model-url"@ {
        assert(unsafe_flag_list()[17] == f);
    } else if f == "-md"@ {
        assert(unsafe_flag_list()[18] == f);
    } else if f == "--model-draft"@ {
        assert(unsafe_flag_list()[19] == f);
    } else if f == "--lora"@ {
        assert(unsafe_flag_list()[20] == f);
    } else if f == "--lora-scaled"@ {
        assert(unsafe_flag_list()[21] == f);
    } else if f == "--lora-base"@ {
        assert(unsafe_flag_list()[22] == f);
    } else if f == "--slot-save-path"@ {
        assert(unsafe_flag_list()[23] == f);
    } else if f == "--media-path"@ {
        assert(unsafe_flag_list()[24] == f);
    } else if f == "--models-dir"@ {
        assert(unsafe_flag_list()[25] == f);
    } else if f == "--models-preset"@ {
        assert(unsafe_flag_list()[26] == f);
    } else if f == "--models-max"@ {
        assert(unsafe_flag_list()[27] == f);
    } else if f == "--models-autoload"@ {
        assert(unsafe_flag_list()[28] == f);
    } else if f == "--no-models-autoload"@ {
        assert(unsafe_flag_list()[29] == f);
    } else if f == "--webui-config"@ {
        assert(unsafe_flag_list()[30] == f);
    } else if f == "--webui-config-file"@ {
        assert(unsafe_flag_list()[31] == f);
    } else if f == "--grammar-file"@ {
        assert(unsafe_flag_list()[32] == f);
    } else if f == "--json-schema-file"@ {
        assert(unsafe_flag_list()[33] == f);
    } else if f == "-jf"@ {
        assert(unsafe_flag_list()[34] == f);
    } else if f == "--chat-template-file"@ {
        assert(unsafe_flag_list()[35] == f);
    }
}

/// A command with a word that, once lowercased, is a flag the app manages
/// (or such a flag followed by `=` and a value) is refused, for local and
/// community recipes alike: a recipe cannot override the model, host, port
/// or any other managed setting.
pub proof fn lemma_managed_flags_refused(command: Seq<char>, source: RecipeSource, i: int, f: Seq<char>)
    requires
        shell_split(command) is Some,
        0 <= i < shell_split(command)->0.len(),
        app_managed_flag(f),
        flag_hit(to_lowercase(shell_split(command)->0[i]), f),
    ensures
        check_flags_result(command, deny_list(source)) is Err,
{
    lemma_managed_is_forbidden(f);
    let j = choose|j: int| 0 <= j < forbidden_flag_list().len() && forbidden_flag_list()[j] == f;
    lemma_forbidden_flag_always_refused(command, source, i, j);
}

/// A community recipe with a word that, once lowercased, is one of the
/// documented unsafe flags (or such a flag with `=` and a value) is refused.
pub proof fn lemma_unsafe_flags_refused_for_community(command: Seq<char>, i: int, f: Seq<char>)
    requires
        shell_split(command) is Some,
        0 <= i < shell_split(command)->0.len(),
        documented_unsafe_flag(f),
        flag_hit(to_lowercase(shell_split(command)->0[i]), f),
    ensures
        check_flags_result(command, deny_list(RecipeSource::Community)) is Err,
{
    lemma_documented_is_unsafe(f);
    let j = choose|j: int| 0 <= j < unsafe_flag_list().len() && unsafe_flag_list()[j] == f;
    let all = deny_list(RecipeSource::Community);
    let k = forbidden_flag_list().len() + j;
    assert(all[k] == f);
    if check_flags_result(command, all) is Ok {
        lemma_accepted_has_no_denied_flag(command, RecipeSource::Community);
        assert(!flag_hit(to_lowercase(shell_split(command)->0[i]), all[k]));
    }
}

// ── field-level hygiene ──────────────────────────────────────────────────────

/// Maximum lengths, in bytes, of the free-form recipe fields. Generous: they
/// only cap pathological inputs.
pub const MAX_NAME_LEN: usize = 200;

pub const MAX_DESCRIPTION_LEN: usize = 4096;

pub const MAX_COMMAND_LEN: usize = 8192;

pub const MAX_PATH_LEN: usize = 4096;

pub const MAX_GPU_INFO_LEN: usize = 200;

pub const MAX_TAGS_LEN: usize = 500;

#[derive(Clone, Copy)]
enum FieldKind {
    /// Single-line text: rejects NUL, CR, LF.
    SingleLine,
    /// Multi-line text: rejects NUL only.
    MultiLine,
    /// Filesystem path: rejects NUL, CR, LF.
    Path,
}

/// Length in bytes of the UTF-8 encoding of `s`, as `str::len` gives it.
pub open spec fn utf8_len(s: Seq<char>) -> nat {
    (encode_utf8(s).len() as usize) as nat
}

/// What checking one field gives: too long, then NUL, then (unless
/// newlines are allowed) CR or LF.
pub open spec fn field_error(name: Seq<char>, value: Seq<char>, max: nat, multi_line: bool) -> Option<
    Seq<char>,
> {
    if utf8_len(value) > max {
        Some(
            name + " is too long ("@ + decimal(utf8_len(value)) + " bytes, max "@ + decimal(max)
                + ")"@,
        )
    } else if value.contains('\0') {
        Some(name + " contains a NUL byte"@)
    } else if !multi_line && (value.contains('\n') || value.contains('\r')) {
        Some(name + " must not contain newline characters"@)
    } else {
        None
    }
}

/// The first error of a chain of checks.
pub open spec fn and_then_check(prev: Result<(), Seq<char>>, next: Option<Seq<char>>) -> Result<
    (),
    Seq<char>,
> {
    match prev {
        Err(e) => Err(e),
        Ok(()) => match next {
            Some(e) => Err(e),
            None => Ok(()),
        },
    }
}

/// What checking every recipe field gives: the first failing field, in order.
pub open spec fn fields_result(
    name: Seq<char>,
    description: Seq<char>,
    command: Seq<char>,
    model_path: Seq<char>,
    mmproj_path: Seq<char>,
    gpu_info: Seq<char>,
    tags: Seq<char>,
) -> Result<(), Seq<char>> {
    let r = and_then_check(Ok(()), field_error("Name"@, name, MAX_NAME_LEN as nat, false));
    let r = and_then_check(
        r,
        field_error("Description"@, description, MAX_DESCRIPTION_LEN as nat, true),
    );
    let r = and_then_check(r, field_error("Command"@, command, MAX_COMMAND_LEN as nat, true));
    let r = and_then_check(r, field_error("Model path"@, model_path, MAX_PATH_LEN as nat, false));
    let r = and_then_check(r, field_error("Mmproj path"@, mmproj_path, MAX_PATH_LEN as nat, false));
    let r = and_then_check(r, field_error("GPU info"@, gpu_info, MAX_GPU_INFO_LEN as nat, false));
    and_then_check(r, field_error("Tags"@, tags, MAX_TAGS_LEN as nat, false))
}

fn check_field(name: &str, value: &str, max_len: usize, kind: FieldKind) -> (r: Result<(), String>)
    ensures
        result_view(r) == and_then_check(
            Ok(()),
            field_error(name@, value@, max_len as nat, kind is MultiLine),
        ),
{
    let n = value.len();
    if n > max_len {
        let mut msg = String::from_str(name);
        msg.append(" is too long (");
        let nd = string_of(decimal_exec(n as u64).as_slice());
        msg.append(nd.as_str());
        msg.append(" bytes, max ");
        let md = string_of(decimal_exec(max_len as u64).as_slice());
        msg.append(md.as_str());
        msg.append(")");
        assert(msg@ =~= name@ + " is too long ("@ + decimal(n as nat) + " bytes, max "@ + decimal(
            max_len as nat,
        ) + ")"@);
        return Err(msg);
    }
    let cs = chars_of(value);
    if has_char(&cs, '\0') {
        let mut msg = String::from_str(name);
        msg.append(" contains a NUL byte");
        assert(msg@ =~= name@ + " contains a NUL byte"@);
        return Err(msg);
    }
    match kind {
        FieldKind::SingleLine | FieldKind::Path => {
            if has_char(&cs, '\n') || has_char(&cs, '\r') {
                let mut msg = String::from_str(name);
                msg.append(" must not contain newline characters");
                assert(msg@ =~= name@ + " must not contain newline characters"@);
                return Err(msg);
            }
        },
        FieldKind::MultiLine => {},
    }
    Ok(())
}

/// Apply length and charset checks to every recipe field, whatever the
/// recipe's source.
pub fn validate_recipe_fields(
    name: &str,
    description: &str,
    command: &str,
    model_path: &str,
    mmproj_path: &str,
    gpu_info: &str,
    tags: &str,
) -> (r: Result<(), String>)
    ensures
        result_view(r) == fields_result(
            name@,
            description@,
            command@,
            model_path@,
            mmproj_path@,
            gpu_info@,
            tags@,
        ),
{
    check_field("Name", name, MAX_NAME_LEN, FieldKind::SingleLine)?;
    check_field("Description", description, MAX_DESCRIPTION_LEN, FieldKind::MultiLine)?;
    check_field("Command", command, MAX_COMMAND_LEN, FieldKind::MultiLine)?;
    check_field("Model path", model_path, MAX_PATH_LEN, FieldKind::Path)?;
    check_field("Mmproj path", mmproj_path, MAX_PATH_LEN, FieldKind::Path)?;
    check_field("GPU info", gpu_info, MAX_GPU_INFO_LEN, FieldKind::SingleLine)?;
    check_field("Tags", tags, MAX_TAGS_LEN, FieldKind::SingleLine)?;
    Ok(())
}

/// A single-line field passes: at most `max` bytes, no NUL, CR or LF.
pub open spec fn single_line_ok(v: Seq<char>, max: nat) -> bool {
    utf8_len(v) <= max && !v.contains('\0') && !v.contains('\n') && !v.contains('\r')
}

/// A multi-line field passes: at most `max` bytes and no NUL; line breaks
/// are allowed.
pub open spec fn multi_line_ok(v: Seq<char>, max: nat) -> bool {
    utf8_len(v) <= max && !v.contains('\0')
}

/// The recipe fields pass exactly when each does: the name (200 bytes), GPU
/// info (200) and tags (500) on one line, the description (4096) and the
/// command (8192) on any number of lines, the model and mmproj paths (4096
/// each) on one line; none holds a NUL.
pub proof fn lemma_fields_pass_exactly(
    name: Seq<char>,
    description: Seq<char>,
    command: Seq<char>,
    model_path: Seq<char>,
    mmproj_path: Seq<char>,
    gpu_info: Seq<char>,
    tags: Seq<char>,
)
    ensures
        fields_result(name, description, command, model_path, mmproj_path, gpu_info, tags) is Ok
            <==> {
            &&& single_line_ok(name, 200)
            &&& multi_line_ok(description, 4096)
            &&& multi_line_ok(command, 8192)
            &&& single_line_ok(model_path, 4096)
            &&& single_line_ok(mmproj_path, 4096)
            &&& single_line_ok(gpu_info, 200)
            &&& single_line_ok(tags, 500)
        },
{
}

} // verus!
