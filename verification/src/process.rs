//! The `llama-server` launcher: the command line it runs, the state of the one
//! server it may run at a time, and the log it keeps of the server's output.

use vstd::prelude::*;
use crate::db::{Settings, SettingsView};
use crate::shell::{shell_split, split_error_text, split_words, string_views};
use crate::text::{chars_of, decimal, decimal_exec, string_of};
use crate::validate::same_chars;

verus! {

/// Whether a server is running, for the status event and query.
#[derive(Debug, Clone)]
pub struct ServerStatus {
    pub recipe_id: String,
    pub running: bool,
    pub pid: Option<u32>,
}

/// One line of the server's output.
#[derive(Debug, Clone)]
pub struct LogLine {
    pub recipe_id: String,
    pub line: String,
    pub is_stderr: bool,
}

/// Reported exactly once per server run, when the child process exits.
#[derive(Debug, Clone)]
pub struct ServerExit {
    pub recipe_id: String,
    /// Numeric exit code; `None` if the process was killed by a signal.
    pub code: Option<i32>,
    /// Unix signal number, when applicable.
    pub signal: Option<i32>,
    /// `true` if the server was stopped on request, `false` if it exited on
    /// its own (crash, OOM kill, bad flag, ...).
    pub intentional: bool,
}

// ── home directory ───────────────────────────────────────────────────────────

/// `~/...` with the home directory in place of `~`, when one is known.
pub open spec fn expand_tilde_spec(path: Seq<char>, home: Option<Seq<char>>) -> Seq<char> {
    match home {
        Some(h) => if "~/"@.is_prefix_of(path) {
            h + path.skip(1)
        } else {
            path
        },
        None => path,
    }
}

pub open spec fn opt_str_view(h: Option<&str>) -> Option<Seq<char>> {
    match h {
        Some(s) => Some(s@),
        None => None,
    }
}

/// A path starting with `~/` has the home directory (when known) put in
/// place of the `~`, keeping the `/` and the rest; any other path, or any
/// path when the home directory is unknown, is left as it is.
pub proof fn lemma_tilde_expansion(path: Seq<char>, home: Option<Seq<char>>)
    ensures
        path.len() >= 2 && path[0] == '~' && path[1] == '/' && home is Some ==> expand_tilde_spec(
            path,
            home,
        ) == home->0 + seq!['/'] + path.skip(2),
        !(path.len() >= 2 && path[0] == '~' && path[1] == '/') ==> expand_tilde_spec(path, home) == path,
        home is None ==> expand_tilde_spec(path, home) == path,
{
    reveal_strlit("~/");
    if path.len() >= 2 && path[0] == '~' && path[1] == '/' {
        assert("~/"@.is_prefix_of(path));
        assert(path.skip(1) =~= seq!['/'] + path.skip(2));
        if home is Some {
            assert(home->0 + path.skip(1) =~= home->0 + seq!['/'] + path.skip(2));
        }
    } else if "~/"@.is_prefix_of(path) {
        assert(path[0] == "~/"@[0] && path[1] == "~/"@[1]);
    }
}

/// Replace a leading `~/` by the home directory (`$HOME`, else
/// `$USERPROFILE`, as the caller found it).
pub fn expand_tilde(path: &str, home: Option<&str>) -> (r: String)
    ensures
        r@ == expand_tilde_spec(path@, opt_str_view(home)),
{
    let p = chars_of(path);
    match home {
        Some(h) => {
            proof {
                reveal_strlit("~/");
            }
            if crate::text::starts_with(&p, &chars_of("~/")) {
                let mut out = String::from_str(h);
                let rest = crate::text::slice_of(&p, 1, p.len());
                assert(rest@ =~= path@.skip(1));
                let rs = string_of(rest.as_slice());
                out.append(rs.as_str());
                out
            } else {
                String::from_str(path)
            }
        },
        None => String::from_str(path),
    }
}


// ── the command line ─────────────────────────────────────────────────────────

/// A recipe's first word that names the server binary itself.
pub open spec fn is_server_program(t: Seq<char>) -> bool {
    t == "llama-server"@ || "/llama-server"@.is_suffix_of(t)
}

/// The recipe's words, without a leading server binary name.
pub open spec fn recipe_args(tokens: Seq<Seq<char>>) -> Seq<Seq<char>> {
    if tokens.len() > 0 && is_server_program(tokens[0]) {
        tokens.drop_first()
    } else {
        tokens
    }
}

pub open spec fn expand_all(args: Seq<Seq<char>>, home: Option<Seq<char>>) -> Seq<Seq<char>> {
    args.map_values(|a: Seq<char>| expand_tilde_spec(a, home))
}

/// An optional pair of arguments.
pub open spec fn arg_pair(on: bool, flag: Seq<char>, value: Seq<char>) -> Seq<Seq<char>> {
    if on {
        seq![flag, value]
    } else {
        Seq::<Seq<char>>::empty()
    }
}

/// An optional single argument.
pub open spec fn arg_flag(on: bool, flag: Seq<char>) -> Seq<Seq<char>> {
    if on {
        seq![flag]
    } else {
        Seq::<Seq<char>>::empty()
    }
}

/// Host, port, API key and TLS files.
pub open spec fn network_args(s: SettingsView, home: Option<Seq<char>>) -> Seq<Seq<char>> {
    seq!["--host"@, s.host, "--port"@, decimal(s.port as nat)] + arg_pair(
        s.api_key.len() > 0,
        "--api-key"@,
        s.api_key,
    ) + ssl_args(s, home)
}

/// The behaviour flags that differ from the server's own defaults.
pub open spec fn behaviour_args(s: SettingsView) -> Seq<Seq<char>> {
    arg_flag(!s.webui_enabled, "--no-webui"@) + arg_flag(s.metrics_enabled, "--metrics"@)
        + arg_flag(!s.slots_enabled, "--no-slots"@) + arg_pair(
        s.api_prefix.len() > 0,
        "--api-prefix"@,
        s.api_prefix,
    ) + arg_pair(s.timeout_secs != 600, "--timeout"@, decimal(s.timeout_secs as nat)) + arg_pair(
        s.log_verbosity != 3,
        "--log-verbosity"@,
        decimal(s.log_verbosity as nat),
    )
}

/// The arguments that the app's settings add after the model: host and port
/// always, then security and behaviour flags that differ from the server's
/// own defaults.
pub open spec fn settings_args(s: SettingsView, home: Option<Seq<char>>) -> Seq<Seq<char>> {
    network_args(s, home) + behaviour_args(s)
}

/// The arguments of a launch command (none for a refused one).
pub open spec fn launch_args(r: Result<(Seq<char>, Seq<Seq<char>>), Seq<char>>) -> Seq<Seq<char>> {
    match r {
        Ok((_, a)) => a,
        Err(_) => Seq::empty(),
    }
}

proof fn lemma_behaviour_timeout(s: SettingsView)
    ensures
        s.timeout_secs != 600 ==> exists|i: int|
            0 <= i && i + 1 < behaviour_args(s).len() && #[trigger] behaviour_args(s)[i] == "--timeout"@
                && behaviour_args(s)[i + 1] == decimal(s.timeout_secs as nat),
        behaviour_args(s).len() == behaviour_args(SettingsView { timeout_secs: 600, ..s }).len() + (if s.timeout_secs
            != 600 {
            2int
        } else {
            0int
        }),
{
    let s0 = SettingsView { timeout_secs: 600, ..s };
    let head = arg_flag(!s.webui_enabled, "--no-webui"@) + arg_flag(s.metrics_enabled, "--metrics"@)
        + arg_flag(!s.slots_enabled, "--no-slots"@) + arg_pair(
        s.api_prefix.len() > 0,
        "--api-prefix"@,
        s.api_prefix,
    );
    let mid = arg_pair(s.timeout_secs != 600, "--timeout"@, decimal(s.timeout_secs as nat));
    let tail = arg_pair(s.log_verbosity != 3, "--log-verbosity"@, decimal(s.log_verbosity as nat));
    assert(behaviour_args(s) == head + mid + tail);
    assert(behaviour_args(s0) == head + tail);
    if s.timeout_secs != 600 {
        let i = head.len() as int;
        assert((head + mid + tail)[i] == mid[0]);
        assert((head + mid + tail)[i + 1] == mid[1]);
    }
}

/// `f` followed by `v` somewhere in `x`.
pub open spec fn has_pair(x: Seq<Seq<char>>, f: Seq<char>, v: Seq<char>) -> bool {
    exists|i: int| 0 <= i && i + 1 < x.len() && #[trigger] x[i] == f && x[i + 1] == v
}

proof fn lemma_pair_left(a: Seq<Seq<char>>, b: Seq<Seq<char>>, f: Seq<char>, v: Seq<char>)
    requires
        has_pair(a, f, v),
    ensures
        has_pair(a + b, f, v),
{
    let i = choose|i: int| 0 <= i && i + 1 < a.len() && #[trigger] a[i] == f && a[i + 1] == v;
    assert((a + b)[i] == a[i] && (a + b)[i + 1] == a[i + 1]);
}

proof fn lemma_pair_right(a: Seq<Seq<char>>, b: Seq<Seq<char>>, f: Seq<char>, v: Seq<char>)
    requires
        has_pair(b, f, v),
    ensures
        has_pair(a + b, f, v),
{
    let i = choose|i: int| 0 <= i && i + 1 < b.len() && #[trigger] b[i] == f && b[i + 1] == v;
    assert((a + b)[a.len() + i] == b[i] && (a + b)[a.len() + i + 1] == b[i + 1]);
}

proof fn lemma_flag_left(a: Seq<Seq<char>>, b: Seq<Seq<char>>, f: Seq<char>)
    requires
        a.contains(f),
    ensures
        (a + b).contains(f),
{
    let i = choose|i: int| 0 <= i < a.len() && a[i] == f;
    assert((a + b)[i] == f);
}

proof fn lemma_flag_right(a: Seq<Seq<char>>, b: Seq<Seq<char>>, f: Seq<char>)
    requires
        b.contains(f),
    ensures
        (a + b).contains(f),
{
    let i = choose|i: int| 0 <= i < b.len() && b[i] == f;
    assert((a + b)[a.len() + i] == f);
}

proof fn lemma_pair_own(f: Seq<char>, v: Seq<char>)
    ensures
        has_pair(seq![f, v], f, v),
{
    assert(seq![f, v][0] == f && seq![f, v][1] == v);
}

pub open spec fn count_if(b: bool, n: int) -> int {
    if b {
        n
    } else {
        0
    }
}

proof fn lemma_network_reach(s: SettingsView, home: Option<Seq<char>>)
    ensures
        has_pair(network_args(s, home), "--host"@, s.host),
        has_pair(network_args(s, home), "--port"@, decimal(s.port as nat)),
        s.api_key.len() > 0 ==> has_pair(network_args(s, home), "--api-key"@, s.api_key),
        s.ssl_cert_file.len() > 0 && s.ssl_key_file.len() > 0 ==> has_pair(
            network_args(s, home),
            "--ssl-cert-file"@,
            expand_tilde_spec(s.ssl_cert_file, home),
        ) && has_pair(network_args(s, home), "--ssl-key-file"@, expand_tilde_spec(s.ssl_key_file, home)),
        network_args(s, home).len() == 4 + count_if(s.api_key.len() > 0, 2) + count_if(
            s.ssl_cert_file.len() > 0 && s.ssl_key_file.len() > 0,
            4,
        ),
{
    let hh = seq!["--host"@, s.host];
    let pp = seq!["--port"@, decimal(s.port as nat)];
    let hp = seq!["--host"@, s.host, "--port"@, decimal(s.port as nat)];
    let k = arg_pair(s.api_key.len() > 0, "--api-key"@, s.api_key);
    let t = ssl_args(s, home);
    assert(hp =~= hh + pp);
    assert(network_args(s, home) == hp + k + t);
    lemma_pair_own("--host"@, s.host);
    lemma_pair_left(hh, pp, "--host"@, s.host);
    lemma_pair_left(hp, k, "--host"@, s.host);
    lemma_pair_left(hp + k, t, "--host"@, s.host);
    lemma_pair_own("--port"@, decimal(s.port as nat));
    lemma_pair_right(hh, pp, "--port"@, decimal(s.port as nat));
    lemma_pair_left(hp, k, "--port"@, decimal(s.port as nat));
    lemma_pair_left(hp + k, t, "--port"@, decimal(s.port as nat));
    if s.api_key.len() > 0 {
        lemma_pair_own("--api-key"@, s.api_key);
        lemma_pair_right(hp, k, "--api-key"@, s.api_key);
        lemma_pair_left(hp + k, t, "--api-key"@, s.api_key);
    }
    if s.ssl_cert_file.len() > 0 && s.ssl_key_file.len() > 0 {
        let c = expand_tilde_spec(s.ssl_cert_file, home);
        let kf = expand_tilde_spec(s.ssl_key_file, home);
        let cc = seq!["--ssl-cert-file"@, c];
        let kk = seq!["--ssl-key-file"@, kf];
        assert(t =~= cc + kk);
        lemma_pair_own("--ssl-cert-file"@, c);
        lemma_pair_left(cc, kk, "--ssl-cert-file"@, c);
        lemma_pair_right(hp + k, t, "--ssl-cert-file"@, c);
        lemma_pair_own("--ssl-key-file"@, kf);
        lemma_pair_right(cc, kk, "--ssl-key-file"@, kf);
        lemma_pair_right(hp + k, t, "--ssl-key-file"@, kf);
    }
}

proof fn lemma_behaviour_flags(s: SettingsView)
    ensures
        !s.webui_enabled ==> behaviour_args(s).contains("--no-webui"@),
        s.metrics_enabled ==> behaviour_args(s).contains("--metrics"@),
        !s.slots_enabled ==> behaviour_args(s).contains("--no-slots"@),
{
    let w = arg_flag(!s.webui_enabled, "--no-webui"@);
    let m = arg_flag(s.metrics_enabled, "--metrics"@);
    let sl = arg_flag(!s.slots_enabled, "--no-slots"@);
    let pr = arg_pair(s.api_prefix.len() > 0, "--api-prefix"@, s.api_prefix);
    let to = arg_pair(s.timeout_secs != 600, "--timeout"@, decimal(s.timeout_secs as nat));
    let lv = arg_pair(s.log_verbosity != 3, "--log-verbosity"@, decimal(s.log_verbosity as nat));
    let r = pr + to + lv;
    assert(behaviour_args(s) =~= w + m + sl + r);
    if !s.webui_enabled {
        assert(w[0] == "--no-webui"@);
        lemma_flag_left(w, m, "--no-webui"@);
        lemma_flag_left(w + m, sl, "--no-webui"@);
        lemma_flag_left(w + m + sl, r, "--no-webui"@);
    }
    if s.metrics_enabled {
        assert(m[0] == "--metrics"@);
        lemma_flag_right(w, m, "--metrics"@);
        lemma_flag_left(w + m, sl, "--metrics"@);
        lemma_flag_left(w + m + sl, r, "--metrics"@);
    }
    if !s.slots_enabled {
        assert(sl[0] == "--no-slots"@);
        lemma_flag_right(w + m, sl, "--no-slots"@);
        lemma_flag_left(w + m + sl, r, "--no-slots"@);
    }
}

proof fn lemma_behaviour_pairs(s: SettingsView)
    ensures
        s.api_prefix.len() > 0 ==> has_pair(behaviour_args(s), "--api-prefix"@, s.api_prefix),
        s.timeout_secs != 600 ==> has_pair(behaviour_args(s), "--timeout"@, decimal(s.timeout_secs as nat)),
        s.log_verbosity != 3 ==> has_pair(
            behaviour_args(s),
            "--log-verbosity"@,
            decimal(s.log_verbosity as nat),
        ),
        behaviour_args(s).len() == count_if(!s.webui_enabled, 1) + count_if(s.metrics_enabled, 1)
            + count_if(!s.slots_enabled, 1) + count_if(s.api_prefix.len() > 0, 2) + count_if(
            s.timeout_secs != 600,
            2,
        ) + count_if(s.log_verbosity != 3, 2),
{
    let f = arg_flag(!s.webui_enabled, "--no-webui"@) + arg_flag(s.metrics_enabled, "--metrics"@)
        + arg_flag(!s.slots_enabled, "--no-slots"@);
    let pr = arg_pair(s.api_prefix.len() > 0, "--api-prefix"@, s.api_prefix);
    let to = arg_pair(s.timeout_secs != 600, "--timeout"@, decimal(s.timeout_secs as nat));
    let lv = arg_pair(s.log_verbosity != 3, "--log-verbosity"@, decimal(s.log_verbosity as nat));
    assert(behaviour_args(s) == f + pr + to + lv);
    if s.api_prefix.len() > 0 {
        lemma_pair_own("--api-prefix"@, s.api_prefix);
        lemma_pair_right(f, pr, "--api-prefix"@, s.api_prefix);
        lemma_pair_left(f + pr, to, "--api-prefix"@, s.api_prefix);
        lemma_pair_left(f + pr + to, lv, "--api-prefix"@, s.api_prefix);
    }
    if s.timeout_secs != 600 {
        let d = decimal(s.timeout_secs as nat);
        lemma_pair_own("--timeout"@, d);
        lemma_pair_right(f + pr, to, "--timeout"@, d);
        lemma_pair_left(f + pr + to, lv, "--timeout"@, d);
    }
    if s.log_verbosity != 3 {
        let d = decimal(s.log_verbosity as nat);
        lemma_pair_own("--log-verbosity"@, d);
        lemma_pair_right(f + pr + to, lv, "--log-verbosity"@, d);
    }
}

/// What the settings add to a launch: `--host` and `--port` always; the API
/// key when one is set; both TLS files when both are set (with `~/`
/// expanded); `--no-webui` when the web UI is off, `--metrics` when metrics
/// are on, `--no-slots` when slots are off; the API prefix when one is set;
/// the timeout when it is not 600 s and the log verbosity when it is not 3.
/// Nothing else: the count of arguments is exactly that of these.
pub proof fn lemma_settings_reach_server(s: SettingsView, home: Option<Seq<char>>)
    ensures
        has_pair(settings_args(s, home), "--host"@, s.host),
        has_pair(settings_args(s, home), "--port"@, decimal(s.port as nat)),
        s.api_key.len() > 0 ==> has_pair(settings_args(s, home), "--api-key"@, s.api_key),
        s.ssl_cert_file.len() > 0 && s.ssl_key_file.len() > 0 ==> has_pair(
            settings_args(s, home),
            "--ssl-cert-file"@,
            expand_tilde_spec(s.ssl_cert_file, home),
        ) && has_pair(settings_args(s, home), "--ssl-key-file"@, expand_tilde_spec(s.ssl_key_file, home)),
        !s.webui_enabled ==> settings_args(s, home).contains("--no-webui"@),
        s.metrics_enabled ==> settings_args(s, home).contains("--metrics"@),
        !s.slots_enabled ==> settings_args(s, home).contains("--no-slots"@),
        s.api_prefix.len() > 0 ==> has_pair(settings_args(s, home), "--api-prefix"@, s.api_prefix),
        s.timeout_secs != 600 ==> has_pair(
            settings_args(s, home),
            "--timeout"@,
            decimal(s.timeout_secs as nat),
        ),
        s.log_verbosity != 3 ==> has_pair(
            settings_args(s, home),
            "--log-verbosity"@,
            decimal(s.log_verbosity as nat),
        ),
        settings_args(s, home).len() == 4 + count_if(s.api_key.len() > 0, 2) + count_if(
            s.ssl_cert_file.len() > 0 && s.ssl_key_file.len() > 0,
            4,
        ) + count_if(!s.webui_enabled, 1) + count_if(s.metrics_enabled, 1) + count_if(
            !s.slots_enabled,
            1,
        ) + count_if(s.api_prefix.len() > 0, 2) + count_if(s.timeout_secs != 600, 2) + count_if(
            s.log_verbosity != 3,
            2,
        ),
{
    let n = network_args(s, home);
    let b = behaviour_args(s);
    lemma_network_reach(s, home);
    lemma_behaviour_flags(s);
    lemma_behaviour_pairs(s);
    lemma_pair_left(n, b, "--host"@, s.host);
    lemma_pair_left(n, b, "--port"@, decimal(s.port as nat));
    if s.api_key.len() > 0 {
        lemma_pair_left(n, b, "--api-key"@, s.api_key);
    }
    if s.ssl_cert_file.len() > 0 && s.ssl_key_file.len() > 0 {
        lemma_pair_left(n, b, "--ssl-cert-file"@, expand_tilde_spec(s.ssl_cert_file, home));
        lemma_pair_left(n, b, "--ssl-key-file"@, expand_tilde_spec(s.ssl_key_file, home));
    }
    if !s.webui_enabled {
        lemma_flag_right(n, b, "--no-webui"@);
    }
    if s.metrics_enabled {
        lemma_flag_right(n, b, "--metrics"@);
    }
    if !s.slots_enabled {
        lemma_flag_right(n, b, "--no-slots"@);
    }
    if s.api_prefix.len() > 0 {
        lemma_pair_right(n, b, "--api-prefix"@, s.api_prefix);
    }
    if s.timeout_secs != 600 {
        lemma_pair_right(n, b, "--timeout"@, decimal(s.timeout_secs as nat));
    }
    if s.log_verbosity != 3 {
        lemma_pair_right(n, b, "--log-verbosity"@, decimal(s.log_verbosity as nat));
    }
}

/// A launch ends with what the settings add (see `lemma_settings_reach_server`).
pub proof fn lemma_launch_ends_with_settings(
    command: Seq<char>,
    model: Result<Seq<char>, Seq<char>>,
    mmproj_path: Seq<char>,
    mmproj: Result<Seq<char>, Seq<char>>,
    s: SettingsView,
    home: Option<Seq<char>>,
)
    requires
        command_line(command, model, mmproj_path, mmproj, s, home) is Ok,
    ensures
        settings_args(s, home).is_suffix_of(
            launch_args(command_line(command, model, mmproj_path, mmproj, s, home)),
        ),
{
    let args = launch_args(command_line(command, model, mmproj_path, mmproj, s, home));
    let sa = settings_args(s, home);
    assert(args.subrange(args.len() - sa.len(), args.len() as int) =~= sa);
}

/// A launch is built exactly when the command line splits, the model path
/// resolved and (when an mmproj path is given) the mmproj path resolved; it
/// then passes the resolved model with `-m`, and the resolved mmproj with
/// `--mmproj` when an mmproj path is given (none otherwise).
pub proof fn lemma_model_reaches_server(
    command: Seq<char>,
    model: Result<Seq<char>, Seq<char>>,
    mmproj_path: Seq<char>,
    mmproj: Result<Seq<char>, Seq<char>>,
    s: SettingsView,
    home: Option<Seq<char>>,
)
    ensures
        command_line(command, model, mmproj_path, mmproj, s, home) is Ok <==> shell_split(command) is Some
            && model is Ok && (mmproj_path.len() == 0 || mmproj is Ok),
        command_line(command, model, mmproj_path, mmproj, s, home) is Ok ==> {
            let args = launch_args(command_line(command, model, mmproj_path, mmproj, s, home));
            &&& has_pair(args, "-m"@, model->Ok_0)
            &&& mmproj_path.len() > 0 ==> has_pair(args, "--mmproj"@, mmproj->Ok_0)
            &&& command_line(command, model, mmproj_path, mmproj, s, home)->Ok_0.0 == expand_tilde_spec(
                s.llama_server_path,
                home,
            )
        },
{
    if command_line(command, model, mmproj_path, mmproj, s, home) is Ok {
        let tokens = shell_split(command)->0;
        let m = model->Ok_0;
        let words = expand_all(recipe_args(tokens), home);
        let mm = seq!["-m"@, m];
        let sa = settings_args(s, home);
        lemma_pair_own("-m"@, m);
        lemma_pair_right(words, mm, "-m"@, m);
        if mmproj_path.len() > 0 {
            let p = seq!["--mmproj"@, mmproj->Ok_0];
            lemma_pair_left(words + mm, p, "-m"@, m);
            lemma_pair_left(words + mm + p, sa, "-m"@, m);
            lemma_pair_own("--mmproj"@, mmproj->Ok_0);
            lemma_pair_right(words + mm, p, "--mmproj"@, mmproj->Ok_0);
            lemma_pair_left(words + mm + p, sa, "--mmproj"@, mmproj->Ok_0);
        } else {
            lemma_pair_left(words + mm, sa, "-m"@, m);
        }
    }
}

/// A fresh installation launches the server on 127.0.0.1, port 8080, with
/// metrics on and nothing else from the settings: the web UI and slots stay
/// on, and there is no API key, TLS, API prefix, timeout or log verbosity
/// flag (the server's own defaults apply).
pub proof fn lemma_default_launch(home: Option<Seq<char>>)
    ensures
        settings_args(crate::db::default_settings(), home) == seq![
            "--host"@,
            "127.0.0.1"@,
            "--port"@,
            "8080"@,
            "--metrics"@,
        ],
{
    reveal_strlit("8080");
    reveal_with_fuel(decimal, 5);
    crate::text::lemma_digit_char(8);
    crate::text::lemma_digit_char(0);
    assert(decimal(8080) =~= "8080"@);
    let s = crate::db::default_settings();
    assert(network_args(s, home) =~= seq!["--host"@, "127.0.0.1"@, "--port"@, "8080"@]);
    assert(behaviour_args(s) =~= seq!["--metrics"@]);
}

/// The configured request timeout reaches the server whenever it differs
/// from the server's own default of 600 s: the launch arguments then hold
/// `--timeout` followed by the number of seconds (1200 gives `--timeout
/// 1200`). The settings add these two arguments exactly then: with the
/// timeout at 600 s the same launch has two arguments fewer.
pub proof fn lemma_timeout_reaches_server(
    command: Seq<char>,
    model: Result<Seq<char>, Seq<char>>,
    mmproj_path: Seq<char>,
    mmproj: Result<Seq<char>, Seq<char>>,
    s: SettingsView,
    home: Option<Seq<char>>,
)
    requires
        command_line(command, model, mmproj_path, mmproj, s, home) is Ok,
    ensures
        ({
            let args = launch_args(command_line(command, model, mmproj_path, mmproj, s, home));
            let args600 = launch_args(command_line(
                command,
                model,
                mmproj_path,
                mmproj,
                SettingsView { timeout_secs: 600, ..s },
                home,
            ));
            &&& s.timeout_secs != 600 ==> exists|i: int|
                0 <= i && i + 1 < args.len() && #[trigger] args[i] == "--timeout"@ && args[i + 1] == decimal(
                    s.timeout_secs as nat,
                )
            &&& args.len() == args600.len() + (if s.timeout_secs != 600 {
                2int
            } else {
                0int
            })
        }),
{
    let s0 = SettingsView { timeout_secs: 600, ..s };
    lemma_behaviour_timeout(s);
    let tokens = shell_split(command)->0;
    let m = model->Ok_0;
    let base = expand_all(recipe_args(tokens), home) + seq!["-m"@, m];
    let pre = if mmproj_path.len() > 0 {
        base + seq!["--mmproj"@, mmproj->Ok_0]
    } else {
        base
    };
    let b = behaviour_args(s);
    let x = pre + network_args(s, home);
    assert(network_args(s0, home) == network_args(s, home));
    let args = launch_args(command_line(command, model, mmproj_path, mmproj, s, home));
    assert(args == x + b);
    assert(launch_args(command_line(command, model, mmproj_path, mmproj, s0, home)) == x + behaviour_args(s0));
    if s.timeout_secs != 600 {
        let i = choose|i: int|
            0 <= i && i + 1 < b.len() && #[trigger] b[i] == "--timeout"@ && b[i + 1] == decimal(s.timeout_secs as nat);
        assert(args[x.len() + i] == b[i]);
        assert(args[x.len() + i + 1] == b[i + 1]);
    }
}

pub open spec fn str_result_view(r: Result<String, String>) -> Result<Seq<char>, Seq<char>> {
    match r {
        Ok(v) => Ok(v@),
        Err(e) => Err(e@),
    }
}

/// The program and arguments that launch a recipe of the given words: the
/// words (without a leading server name, `~` expanded), then the model (and
/// mmproj, when the recipe names one), then the settings' arguments. A model
/// path, then an mmproj path that did not resolve, is refused with that
/// error.
pub open spec fn command_from_words(
    tokens: Seq<Seq<char>>,
    model: Result<Seq<char>, Seq<char>>,
    mmproj_path: Seq<char>,
    mmproj: Result<Seq<char>, Seq<char>>,
    s: SettingsView,
    home: Option<Seq<char>>,
) -> Result<(Seq<char>, Seq<Seq<char>>), Seq<char>> {
    match model {
        Err(e) => Err(e),
        Ok(m) => {
            let program = expand_tilde_spec(s.llama_server_path, home);
            let base = expand_all(recipe_args(tokens), home) + seq!["-m"@, m];
            if mmproj_path.len() > 0 {
                match mmproj {
                    Err(e) => Err(e),
                    Ok(mm) => Ok((program, base + seq!["--mmproj"@, mm] + settings_args(s, home))),
                }
            } else {
                Ok((program, base + settings_args(s, home)))
            }
        },
    }
}

/// The launch command of a recipe's command line: refused when the line does
/// not split into words, else as `command_from_words` says.
pub open spec fn command_line(
    command: Seq<char>,
    model: Result<Seq<char>, Seq<char>>,
    mmproj_path: Seq<char>,
    mmproj: Result<Seq<char>, Seq<char>>,
    s: SettingsView,
    home: Option<Seq<char>>,
) -> Result<(Seq<char>, Seq<Seq<char>>), Seq<char>> {
    match shell_split(command) {
        None => Err("Invalid command: "@ + "missing closing quote"@),
        Some(tokens) => command_from_words(tokens, model, mmproj_path, mmproj, s, home),
    }
}

pub open spec fn command_view(r: Result<(String, Vec<String>), String>) -> Result<
    (Seq<char>, Seq<Seq<char>>),
    Seq<char>,
> {
    match r {
        Ok((p, a)) => Ok((p@, string_views(a@))),
        Err(e) => Err(e@),
    }
}

fn push_arg(args: &mut Vec<String>, a: String)
    ensures
        string_views(final(args)@) == string_views(old(args)@).push(a@),
{
    args.push(a);
    assert(string_views(args@) =~= string_views(old(args)@).push(a@));
}

fn push_pair(args: &mut Vec<String>, flag: &str, value: String)
    ensures
        string_views(final(args)@) == string_views(old(args)@) + seq![flag@, value@],
{
    push_arg(args, String::from_str(flag));
    push_arg(args, value);
    assert(string_views(args@) =~= string_views(old(args)@) + seq![flag@, value@]);
}

fn push_flag(args: &mut Vec<String>, flag: &str)
    ensures
        string_views(final(args)@) == string_views(old(args)@) + seq![flag@],
{
    push_arg(args, String::from_str(flag));
    assert(string_views(args@) =~= string_views(old(args)@) + seq![flag@]);
}

pub open spec fn ssl_args(s: SettingsView, home: Option<Seq<char>>) -> Seq<Seq<char>> {
    if s.ssl_cert_file.len() > 0 && s.ssl_key_file.len() > 0 {
        seq![
            "--ssl-cert-file"@,
            expand_tilde_spec(s.ssl_cert_file, home),
            "--ssl-key-file"@,
            expand_tilde_spec(s.ssl_key_file, home),
        ]
    } else {
        Seq::<Seq<char>>::empty()
    }
}

fn append_network_args(args: &mut Vec<String>, settings: &Settings, home: Option<&str>)
    ensures
        string_views(final(args)@) == string_views(old(args)@) + network_args(
            settings@,
            opt_str_view(home),
        ),
{
    let ghost start = string_views(args@);
    push_pair(args, "--host", settings.host.clone());
    push_pair(args, "--port", string_of(decimal_exec(settings.port as u64).as_slice()));
    let ghost a1 = string_views(args@);
    assert(a1 =~= start + seq!["--host"@, settings@.host, "--port"@, decimal(settings@.port as nat)]);
    if !settings.api_key.as_str().is_empty() {
        push_pair(args, "--api-key", settings.api_key.clone());
    }
    let ghost a2 = string_views(args@);
    assert(a2 =~= a1 + arg_pair(settings@.api_key.len() > 0, "--api-key"@, settings@.api_key));
    if !settings.ssl_cert_file.as_str().is_empty() && !settings.ssl_key_file.as_str().is_empty() {
        push_pair(args, "--ssl-cert-file", expand_tilde(settings.ssl_cert_file.as_str(), home));
        push_pair(args, "--ssl-key-file", expand_tilde(settings.ssl_key_file.as_str(), home));
    }
    assert(string_views(args@) =~= a2 + ssl_args(settings@, opt_str_view(home)));
    assert(string_views(args@) =~= start + network_args(settings@, opt_str_view(home)));
}

fn push_flag_if(args: &mut Vec<String>, on: bool, flag: &str)
    ensures
        string_views(final(args)@) == string_views(old(args)@) + arg_flag(on, flag@),
{
    if on {
        push_flag(args, flag);
    } else {
        assert(string_views(args@) =~= string_views(args@) + arg_flag(on, flag@));
    }
}

fn push_pair_if(args: &mut Vec<String>, on: bool, flag: &str, value: String)
    ensures
        string_views(final(args)@) == string_views(old(args)@) + arg_pair(on, flag@, value@),
{
    if on {
        push_pair(args, flag, value);
    } else {
        assert(string_views(args@) =~= string_views(args@) + arg_pair(on, flag@, value@));
    }
}

fn append_behaviour_args(args: &mut Vec<String>, settings: &Settings)
    ensures
        string_views(final(args)@) == string_views(old(args)@) + behaviour_args(settings@),
{
    let ghost s = settings@;
    let ghost a0 = string_views(args@);
    let ghost f1 = arg_flag(!s.webui_enabled, "--no-webui"@);
    let ghost f2 = arg_flag(s.metrics_enabled, "--metrics"@);
    let ghost f3 = arg_flag(!s.slots_enabled, "--no-slots"@);
    let ghost f4 = arg_pair(s.api_prefix.len() > 0, "--api-prefix"@, s.api_prefix);
    let ghost f5 = arg_pair(s.timeout_secs != 600, "--timeout"@, decimal(s.timeout_secs as nat));
    let ghost f6 = arg_pair(s.log_verbosity != 3, "--log-verbosity"@, decimal(s.log_verbosity as nat));
    push_flag_if(args, !settings.webui_enabled, "--no-webui");
    push_flag_if(args, settings.metrics_enabled, "--metrics");
    push_flag_if(args, !settings.slots_enabled, "--no-slots");
    push_pair_if(
        args,
        !settings.api_prefix.as_str().is_empty(),
        "--api-prefix",
        settings.api_prefix.clone(),
    );
    push_pair_if(
        args,
        settings.timeout_secs != 600,
        "--timeout",
        string_of(decimal_exec(settings.timeout_secs as u64).as_slice()),
    );
    push_pair_if(
        args,
        settings.log_verbosity != 3,
        "--log-verbosity",
        string_of(decimal_exec(settings.log_verbosity as u64).as_slice()),
    );
    proof {
        let b = f1 + f2;
        vstd::seq_lib::lemma_concat_associative(a0, f1, f2);
        vstd::seq_lib::lemma_concat_associative(a0, b, f3);
        vstd::seq_lib::lemma_concat_associative(a0, b + f3, f4);
        vstd::seq_lib::lemma_concat_associative(a0, b + f3 + f4, f5);
        vstd::seq_lib::lemma_concat_associative(a0, b + f3 + f4 + f5, f6);
    }
}

fn append_settings_args(args: &mut Vec<String>, settings: &Settings, home: Option<&str>)
    ensures
        string_views(final(args)@) == string_views(old(args)@) + settings_args(
            settings@,
            opt_str_view(home),
        ),
{
    let ghost a0 = string_views(args@);
    append_network_args(args, settings, home);
    let ghost a1 = string_views(args@);
    append_behaviour_args(args, settings);
    let ghost s = settings@;
    let ghost h = opt_str_view(home);
    assert(string_views(args@) =~= a0 + settings_args(s, h));
}

fn is_server_program_exec(t: &String) -> (b: bool)
    ensures
        b == is_server_program(t@),
{
    let cs = chars_of(t.as_str());
    if same_chars(&cs, &chars_of("llama-server")) {
        return true;
    }
    let suffix = chars_of("/llama-server");
    if suffix.len() > cs.len() {
        return false;
    }
    let start = cs.len() - suffix.len();
    let tail = crate::text::slice_of(&cs, start, cs.len());
    let b = same_chars(&tail, &suffix);
    proof {
        if b {
            assert forall|i: int| 0 <= i < suffix@.len() implies suffix@[i] == cs@[cs@.len() - suffix@.len() + i] by {
                assert(tail@[i] == cs@[start + i]);
            }
        } else if suffix@.is_suffix_of(cs@) {
            assert(tail@ =~= suffix@);
        }
    }
    b
}

/// Build the program and arguments that launch a recipe. `model` and `mmproj`
/// are the recipe's model and mmproj paths as resolved against the model
/// directory; the mmproj is only used when `mmproj_path` is not empty.
pub fn build_command(
    recipe_command: &str,
    model: Result<String, String>,
    mmproj_path: &str,
    mmproj: Result<String, String>,
    settings: &Settings,
    home: Option<&str>,
) -> (r: Result<(String, Vec<String>), String>)
    ensures
        command_view(r) == command_line(
            recipe_command@,
            str_result_view(model),
            mmproj_path@,
            str_result_view(mmproj),
            settings@,
            opt_str_view(home),
        ),
{
    let tokens = match split_words(recipe_command) {
        Ok(t) => t,
        Err(e) => {
            let mut msg = String::from_str("Invalid command: ");
            let detail = split_error_text(&e);
            msg.append(detail.as_str());
            return Err(msg);
        },
    };
    build_command_from_words(tokens, model, mmproj_path, mmproj, settings, home)
}

/// Build the program and arguments that launch a recipe of the given words.
pub fn build_command_from_words(
    tokens: Vec<String>,
    model: Result<String, String>,
    mmproj_path: &str,
    mmproj: Result<String, String>,
    settings: &Settings,
    home: Option<&str>,
) -> (r: Result<(String, Vec<String>), String>)
    ensures
        command_view(r) == command_from_words(
            string_views(tokens@),
            str_result_view(model),
            mmproj_path@,
            str_result_view(mmproj),
            settings@,
            opt_str_view(home),
        ),
{
    let ghost h = opt_str_view(home);
    let ghost tv = string_views(tokens@);
    let skip: usize = if tokens.len() > 0 && is_server_program_exec(&tokens[0]) {
        1
    } else {
        0
    };
    let ghost ra = recipe_args(tv);
    assert(ra =~= tv.skip(skip as int));
    let program = expand_tilde(settings.llama_server_path.as_str(), home);
    let mut args: Vec<String> = Vec::new();
    let mut i = skip;
    while i < tokens.len()
        invariant
            skip <= i <= tokens.len(),
            tv == string_views(tokens@),
            ra =~= tv.skip(skip as int),
            h == opt_str_view(home),
            string_views(args@) =~= expand_all(ra.subrange(0, i - skip), h),
        decreases tokens.len() - i,
    {
        push_arg(&mut args, expand_tilde(tokens[i].as_str(), home));
        assert(ra[i - skip] == tokens@[i as int]@);
        assert(ra.subrange(0, i + 1 - skip) =~= ra.subrange(0, i - skip).push(ra[i - skip]));
        i += 1;
    }
    assert(ra.subrange(0, i - skip) =~= ra);
    let m = match model {
        Ok(m) => m,
        Err(e) => {
            return Err(e);
        },
    };
    let ghost mv = m@;
    push_pair(&mut args, "-m", m);
    let ghost base = string_views(args@);
    assert(base =~= expand_all(ra, h) + seq!["-m"@, mv]);
    if !mmproj_path.is_empty() {
        let mm = match mmproj {
            Ok(mm) => mm,
            Err(e) => {
                return Err(e);
            },
        };
        push_pair(&mut args, "--mmproj", mm);
    }
    let ghost mid = string_views(args@);
    append_settings_args(&mut args, settings, home);
    assert(string_views(args@) =~= mid + settings_args(settings@, h));
    Ok((program, args))
}


// ── the server log ───────────────────────────────────────────────────────────

/// How many lines of output the log keeps.
pub const MAX_LOG_LINES: usize = 2000;

/// A log line as (recipe id, text, from stderr).
pub open spec fn log_view(l: LogLine) -> (Seq<char>, Seq<char>, bool) {
    (l.recipe_id@, l.line@, l.is_stderr)
}

pub open spec fn log_views(v: Seq<LogLine>) -> Seq<(Seq<char>, Seq<char>, bool)> {
    v.map_values(|l: LogLine| log_view(l))
}

/// The last `n` entries of `s` (all of them when there are fewer).
pub open spec fn keep_last<T>(s: Seq<T>, n: nat) -> Seq<T> {
    if s.len() > n {
        s.skip(s.len() - n)
    } else {
        s
    }
}

/// Append a line of output to the log, dropping the oldest lines beyond
/// `MAX_LOG_LINES`.
pub fn push_log_line(logs: &mut Vec<LogLine>, line: LogLine)
    ensures
        log_views(final(logs)@) == keep_last(
            log_views(old(logs)@).push(log_view(line)),
            MAX_LOG_LINES as nat,
        ),
{
    let ghost all = log_views(old(logs)@).push(log_view(line));
    logs.push(line);
    assert(log_views(logs@) =~= all);
    while logs.len() > MAX_LOG_LINES
        invariant
            all.len() >= logs.len(),
            logs.len() == all.len() || logs.len() >= MAX_LOG_LINES,
            log_views(logs@) =~= all.skip(all.len() - logs.len()),
        decreases logs.len(),
    {
        let ghost before = logs@;
        logs.remove(0);
        assert(log_views(logs@) =~= log_views(before).drop_first());
    }
    assert(all.len() <= MAX_LOG_LINES ==> all.skip(0) =~= all);
}


/// Pushing lines one at a time keeps exactly the most recent ones: pushing
/// onto a kept log keeps what pushing onto the whole history would.
pub proof fn lemma_log_keeps_latest<T>(history: Seq<T>, x: T, n: nat)
    requires
        n > 0,
    ensures
        keep_last(keep_last(history, n).push(x), n) == keep_last(history.push(x), n),
        keep_last(history.push(x), n).len() <= n,
{
    if history.len() > n {
        assert(keep_last(history, n).push(x).skip(1) =~= history.push(x).skip(history.len() + 1 - n));
    } else if history.len() == n {
        assert(keep_last(history, n) == history);
    } else {
        assert(keep_last(history, n) == history);
    }
}

// ── the one running server ───────────────────────────────────────────────────

/// What the manager knows of the running server.
#[derive(Debug, Clone)]
pub struct RunState {
    pub recipe_id: String,
    /// Set once the user (or the app shutting down) asked the server to stop.
    pub intentional_stop: bool,
}

/// A run as (recipe id, stop requested).
pub open spec fn run_view(s: RunState) -> (Seq<char>, bool) {
    (s.recipe_id@, s.intentional_stop)
}

pub open spec fn slot_view(s: Option<RunState>) -> Option<(Seq<char>, bool)> {
    match s {
        Some(r) => Some(run_view(r)),
        None => None,
    }
}

pub open spec fn already_running_message(id: Seq<char>) -> Seq<char> {
    "A server is already running (recipe: "@ + id + "). Stop it first."@
}

pub open spec fn none_running_message() -> Seq<char> {
    "No server is currently running"@
}

/// What claiming the slot for a run of `id` leaves in it: the new run when
/// the slot was empty, else what it held.
pub open spec fn claim_spec(s: Option<(Seq<char>, bool)>, id: Seq<char>) -> Option<(Seq<char>, bool)> {
    match s {
        None => Some((id, false)),
        Some(r) => Some(r),
    }
}

/// Only one server at a time: the slot is claimed for a new run exactly when
/// it is empty; otherwise the start is refused and the slot left as it was.
pub fn claim_start(current: &mut Option<RunState>, recipe_id: String) -> (r: Result<(), String>)
    ensures
        r is Ok <==> (*old(current)) is None,
        slot_view(*final(current)) == claim_spec(slot_view(*old(current)), recipe_id@),
        r matches Err(e) ==> e@ == already_running_message((*old(current))->0.recipe_id@),
{
    match current {
        Some(s) => {
            let mut msg = String::from_str("A server is already running (recipe: ");
            msg.append(s.recipe_id.as_str());
            msg.append("). Stop it first.");
            Err(msg)
        },
        None => {
            *current = Some(RunState { recipe_id, intentional_stop: false });
            Ok(())
        },
    }
}

/// Of two claims of the slot, at most one succeeds: once a claim has
/// succeeded, the slot holds that run and every later claim is refused until
/// the run's exit empties it.
pub proof fn lemma_one_server(s: Option<(Seq<char>, bool)>, a: Seq<char>, b: Seq<char>)
    ensures
        claim_spec(s, a) is Some,
        s is None ==> claim_spec(claim_spec(s, a), b) == Some((a, false)),
        claim_spec(claim_spec(s, a), b) == claim_spec(s, a),
{
}

/// Give the slot back when the process of a claimed run could not be
/// started: the slot is emptied if it still holds that run.
pub fn cancel_start(current: &mut Option<RunState>, recipe_id: &str)
    ensures
        watches(slot_view(*old(current)), recipe_id@) ==> *final(current) is None,
        !watches(slot_view(*old(current)), recipe_id@) ==> *final(current) == *old(current),
{
    let held = match current {
        Some(s) => same_chars(&chars_of(s.recipe_id.as_str()), &chars_of(recipe_id)),
        None => false,
    };
    if held {
        *current = None;
    }
}

/// What a stop request does to the slot: the run is marked as stopped on
/// purpose (the watcher then reports its exit as intentional).
pub open spec fn stop_spec(s: Option<(Seq<char>, bool)>) -> Option<(Seq<char>, bool)> {
    match s {
        Some((id, _)) => Some((id, true)),
        None => None,
    }
}

/// Ask the running server to stop: refused when none runs, else the run is
/// marked intentional and its recipe id returned.
pub fn request_stop(current: &mut Option<RunState>) -> (r: Result<String, String>)
    ensures
        slot_view(*final(current)) == stop_spec(slot_view(*old(current))),
        match r {
            Ok(id) => (*old(current)) is Some && id@ == (*old(current))->0.recipe_id@,
            Err(e) => (*old(current)) is None && e@ == none_running_message(),
        },
{
    match current {
        Some(s) => {
            s.intentional_stop = true;
            Ok(s.recipe_id.clone())
        },
        None => Err(String::from_str("No server is currently running")),
    }
}

/// What polling the child process found.
pub enum ChildPoll {
    StillRunning,
    Exited { code: Option<i32>, signal: Option<i32> },
    PollFailed,
}

/// What the watcher of a run does after one poll.
pub enum WatchStep {
    KeepWatching,
    /// The slot is empty or holds a newer run: this watcher is done.
    StopWatching,
    /// The run ended: report this, once.
    Report(ServerExit),
}

pub open spec fn exit_view(e: ServerExit) -> (Seq<char>, Option<i32>, Option<i32>, bool) {
    (e.recipe_id@, e.code, e.signal, e.intentional)
}

pub open spec fn watches(s: Option<(Seq<char>, bool)>, watched: Seq<char>) -> bool {
    s matches Some((id, _)) && id == watched
}

/// The slot after one poll by the watcher of `watched`: emptied when that
/// run's process ended (or could not be polled).
pub open spec fn watch_slot(s: Option<(Seq<char>, bool)>, watched: Seq<char>, poll: ChildPoll) -> Option<
    (Seq<char>, bool),
> {
    if watches(s, watched) && !(poll is StillRunning) {
        None
    } else {
        s
    }
}

/// What the watcher of `watched` does after one poll.
pub fn watch_step(current: &mut Option<RunState>, watched: &str, poll: ChildPoll) -> (step: WatchStep)
    ensures
        slot_view(*final(current)) == watch_slot(slot_view(*old(current)), watched@, poll),
        !watches(slot_view(*old(current)), watched@) ==> step is StopWatching,
        watches(slot_view(*old(current)), watched@) && poll is StillRunning ==> step is KeepWatching,
        watches(slot_view(*old(current)), watched@) && !(poll is StillRunning) ==> (step matches WatchStep::Report(e)
            && exit_view(e) == (
            watched@,
            match poll {
                ChildPoll::Exited { code, signal: _ } => code,
                _ => None,
            },
            match poll {
                ChildPoll::Exited { code: _, signal } => signal,
                _ => None,
            },
            (*old(current))->0.intentional_stop,
        )),
{
    let (matches_run, intentional) = match current {
        Some(s) => (same_chars(&chars_of(s.recipe_id.as_str()), &chars_of(watched)), s.intentional_stop),
        None => (false, false),
    };
    if !matches_run {
        return WatchStep::StopWatching;
    }
    match poll {
        ChildPoll::StillRunning => WatchStep::KeepWatching,
        ChildPoll::Exited { code, signal } => {
            *current = None;
            WatchStep::Report(
                ServerExit { recipe_id: String::from_str(watched), code, signal, intentional },
            )
        },
        ChildPoll::PollFailed => {
            *current = None;
            WatchStep::Report(
                ServerExit {
                    recipe_id: String::from_str(watched),
                    code: None,
                    signal: None,
                    intentional,
                },
            )
        },
    }
}

/// A run's exit is reported once: once the watcher has reported it, the
/// slot is empty and every later poll tells the watcher to stop.
pub proof fn lemma_exit_reported_once(
    s: Option<(Seq<char>, bool)>,
    watched: Seq<char>,
    poll: ChildPoll,
    later: ChildPoll,
)
    requires
        watches(s, watched),
        !(poll is StillRunning),
    ensures
        watch_slot(s, watched, poll) is None,
        !watches(watch_slot(s, watched, poll), watched),
        watch_slot(watch_slot(s, watched, poll), watched, later) is None,
{
}

/// The watcher empties the slot of its run only when it reports that run's
/// exit; nothing else but a failed start empties a held slot, so each started
/// run is reported exactly once.
pub proof fn lemma_emptied_only_with_report(s: Option<(Seq<char>, bool)>, watched: Seq<char>, poll: ChildPoll)
    requires
        watches(s, watched),
    ensures
        watch_slot(s, watched, poll) is None <==> !(poll is StillRunning),
        watches(stop_spec(s), watched),
        claim_spec(s, watched) == s,
{
}

/// A run that was asked to stop is still the watched run, now marked
/// intentional; its exit is then reported as intentional.
pub proof fn lemma_stop_marks_intentional(s: Option<(Seq<char>, bool)>, watched: Seq<char>)
    requires
        watches(s, watched),
    ensures
        watches(stop_spec(s), watched),
        (stop_spec(s)->0).1,
{
}

/// The status of the running server, if any.
pub fn status_of(current: &Option<RunState>, pid: Option<u32>) -> (r: Option<ServerStatus>)
    ensures
        match r {
            Some(st) => current is Some && st.recipe_id@ == current->0.recipe_id@ && st.running
                && st.pid == pid,
            None => current is None,
        },
{
    match current {
        Some(s) => Some(ServerStatus { recipe_id: s.recipe_id.clone(), running: true, pid }),
        None => None,
    }
}

/// What a blocking stop does after one poll.
pub enum BlockingStep {
    /// The run is gone: its watcher has reported its exit (or a newer run
    /// holds the slot).
    Done,
    /// The grace period is over: kill the process, then keep waiting for the
    /// watcher to report its exit.
    Kill,
    Wait,
}

/// One round of a blocking stop of run `rid`: done once the slot no longer
/// holds it; past the deadline, kill; else wait. The slot is not touched:
/// only the run's watcher empties it, with the run's exit report, so each run
/// is reported exactly once also when the app waits for it on shutdown.
pub fn blocking_stop_step(current: &Option<RunState>, rid: &str, deadline_passed: bool) -> (step:
    BlockingStep)
    ensures
        !watches(slot_view(*current), rid@) ==> step is Done,
        watches(slot_view(*current), rid@) && deadline_passed ==> step is Kill,
        watches(slot_view(*current), rid@) && !deadline_passed ==> step is Wait,
{
    if !should_escalate(current, rid) {
        return BlockingStep::Done;
    }
    if deadline_passed {
        BlockingStep::Kill
    } else {
        BlockingStep::Wait
    }
}

/// After the grace period of a stop of run `rid`: kill the process only if
/// the slot still holds that run.
pub fn should_escalate(current: &Option<RunState>, rid: &str) -> (kill: bool)
    ensures
        kill == watches(slot_view(*current), rid@),
{
    match current {
        Some(s) => same_chars(&chars_of(s.recipe_id.as_str()), &chars_of(rid)),
        None => false,
    }
}

} // verus!
