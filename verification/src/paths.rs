//! Filesystem paths as `std::path` reads them on Unix (and, with `\` read
//! as `/`, on Windows): components, joining, lexical normalisation, and the
//! containment check that keeps a recipe's relative model path inside the
//! configured model directory.

use vstd::prelude::*;
use crate::gpu::somes;
use crate::process::{expand_tilde, expand_tilde_spec, opt_str_view};
use crate::text::{chars_of, slice_of, split_char, split_char_exec, string_of, views};
use crate::validate::{has_char, same_chars};
use crate::shell::string_views;

verus! {

/// A path component (`std::path::Component` without Windows prefixes).
pub enum Comp {
    Root,
    Cur,
    Parent,
    Normal(Seq<char>),
}

/// What one `/`-separated segment contributes after the first.
pub open spec fn segment_comp(s: Seq<char>) -> Option<Comp> {
    if s.len() == 0 || s == "."@ {
        None
    } else if s == ".."@ {
        Some(Comp::Parent)
    } else {
        Some(Comp::Normal(s))
    }
}

pub open spec fn is_rooted(p: Seq<char>) -> bool {
    p.len() > 0 && p[0] == '/'
}

/// `Path::components`: a root for a leading `/`, a current-directory
/// component for a leading `.` segment of a relative path, then each
/// non-empty segment other than `.`.
pub open spec fn components(p: Seq<char>) -> Seq<Comp> {
    let segs = split_char(p, '/');
    let cur = !is_rooted(p) && segs[0] == "."@;
    let head = if is_rooted(p) {
        seq![Comp::Root]
    } else if cur {
        seq![Comp::Cur]
    } else {
        Seq::<Comp>::empty()
    };
    let rest = if cur {
        segs.drop_first()
    } else {
        segs
    };
    head + somes(rest.map_values(|s: Seq<char>| segment_comp(s)))
}

/// `Path::starts_with`: `base`'s components are a prefix of `p`'s.
pub open spec fn path_starts_with(p: Seq<char>, base: Seq<char>) -> bool {
    components(base).is_prefix_of(components(p))
}

/// No piece of `split_char(s, c)` holds `c`.
pub proof fn lemma_split_pieces(s: Seq<char>, c: char)
    ensures
        forall|i: int| 0 <= i < split_char(s, c).len() ==> !(#[trigger] split_char(s, c)[i]).contains(c),
    decreases s.len(),
{
    if s.len() > 0 {
        let p = split_char(s.drop_last(), c);
        lemma_split_pieces(s.drop_last(), c);
        if s.last() != c {
            crate::text::lemma_split_len(s.drop_last(), c);
            let q = p.update(p.len() - 1, p.last().push(s.last()));
            assert forall|i: int| 0 <= i < q.len() implies !(#[trigger] q[i]).contains(c) by {
                if i == p.len() - 1 {
                    assert(!p[p.len() - 1].contains(c));
                    if q[i].contains(c) {
                        let k = choose|k: int| 0 <= k < q[i].len() && q[i][k] == c;
                        if k < p.last().len() {
                            assert(p[p.len() - 1][k] == c);
                        } else {
                            assert(q[i][k] == s.last());
                        }
                    }
                } else {
                    assert(q[i] == p[i]);
                    assert(!p[i].contains(c));
                }
            }
        } else {
            let q = p.push(Seq::<char>::empty());
            assert forall|i: int| 0 <= i < q.len() implies !(#[trigger] q[i]).contains(c) by {
                if i < p.len() {
                    assert(q[i] == p[i]);
                } else {
                    assert(q[i] =~= Seq::<char>::empty());
                }
            }
        }
    } else {
        assert(split_char(s, c) =~= seq![Seq::<char>::empty()]);
    }
}

/// What `somes` keeps of a sequence is some entry of it.
pub proof fn lemma_somes_from<T>(v: Seq<Option<T>>, k: int)
    requires
        0 <= k < somes(v).len(),
    ensures
        exists|i: int| 0 <= i < v.len() && v[i] == Some(somes(v)[k]),
    decreases v.len(),
{
    if v.len() > 0 {
        let r = somes(v.drop_last());
        match v.last() {
            Some(x) => {
                if k < r.len() {
                    lemma_somes_from(v.drop_last(), k);
                    let i = choose|i: int| 0 <= i < v.drop_last().len() && v.drop_last()[i] == Some(r[k]);
                    assert(v[i] == Some(somes(v)[k]));
                } else {
                    assert(v[v.len() - 1] == Some(somes(v)[k]));
                }
            },
            None => {
                lemma_somes_from(v.drop_last(), k);
                let i = choose|i: int| 0 <= i < v.drop_last().len() && v.drop_last()[i] == Some(r[k]);
                assert(v[i] == Some(somes(v)[k]));
            },
        }
    }
}

/// A name among a path's components is one plain name: not empty, without
/// `/`, and neither `.` nor `..`.
pub proof fn lemma_normal_components(p: Seq<char>, k: int)
    requires
        0 <= k < components(p).len(),
        components(p)[k] is Normal,
    ensures
        components(p)[k]->Normal_0.len() > 0,
        !components(p)[k]->Normal_0.contains('/'),
        components(p)[k]->Normal_0 != "."@,
        components(p)[k]->Normal_0 != ".."@,
{
    let segs = split_char(p, '/');
    crate::text::lemma_split_len(p, '/');
    let cur = !is_rooted(p) && segs[0] == "."@;
    let head = if is_rooted(p) {
        seq![Comp::Root]
    } else if cur {
        seq![Comp::Cur]
    } else {
        Seq::<Comp>::empty()
    };
    let rest = if cur {
        segs.drop_first()
    } else {
        segs
    };
    let per = rest.map_values(|s: Seq<char>| segment_comp(s));
    assert(components(p) == head + somes(per));
    assert(k >= head.len());
    let j = k - head.len();
    assert(components(p)[k] == somes(per)[j]);
    lemma_somes_from(per, j);
    let i = choose|i: int| 0 <= i < per.len() && per[i] == Some(somes(per)[j]);
    lemma_split_pieces(p, '/');
    assert(per.len() == rest.len());
    if cur {
        assert(rest[i] == segs[i + 1]);
        assert(!split_char(p, '/')[i + 1].contains('/'));
    } else {
        assert(!split_char(p, '/')[i].contains('/'));
    }
    assert(!rest[i].contains('/'));
    assert(segment_comp(rest[i]) == Some(components(p)[k]));
}

/// An exec path component.
pub enum PathComponent {
    Root,
    Cur,
    Parent,
    Normal(Vec<char>),
}

impl View for PathComponent {
    type V = Comp;

    open spec fn view(&self) -> Comp {
        match self {
            PathComponent::Root => Comp::Root,
            PathComponent::Cur => Comp::Cur,
            PathComponent::Parent => Comp::Parent,
            PathComponent::Normal(n) => Comp::Normal(n@),
        }
    }
}

pub open spec fn comp_views(v: Seq<PathComponent>) -> Seq<Comp> {
    v.map_values(|c: PathComponent| c@)
}

fn segment_comp_exec(s: &Vec<char>) -> (r: Option<PathComponent>)
    ensures
        match r {
            Some(c) => segment_comp(s@) == Some(c@),
            None => segment_comp(s@) is None,
        },
{
    if s.len() == 0 || same_chars(s, &chars_of(".")) {
        None
    } else if same_chars(s, &chars_of("..")) {
        Some(PathComponent::Parent)
    } else {
        let n = slice_of(s, 0, s.len());
        assert(n@ =~= s@);
        Some(PathComponent::Normal(n))
    }
}

/// `Path::components` of a path.
pub fn path_components(p: &Vec<char>) -> (r: Vec<PathComponent>)
    ensures
        comp_views(r@) == components(p@),
{
    let segs = split_char_exec(p, '/');
    assert(views(segs@)[0] == segs@[0]@);
    let rooted = p.len() > 0 && p[0] == '/';
    let cur = !rooted && same_chars(&segs[0], &chars_of("."));
    let mut r: Vec<PathComponent> = Vec::new();
    if rooted {
        r.push(PathComponent::Root);
    } else if cur {
        r.push(PathComponent::Cur);
    }
    let ghost head = comp_views(r@);
    let start: usize = if cur {
        1
    } else {
        0
    };
    let ghost rest = views(segs@).skip(start as int);
    let ghost per = rest.map_values(|s: Seq<char>| segment_comp(s));
    let mut i = start;
    while i < segs.len()
        invariant
            start <= i <= segs.len(),
            rest == views(segs@).skip(start as int),
            per == rest.map_values(|s: Seq<char>| segment_comp(s)),
            comp_views(r@) =~= head + somes(per.subrange(0, i - start)),
        decreases segs.len() - i,
    {
        let ghost pre = per.subrange(0, i + 1 - start);
        assert(pre.drop_last() =~= per.subrange(0, i - start));
        assert(rest[i - start] == segs@[i as int]@);
        let ghost old = comp_views(r@);
        match segment_comp_exec(&segs[i]) {
            Some(c) => {
                r.push(c);
                assert(comp_views(r@) =~= old.push(c@));
            },
            None => {},
        }
        i += 1;
    }
    assert(per.subrange(0, i - start) =~= per);
    assert(views(segs@).skip(0) =~= views(segs@));
    r
}

fn same_component(a: &PathComponent, b: &PathComponent) -> (r: bool)
    ensures
        r == (a@ == b@),
{
    match (a, b) {
        (PathComponent::Root, PathComponent::Root) => true,
        (PathComponent::Cur, PathComponent::Cur) => true,
        (PathComponent::Parent, PathComponent::Parent) => true,
        (PathComponent::Normal(x), PathComponent::Normal(y)) => same_chars(x, y),
        _ => false,
    }
}

/// `Path::starts_with`, component by component.
pub fn path_starts_with_exec(p: &str, base: &str) -> (r: bool)
    ensures
        r == path_starts_with(p@, base@),
{
    let pc = path_components(&chars_of(p));
    let bc = path_components(&chars_of(base));
    if bc.len() > pc.len() {
        return false;
    }
    let mut i: usize = 0;
    while i < bc.len()
        invariant
            bc.len() <= pc.len(),
            i <= bc.len(),
            comp_views(pc@) == components(p@),
            comp_views(bc@) == components(base@),
            forall|k: int| 0 <= k < i ==> comp_views(bc@)[k] == comp_views(pc@)[k],
        decreases bc.len() - i,
    {
        if !same_component(&bc[i], &pc[i]) {
            assert(comp_views(bc@)[i as int] != comp_views(pc@)[i as int]);
            assert(comp_views(pc@).subrange(0, bc.len() as int)[i as int] == comp_views(pc@)[i as int]);
            return false;
        }
        i += 1;
    }
    assert(comp_views(pc@).subrange(0, bc.len() as int) =~= comp_views(bc@));
    true
}


// ── lexical normalisation ────────────────────────────────────────────────────

/// One component pushed onto a path being normalised, kept as (rooted, names):
/// a root resets it, `.` is dropped, `..` drops the last name (if any), and a
/// name is appended.
pub open spec fn norm_step(st: (bool, Seq<Seq<char>>), c: Comp) -> (bool, Seq<Seq<char>>) {
    match c {
        Comp::Root => (true, Seq::<Seq<char>>::empty()),
        Comp::Cur => st,
        Comp::Parent => if st.1.len() > 0 {
            (st.0, st.1.drop_last())
        } else {
            st
        },
        Comp::Normal(n) => (st.0, st.1.push(n)),
    }
}

pub open spec fn normalize_comps(cs: Seq<Comp>) -> (bool, Seq<Seq<char>>)
    decreases cs.len(),
{
    if cs.len() == 0 {
        (false, Seq::<Seq<char>>::empty())
    } else {
        norm_step(normalize_comps(cs.drop_last()), cs.last())
    }
}

/// Names joined by `/`.
pub open spec fn join_slash(names: Seq<Seq<char>>) -> Seq<char>
    decreases names.len(),
{
    if names.len() == 0 {
        Seq::<char>::empty()
    } else if names.len() == 1 {
        names[0]
    } else {
        join_slash(names.drop_last()) + "/"@ + names.last()
    }
}

/// The path with `.` dropped and each `..` applied to the name before it,
/// without looking at the disk.
pub open spec fn lexical_normalize_spec(p: Seq<char>) -> Seq<char> {
    let st = normalize_comps(components(p));
    (if st.0 {
        "/"@
    } else {
        Seq::<char>::empty()
    }) + join_slash(st.1)
}

fn join_names(names: &Vec<Vec<char>>) -> (r: Vec<char>)
    ensures
        r@ == join_slash(views(names@)),
{
    let ghost all = views(names@);
    let mut r: Vec<char> = Vec::new();
    let mut i: usize = 0;
    let slash = chars_of("/");
    while i < names.len()
        invariant
            i <= names.len(),
            all == views(names@),
            slash@ == "/"@,
            r@ == join_slash(all.subrange(0, i as int)),
        decreases names.len() - i,
    {
        let ghost pre = all.subrange(0, i + 1);
        assert(pre.drop_last() =~= all.subrange(0, i as int));
        assert(pre.last() == names@[i as int]@);
        let ghost before = r@;
        if i > 0 {
            let mut k: usize = 0;
            while k < slash.len()
                invariant
                    k <= slash.len(),
                    r@ =~= before + slash@.subrange(0, k as int),
                decreases slash.len() - k,
            {
                r.push(slash[k]);
                k += 1;
            }
        }
        let ghost mid = r@;
        let name = &names[i];
        let mut k: usize = 0;
        while k < name.len()
            invariant
                k <= name.len(),
                r@ =~= mid + name@.subrange(0, k as int),
            decreases name.len() - k,
        {
            r.push(name[k]);
            k += 1;
        }
        proof {
            assert(name@.subrange(0, name@.len() as int) =~= name@);
            assert(slash@.subrange(0, slash@.len() as int) =~= slash@);
            if i == 0 {
                assert(join_slash(all.subrange(0, 0)) =~= Seq::<char>::empty());
                assert(r@ =~= name@);
            } else {
                assert(r@ =~= before + "/"@ + name@);
            }
        }
        i += 1;
    }
    assert(all.subrange(0, i as int) =~= all);
    r
}

/// Normalise a path lexically: `.` components dropped and each `..` applied
/// to the name before it (a `..` with nothing before it is dropped).
pub fn lexical_normalize(path: &str) -> (r: String)
    ensures
        r@ == lexical_normalize_spec(path@),
{
    let comps = path_components(&chars_of(path));
    let ghost cs = comp_views(comps@);
    let mut rooted = false;
    let mut names: Vec<Vec<char>> = Vec::new();
    let mut i: usize = 0;
    while i < comps.len()
        invariant
            i <= comps.len(),
            cs == comp_views(comps@),
            cs == components(path@),
            (rooted, views(names@)) == normalize_comps(cs.subrange(0, i as int)),
        decreases comps.len() - i,
    {
        let ghost pre = cs.subrange(0, i + 1);
        assert(pre.drop_last() =~= cs.subrange(0, i as int));
        assert(pre.last() == comps@[i as int]@);
        let ghost old_names = views(names@);
        match &comps[i] {
            PathComponent::Root => {
                rooted = true;
                names = Vec::new();
                assert(views(names@) =~= Seq::<Seq<char>>::empty());
            },
            PathComponent::Cur => {},
            PathComponent::Parent => {
                if names.len() > 0 {
                    names.pop();
                    assert(views(names@) =~= old_names.drop_last());
                }
            },
            PathComponent::Normal(n) => {
                names.push(slice_of(n, 0, n.len()));
                assert(n@.subrange(0, n@.len() as int) =~= n@);
                assert(views(names@) =~= old_names.push(n@));
            },
        }
        i += 1;
    }
    assert(cs.subrange(0, i as int) =~= cs);
    let joined = join_names(&names);
    let mut out = if rooted {
        String::from_str("/")
    } else {
        String::new()
    };
    let js = string_of(joined.as_slice());
    out.append(js.as_str());
    out
}

// ── the model directory ──────────────────────────────────────────────────────

/// `PathBuf::push` on Unix: an absolute path replaces the base; otherwise the
/// two are joined with one `/` unless the base is empty or already ends in one.
pub open spec fn path_join(base: Seq<char>, p: Seq<char>) -> Seq<char> {
    if is_rooted(p) || base.len() == 0 {
        p
    } else if base.last() == '/' {
        base + p
    } else {
        base + "/"@ + p
    }
}

/// Join `p` onto `base` as `PathBuf::push` does on Unix.
pub fn path_join_exec(base: &str, p: &str) -> (r: String)
    ensures
        r@ == path_join(base@, p@),
{
    let b = chars_of(base);
    let pc = chars_of(p);
    if (pc.len() > 0 && pc[0] == '/') || b.len() == 0 {
        String::from_str(p)
    } else if b[b.len() - 1] == '/' {
        let mut r = String::from_str(base);
        r.append(p);
        r
    } else {
        let mut r = String::from_str(base);
        r.append("/");
        r.append(p);
        r
    }
}

/// Where a recipe's model path points: a path taken as given (absolute, or
/// under the home directory), or one under the model directory whose
/// containment must still be checked against the disk.
pub enum ModelPathPlan {
    AsGiven(String),
    UnderModelDir { dir: String, joined: String },
}

pub open spec fn invalid_path_message(field: Seq<char>) -> Seq<char> {
    field + " contains invalid characters"@
}

/// A path that is used as given: it starts with `/`, `~` or `\`.
pub open spec fn is_absolute_input(raw: Seq<char>) -> bool {
    raw.len() > 0 && (raw[0] == '/' || raw[0] == '~' || raw[0] == '\\')
}

/// What a plan says, on characters.
pub enum PlanView {
    AsGiven(Seq<char>),
    UnderModelDir(Seq<char>, Seq<char>),
}

pub open spec fn plan_view(r: Result<ModelPathPlan, String>) -> Result<PlanView, Seq<char>> {
    match r {
        Ok(ModelPathPlan::AsGiven(p)) => Ok(PlanView::AsGiven(p@)),
        Ok(ModelPathPlan::UnderModelDir { dir, joined }) => Ok(PlanView::UnderModelDir(dir@, joined@)),
        Err(e) => Err(e@),
    }
}

/// The plan for a raw model or mmproj path.
pub open spec fn model_path_plan(
    field: Seq<char>,
    raw: Seq<char>,
    model_dir: Seq<char>,
    home: Option<Seq<char>>,
) -> Result<PlanView, Seq<char>> {
    if raw.contains('\0') || raw.contains('\n') || raw.contains('\r') {
        Err(invalid_path_message(field))
    } else if is_absolute_input(raw) {
        Ok(PlanView::AsGiven(expand_tilde_spec(raw, home)))
    } else {
        let dir = expand_tilde_spec(model_dir, home);
        Ok(PlanView::UnderModelDir(dir, path_join(dir, raw)))
    }
}

/// A path starting with `/` (and free of NUL, CR and LF), such as one
/// chosen in a file picker, is used verbatim, whatever the model directory
/// and the home directory: it is never joined under the model directory, so
/// the containment check does not apply to it.
pub proof fn lemma_absolute_path_used_verbatim(
    field: Seq<char>,
    raw: Seq<char>,
    model_dir: Seq<char>,
    home: Option<Seq<char>>,
)
    requires
        raw.len() > 0,
        raw[0] == '/',
        !raw.contains('\0'),
        !raw.contains('\n'),
        !raw.contains('\r'),
    ensures
        model_path_plan(field, raw, model_dir, home) == Ok::<PlanView, Seq<char>>(PlanView::AsGiven(raw)),
{
    reveal_strlit("~/");
    if "~/"@.is_prefix_of(raw) {
        assert(raw[0] == "~/"@[0]);
    }
}

/// The other cases of a plan: a path holding NUL, CR or LF is refused with
/// "<field> contains invalid characters"; a `~/` path is taken with the home
/// directory put for the `~` (when the home is known); a path starting with
/// `\` is taken as given; any other path, the empty one included, is joined
/// under the model directory (itself with `~/` expanded).
pub proof fn lemma_model_path_cases(
    field: Seq<char>,
    raw: Seq<char>,
    model_dir: Seq<char>,
    home: Option<Seq<char>>,
)
    ensures
        raw.contains('\0') || raw.contains('\n') || raw.contains('\r') ==> model_path_plan(
            field,
            raw,
            model_dir,
            home,
        ) == Err::<PlanView, Seq<char>>(field + " contains invalid characters"@),
        !(raw.contains('\0') || raw.contains('\n') || raw.contains('\r')) ==> {
            &&& raw.len() >= 2 && raw[0] == '~' && raw[1] == '/' && home is Some ==> model_path_plan(
                field,
                raw,
                model_dir,
                home,
            ) == Ok::<PlanView, Seq<char>>(PlanView::AsGiven(home->0 + raw.skip(1)))
            &&& raw.len() > 0 && raw[0] == '\\' ==> model_path_plan(field, raw, model_dir, home) == Ok::<
                PlanView,
                Seq<char>,
            >(PlanView::AsGiven(raw))
            &&& (raw.len() == 0 || (raw[0] != '/' && raw[0] != '~' && raw[0] != '\\')) ==> model_path_plan(
                field,
                raw,
                model_dir,
                home,
            ) == Ok::<PlanView, Seq<char>>(
                PlanView::UnderModelDir(
                    expand_tilde_spec(model_dir, home),
                    path_join(expand_tilde_spec(model_dir, home), raw),
                ),
            )
        },
{
    reveal_strlit("~/");
    if raw.len() >= 2 && raw[0] == '~' && raw[1] == '/' {
        assert("~/"@.is_prefix_of(raw));
    }
    if raw.len() > 0 && raw[0] == '\\' {
        if "~/"@.is_prefix_of(raw) {
            assert(raw[0] == "~/"@[0]);
        }
    }
}

/// Plan the resolution of a recipe's model or mmproj path: a path holding a
/// NUL, CR or LF is refused; an absolute or `~` path is taken as given (with
/// `~` expanded); anything else is joined under the model directory.
pub fn plan_model_path(field: &str, raw: &str, model_dir: &str, home: Option<&str>) -> (r: Result<
    ModelPathPlan,
    String,
>)
    ensures
        plan_view(r) == model_path_plan(field@, raw@, model_dir@, opt_str_view(home)),
        match r {
            Err(e) => {
                &&& raw@.contains('\0') || raw@.contains('\n') || raw@.contains('\r')
                &&& e@ == invalid_path_message(field@)
            },
            Ok(ModelPathPlan::AsGiven(p)) => {
                &&& !(raw@.contains('\0') || raw@.contains('\n') || raw@.contains('\r'))
                &&& is_absolute_input(raw@)
                &&& p@ == expand_tilde_spec(raw@, opt_str_view(home))
            },
            Ok(ModelPathPlan::UnderModelDir { dir, joined }) => {
                &&& !(raw@.contains('\0') || raw@.contains('\n') || raw@.contains('\r'))
                &&& !is_absolute_input(raw@)
                &&& dir@ == expand_tilde_spec(model_dir@, opt_str_view(home))
                &&& joined@ == path_join(dir@, raw@)
            },
        },
{
    let rc = chars_of(raw);
    if has_char(&rc, '\0') || has_char(&rc, '\n') || has_char(&rc, '\r') {
        let mut msg = String::from_str(field);
        msg.append(" contains invalid characters");
        return Err(msg);
    }
    if rc.len() > 0 && (rc[0] == '/' || rc[0] == '~' || rc[0] == '\\') {
        return Ok(ModelPathPlan::AsGiven(expand_tilde(raw, home)));
    }
    let dir = expand_tilde(model_dir, home);
    let joined = path_join_exec(dir.as_str(), raw);
    Ok(ModelPathPlan::UnderModelDir { dir, joined })
}

pub open spec fn outside_message(field: Seq<char>, raw: Seq<char>) -> Seq<char> {
    field + " '"@ + raw + "' resolves outside the configured model directory"@
}

/// A path as its components are read: on Windows, where `\` separates
/// components as `/` does, each `\` read as `/`; elsewhere unchanged.
pub open spec fn slashed(p: Seq<char>, windows: bool) -> Seq<char> {
    if windows {
        p.map_values(|c: char| if c == '\\' { '/' } else { c })
    } else {
        p
    }
}

/// The path with its separators written as `/` on Windows (see `slashed`).
pub fn slashed_exec(p: &str, windows: bool) -> (r: String)
    ensures
        r@ == slashed(p@, windows),
{
    let cs = chars_of(p);
    if !windows {
        return string_of(cs.as_slice());
    }
    let mut out: Vec<char> = Vec::new();
    let mut i: usize = 0;
    while i < cs.len()
        invariant
            i <= cs.len(),
            cs@ == p@,
            out@ == cs@.take(i as int).map_values(|c: char| if c == '\\' { '/' } else { c }),
        decreases cs.len() - i,
    {
        let c = cs[i];
        out.push(if c == '\\' { '/' } else { c });
        assert(cs@.take(i + 1).map_values(|c: char| if c == '\\' { '/' } else { c }) =~= cs@.take(
            i as int,
        ).map_values(|c: char| if c == '\\' { '/' } else { c }).push(if c == '\\' { '/' } else { c }));
        i += 1;
    }
    assert(cs@.take(i as int) =~= cs@);
    string_of(out.as_slice())
}

/// The containment check on the canonical forms of the model directory and
/// of the joined path: the joined path is accepted only when its canonical
/// form lies inside the canonical directory, component by component (on
/// Windows with `\` and `/` both read as separators).
pub fn check_containment(
    field: &str,
    raw: &str,
    canon_dir: &str,
    canon_joined: &str,
    joined: String,
    windows: bool,
) -> (r: Result<String, String>)
    ensures
        match r {
            Ok(p) => path_starts_with(slashed(canon_joined@, windows), slashed(canon_dir@, windows))
                && p@ == joined@,
            Err(e) => !path_starts_with(slashed(canon_joined@, windows), slashed(canon_dir@, windows))
                && e@ == outside_message(field@, raw@),
        },
{
    let j = slashed_exec(canon_joined, windows);
    let d = slashed_exec(canon_dir, windows);
    if !path_starts_with_exec(j.as_str(), d.as_str()) {
        let mut msg = String::from_str(field);
        msg.append(" '");
        msg.append(raw);
        msg.append("' resolves outside the configured model directory");
        return Err(msg);
    }
    Ok(joined)
}

// ── the search path of an app started from a desktop launcher ───────────────

/// Where tools such as `llama-server` are usually installed, most likely
/// first: Homebrew, `/usr/local`, MacPorts, Linuxbrew and Miniconda, then the
/// user's own `bin` directories when the home directory is known.
pub open spec fn gui_candidates(home: Option<Seq<char>>) -> Seq<Seq<char>> {
    let fixed = seq![
        "/opt/homebrew/bin"@,
        "/opt/homebrew/sbin"@,
        "/usr/local/bin"@,
        "/usr/local/sbin"@,
        "/opt/local/bin"@,
        "/opt/local/sbin"@,
        "/home/linuxbrew/.linuxbrew/bin"@,
        "/opt/miniconda3/bin"@,
    ];
    match home {
        Some(h) => fixed + seq![h + "/.cargo/bin"@, h + "/.local/bin"@, h + "/bin"@, h + "/.linuxbrew/bin"@],
        None => fixed,
    }
}

fn push_str(v: &mut Vec<String>, s: &str)
    ensures
        string_views(final(v)@) == string_views(old(v)@).push(s@),
{
    v.push(String::from_str(s));
    assert(string_views(v@) =~= string_views(old(v)@).push(s@));
}

fn push_home_dir(v: &mut Vec<String>, home: &str, suffix: &str)
    ensures
        string_views(final(v)@) == string_views(old(v)@).push(home@ + suffix@),
{
    let mut d = String::from_str(home);
    d.append(suffix);
    v.push(d);
    assert(string_views(v@) =~= string_views(old(v)@).push(home@ + suffix@));
}

/// The install directories worth adding to the search path, in order.
pub fn gui_path_candidates(home: Option<&str>) -> (r: Vec<String>)
    ensures
        string_views(r@) == gui_candidates(opt_str_view(home)),
{
    let mut r: Vec<String> = Vec::new();
    push_str(&mut r, "/opt/homebrew/bin");
    push_str(&mut r, "/opt/homebrew/sbin");
    push_str(&mut r, "/usr/local/bin");
    push_str(&mut r, "/usr/local/sbin");
    push_str(&mut r, "/opt/local/bin");
    push_str(&mut r, "/opt/local/sbin");
    push_str(&mut r, "/home/linuxbrew/.linuxbrew/bin");
    push_str(&mut r, "/opt/miniconda3/bin");
    let ghost fixed = string_views(r@);
    match home {
        Some(h) => {
            push_home_dir(&mut r, h, "/.cargo/bin");
            push_home_dir(&mut r, h, "/.local/bin");
            push_home_dir(&mut r, h, "/bin");
            push_home_dir(&mut r, h, "/.linuxbrew/bin");
            assert(string_views(r@) =~= gui_candidates(opt_str_view(home)));
        },
        None => {
            assert(string_views(r@) =~= gui_candidates(opt_str_view(home)));
        },
    }
    r
}

/// Two paths are the same path when their components are (`Path`'s `==`).
pub open spec fn same_path(a: Seq<char>, b: Seq<char>) -> bool {
    components(a) == components(b)
}

pub open spec fn known_path(p: Seq<char>, known: Seq<Seq<char>>) -> bool {
    exists|i: int| 0 <= i < known.len() && same_path(#[trigger] known[i], p)
}

/// The directories to add: each one not already on the search path nor
/// added before it.
pub open spec fn fresh_dirs(dirs: Seq<Seq<char>>, known: Seq<Seq<char>>) -> Seq<Seq<char>>
    decreases dirs.len(),
{
    if dirs.len() == 0 {
        Seq::empty()
    } else {
        let prev = fresh_dirs(dirs.drop_last(), known);
        if known_path(dirs.last(), known + prev) {
            prev
        } else {
            prev.push(dirs.last())
        }
    }
}

/// Parts joined with a separator between them.
pub open spec fn join_with(parts: Seq<Seq<char>>, sep: char) -> Seq<char>
    decreases parts.len(),
{
    if parts.len() == 0 {
        Seq::empty()
    } else if parts.len() == 1 {
        parts[0]
    } else {
        join_with(parts.drop_last(), sep) + seq![sep] + parts.last()
    }
}

/// The new search path: the fresh directories, then the old search path
/// (when it is not empty); none when there is nothing to add.
pub open spec fn augmented_path(
    dirs: Seq<Seq<char>>,
    entries: Seq<Seq<char>>,
    existing: Seq<char>,
    sep: char,
) -> Option<Seq<char>> {
    let fresh = fresh_dirs(dirs, entries);
    if fresh.len() == 0 {
        None
    } else if existing.len() == 0 {
        Some(join_with(fresh, sep))
    } else {
        Some(join_with(fresh, sep) + seq![sep] + existing)
    }
}

/// Are two paths the same path?
pub fn same_path_exec(a: &str, b: &str) -> (r: bool)
    ensures
        r == same_path(a@, b@),
{
    let ac = path_components(&chars_of(a));
    let bc = path_components(&chars_of(b));
    if ac.len() != bc.len() {
        assert(comp_views(ac@).len() == ac.len() && comp_views(bc@).len() == bc.len());
        return false;
    }
    let mut i: usize = 0;
    while i < ac.len()
        invariant
            ac.len() == bc.len(),
            i <= ac.len(),
            comp_views(ac@) == components(a@),
            comp_views(bc@) == components(b@),
            forall|k: int| 0 <= k < i ==> comp_views(ac@)[k] == comp_views(bc@)[k],
        decreases ac.len() - i,
    {
        if !same_component(&ac[i], &bc[i]) {
            assert(comp_views(ac@)[i as int] != comp_views(bc@)[i as int]);
            return false;
        }
        i += 1;
    }
    assert(comp_views(ac@) =~= comp_views(bc@));
    true
}

fn is_known(p: &str, known: &Vec<String>) -> (r: bool)
    ensures
        r == known_path(p@, string_views(known@)),
{
    let mut i: usize = 0;
    while i < known.len()
        invariant
            i <= known.len(),
            forall|k: int| 0 <= k < i ==> !same_path(#[trigger] string_views(known@)[k], p@),
        decreases known.len() - i,
    {
        if same_path_exec(known[i].as_str(), p) {
            assert(string_views(known@)[i as int] == known@[i as int]@);
            return true;
        }
        assert(string_views(known@)[i as int] == known@[i as int]@);
        i += 1;
    }
    false
}

/// The search path with the install directories that exist (`dirs`, in
/// order) put before it; `entries` are the old search path's entries and
/// `existing` its text. `None` when every directory is already on it.
pub fn augment_path(dirs: &Vec<String>, entries: &Vec<String>, existing: &str, sep: char) -> (r:
    Option<String>)
    ensures
        match r {
            Some(p) => augmented_path(string_views(dirs@), string_views(entries@), existing@, sep)
                == Some(p@),
            None => augmented_path(string_views(dirs@), string_views(entries@), existing@, sep) is None,
        },
{
    let ghost dv = string_views(dirs@);
    let ghost ev = string_views(entries@);
    let mut known: Vec<String> = Vec::new();
    let mut k: usize = 0;
    while k < entries.len()
        invariant
            k <= entries.len(),
            ev == string_views(entries@),
            string_views(known@) == ev.take(k as int),
        decreases entries.len() - k,
    {
        let ghost before = string_views(known@);
        known.push(entries[k].clone());
        assert(string_views(known@) =~= before.push(entries@[k as int]@));
        assert(ev[k as int] == entries@[k as int]@);
        assert(ev.take(k + 1) =~= ev.take(k as int).push(ev[k as int]));
        k += 1;
    }
    assert(ev.take(k as int) =~= ev);
    let mut fresh: Vec<String> = Vec::new();
    let mut i: usize = 0;
    while i < dirs.len()
        invariant
            i <= dirs.len(),
            dv == string_views(dirs@),
            string_views(fresh@) == fresh_dirs(dv.take(i as int), ev),
            string_views(known@) == ev + string_views(fresh@),
        decreases dirs.len() - i,
    {
        proof {
            assert(dv.take(i + 1).drop_last() =~= dv.take(i as int));
            assert(dv.take(i + 1).last() == dirs@[i as int]@);
        }
        if !is_known(dirs[i].as_str(), &known) {
            let ghost bf = string_views(fresh@);
            let ghost bk = string_views(known@);
            fresh.push(dirs[i].clone());
            known.push(dirs[i].clone());
            assert(string_views(fresh@) =~= bf.push(dirs@[i as int]@));
            assert(string_views(known@) =~= bk.push(dirs@[i as int]@));
        }
        i += 1;
    }
    assert(dv.take(i as int) =~= dv);
    if fresh.len() == 0 {
        return None;
    }
    let ghost fv = string_views(fresh@);
    let mut out = String::new();
    let mut j: usize = 0;
    while j < fresh.len()
        invariant
            j <= fresh.len(),
            fresh.len() > 0,
            fv == string_views(fresh@),
            out@ == join_with(fv.take(j as int), sep),
        decreases fresh.len() - j,
    {
        let ghost t = fv.take(j + 1);
        assert(t.drop_last() =~= fv.take(j as int));
        assert(t.last() == fresh@[j as int]@);
        if j > 0 {
            let sep_s = string_of(vec![sep].as_slice());
            out.append(sep_s.as_str());
        } else {
            assert(t =~= seq![fresh@[0]@]);
        }
        out.append(fresh[j].as_str());
        j += 1;
    }
    assert(fv.take(j as int) =~= fv);
    if existing.unicode_len() > 0 {
        let sep_s = string_of(vec![sep].as_slice());
        out.append(sep_s.as_str());
        out.append(existing);
    }
    Some(out)
}

proof fn lemma_known_push(p: Seq<char>, known: Seq<Seq<char>>, x: Seq<char>)
    requires
        known_path(p, known),
    ensures
        known_path(p, known.push(x)),
{
    let i = choose|i: int| 0 <= i < known.len() && same_path(#[trigger] known[i], p);
    assert(known.push(x)[i] == known[i]);
}

proof fn lemma_known_swap(p: Seq<char>, a: Seq<Seq<char>>, b: Seq<Seq<char>>)
    requires
        known_path(p, a + b),
    ensures
        known_path(p, b + a),
{
    let i = choose|i: int| 0 <= i < (a + b).len() && same_path(#[trigger] (a + b)[i], p);
    if i < a.len() {
        assert((b + a)[b.len() + i] == (a + b)[i]);
    } else {
        assert((b + a)[i - a.len()] == (a + b)[i]);
    }
}

/// Once the fresh directories are known too, every directory is known.
proof fn lemma_all_known(dirs: Seq<Seq<char>>, known: Seq<Seq<char>>)
    ensures
        forall|i: int| 0 <= i < dirs.len() ==> known_path(#[trigger] dirs[i], known + fresh_dirs(dirs, known)),
    decreases dirs.len(),
{
    if dirs.len() > 0 {
        let init = dirs.drop_last();
        let prev = fresh_dirs(init, known);
        let fresh = fresh_dirs(dirs, known);
        lemma_all_known(init, known);
        if known_path(dirs.last(), known + prev) {
            assert(fresh == prev);
        } else {
            assert(fresh == prev.push(dirs.last()));
            assert(known + fresh =~= (known + prev).push(dirs.last()));
            assert forall|i: int| 0 <= i < init.len() implies known_path(#[trigger] init[i], known + fresh) by {
                lemma_known_push(init[i], known + prev, dirs.last());
            }
            let j = (known + fresh).len() - 1;
            assert((known + fresh)[j] == dirs.last());
            assert(same_path((known + fresh)[j], dirs.last()));
        }
        assert forall|i: int| 0 <= i < dirs.len() implies known_path(#[trigger] dirs[i], known + fresh) by {
            if i < init.len() {
                assert(dirs[i] == init[i]);
            }
        }
    }
}

/// No directory is fresh when every one is known.
proof fn lemma_none_fresh(dirs: Seq<Seq<char>>, known: Seq<Seq<char>>)
    requires
        forall|i: int| 0 <= i < dirs.len() ==> known_path(#[trigger] dirs[i], known),
    ensures
        fresh_dirs(dirs, known).len() == 0,
    decreases dirs.len(),
{
    if dirs.len() > 0 {
        let init = dirs.drop_last();
        assert forall|i: int| 0 <= i < init.len() implies known_path(#[trigger] init[i], known) by {
            assert(init[i] == dirs[i]);
        }
        lemma_none_fresh(init, known);
        assert(known + fresh_dirs(init, known) =~= known);
        assert(known_path(dirs[dirs.len() - 1], known));
    }
}

/// A second augmentation adds nothing: when the search path's entries are
/// the directories that the first one added followed by the old entries,
/// no directory is fresh, whatever the new text is.
pub proof fn lemma_augment_twice(
    dirs: Seq<Seq<char>>,
    entries: Seq<Seq<char>>,
    text: Seq<char>,
    sep: char,
)
    ensures
        augmented_path(dirs, fresh_dirs(dirs, entries) + entries, text, sep) is None,
{
    let fresh = fresh_dirs(dirs, entries);
    lemma_all_known(dirs, entries);
    assert forall|i: int| 0 <= i < dirs.len() implies known_path(#[trigger] dirs[i], fresh + entries) by {
        lemma_known_swap(dirs[i], entries, fresh);
    }
    lemma_none_fresh(dirs, fresh + entries);
}

} // verus!
