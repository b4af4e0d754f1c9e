//! Model files: which `.gguf` files a scan or a HuggingFace listing keeps,
//! how a scan is paged, and the names and addresses a download uses.

use vstd::prelude::*;
use crate::paths::{Comp, PathComponent, comp_views, components, path_components};
use crate::text::{
    ascii_lower, ascii_lower_exec, chars_of, contains, contains_exec, slice_of, string_of, trim,
    trimmed, is_ws, trim_start, trim_end,
};
use crate::validate::same_chars;
use crate::order::{keyed_view, lemma_sort_by_key, sort_by_key, sort_keyed, sorted_by_key};

verus! {

/// Whether a GGUF file is a model or an mmproj (vision projector).
#[derive(Debug, Clone, Copy, PartialEq, Eq, Structural)]
pub enum GgufKind {
    Model,
    Mmproj,
}

/// One `.gguf` file found by a scan.
#[derive(Debug, Clone)]
pub struct ScannedModel {
    /// Absolute path to the .gguf file.
    pub path: String,
    /// File name only (e.g. "qwen3-35b-q4.gguf").
    pub name: String,
    /// Size of the file in bytes.
    pub size_bytes: u64,
    /// Detected kind (model or mmproj).
    pub kind: GgufKind,
}

/// One page of a scan.
#[derive(Debug, Clone)]
pub struct ModelScanPage {
    /// The requested page of matching models.
    pub items: Vec<ScannedModel>,
    /// Total number of matching models across all pages.
    pub total: usize,
    /// 1-based page that `items` belongs to.
    pub page: usize,
    /// Number of items returned per page.
    pub page_size: usize,
}

/// A `.gguf` file of a HuggingFace repository.
#[derive(Debug, Clone)]
pub struct HfModelFile {
    pub name: String,
    pub size_bytes: u64,
}

/// One entry of a HuggingFace repository tree listing, with the fields the
/// listing reads (each absent when the listing does not give it with the
/// expected JSON type).
#[derive(Debug, Clone)]
pub struct HfEntry {
    /// The entry's `type` (`"file"` or `"directory"`).
    pub entry_type: Option<String>,
    /// The entry's `path` inside the repository.
    pub path: Option<String>,
    /// The entry's `size` in bytes.
    pub size: Option<u64>,
}

/// Progress of a download.
#[derive(Debug, Clone)]
pub struct DownloadProgress {
    pub repo_id: String,
    pub filename: String,
    pub bytes_downloaded: u64,
    pub total_bytes: u64,
}

// ── kind of a GGUF file ──────────────────────────────────────────────────────

pub open spec fn opt_mentions(v: Option<Seq<char>>, word: Seq<char>) -> bool {
    match v {
        Some(t) => contains(ascii_lower(t), word),
        None => false,
    }
}

pub open spec fn opt_text(v: Option<&str>) -> Option<Seq<char>> {
    match v {
        Some(s) => Some(s@),
        None => None,
    }
}

/// The kind that a GGUF header's metadata gives: an mmproj when
/// `general.type` mentions `mmproj` or `general.architecture` mentions `clip`
/// (ignoring ASCII case), a model otherwise (also when the header could not
/// be read, so that both values are absent).
pub open spec fn gguf_kind(general_type: Option<Seq<char>>, architecture: Option<Seq<char>>) -> GgufKind {
    if opt_mentions(general_type, "mmproj"@) || opt_mentions(architecture, "clip"@) {
        GgufKind::Mmproj
    } else {
        GgufKind::Model
    }
}

/// A file is an mmproj when its `general.type` contains `mmproj` or its
/// `general.architecture` contains `clip`, in any ASCII case; otherwise, and
/// when neither value could be read, it is a model.
pub proof fn lemma_gguf_kind_rule(general_type: Option<Seq<char>>, architecture: Option<Seq<char>>)
    ensures
        general_type is Some && contains(ascii_lower(general_type->0), "mmproj"@) ==> gguf_kind(
            general_type,
            architecture,
        ) == GgufKind::Mmproj,
        architecture is Some && contains(ascii_lower(architecture->0), "clip"@) ==> gguf_kind(
            general_type,
            architecture,
        ) == GgufKind::Mmproj,
        !(general_type is Some && contains(ascii_lower(general_type->0), "mmproj"@)) && !(
        architecture is Some && contains(ascii_lower(architecture->0), "clip"@)) ==> gguf_kind(
            general_type,
            architecture,
        ) == GgufKind::Model,
        gguf_kind(None, None) == GgufKind::Model,
{
}

fn mentions(v: Option<&str>, word: &str) -> (b: bool)
    ensures
        b == opt_mentions(opt_text(v), word@),
{
    match v {
        Some(t) => contains_exec(&ascii_lower_exec(&chars_of(t)), &chars_of(word)),
        None => false,
    }
}

/// Classify a GGUF file from its `general.type` and `general.architecture`
/// metadata values.
pub fn classify_gguf(general_type: Option<&str>, architecture: Option<&str>) -> (k: GgufKind)
    ensures
        k == gguf_kind(opt_text(general_type), opt_text(architecture)),
{
    if mentions(general_type, "mmproj") || mentions(architecture, "clip") {
        GgufKind::Mmproj
    } else {
        GgufKind::Model
    }
}

// ── scan requests and paging ─────────────────────────────────────────────────

/// The kind a scan filter asks for: `"all"` asks for none in particular,
/// `"mmproj"` for mmprojs, anything else for models.
pub open spec fn filter_kind(filter: Seq<char>) -> Option<GgufKind> {
    if filter == "all"@ {
        None
    } else if filter == "mmproj"@ {
        Some(GgufKind::Mmproj)
    } else {
        Some(GgufKind::Model)
    }
}

/// The scan filter `all` asks for every file, `mmproj` for mmprojs, and any
/// other word (`model` among them) for models.
pub proof fn lemma_filter_words(filter: Seq<char>)
    ensures
        filter == "all"@ ==> filter_kind(filter) is None,
        filter == "mmproj"@ ==> filter_kind(filter) == Some(GgufKind::Mmproj),
        filter != "all"@ && filter != "mmproj"@ ==> filter_kind(filter) == Some(GgufKind::Model),
{
    reveal_strlit("all");
    reveal_strlit("mmproj");
    assert("all"@.len() != "mmproj"@.len());
}

pub fn scan_filter(filter: &str) -> (k: Option<GgufKind>)
    ensures
        k == filter_kind(filter@),
{
    let f = chars_of(filter);
    if same_chars(&f, &chars_of("all")) {
        None
    } else if same_chars(&f, &chars_of("mmproj")) {
        Some(GgufKind::Mmproj)
    } else {
        Some(GgufKind::Model)
    }
}

/// The page a scan returns: 1 when none is given, and never below 1.
pub fn scan_page(page: Option<usize>) -> (p: usize)
    ensures
        p == (match page {
            Some(n) => if n >= 1 {
                n
            } else {
                1
            },
            None => 1,
        }),
{
    match page {
        Some(n) => if n >= 1 {
            n
        } else {
            1
        },
        None => 1,
    }
}

/// The page size of a scan: 100 when none is given, clamped to 1..=1000.
pub fn scan_page_size(page_size: Option<usize>) -> (s: usize)
    ensures
        s == (match page_size {
            Some(n) => if n < 1 {
                1
            } else if n > 1000 {
                1000
            } else {
                n
            },
            None => 100,
        }),
        1 <= s <= 1000,
{
    let n = match page_size {
        Some(n) => n,
        None => 100,
    };
    if n < 1 {
        1
    } else if n > 1000 {
        1000
    } else {
        n
    }
}

/// Does a file of kind `kind` match the scan's filter?
pub fn wants_kind(filter: Option<GgufKind>, kind: GgufKind) -> (b: bool)
    ensures
        b == (filter is None || filter == Some(kind)),
{
    match filter {
        None => true,
        Some(k) => k == kind,
    }
}

/// The matches (counted from 1) that page `page` of size `size` holds are
/// those after `start` and up to `end`.
pub open spec fn page_start(page: nat, size: nat) -> nat {
    (if page >= 1 {
        (page - 1) as nat
    } else {
        0
    }) * size
}

pub open spec fn in_page(k: nat, page: nat, size: nat) -> bool {
    page_start(page, size) < k && k <= page_start(page, size) + size
}

/// The window of a page: the matches counted from 1 that it holds are those
/// in `start < k <= end`.
pub fn page_window(page: usize, page_size: usize) -> (w: (usize, usize))
    requires
        page_start(page as nat, page_size as nat) + page_size <= usize::MAX,
    ensures
        w.0 == page_start(page as nat, page_size as nat),
        w.1 == w.0 + page_size,
{
    let before: usize = if page >= 1 {
        page - 1
    } else {
        0
    };
    assert(before * page_size <= usize::MAX) by (nonlinear_arith)
        requires
            before * page_size + page_size <= usize::MAX,
            page_size >= 0,
    ;
    let start = before * page_size;
    (start, start + page_size)
}

/// Does the window of page `page` (of `page_size` matches) fit in a
/// `usize`?
pub fn page_fits(page: usize, page_size: usize) -> (b: bool)
    ensures
        b == (page_start(page as nat, page_size as nat) + page_size <= usize::MAX),
{
    let before: u128 = if page >= 1 {
        (page - 1) as u128
    } else {
        0
    };
    let size = page_size as u128;
    assert(before * size <= 0xffff_ffff_ffff_ffffu128 * 0xffff_ffff_ffff_ffffu128) by (nonlinear_arith)
        requires
            before <= 0xffff_ffff_ffff_ffffu128,
            size <= 0xffff_ffff_ffff_ffffu128,
    ;
    before * size + size <= usize::MAX as u128
}

/// Count one more matching file; it belongs to the page when its number
/// falls in the window.
pub fn count_match(total: usize, start: usize, end: usize) -> (r: (usize, bool))
    requires
        total < usize::MAX,
    ensures
        r.0 == total + 1,
        r.1 == (start < total + 1 && total + 1 <= end),
{
    let t = total + 1;
    (t, t > start && t <= end)
}

/// Pages of the same size cover the matches exactly once: the match number
/// `k` (from 1) lies in page `(k - 1) / size + 1`, and in no other.
pub proof fn lemma_pages_cover_once(k: nat, size: nat, page: nat)
    requires
        k >= 1,
        size >= 1,
        page >= 1,
    ensures
        in_page(k, ((k - 1) as nat / size + 1) as nat, size),
        in_page(k, page, size) ==> page == (k - 1) as nat / size + 1,
{
    let km1: int = k - 1;
    let d: int = size as int;
    let qi: int = km1 / d;
    let r: int = km1 % d;
    vstd::arithmetic::div_mod::lemma_fundamental_div_mod(km1, d);
    vstd::arithmetic::div_mod::lemma_mod_bound(km1, d);
    vstd::arithmetic::div_mod::lemma_div_pos_is_pos(km1, d);
    assert(km1 == d * qi + r);
    assert(qi == (k - 1) as nat / size);
    let q = qi as nat;
    assert(page_start(q + 1, size) == q * size);
    assert(q * size == d * qi) by (nonlinear_arith)
        requires
            q == qi,
            d == size,
    ;
    if in_page(k, page, size) {
        let p1 = (page - 1) as nat;
        assert(page_start(page, size) == p1 * size);
        assert(p1 == q) by (nonlinear_arith)
            requires
                p1 * size < k,
                k <= p1 * size + size,
                km1 == d * qi + r,
                km1 == k - 1,
                d == size,
                q == qi,
                0 <= r < d,
                size >= 1,
        ;
    }
}

// ── file names ───────────────────────────────────────────────────────────────

/// `Path::file_name` (Unix): the last component, when it is a name.
pub open spec fn file_name(p: Seq<char>) -> Option<Seq<char>> {
    let cs = components(p);
    if cs.len() > 0 && cs.last() is Normal {
        Some(cs.last()->Normal_0)
    } else {
        None
    }
}

pub open spec fn opt_string_view(v: Option<String>) -> Option<Seq<char>> {
    match v {
        Some(s) => Some(s@),
        None => None,
    }
}

/// The file name of a path, if it has one.
pub fn file_name_exec(path: &str) -> (r: Option<String>)
    ensures
        opt_string_view(r) == file_name(path@),
{
    let cs = path_components(&chars_of(path));
    if cs.len() == 0 {
        return None;
    }
    assert(comp_views(cs@).last() == cs@[cs.len() - 1]@);
    match &cs[cs.len() - 1] {
        PathComponent::Normal(n) => Some(string_of(n.as_slice())),
        _ => None,
    }
}

/// The name a downloaded file is saved under: the last name of the requested
/// path, so that no directory part (`..` among them) can lead elsewhere.
pub fn safe_file_name(filename: &str) -> (r: Option<String>)
    ensures
        opt_string_view(r) == file_name(filename@),
{
    file_name_exec(filename)
}

/// The name a download is saved under is one plain name: not empty, without
/// `/`, and neither `.` nor `..`; joined to the download directory, it stays
/// in that directory.
pub proof fn lemma_safe_name_is_plain(path: Seq<char>)
    requires
        file_name(path) is Some,
    ensures
        file_name(path)->0.len() > 0,
        !file_name(path)->0.contains('/'),
        file_name(path)->0 != "."@,
        file_name(path)->0 != ".."@,
{
    crate::paths::lemma_normal_components(path, components(path).len() - 1);
}

/// The last index of `c` in `s`.
pub open spec fn last_index_of(s: Seq<char>, c: char) -> Option<int> {
    if exists|i: int| 0 <= i < s.len() && s[i] == c {
        Some(choose|i: int| 0 <= i < s.len() && s[i] == c && forall|j: int| i < j < s.len() ==> s[j] != c)
    } else {
        None
    }
}

/// `Path::extension`: what follows the last `.` of the file name, unless that
/// `.` is its first character.
pub open spec fn extension(p: Seq<char>) -> Option<Seq<char>> {
    match file_name(p) {
        Some(f) => match last_index_of(f, '.') {
            Some(i) => if i == 0 {
                None
            } else {
                Some(f.skip(i + 1))
            },
            None => None,
        },
        None => None,
    }
}

fn last_dot(s: &Vec<char>) -> (r: Option<usize>)
    ensures
        match r {
            Some(i) => i < s.len() && last_index_of(s@, '.') == Some(i as int),
            None => last_index_of(s@, '.') is None,
        },
{
    let mut i = s.len();
    while i > 0
        invariant
            i <= s.len(),
            forall|j: int| i <= j < s.len() ==> s@[j] != '.',
        decreases i,
    {
        if s[i - 1] == '.' {
            let k = i - 1;
            proof {
                let c = choose|m: int|
                    0 <= m < s@.len() && s@[m] == '.' && forall|j: int| m < j < s@.len() ==> s@[j] != '.';
                assert(0 <= k < s@.len() && s@[k as int] == '.' && forall|j: int| k < j < s@.len() ==> s@[j] != '.');
                if c < k {
                    assert(s@[k as int] != '.');
                } else if k < c {
                    assert(s@[c] != '.');
                }
            }
            return Some(k);
        }
        i -= 1;
    }
    None
}

/// The extension of a path, if it has one.
pub fn extension_exec(path: &str) -> (r: Option<Vec<char>>)
    ensures
        crate::text::opt_view(r) == extension(path@),
{
    match file_name_exec(path) {
        Some(f) => {
            let fc = chars_of(f.as_str());
            match last_dot(&fc) {
                Some(i) => if i == 0 {
                    None
                } else {
                    let e = slice_of(&fc, i + 1, fc.len());
                    assert(e@ =~= fc@.skip(i + 1));
                    Some(e)
                },
                None => None,
            }
        },
        None => None,
    }
}

/// Is this the path of a `.gguf` file, as the local scan reads it (the
/// extension exactly `gguf`)?
pub fn is_gguf_path(path: &str) -> (b: bool)
    ensures
        b == (extension(path@) == Some("gguf"@)),
{
    match extension_exec(path) {
        Some(e) => same_chars(&e, &chars_of("gguf")),
        None => false,
    }
}

/// The temporary name a download is written under before it is renamed.
pub fn part_file_name(safe_name: &str) -> (r: String)
    ensures
        r@ == safe_name@ + ".part"@,
{
    let mut r = String::from_str(safe_name);
    r.append(".part");
    r
}

/// The temporary file of a `.gguf` download is one that the cleanup of
/// interrupted downloads removes.
pub proof fn lemma_part_files_are_cleaned(name: Seq<char>)
    requires
        ".gguf"@.is_suffix_of(name),
    ensures
        ".gguf.part"@.is_suffix_of(name + ".part"@),
{
    reveal_strlit(".gguf");
    reveal_strlit(".part");
    reveal_strlit(".gguf.part");
    let t = name + ".part"@;
    assert(".gguf.part"@ =~= ".gguf"@ + ".part"@);
    assert(name.subrange(name.len() - 5, name.len() as int) =~= ".gguf"@);
    assert(t.subrange(t.len() - 10, t.len() as int) =~= name.subrange(name.len() - 5, name.len() as int)
        + ".part"@);
}

/// Is this a partial download left behind (`.gguf.part`)?
pub fn is_orphan_part(path: &str) -> (b: bool)
    ensures
        b == ".gguf.part"@.is_suffix_of(path@),
{
    let p = chars_of(path);
    let suffix = chars_of(".gguf.part");
    if suffix.len() > p.len() {
        return false;
    }
    let start = p.len() - suffix.len();
    let tail = slice_of(&p, start, p.len());
    let b = same_chars(&tail, &suffix);
    proof {
        if b {
            assert forall|i: int| 0 <= i < suffix@.len() implies suffix@[i] == p@[p@.len() - suffix@.len() + i] by {
                assert(tail@[i] == p@[start + i]);
            }
        } else if suffix@.is_suffix_of(p@) {
            assert(tail@ =~= suffix@);
        }
    }
    b
}

// ── HuggingFace repository listings ──────────────────────────────────────────

pub open spec fn or_empty(v: Option<Seq<char>>) -> Seq<char> {
    match v {
        Some(t) => t,
        None => Seq::empty(),
    }
}

/// The plain values of a listing entry.
pub open spec fn hf_entry_view(e: HfEntry) -> (Option<Seq<char>>, Option<Seq<char>>, Option<u64>) {
    (opt_string_view(e.entry_type), opt_string_view(e.path), e.size)
}

pub open spec fn hf_entry_views(v: Seq<HfEntry>) -> Seq<(Option<Seq<char>>, Option<Seq<char>>, Option<u64>)> {
    Seq::new(v.len(), |i: int| hf_entry_view(v[i]))
}

/// A remote file name is taken for an mmproj when it mentions `mmproj`,
/// ignoring ASCII case.
pub open spec fn remote_is_mmproj(path: Seq<char>) -> bool {
    contains(ascii_lower(path), "mmproj"@)
}

/// Does the listing keep this entry: a file whose extension is `gguf`
/// (ignoring ASCII case), and of the kind the filter asks for (`"mmproj"`
/// keeps mmprojs only, `"model"` keeps the others, anything else keeps all)?
pub open spec fn hf_keeps(
    e: (Option<Seq<char>>, Option<Seq<char>>, Option<u64>),
    filter: Seq<char>,
) -> bool {
    let path = or_empty(e.1);
    &&& or_empty(e.0) == "file"@
    &&& match extension(path) {
        Some(x) => ascii_lower(x) == "gguf"@,
        None => false,
    }
    &&& !(filter == "mmproj"@ && !remote_is_mmproj(path))
    &&& !(filter == "model"@ && remote_is_mmproj(path))
}

/// The files an entry list offers, in listing order, as (name, size).
pub open spec fn hf_candidates(
    entries: Seq<(Option<Seq<char>>, Option<Seq<char>>, Option<u64>)>,
    filter: Seq<char>,
) -> Seq<(Seq<char>, u64)>
    decreases entries.len(),
{
    if entries.len() == 0 {
        Seq::empty()
    } else {
        let e = entries.last();
        let rest = hf_candidates(entries.drop_last(), filter);
        if hf_keeps(e, filter) {
            rest.push(
                (
                    or_empty(e.1),
                    match e.2 {
                        Some(n) => n,
                        None => 0,
                    },
                ),
            )
        } else {
            rest
        }
    }
}

pub open spec fn hf_file_views(v: Seq<HfModelFile>) -> Seq<(Seq<char>, u64)> {
    Seq::new(v.len(), |i: int| (v[i].name@, v[i].size_bytes))
}

fn opt_or_empty(v: &Option<String>) -> (r: Vec<char>)
    ensures
        r@ == or_empty(opt_string_view(*v)),
{
    match v {
        Some(t) => chars_of(t.as_str()),
        None => Vec::new(),
    }
}

fn hf_keeps_exec(e: &HfEntry, filter: &str) -> (b: bool)
    ensures
        b == hf_keeps(hf_entry_view(*e), filter@),
{
    let t = opt_or_empty(&e.entry_type);
    if !same_chars(&t, &chars_of("file")) {
        return false;
    }
    let path = opt_or_empty(&e.path);
    let ps = string_of(path.as_slice());
    let gguf = match extension_exec(ps.as_str()) {
        Some(x) => same_chars(&ascii_lower_exec(&x), &chars_of("gguf")),
        None => false,
    };
    if !gguf {
        return false;
    }
    let is_mmproj = contains_exec(&ascii_lower_exec(&path), &chars_of("mmproj"));
    let f = chars_of(filter);
    if same_chars(&f, &chars_of("mmproj")) && !is_mmproj {
        return false;
    }
    if same_chars(&f, &chars_of("model")) && is_mmproj {
        return false;
    }
    true
}

/// The `.gguf` files of a repository listing, filtered by kind (`"model"`,
/// `"mmproj"` or `"all"`, by the file name), sorted by name; files with the
/// same name keep their listing order.
pub fn select_hf_files(entries: &Vec<HfEntry>, filter: &str) -> (r: Vec<HfModelFile>)
    ensures
        hf_file_views(r@) == sort_by_key(hf_candidates(hf_entry_views(entries@), filter@)),
{
    let ghost all = hf_entry_views(entries@);
    let mut picked: Vec<(String, u64)> = Vec::new();
    let mut i: usize = 0;
    while i < entries.len()
        invariant
            i <= entries.len(),
            all == hf_entry_views(entries@),
            keyed_view(picked@) == hf_candidates(all.take(i as int), filter@),
        decreases entries.len() - i,
    {
        let e = &entries[i];
        proof {
            assert(all.take(i + 1).drop_last() =~= all.take(i as int));
            assert(all.take(i + 1).last() == hf_entry_view(entries@[i as int]));
        }
        if hf_keeps_exec(e, filter) {
            let name = string_of(opt_or_empty(&e.path).as_slice());
            let size: u64 = match e.size {
                Some(n) => n,
                None => 0,
            };
            let ghost before = picked@;
            picked.push((name, size));
            proof {
                assert(keyed_view(picked@) =~= keyed_view(before).push((name@, size)));
            }
        }
        i += 1;
    }
    proof {
        assert(all.take(i as int) =~= all);
    }
    let sorted = sort_keyed(picked);
    let mut out: Vec<HfModelFile> = Vec::new();
    let mut k: usize = 0;
    while k < sorted.len()
        invariant
            k <= sorted.len(),
            hf_file_views(out@) == keyed_view(sorted@).take(k as int),
        decreases sorted.len() - k,
    {
        let ghost before = out@;
        out.push(HfModelFile { name: sorted[k].0.clone(), size_bytes: sorted[k].1 });
        proof {
            assert(hf_file_views(out@) =~= hf_file_views(before).push((sorted@[k as int].0@, sorted@[k as int].1)));
            assert(keyed_view(sorted@).take(k + 1) =~= keyed_view(sorted@).take(k as int).push(keyed_view(sorted@)[k as int]));
        }
        k += 1;
    }
    proof {
        assert(keyed_view(sorted@).take(k as int) =~= keyed_view(sorted@));
    }
    out
}

/// A repository listing comes in name order, and holds each file that the
/// listing kept, as often as it was offered.
pub proof fn lemma_hf_listing_sorted(
    entries: Seq<(Option<Seq<char>>, Option<Seq<char>>, Option<u64>)>,
    filter: Seq<char>,
)
    ensures
        sorted_by_key(sort_by_key(hf_candidates(entries, filter))),
        sort_by_key(hf_candidates(entries, filter)).to_multiset() =~= hf_candidates(entries, filter).to_multiset(),
{
    lemma_sort_by_key(hf_candidates(entries, filter));
}

/// A repository id with no whitespace around it and no trailing `/` is used
/// in the addresses as it is.
pub proof fn lemma_plain_repo_unchanged(repo_id: Seq<char>)
    requires
        repo_id.len() > 0,
        !is_ws(repo_id[0]),
        !is_ws(repo_id.last()),
        repo_id.last() != '/',
    ensures
        hf_repo(repo_id) == repo_id,
{
    assert(trim_start(repo_id) == repo_id);
    assert(trim_end(repo_id) == repo_id);
}

/// `s` without the characters `c` at its end.
pub open spec fn strip_trailing(s: Seq<char>, c: char) -> Seq<char>
    decreases s.len(),
{
    if s.len() > 0 && s.last() == c {
        strip_trailing(s.drop_last(), c)
    } else {
        s
    }
}

/// A repository id as the addresses use it: trimmed, without trailing `/`.
pub open spec fn hf_repo(repo_id: Seq<char>) -> Seq<char> {
    strip_trailing(trim(repo_id), '/')
}

/// `s` without the characters `c` at its end.
pub fn strip_trailing_exec(s: &Vec<char>, c: char) -> (r: Vec<char>)
    ensures
        r@ == strip_trailing(s@, c),
{
    let mut j = s.len();
    assert(s@.take(j as int) =~= s@);
    while j > 0 && s[j - 1] == c
        invariant
            j <= s.len(),
            strip_trailing(s@, c) == strip_trailing(s@.take(j as int), c),
        decreases j,
    {
        assert(s@.take(j as int).drop_last() =~= s@.take(j - 1));
        j -= 1;
    }
    proof {
        let u = s@.take(j as int);
        assert(strip_trailing(u, c) == u);
    }
    slice_of(s, 0, j)
}

/// The repository id as the addresses use it.
pub fn hf_repo_id(repo_id: &str) -> (r: String)
    ensures
        r@ == hf_repo(repo_id@),
{
    let t = trimmed(&chars_of(repo_id));
    string_of(strip_trailing_exec(&t, '/').as_slice())
}

/// The address of a repository's file listing.
pub fn hf_tree_url(repo_id: &str) -> (r: String)
    ensures
        r@ == "https://huggingface.co/api/models/"@ + hf_repo(repo_id@) + "/tree/main"@,
{
    let repo = hf_repo_id(repo_id);
    let mut r = String::from_str("https://huggingface.co/api/models/");
    r.append(repo.as_str());
    r.append("/tree/main");
    r
}

/// The address a file of a repository is downloaded from.
pub fn hf_resolve_url(repo_id: &str, filename: &str) -> (r: String)
    ensures
        r@ == "https://huggingface.co/"@ + hf_repo(repo_id@) + "/resolve/main/"@ + filename@,
{
    let repo = hf_repo_id(repo_id);
    let mut r = String::from_str("https://huggingface.co/");
    r.append(repo.as_str());
    r.append("/resolve/main/");
    r.append(filename);
    r
}

/// The `Authorization` header value for a HuggingFace token: none when the
/// trimmed token is empty, else `Bearer` and the trimmed token.
pub fn hf_auth_header(token: &str) -> (r: Option<String>)
    ensures
        trim(token@).len() == 0 ==> r is None,
        trim(token@).len() > 0 ==> r is Some && r->0@ == "Bearer "@ + trim(token@),
{
    let t = trimmed(&chars_of(token));
    if t.len() == 0 {
        None
    } else {
        let ts = string_of(t.as_slice());
        let mut r = String::from_str("Bearer ");
        r.append(ts.as_str());
        Some(r)
    }
}

/// The progress event of a download: sent only when the response gave its
/// length.
pub fn progress_event(repo_id: &str, filename: &str, bytes_downloaded: u64, total_bytes: u64) -> (r:
    Option<DownloadProgress>)
    ensures
        total_bytes == 0 ==> r is None,
        total_bytes > 0 ==> (r matches Some(p) && p.repo_id@ == repo_id@ && p.filename@ == filename@
            && p.bytes_downloaded == bytes_downloaded && p.total_bytes == total_bytes),
{
    if total_bytes == 0 {
        None
    } else {
        Some(
            DownloadProgress {
                repo_id: String::from_str(repo_id),
                filename: String::from_str(filename),
                bytes_downloaded,
                total_bytes,
            },
        )
    }
}

// ── the directory walk of a scan ─────────────────────────────────────────────

/// A scan in progress: the directories still to list (each with the number
/// of levels that may still be entered from it), the kind asked for, the
/// window of the requested page, the matches counted so far and the page's
/// files.
pub struct ScanWalk {
    pub stack: Vec<(String, usize)>,
    pub filter: Option<GgufKind>,
    pub start: usize,
    pub end: usize,
    pub total: usize,
    pub items: Vec<ScannedModel>,
}

pub open spec fn dir_views(s: Seq<(String, usize)>) -> Seq<(Seq<char>, usize)> {
    Seq::new(s.len(), |i: int| (s[i].0@, s[i].1))
}

pub open spec fn scanned_view(m: ScannedModel) -> (Seq<char>, Seq<char>, u64, GgufKind) {
    (m.path@, m.name@, m.size_bytes, m.kind)
}

pub open spec fn scanned_views(v: Seq<ScannedModel>) -> Seq<(Seq<char>, Seq<char>, u64, GgufKind)> {
    Seq::new(v.len(), |i: int| scanned_view(v[i]))
}

/// The next directory to list: the last one pushed that may still be
/// entered (those that may not are dropped), and the directories left.
pub open spec fn pop_live(s: Seq<(Seq<char>, usize)>) -> (Option<(Seq<char>, usize)>, Seq<(Seq<char>, usize)>)
    decreases s.len(),
{
    if s.len() == 0 {
        (None, s)
    } else if s.last().1 == 0 {
        pop_live(s.drop_last())
    } else {
        (Some(s.last()), s.drop_last())
    }
}

/// The name a scanned file is listed under: its file name, or empty.
pub open spec fn listed_name(path: Seq<char>) -> Seq<char> {
    match file_name(path) {
        Some(n) => n,
        None => Seq::empty(),
    }
}

/// A `.gguf` file that the walk finds: its path, size and kind.
pub open spec fn listed(f: (Seq<char>, u64, GgufKind)) -> (Seq<char>, Seq<char>, u64, GgufKind) {
    (f.0, listed_name(f.0), f.1, f.2)
}

/// What one found file does to the count of matches and the page's files.
pub open spec fn scan_step(
    st: (nat, Seq<(Seq<char>, Seq<char>, u64, GgufKind)>),
    filter: Option<GgufKind>,
    start: nat,
    end: nat,
    f: (Seq<char>, u64, GgufKind),
) -> (nat, Seq<(Seq<char>, Seq<char>, u64, GgufKind)>) {
    if !(filter is None || filter == Some(f.2)) {
        st
    } else if start < st.0 + 1 <= end {
        (st.0 + 1, st.1.push(listed(f)))
    } else {
        (st.0 + 1, st.1)
    }
}

/// The count of matches and the page's files after the walk has found
/// `files`, in that order.
pub open spec fn scan_files(
    files: Seq<(Seq<char>, u64, GgufKind)>,
    filter: Option<GgufKind>,
    start: nat,
    end: nat,
) -> (nat, Seq<(Seq<char>, Seq<char>, u64, GgufKind)>)
    decreases files.len(),
{
    if files.len() == 0 {
        (0, Seq::empty())
    } else {
        scan_step(scan_files(files.drop_last(), filter, start, end), filter, start, end, files.last())
    }
}

/// The found files that the filter wants, in the order found.
pub open spec fn matching_files(files: Seq<(Seq<char>, u64, GgufKind)>, filter: Option<GgufKind>) -> Seq<
    (Seq<char>, u64, GgufKind),
>
    decreases files.len(),
{
    if files.len() == 0 {
        Seq::empty()
    } else {
        let m = matching_files(files.drop_last(), filter);
        if filter is None || filter == Some(files.last().2) {
            m.push(files.last())
        } else {
            m
        }
    }
}

/// `n`, or `len` when `n` lies past it.
pub open spec fn capped_at(n: nat, len: nat) -> int {
    if n <= len {
        n as int
    } else {
        len as int
    }
}

/// A scan counts every match once and lists exactly the matches numbered
/// after `start` and up to `end`, in the order found: for the files a walk
/// finds, the count is the number of matches, and the page holds the matches
/// in that window (none when the window lies past the last match).
pub proof fn lemma_scan_lists_window(
    files: Seq<(Seq<char>, u64, GgufKind)>,
    filter: Option<GgufKind>,
    start: nat,
    end: nat,
)
    requires
        start <= end,
    ensures
        ({
            let m = matching_files(files, filter);
            scan_files(files, filter, start, end) == (
                m.len(),
                m.subrange(capped_at(start, m.len()), capped_at(end, m.len())).map_values(|f| listed(f)),
            )
        }),
    decreases files.len(),
{
    if files.len() > 0 {
        let init = files.drop_last();
        let f = files.last();
        lemma_scan_lists_window(init, filter, start, end);
        let m0 = matching_files(init, filter);
        let m = matching_files(files, filter);
        let n = m0.len();
        if filter is None || filter == Some(f.2) {
            assert(m == m0.push(f));
            if start < n + 1 <= end {
                assert(m.subrange(start as int, (n + 1) as int) =~= m0.subrange(start as int, n as int).push(f));
                assert(m.subrange(start as int, (n + 1) as int).map_values(|f| listed(f)) =~= m0.subrange(
                    start as int,
                    n as int,
                ).map_values(|f| listed(f)).push(listed(f)));
            } else if n + 1 <= start {
                assert(m.subrange(capped_at(start, m.len()), capped_at(end, m.len())).map_values(|f| listed(f))
                    =~= Seq::empty());
                assert(m0.subrange(capped_at(start, n), capped_at(end, n)).map_values(|f| listed(f)) =~= Seq::empty());
            } else {
                assert(m.subrange(start as int, end as int) =~= m0.subrange(start as int, end as int));
            }
        }
    } else {
        assert(matching_files(files, filter).subrange(0, 0).map_values(|f| listed(f)) =~= Seq::empty());
    }
}

impl ScanWalk {
    /// A scan of `root`, entering at most `max_depth` levels, for page
    /// `page` of `page_size` matches of the kind `filter` asks for.
    pub fn new(root: String, max_depth: usize, filter: Option<GgufKind>, page: usize, page_size: usize) -> (w:
        ScanWalk)
        requires
            page_start(page as nat, page_size as nat) + page_size <= usize::MAX,
        ensures
            dir_views(w.stack@) == seq![(root@, max_depth)],
            w.filter == filter,
            w.start == page_start(page as nat, page_size as nat),
            w.end == w.start + page_size,
            w.total == 0,
            w.items@.len() == 0,
    {
        let (start, end) = page_window(page, page_size);
        let mut stack: Vec<(String, usize)> = Vec::new();
        stack.push((root, max_depth));
        assert(dir_views(stack@) =~= seq![(root@, max_depth)]);
        ScanWalk { stack, filter, start, end, total: 0, items: Vec::new() }
    }

    /// The next directory to list, with the levels that may be entered from
    /// it (never 0); `None` when the walk is over.
    pub fn next_dir(&mut self) -> (r: Option<(String, usize)>)
        ensures
            dir_views(final(self).stack@) == pop_live(dir_views(old(self).stack@)).1,
            match r {
                Some(d) => pop_live(dir_views(old(self).stack@)).0 == Some((d.0@, d.1)) && d.1 > 0,
                None => pop_live(dir_views(old(self).stack@)).0 is None,
            },
            final(self).filter == old(self).filter,
            final(self).start == old(self).start,
            final(self).end == old(self).end,
            final(self).total == old(self).total,
            final(self).items@ == old(self).items@,
    {
        let ghost s0 = dir_views(self.stack@);
        loop
            invariant
                s0 == dir_views(old(self).stack@),
                pop_live(dir_views(self.stack@)) == pop_live(s0),
                self.filter == old(self).filter,
                self.start == old(self).start,
                self.end == old(self).end,
                self.total == old(self).total,
                self.items@ == old(self).items@,
            decreases self.stack.len(),
        {
            let ghost before = dir_views(self.stack@);
            match self.stack.pop() {
                None => {
                    assert(before.len() == 0);
                    assert(dir_views(self.stack@) =~= before);
                    return None;
                },
                Some(d) => {
                    assert(before.last() == (d.0@, d.1));
                    assert(dir_views(self.stack@) =~= before.drop_last());
                    if d.1 > 0 {
                        assert(pop_live(before) == (Some(before.last()), before.drop_last()));
                        return Some(d);
                    }
                },
            }
        }
    }

    /// A subdirectory found while listing a directory from which `depth`
    /// levels may be entered: it is listed later, with one level less.
    pub fn push_subdir(&mut self, path: String, depth: usize)
        requires
            depth > 0,
        ensures
            dir_views(final(self).stack@) == dir_views(old(self).stack@).push((path@, (depth - 1) as usize)),
            final(self).filter == old(self).filter,
            final(self).start == old(self).start,
            final(self).end == old(self).end,
            final(self).total == old(self).total,
            final(self).items@ == old(self).items@,
    {
        let ghost before = dir_views(self.stack@);
        self.stack.push((path, depth - 1));
        assert(dir_views(self.stack@) =~= before.push((path@, (depth - 1) as usize)));
    }

    /// A `.gguf` file of kind `kind` found by the walk: a match when the
    /// filter wants its kind; a match whose number falls in the page's
    /// window is listed.
    pub fn add_file(&mut self, path: String, size_bytes: u64, kind: GgufKind)
        requires
            old(self).total < usize::MAX,
        ensures
            dir_views(final(self).stack@) == dir_views(old(self).stack@),
            final(self).filter == old(self).filter,
            final(self).start == old(self).start,
            final(self).end == old(self).end,
            !(old(self).filter is None || old(self).filter == Some(kind)) ==> final(self).total == old(self).total
                && final(self).items@ == old(self).items@,
            (final(self).total as nat, scanned_views(final(self).items@)) == scan_step(
                (old(self).total as nat, scanned_views(old(self).items@)),
                old(self).filter,
                old(self).start as nat,
                old(self).end as nat,
                (path@, size_bytes, kind),
            ),
            (old(self).filter is None || old(self).filter == Some(kind)) ==> {
                &&& final(self).total == old(self).total + 1
                &&& old(self).start < final(self).total <= old(self).end ==> scanned_views(final(self).items@)
                    == scanned_views(old(self).items@).push((path@, listed_name(path@), size_bytes, kind))
                &&& !(old(self).start < final(self).total <= old(self).end) ==> final(self).items@
                    == old(self).items@
            },
    {
        if !wants_kind(self.filter, kind) {
            return;
        }
        let (t, in_page) = count_match(self.total, self.start, self.end);
        self.total = t;
        if in_page {
            let name = match file_name_exec(path.as_str()) {
                Some(n) => n,
                None => String::new(),
            };
            let ghost before = scanned_views(self.items@);
            self.items.push(ScannedModel { path, name, size_bytes, kind });
            assert(scanned_views(self.items@) =~= before.push((path@, listed_name(path@), size_bytes, kind)));
        }
    }

    /// The number of matches and the page's files.
    pub fn finish(self) -> (r: (usize, Vec<ScannedModel>))
        ensures
            r.0 == self.total,
            r.1@ == self.items@,
    {
        (self.total, self.items)
    }
}

} // verus!
