//! Character-level text utilities with their specifications.

use vstd::prelude::*;

verus! {

/// The characters of a string slice, in order.
pub(crate) fn chars_of(s: &str) -> (v: Vec<char>)
    ensures
        v@ == s@,
{
    broadcast use vstd::string::axiom_spec_iter;

    let mut v: Vec<char> = Vec::new();
    for c in it: s.chars()
        invariant
            v@ == it.seq().take(it.index() as int),
    {
        v.push(c);
        assert(v@ =~= it.seq().take(it.index() + 1));
    }
    assert(v@ =~= s@);
    v
}

/// A string holding exactly the given characters. Calls `String::from_iter`
/// on them; trusted to give a string whose characters (its view) are these.
#[verifier::external_body]
pub(crate) fn string_of(cs: &[char]) -> (s: String)
    ensures
        s@ == cs@,
{
    String::from_iter(cs.iter())
}

/// Unicode `White_Space` property, as used by `char::is_whitespace`.
pub open spec fn is_ws(c: char) -> bool {
    ||| c == '\t' || c == '\n' || c == '\x0B' || c == '\x0C' || c == '\r' || c == ' '
    ||| c == '\u{85}' || c == '\u{A0}' || c == '\u{1680}'
    ||| ('\u{2000}' <= c && c <= '\u{200A}')
    ||| c == '\u{2028}' || c == '\u{2029}' || c == '\u{202F}' || c == '\u{205F}' || c == '\u{3000}'
}

pub fn is_ws_exec(c: char) -> (b: bool)
    ensures
        b == is_ws(c),
{
    c == '\t' || c == '\n' || c == '\x0B' || c == '\x0C' || c == '\r' || c == ' ' || c == '\u{85}'
        || c == '\u{A0}' || c == '\u{1680}' || ('\u{2000}' <= c && c <= '\u{200A}') || c == '\u{2028}'
        || c == '\u{2029}' || c == '\u{202F}' || c == '\u{205F}' || c == '\u{3000}'
}


/// A copy of `s[a..b]`.
pub fn slice_of(s: &Vec<char>, a: usize, b: usize) -> (r: Vec<char>)
    requires
        a <= b <= s.len(),
    ensures
        r@ == s@.subrange(a as int, b as int),
{
    let mut r: Vec<char> = Vec::new();
    let mut i = a;
    while i < b
        invariant
            a <= i <= b <= s.len(),
            r@ == s@.subrange(a as int, i as int),
        decreases b - i,
    {
        r.push(s[i]);
        i += 1;
    }
    r
}

// ── trimming ────────────────────────────────────────────────────────────────

pub open spec fn trim_start(s: Seq<char>) -> Seq<char>
    decreases s.len(),
{
    if s.len() > 0 && is_ws(s[0]) {
        trim_start(s.drop_first())
    } else {
        s
    }
}

pub open spec fn trim_end(s: Seq<char>) -> Seq<char>
    decreases s.len(),
{
    if s.len() > 0 && is_ws(s.last()) {
        trim_end(s.drop_last())
    } else {
        s
    }
}

/// `str::trim`: leading and trailing whitespace removed.
pub open spec fn trim(s: Seq<char>) -> Seq<char> {
    trim_end(trim_start(s))
}

proof fn lemma_trim_start_shape(s: Seq<char>)
    ensures
        trim_start(s).len() == 0 || !is_ws(trim_start(s)[0]),
    decreases s.len(),
{
    if s.len() > 0 && is_ws(s[0]) {
        lemma_trim_start_shape(s.drop_first());
    }
}

proof fn lemma_trim_end_shape(s: Seq<char>)
    ensures
        trim_end(s).len() == 0 || !is_ws(trim_end(s).last()),
        trim_end(s).len() <= s.len(),
        trim_end(s) == s.take(trim_end(s).len() as int),
    decreases s.len(),
{
    if s.len() > 0 && is_ws(s.last()) {
        lemma_trim_end_shape(s.drop_last());
        assert(trim_end(s) == trim_end(s.drop_last()));
        assert(s.drop_last().take(trim_end(s).len() as int) =~= s.take(trim_end(s).len() as int));
    } else {
        assert(s.take(s.len() as int) =~= s);
    }
}

/// Trimming twice is trimming once.
pub proof fn lemma_trim_idempotent(s: Seq<char>)
    ensures
        trim(trim(s)) == trim(s),
{
    let a = trim_start(s);
    let t = trim_end(a);
    lemma_trim_start_shape(s);
    lemma_trim_end_shape(a);
    if t.len() > 0 {
        assert(a.take(t.len() as int)[0] == a[0]);
    }
    assert(trim_start(t) == t);
    lemma_trim_end_shape(t);
    assert(trim_end(t) == t);
}

/// Index of the first character of `s[a..b]` that is not whitespace, or `b`.
pub fn skip_ws(s: &Vec<char>, a: usize, b: usize) -> (i: usize)
    requires
        a <= b <= s.len(),
    ensures
        a <= i <= b,
        trim_start(s@.subrange(a as int, b as int)) == s@.subrange(i as int, b as int),
{
    let mut i = a;
    while i < b && is_ws_exec(s[i])
        invariant
            a <= i <= b <= s.len(),
            trim_start(s@.subrange(a as int, b as int)) == trim_start(s@.subrange(i as int, b as int)),
        decreases b - i,
    {
        assert(s@.subrange(i as int, b as int).drop_first() =~= s@.subrange(i + 1, b as int));
        i += 1;
    }
    i
}

/// End index of `s[a..b]` once trailing whitespace is dropped.
pub fn skip_ws_back(s: &Vec<char>, a: usize, b: usize) -> (j: usize)
    requires
        a <= b <= s.len(),
    ensures
        a <= j <= b,
        trim_end(s@.subrange(a as int, b as int)) == s@.subrange(a as int, j as int),
{
    let mut j = b;
    while j > a && is_ws_exec(s[j - 1])
        invariant
            a <= j <= b <= s.len(),
            trim_end(s@.subrange(a as int, b as int)) == trim_end(s@.subrange(a as int, j as int)),
        decreases j - a,
    {
        assert(s@.subrange(a as int, j as int).drop_last() =~= s@.subrange(a as int, j - 1));
        j -= 1;
    }
    j
}

/// Bounds of `trim(s[a..b])` inside `s`.
pub fn trim_bounds(s: &Vec<char>, a: usize, b: usize) -> (r: (usize, usize))
    requires
        a <= b <= s.len(),
    ensures
        a <= r.0 <= r.1 <= b,
        trim(s@.subrange(a as int, b as int)) == s@.subrange(r.0 as int, r.1 as int),
{
    let i = skip_ws(s, a, b);
    let j = skip_ws_back(s, i, b);
    (i, j)
}

/// `str::trim` on a character vector.
pub fn trimmed(s: &Vec<char>) -> (r: Vec<char>)
    ensures
        r@ == trim(s@),
{
    let (i, j) = trim_bounds(s, 0, s.len());
    assert(s@.subrange(0, s.len() as int) =~= s@);
    slice_of(s, i, j)
}

// ── searching ───────────────────────────────────────────────────────────────

/// `p` occurs in `s` starting at index `i`.
pub open spec fn matches_at(s: Seq<char>, p: Seq<char>, i: int) -> bool {
    0 <= i && i + p.len() <= s.len() && s.subrange(i, i + p.len()) == p
}

/// `str::find`: the first index at which `p` occurs in `s`.
pub open spec fn find(s: Seq<char>, p: Seq<char>) -> Option<int> {
    if exists|i: int| matches_at(s, p, i) {
        Some(
            choose|i: int|
                matches_at(s, p, i) && forall|j: int| 0 <= j < i ==> !matches_at(s, p, j),
        )
    } else {
        None
    }
}

/// `str::contains`.
pub open spec fn contains(s: Seq<char>, p: Seq<char>) -> bool {
    exists|i: int| matches_at(s, p, i)
}

pub proof fn lemma_find_first(s: Seq<char>, p: Seq<char>, i: int)
    requires
        matches_at(s, p, i),
        forall|j: int| 0 <= j < i ==> !matches_at(s, p, j),
    ensures
        find(s, p) == Some(i),
{
    let k = choose|k: int| matches_at(s, p, k) && forall|j: int| 0 <= j < k ==> !matches_at(s, p, j);
    assert(matches_at(s, p, k) && forall|j: int| 0 <= j < k ==> !matches_at(s, p, j));
    if k < i {
        assert(!matches_at(s, p, k));
    } else if i < k {
        assert(!matches_at(s, p, i));
    }
}

pub proof fn lemma_find_some(s: Seq<char>, p: Seq<char>)
    requires
        find(s, p) is Some,
    ensures
        matches_at(s, p, find(s, p)->0),
        forall|j: int| 0 <= j < find(s, p)->0 ==> !matches_at(s, p, j),
        0 <= find(s, p)->0 && find(s, p)->0 + p.len() <= s.len(),
{
    let w = choose|i: int| matches_at(s, p, i);
    lemma_first_match_exists(s, p, w);
}

proof fn lemma_first_match_exists(s: Seq<char>, p: Seq<char>, w: int)
    requires
        matches_at(s, p, w),
    ensures
        exists|i: int| matches_at(s, p, i) && forall|j: int| 0 <= j < i ==> !matches_at(s, p, j),
    decreases w,
{
    if exists|j: int| 0 <= j < w && matches_at(s, p, j) {
        let j = choose|j: int| 0 <= j < w && matches_at(s, p, j);
        lemma_first_match_exists(s, p, j);
    } else {
        assert(matches_at(s, p, w) && forall|j: int| 0 <= j < w ==> !matches_at(s, p, j));
    }
}

/// Does `p` occur in `s` at index `i`?
pub fn matches_at_exec(s: &Vec<char>, p: &Vec<char>, i: usize) -> (b: bool)
    ensures
        b == matches_at(s@, p@, i as int),
{
    if i > s.len() || p.len() > s.len() - i {
        return false;
    }
    let mut k: usize = 0;
    while k < p.len()
        invariant
            i + p.len() <= s.len(),
            k <= p.len(),
            forall|m: int| 0 <= m < k ==> s@[i + m] == p@[m],
        decreases p.len() - k,
    {
        if s[i + k] != p[k] {
            assert(s@.subrange(i as int, i + p.len())[k as int] != p@[k as int]);
            return false;
        }
        k += 1;
    }
    assert(s@.subrange(i as int, i + p.len()) =~= p@);
    true
}

/// `str::find`, as a character index.
pub fn find_exec(s: &Vec<char>, p: &Vec<char>) -> (r: Option<usize>)
    ensures
        r matches Some(i) ==> find(s@, p@) == Some(i as int),
        r is None ==> find(s@, p@) is None,
        r is None <==> !contains(s@, p@),
{
    let mut i: usize = 0;
    while i < s.len()
        invariant
            i <= s.len(),
            forall|j: int| 0 <= j < i ==> !matches_at(s@, p@, j),
        decreases s.len() - i,
    {
        if matches_at_exec(s, p, i) {
            proof {
                lemma_find_first(s@, p@, i as int);
            }
            return Some(i);
        }
        i += 1;
    }
    if matches_at_exec(s, p, i) {
        proof {
            lemma_find_first(s@, p@, i as int);
        }
        return Some(i);
    }
    assert forall|j: int| !matches_at(s@, p@, j) by {
        if 0 <= j && j <= i {
        }
    }
    None
}

/// `str::contains`.
pub fn contains_exec(s: &Vec<char>, p: &Vec<char>) -> (b: bool)
    ensures
        b == contains(s@, p@),
{
    find_exec(s, p).is_some()
}

/// `str::starts_with`.
pub fn starts_with(s: &Vec<char>, p: &Vec<char>) -> (b: bool)
    ensures
        b == p@.is_prefix_of(s@),
{
    let b = matches_at_exec(s, p, 0);
    proof {
        if b {
            assert(s@.subrange(0, p@.len() as int) == p@);
            assert forall|i: int| 0 <= i < p@.len() implies p@[i] == s@[i] by {
                assert(s@.subrange(0, p@.len() as int)[i] == s@[i]);
            }
        } else if p@.is_prefix_of(s@) {
            assert(s@.subrange(0, p@.len() as int) =~= p@);
        }
    }
    b
}

// ── ASCII case ──────────────────────────────────────────────────────────────

pub open spec fn lower_char(c: char) -> char {
    if 'A' <= c && c <= 'Z' {
        ((c as u32) + 32) as char
    } else {
        c
    }
}

/// `str::to_ascii_lowercase`.
pub open spec fn ascii_lower(s: Seq<char>) -> Seq<char> {
    s.map_values(|c: char| lower_char(c))
}

pub fn lower_char_exec(c: char) -> (r: char)
    ensures
        r == lower_char(c),
{
    if 'A' <= c && c <= 'Z' {
        let u = c as u8;
        ((u + 32) as char)
    } else {
        c
    }
}

pub fn ascii_lower_exec(s: &Vec<char>) -> (r: Vec<char>)
    ensures
        r@ == ascii_lower(s@),
{
    let mut r: Vec<char> = Vec::new();
    let mut i: usize = 0;
    while i < s.len()
        invariant
            i <= s.len(),
            r@ =~= ascii_lower(s@.subrange(0, i as int)),
        decreases s.len() - i,
    {
        r.push(lower_char_exec(s[i]));
        i += 1;
    }
    assert(s@.subrange(0, s.len() as int) =~= s@);
    r
}


// ── splitting ───────────────────────────────────────────────────────────────

/// The character sequences held by a sequence of character vectors.
pub open spec fn views(v: Seq<Vec<char>>) -> Seq<Seq<char>> {
    v.map_values(|x: Vec<char>| x@)
}

/// The character sequence held by an optional character vector.
pub open spec fn opt_view(v: Option<Vec<char>>) -> Option<Seq<char>> {
    match v {
        Some(x) => Some(x@),
        None => None,
    }
}

/// `str::split(c)`: the pieces between occurrences of `c` (always at least one).
pub open spec fn split_char(s: Seq<char>, c: char) -> Seq<Seq<char>>
    decreases s.len(),
{
    if s.len() == 0 {
        seq![Seq::<char>::empty()]
    } else {
        let p = split_char(s.drop_last(), c);
        if s.last() == c {
            p.push(Seq::<char>::empty())
        } else {
            p.update(p.len() - 1, p.last().push(s.last()))
        }
    }
}

/// `split_char` always gives at least one piece.
pub proof fn lemma_split_len(s: Seq<char>, c: char)
    ensures
        split_char(s, c).len() >= 1,
    decreases s.len(),
{
    if s.len() > 0 {
        lemma_split_len(s.drop_last(), c);
    }
}

pub fn split_char_exec(s: &Vec<char>, c: char) -> (r: Vec<Vec<char>>)
    ensures
        views(r@) == split_char(s@, c),
        r.len() >= 1,
{
    let mut done: Vec<Vec<char>> = Vec::new();
    let mut cur: Vec<char> = Vec::new();
    let mut i: usize = 0;
    while i < s.len()
        invariant
            i <= s.len(),
            split_char(s@.subrange(0, i as int), c) =~= views(done@).push(cur@),
        decreases s.len() - i,
    {
        let ghost pre = s@.subrange(0, i + 1);
        let ghost old_done = views(done@);
        let ghost old_cur = cur@;
        assert(pre.drop_last() =~= s@.subrange(0, i as int));
        assert(pre.last() == s@[i as int]);
        assert(split_char(pre, c) == {
            let p = split_char(pre.drop_last(), c);
            if pre.last() == c {
                p.push(Seq::<char>::empty())
            } else {
                p.update(p.len() - 1, p.last().push(pre.last()))
            }
        });
        if s[i] == c {
            done.push(cur);
            cur = Vec::new();
            assert(views(done@) =~= old_done.push(old_cur));
        } else {
            cur.push(s[i]);
            assert(views(done@) =~= old_done);
        }
        i += 1;
    }
    assert(s@.subrange(0, s.len() as int) =~= s@);
    done.push(cur);
    done
}

pub open spec fn strip_cr(l: Seq<char>) -> Seq<char> {
    if l.len() > 0 && l.last() == '\r' {
        l.drop_last()
    } else {
        l
    }
}

/// `str::lines`: split at `\n`, a `\r` before the `\n` dropped, no empty last line.
pub open spec fn lines(s: Seq<char>) -> Seq<Seq<char>> {
    let p = split_char(s, '\n');
    let body = p.drop_last().map_values(|l: Seq<char>| strip_cr(l));
    if p.last().len() == 0 {
        body
    } else {
        body.push(p.last())
    }
}

pub fn lines_exec(s: &Vec<char>) -> (r: Vec<Vec<char>>)
    ensures
        views(r@) == lines(s@),
{
    let pieces = split_char_exec(s, '\n');
    let ghost p = views(pieces@);
    let n = pieces.len();
    let mut r: Vec<Vec<char>> = Vec::new();
    let mut i: usize = 0;
    while i + 1 < n
        invariant
            n == pieces.len(),
            n >= 1,
            p == views(pieces@),
            i + 1 <= n,
            views(r@) =~= p.drop_last().subrange(0, i as int).map_values(
                |l: Seq<char>| strip_cr(l),
            ),
        decreases n - i,
    {
        let piece = &pieces[i];
        let k = piece.len();
        let line = if k > 0 && piece[k - 1] == '\r' {
            slice_of(piece, 0, k - 1)
        } else {
            slice_of(piece, 0, k)
        };
        proof {
            assert(piece@ == p[i as int]);
            assert(piece@.subrange(0, k as int) =~= piece@);
            assert(k > 0 ==> piece@.subrange(0, k - 1) =~= piece@.drop_last());
        }
        let ghost old_r = views(r@);
        r.push(line);
        assert(views(r@) =~= old_r.push(line@));
        assert(p.drop_last().subrange(0, i + 1).map_values(|l: Seq<char>| strip_cr(l))
            =~= p.drop_last().subrange(0, i as int).map_values(|l: Seq<char>| strip_cr(l)).push(
            strip_cr(p[i as int]),
        ));
        i += 1;
    }
    assert(p.drop_last().subrange(0, i as int) =~= p.drop_last());
    let last = &pieces[n - 1];
    if last.len() > 0 {
        let l = slice_of(last, 0, last.len());
        assert(l@ =~= p.last());
        let ghost old_r = views(r@);
        r.push(l);
        assert(views(r@) =~= old_r.push(l@));
    }
    r
}

/// The leading characters of `s` that are not whitespace.
pub open spec fn take_word(s: Seq<char>) -> Seq<char>
    decreases s.len(),
{
    if s.len() == 0 || is_ws(s[0]) {
        Seq::<char>::empty()
    } else {
        seq![s[0]] + take_word(s.drop_first())
    }
}

pub open spec fn is_digit(c: char) -> bool {
    '0' <= c && c <= '9'
}

/// The leading ASCII digits of `s`.
pub open spec fn take_digits(s: Seq<char>) -> Seq<char>
    decreases s.len(),
{
    if s.len() == 0 || !is_digit(s[0]) {
        Seq::<char>::empty()
    } else {
        seq![s[0]] + take_digits(s.drop_first())
    }
}

pub fn is_digit_exec(c: char) -> (b: bool)
    ensures
        b == is_digit(c),
{
    '0' <= c && c <= '9'
}

/// End index of the run of characters of `s`, from `a`, that are not whitespace.
pub fn word_end(s: &Vec<char>, a: usize) -> (j: usize)
    requires
        a <= s.len(),
    ensures
        a <= j <= s.len(),
        take_word(s@.subrange(a as int, s.len() as int)) == s@.subrange(a as int, j as int),
{
    let mut j = a;
    while j < s.len() && !is_ws_exec(s[j])
        invariant
            a <= j <= s.len(),
            take_word(s@.subrange(a as int, s.len() as int)) == s@.subrange(a as int, j as int)
                + take_word(s@.subrange(j as int, s.len() as int)),
        decreases s.len() - j,
    {
        let ghost rest = s@.subrange(j as int, s.len() as int);
        assert(rest.drop_first() =~= s@.subrange(j + 1, s.len() as int));
        assert(take_word(rest) == seq![rest[0]] + take_word(rest.drop_first()));
        assert(s@.subrange(a as int, j as int) + seq![s@[j as int]] =~= s@.subrange(a as int, j + 1));
        assert(s@.subrange(a as int, j as int) + (seq![s@[j as int]] + take_word(rest.drop_first()))
            =~= s@.subrange(a as int, j + 1) + take_word(rest.drop_first()));
        j += 1;
    }
    assert(take_word(s@.subrange(j as int, s.len() as int)) =~= Seq::<char>::empty());
    assert(s@.subrange(a as int, j as int) + Seq::<char>::empty() =~= s@.subrange(a as int, j as int));
    j
}

/// End index of the run of ASCII digits of `s`, from `a`.
pub fn digits_end(s: &Vec<char>, a: usize) -> (j: usize)
    requires
        a <= s.len(),
    ensures
        a <= j <= s.len(),
        take_digits(s@.subrange(a as int, s.len() as int)) == s@.subrange(a as int, j as int),
{
    let mut j = a;
    while j < s.len() && is_digit_exec(s[j])
        invariant
            a <= j <= s.len(),
            take_digits(s@.subrange(a as int, s.len() as int)) == s@.subrange(a as int, j as int)
                + take_digits(s@.subrange(j as int, s.len() as int)),
        decreases s.len() - j,
    {
        let ghost rest = s@.subrange(j as int, s.len() as int);
        assert(rest.drop_first() =~= s@.subrange(j + 1, s.len() as int));
        assert(take_digits(rest) == seq![rest[0]] + take_digits(rest.drop_first()));
        assert(s@.subrange(a as int, j as int) + seq![s@[j as int]] =~= s@.subrange(a as int, j + 1));
        assert(s@.subrange(a as int, j as int) + (seq![s@[j as int]] + take_digits(rest.drop_first()))
            =~= s@.subrange(a as int, j + 1) + take_digits(rest.drop_first()));
        j += 1;
    }
    assert(take_digits(s@.subrange(j as int, s.len() as int)) =~= Seq::<char>::empty());
    assert(s@.subrange(a as int, j as int) + Seq::<char>::empty() =~= s@.subrange(a as int, j as int));
    j
}

/// `str::split_whitespace().next()`.
pub open spec fn first_word(s: Seq<char>) -> Option<Seq<char>> {
    let t = trim_start(s);
    if t.len() == 0 {
        None
    } else {
        Some(take_word(t))
    }
}

pub fn first_word_exec(s: &Vec<char>) -> (r: Option<Vec<char>>)
    ensures
        opt_view(r) == first_word(s@),
{
    let a = skip_ws(s, 0, s.len());
    assert(s@.subrange(0, s.len() as int) =~= s@);
    if a == s.len() {
        None
    } else {
        let j = word_end(s, a);
        Some(slice_of(s, a, j))
    }
}


// ── decimal numbers ─────────────────────────────────────────────────────────

pub open spec fn digit_char(d: nat) -> char {
    ((d + 48) as u32) as char
}

/// Decimal digits of `n`, most significant first, with no leading zero.
pub open spec fn decimal(n: nat) -> Seq<char>
    decreases n,
{
    if n < 10 {
        seq![digit_char(n)]
    } else {
        decimal(n / 10).push(digit_char(n % 10))
    }
}

pub open spec fn all_digits(d: Seq<char>) -> bool {
    forall|i: int| 0 <= i < d.len() ==> is_digit(#[trigger] d[i])
}

/// Value of a string of decimal digits.
pub open spec fn digits_value(d: Seq<char>) -> nat
    decreases d.len(),
{
    if d.len() == 0 {
        0
    } else {
        10 * digits_value(d.drop_last()) + ((d.last() as int) - 48) as nat
    }
}

/// `FromStr` for an unsigned integer type whose largest value is `max`: an
/// optional `+` (not on its own), then at least one ASCII digit and nothing
/// else, of a value that fits.
pub open spec fn parse_uint(s: Seq<char>, max: nat) -> Option<nat> {
    let d = if s.len() > 1 && s[0] == '+' {
        s.drop_first()
    } else {
        s
    };
    if d.len() > 0 && all_digits(d) && digits_value(d) <= max {
        Some(digits_value(d))
    } else {
        None
    }
}

pub fn digit_char_exec(d: u64) -> (c: char)
    requires
        d < 10,
    ensures
        c == digit_char(d as nat),
{
    ((d as u8) + 48u8) as char
}

/// `n.to_string()` for an unsigned integer.
pub fn decimal_exec(n: u64) -> (r: Vec<char>)
    ensures
        r@ == decimal(n as nat),
    decreases n,
{
    if n < 10 {
        let mut r: Vec<char> = Vec::new();
        r.push(digit_char_exec(n));
        assert(r@ =~= seq![digit_char(n as nat)]);
        r
    } else {
        let mut r = decimal_exec(n / 10);
        r.push(digit_char_exec(n % 10));
        r
    }
}

pub proof fn lemma_digits_value_mono(d: Seq<char>, k: int)
    requires
        all_digits(d),
        0 <= k <= d.len(),
    ensures
        digits_value(d.subrange(0, k)) <= digits_value(d),
    decreases d.len() - k,
{
    if k < d.len() {
        lemma_digits_value_mono(d, k + 1);
        let t = d.subrange(0, k + 1);
        assert(t.drop_last() =~= d.subrange(0, k));
        assert(is_digit(d[k]));
    } else {
        assert(d.subrange(0, k) =~= d);
    }
}

pub proof fn lemma_digit_char(d: nat)
    requires
        d < 10,
    ensures
        digit_char(d) as int == d + 48,
        is_digit(digit_char(d)),
{
    let u = (d + 48) as u32;
    assert(u < 0xD800);
}

pub proof fn lemma_decimal_digits(n: nat)
    ensures
        decimal(n).len() > 0,
        all_digits(decimal(n)),
        digits_value(decimal(n)) == n,
        is_digit(decimal(n)[0]),
    decreases n,
{
    lemma_digit_char(n % 10);
    if n < 10 {
        assert(decimal(n).drop_last() =~= Seq::<char>::empty());
        assert(digits_value(Seq::<char>::empty()) == 0);
        assert(digits_value(decimal(n)) == 10 * digits_value(decimal(n).drop_last()) + ((
        decimal(n).last() as int) - 48) as nat);
    } else {
        lemma_decimal_digits(n / 10);
        let d = decimal(n);
        assert(d.drop_last() =~= decimal(n / 10));
        vstd::arithmetic::div_mod::lemma_fundamental_div_mod(n as int, 10);
        assert(d.last() == digit_char(n % 10));
        assert(digits_value(d) == 10 * digits_value(d.drop_last()) + ((d.last() as int) - 48) as nat);
        assert(all_digits(d)) by {
            assert forall|i: int| 0 <= i < d.len() implies is_digit(#[trigger] d[i]) by {
                if i < d.len() - 1 {
                    assert(d[i] == decimal(n / 10)[i]);
                }
            }
        }
    }
}

/// Reading back a written unsigned number gives the number.
pub proof fn lemma_parse_decimal(n: nat, max: nat)
    requires
        n <= max,
    ensures
        parse_uint(decimal(n), max) == Some(n),
{
    lemma_decimal_digits(n);
}

/// `FromStr` for an unsigned integer type whose largest value is `max`.
pub fn parse_uint_exec(s: &Vec<char>, max: u64) -> (r: Option<u64>)
    ensures
        r matches Some(v) ==> parse_uint(s@, max as nat) == Some(v as nat),
        r is None ==> parse_uint(s@, max as nat) is None,
{
    let start: usize = if s.len() > 1 && s[0] == '+' {
        1
    } else {
        0
    };
    let ghost d = if s@.len() > 1 && s@[0] == '+' {
        s@.drop_first()
    } else {
        s@
    };
    assert(d =~= s@.subrange(start as int, s.len() as int));
    if start == s.len() {
        assert(d.len() == 0);
        return None;
    }
    let mut v: u64 = 0;
    let mut i = start;
    while i < s.len()
        invariant
            start <= i <= s.len(),
            d =~= s@.subrange(start as int, s.len() as int),
            d == (if s@.len() > 1 && s@[0] == '+' {
                s@.drop_first()
            } else {
                s@
            }),
            all_digits(d.subrange(0, i - start)),
            v as nat == digits_value(d.subrange(0, i - start)),
            v <= max,
        decreases s.len() - i,
    {
        let c = s[i];
        if !is_digit_exec(c) {
            assert(d[i - start] == c);
            assert(!is_digit(d[i - start]));
            assert(!all_digits(d));
            return None;
        }
        let dv = (c as u32 - 48) as u64;
        let ghost t = d.subrange(0, i + 1 - start);
        assert(t.drop_last() =~= d.subrange(0, i - start));
        assert(t.last() == c);
        assert(all_digits(t)) by {
            assert forall|k: int| 0 <= k < t.len() implies is_digit(#[trigger] t[k]) by {
                if k < t.len() - 1 {
                    assert(t[k] == d.subrange(0, i - start)[k]);
                }
            }
        }
        let nv: u128 = (v as u128) * 10 + (dv as u128);
        if nv > max as u128 {
            proof {
                assert(digits_value(t) == 10 * digits_value(t.drop_last()) + ((t.last() as int) - 48) as nat);
                assert(digits_value(t) > max);
                if all_digits(d) {
                    lemma_digits_value_mono(d, i + 1 - start);
                }
            }
            return None;
        }
        assert(digits_value(t) == 10 * digits_value(t.drop_last()) + ((t.last() as int) - 48) as nat);
        v = nv as u64;
        i += 1;
    }
    assert(d.subrange(0, i - start) =~= d);
    Some(v)
}

} // verus!
