use vstd::prelude::*;

use vstd::relations::{sorted_by, total_ordering};
use vstd::seq_lib::{lemma_sorted_unique, to_multiset_build, to_multiset_insert};

verus! {

// ── conversions between strings and character vectors ────────────────────────

/// The characters of a string slice, in order.
pub(crate) fn chars_of(s: &str) -> (r: Vec<char>)
    ensures
        r@ == s@,
{
    broadcast use vstd::string::axiom_spec_iter;

    let mut r: Vec<char> = Vec::new();
    for c in it: s.chars()
        invariant
            r@ == it.seq().take(it.index() as int),
    {
        r.push(c);
    }
    r
}

/// `String::push`: the string with the character appended.
#[verifier::external_body]
fn string_push(s: &mut String, c: char)
    ensures
        final(s)@ == old(s)@.push(c),
{
    s.push(c);
}

/// A string made of the given characters, in order.
pub(crate) fn string_from_chars(v: &[char]) -> (r: String)
    ensures
        r@ == v@,
{
    let mut r = String::new();
    let mut i: usize = 0;
    while i < v.len()
        invariant
            i <= v.len(),
            r@ == v@.subrange(0, i as int),
        decreases v.len() - i,
    {
        string_push(&mut r, v[i]);
        i = i + 1;
        assert(r@ =~= v@.subrange(0, i as int));
    }
    assert(v@.subrange(0, v.len() as int) =~= v@);
    r
}

/// Appends the characters of `s` to `out`.
pub fn push_str(out: &mut Vec<char>, s: &[char])
    ensures
        final(out)@ == old(out)@ + s@,
{
    let mut i: usize = 0;
    while i < s.len()
        invariant
            i <= s.len(),
            out@ == old(out)@ + s@.subrange(0, i as int),
        decreases s.len() - i,
    {
        out.push(s[i]);
        i = i + 1;
        assert(s@.subrange(0, i as int) =~= s@.subrange(0, i - 1).push(s@[i - 1]));
    }
    assert(s@.subrange(0, s.len() as int) =~= s@);
}

/// Appends the characters of the string slice `s` to `out`.
pub fn push_lit(out: &mut Vec<char>, s: &str)
    ensures
        final(out)@ == old(out)@ + s@,
{
    let v = chars_of(s);
    push_str(out, v.as_slice());
}

// ── whitespace ────────────────────────────────────────────────────────────────

/// The Unicode `White_Space` property, which `char::is_whitespace` tests.
pub open spec fn is_ws(c: char) -> bool {
    let u = c as u32;
    ||| 0x09 <= u <= 0x0D
    ||| u == 0x20
    ||| u == 0x85
    ||| u == 0xA0
    ||| u == 0x1680
    ||| 0x2000 <= u <= 0x200A
    ||| u == 0x2028
    ||| u == 0x2029
    ||| u == 0x202F
    ||| u == 0x205F
    ||| u == 0x3000
}

pub fn is_whitespace(c: char) -> (r: bool)
    ensures
        r == is_ws(c),
{
    let u = c as u32;
    (0x09 <= u && u <= 0x0D) || u == 0x20 || u == 0x85 || u == 0xA0 || u == 0x1680 || (0x2000
        <= u && u <= 0x200A) || u == 0x2028 || u == 0x2029 || u == 0x202F || u == 0x205F || u
        == 0x3000
}

/// `s` without the leading characters that `p` holds of.
pub open spec fn strip_start_by(s: Seq<char>, p: spec_fn(char) -> bool) -> Seq<char>
    decreases s.len(),
{
    if s.len() > 0 && p(s[0]) {
        strip_start_by(s.drop_first(), p)
    } else {
        s
    }
}

/// `s` without the trailing characters that `p` holds of.
pub open spec fn strip_end_by(s: Seq<char>, p: spec_fn(char) -> bool) -> Seq<char>
    decreases s.len(),
{
    if s.len() > 0 && p(s.last()) {
        strip_end_by(s.drop_last(), p)
    } else {
        s
    }
}

/// `s` without the leading and trailing characters that `p` holds of
/// (`str::trim_matches` with a character predicate).
pub open spec fn strip_by(s: Seq<char>, p: spec_fn(char) -> bool) -> Seq<char> {
    strip_end_by(strip_start_by(s, p), p)
}

/// `s` without leading and trailing whitespace (`str::trim`).
pub open spec fn trim(s: Seq<char>) -> Seq<char> {
    strip_by(s, ws_sep())
}

proof fn lemma_strip_start_suffix(s: Seq<char>, p: spec_fn(char) -> bool)
    ensures
        strip_start_by(s, p).len() <= s.len(),
        strip_start_by(s, p) == s.subrange(s.len() - strip_start_by(s, p).len(), s.len() as int),
        strip_start_by(s, p).len() > 0 ==> !p(strip_start_by(s, p)[0]),
    decreases s.len(),
{
    if s.len() > 0 && p(s[0]) {
        lemma_strip_start_suffix(s.drop_first(), p);
        let r = strip_start_by(s.drop_first(), p);
        assert(s.drop_first().subrange(s.len() - 1 - r.len(), s.len() - 1) =~= s.subrange(
            s.len() - r.len(),
            s.len() as int,
        ));
    } else {
        assert(s.subrange(0, s.len() as int) =~= s);
    }
}

proof fn lemma_strip_end_prefix(s: Seq<char>, p: spec_fn(char) -> bool)
    ensures
        strip_end_by(s, p).len() <= s.len(),
        strip_end_by(s, p) == s.subrange(0, strip_end_by(s, p).len() as int),
        strip_end_by(s, p).len() > 0 ==> !p(strip_end_by(s, p).last()),
    decreases s.len(),
{
    if s.len() > 0 && p(s.last()) {
        lemma_strip_end_prefix(s.drop_last(), p);
        let r = strip_end_by(s.drop_last(), p);
        assert(s.drop_last().subrange(0, r.len() as int) =~= s.subrange(0, r.len() as int));
    } else {
        assert(s.subrange(0, s.len() as int) =~= s);
    }
}

/// Trimming twice trims no more than trimming once.
pub proof fn lemma_trim_idempotent(s: Seq<char>)
    ensures
        trim(trim(s)) == trim(s),
{
    let p = ws_sep();
    let x = strip_start_by(s, p);
    lemma_strip_start_suffix(s, p);
    lemma_strip_end_prefix(x, p);
    let t = strip_end_by(x, p);
    if t.len() > 0 {
        assert(t[0] == x[0]);
    }
    assert(strip_start_by(t, p) == t);
    assert(strip_end_by(t, p) == t);
}

proof fn lemma_strip_start_skip(s: Seq<char>, p: spec_fn(char) -> bool, k: int)
    requires
        0 <= k <= s.len(),
        forall|j: int| 0 <= j < k ==> p(#[trigger] s[j]),
    ensures
        strip_start_by(s, p) == strip_start_by(s.subrange(k, s.len() as int), p),
    decreases k,
{
    if k > 0 {
        assert(s.drop_first() =~= s.subrange(1, s.len() as int));
        let t = s.drop_first();
        assert forall|j: int| 0 <= j < k - 1 implies p(#[trigger] t[j]) by {
            assert(t[j] == s[j + 1]);
        }
        lemma_strip_start_skip(t, p, k - 1);
        assert(t.subrange(k - 1, t.len() as int) =~= s.subrange(k, s.len() as int));
    } else {
        assert(s.subrange(0, s.len() as int) =~= s);
    }
}

proof fn lemma_strip_end_skip(s: Seq<char>, p: spec_fn(char) -> bool, k: int)
    requires
        0 <= k <= s.len(),
        forall|j: int| k <= j < s.len() ==> p(#[trigger] s[j]),
    ensures
        strip_end_by(s, p) == strip_end_by(s.subrange(0, k), p),
    decreases s.len() - k,
{
    if k < s.len() {
        let t = s.drop_last();
        assert forall|j: int| k <= j < t.len() implies p(#[trigger] t[j]) by {
            assert(t[j] == s[j]);
        }
        lemma_strip_end_skip(t, p, k);
        assert(t.subrange(0, k) =~= s.subrange(0, k));
    } else {
        assert(s.subrange(0, k) =~= s);
    }
}

/// The characters of `s` without the leading and trailing ones of class `k`.
pub fn strip_chars(s: &[char], k: CharClass) -> (r: Vec<char>)
    ensures
        r@ == strip_by(s@, class_pred(k)),
        byte_len(r@) <= byte_len(s@),
{
    let ghost p = class_pred(k);
    let n = s.len();
    let mut a: usize = 0;
    while a < n && in_class(&k, s[a])
        invariant
            a <= n,
            n == s.len(),
            p == class_pred(k),
            forall|j: int| 0 <= j < a ==> p(#[trigger] s@[j]),
        decreases n - a,
    {
        a = a + 1;
    }
    proof {
        lemma_strip_start_skip(s@, p, a as int);
    }
    let ghost t = s@.subrange(a as int, n as int);
    assert(strip_start_by(t, p) == t);
    let mut b: usize = n;
    while b > a && in_class(&k, s[b - 1])
        invariant
            a <= b <= n,
            n == s.len(),
            p == class_pred(k),
            forall|j: int| b <= j < n ==> p(#[trigger] s@[j]),
        decreases b,
    {
        b = b - 1;
    }
    proof {
        assert forall|j: int| b - a <= j < t.len() implies p(#[trigger] t[j]) by {
            assert(t[j] == s@[a + j]);
        }
        lemma_strip_end_skip(t, p, b - a);
        assert(t.subrange(0, b - a) =~= s@.subrange(a as int, b as int));
        lemma_byte_len_subrange(s@, a as int, b as int);
    }
    slice_chars(s, a, b)
}

/// The characters of `s` without its trailing whitespace (`str::trim_end`).
pub fn trim_end_chars(s: &[char]) -> (r: Vec<char>)
    ensures
        r@ == strip_end_by(s@, ws_sep()),
{
    let ghost p = ws_sep();
    let n = s.len();
    let mut b: usize = n;
    while b > 0 && is_whitespace(s[b - 1])
        invariant
            b <= n,
            n == s.len(),
            p == ws_sep(),
            forall|j: int| b <= j < n ==> p(#[trigger] s@[j]),
        decreases b,
    {
        b = b - 1;
    }
    proof {
        lemma_strip_end_skip(s@, p, b as int);
    }
    slice_chars(s, 0, b)
}

/// The whitespace-trimmed characters of `s`.
pub fn trim_chars(s: &[char]) -> (r: Vec<char>)
    ensures
        r@ == trim(s@),
        byte_len(r@) <= byte_len(s@),
{
    strip_chars(s, CharClass::Whitespace)
}

// ── searching ─────────────────────────────────────────────────────────────────

/// `n` occurs in `h` starting at index `i`.
pub open spec fn occurs_at(h: Seq<char>, n: Seq<char>, i: int) -> bool {
    0 <= i && i + n.len() <= h.len() && h.subrange(i, i + n.len()) == n
}

/// `h` starts with `p` (`str::starts_with`).
pub open spec fn starts_with(h: Seq<char>, p: Seq<char>) -> bool {
    occurs_at(h, p, 0)
}

/// `n` occurs somewhere in `h` (`str::contains`).
pub open spec fn contains(h: Seq<char>, n: Seq<char>) -> bool {
    exists|i: int| occurs_at(h, n, i)
}

/// The first index at or after `from` where `n` occurs in `h`.
pub open spec fn find_from(h: Seq<char>, n: Seq<char>, from: int) -> Option<int>
    decreases h.len() + 1 - from,
{
    if from < 0 || from + n.len() > h.len() {
        None
    } else if occurs_at(h, n, from) {
        Some(from)
    } else {
        find_from(h, n, from + 1)
    }
}

pub proof fn lemma_find_from(h: Seq<char>, n: Seq<char>, from: int)
    requires
        0 <= from,
    ensures
        match find_from(h, n, from) {
            Some(i) => from <= i && occurs_at(h, n, i) && forall|j: int|
                from <= j < i ==> !occurs_at(h, n, j),
            None => forall|j: int| from <= j ==> !occurs_at(h, n, j),
        },
    decreases h.len() + 1 - from,
{
    if from + n.len() > h.len() {
    } else if occurs_at(h, n, from) {
    } else {
        lemma_find_from(h, n, from + 1);
    }
}

pub proof fn lemma_find_from_contains(h: Seq<char>, n: Seq<char>)
    ensures
        find_from(h, n, 0) is Some <==> contains(h, n),
{
    lemma_find_from(h, n, 0);
    if contains(h, n) {
        let i = choose|i: int| occurs_at(h, n, i);
        assert(0 <= i);
    }
}

/// Whether `n` occurs in `h` at index `i`.
pub fn matches_at(h: &[char], n: &[char], i: usize) -> (r: bool)
    ensures
        r == occurs_at(h@, n@, i as int),
{
    if i > h.len() || n.len() > h.len() - i {
        return false;
    }
    let mut k: usize = 0;
    while k < n.len()
        invariant
            i + n.len() <= h.len(),
            k <= n.len(),
            forall|j: int| 0 <= j < k ==> h@[i + j] == n@[j],
        decreases n.len() - k,
    {
        if h[i + k] != n[k] {
            assert(h@.subrange(i as int, i + n.len())[k as int] != n@[k as int]);
            return false;
        }
        k = k + 1;
    }
    assert(h@.subrange(i as int, i + n.len()) =~= n@);
    true
}

/// The first index at or after `from` where `n` occurs in `h` (`str::find` on `h[from..]`).
pub fn find(h: &[char], n: &[char], from: usize) -> (r: Option<usize>)
    ensures
        r matches Some(i) ==> find_from(h@, n@, from as int) == Some(i as int) && from <= i
            && occurs_at(h@, n@, i as int) && i + n@.len() <= h@.len(),
        r is None ==> find_from(h@, n@, from as int) is None,
        h@.len() <= usize::MAX,
{
    proof {
        lemma_find_from(h@, n@, from as int);
    }
    if from > h.len() || n.len() > h.len() - from {
        return None;
    }
    let last = h.len() - n.len();
    let mut i = from;
    loop
        invariant
            from <= i <= last,
            last + n.len() == h.len(),
            find_from(h@, n@, from as int) == find_from(h@, n@, i as int),
        decreases last - i,
    {
        if matches_at(h, n, i) {
            return Some(i);
        }
        if i == last {
            assert(find_from(h@, n@, i + 1) is None);
            return None;
        }
        i = i + 1;
    }
}

/// Whether `h` starts with `p`.
pub fn has_prefix(h: &[char], p: &[char]) -> (r: bool)
    ensures
        r == starts_with(h@, p@),
{
    matches_at(h, p, 0)
}

/// Whether `n` occurs in `h`.
pub fn has_sub(h: &[char], n: &[char]) -> (r: bool)
    ensures
        r == contains(h@, n@),
{
    proof {
        lemma_find_from_contains(h@, n@);
    }
    find(h, n, 0).is_some()
}

/// Whether the character `c` occurs in `h`.
pub fn has_char(h: &[char], c: char) -> (r: bool)
    ensures
        r == h@.contains(c),
{
    let mut i: usize = 0;
    while i < h.len()
        invariant
            i <= h.len(),
            forall|j: int| 0 <= j < i ==> h@[j] != c,
        decreases h.len() - i,
    {
        if h[i] == c {
            return true;
        }
        i = i + 1;
    }
    false
}

/// Whether two character sequences are equal.
pub fn same(a: &[char], b: &[char]) -> (r: bool)
    ensures
        r == (a@ == b@),
{
    if a.len() != b.len() {
        return false;
    }
    let mut i: usize = 0;
    while i < a.len()
        invariant
            a.len() == b.len(),
            i <= a.len(),
            forall|j: int| 0 <= j < i ==> a@[j] == b@[j],
        decreases a.len() - i,
    {
        if a[i] != b[i] {
            return false;
        }
        i = i + 1;
    }
    assert(a@ =~= b@);
    true
}

/// The characters of `s` from index `a` up to (not including) `b`.
pub fn slice_chars(s: &[char], a: usize, b: usize) -> (r: Vec<char>)
    requires
        a <= b <= s.len(),
    ensures
        r@ == s@.subrange(a as int, b as int),
{
    let mut r: Vec<char> = Vec::new();
    let mut i: usize = a;
    while i < b
        invariant
            a <= i <= b <= s.len(),
            r@ == s@.subrange(a as int, i as int),
        decreases b - i,
    {
        r.push(s[i]);
        i = i + 1;
        assert(r@ =~= s@.subrange(a as int, i as int));
    }
    r
}


// ── splitting ─────────────────────────────────────────────────────────────────

/// The views of a vector of character vectors.
pub open spec fn seqs(v: Seq<Vec<char>>) -> Seq<Seq<char>> {
    v.map_values(|x: Vec<char>| x@)
}

/// The views of a sequence of strings.
pub open spec fn views(v: Seq<String>) -> Seq<Seq<char>> {
    v.map_values(|x: String| x@)
}

/// The pieces of `s` between the characters that `sep` holds of, in order, empty pieces
/// included (`str::split` with a character predicate).
pub open spec fn split_by(s: Seq<char>, sep: spec_fn(char) -> bool) -> Seq<Seq<char>>
    decreases s.len(),
{
    if s.len() == 0 {
        seq![Seq::<char>::empty()]
    } else {
        let p = split_by(s.drop_last(), sep);
        if sep(s.last()) {
            p.push(Seq::<char>::empty())
        } else {
            p.update(p.len() - 1, p.last().push(s.last()))
        }
    }
}

pub proof fn lemma_split_by_len(s: Seq<char>, sep: spec_fn(char) -> bool)
    ensures
        split_by(s, sep).len() >= 1,
    decreases s.len(),
{
    if s.len() > 0 {
        lemma_split_by_len(s.drop_last(), sep);
    }
}

/// The separators that a shell command is cut at: whitespace and `| ; & > < ( )`.
pub open spec fn is_cmd_sep(c: char) -> bool {
    is_ws(c) || c == '|' || c == ';' || c == '&' || c == '>' || c == '<' || c == '(' || c == ')'
}

pub open spec fn cmd_sep() -> spec_fn(char) -> bool {
    |c: char| is_cmd_sep(c)
}

pub open spec fn newline_sep() -> spec_fn(char) -> bool {
    |c: char| c == '\n'
}

pub open spec fn ws_sep() -> spec_fn(char) -> bool {
    |c: char| is_ws(c)
}

pub open spec fn slash_sep() -> spec_fn(char) -> bool {
    |c: char| c == '/'
}

pub open spec fn quote_sep() -> spec_fn(char) -> bool {
    |c: char| c == '\'' || c == '"'
}

/// A class of characters that text is cut at or stripped of.
pub enum CharClass {
    Command,
    Newline,
    Whitespace,
    Quote,
    Slash,
}

pub open spec fn class_pred(k: CharClass) -> spec_fn(char) -> bool {
    match k {
        CharClass::Command => cmd_sep(),
        CharClass::Newline => newline_sep(),
        CharClass::Whitespace => ws_sep(),
        CharClass::Quote => quote_sep(),
        CharClass::Slash => slash_sep(),
    }
}

fn in_class(k: &CharClass, c: char) -> (r: bool)
    ensures
        r == class_pred(*k)(c),
{
    match k {
        CharClass::Command => is_whitespace(c) || c == '|' || c == ';' || c == '&' || c == '>'
            || c == '<' || c == '(' || c == ')',
        CharClass::Newline => c == '\n',
        CharClass::Whitespace => is_whitespace(c),
        CharClass::Quote => c == '\'' || c == '"',
        CharClass::Slash => c == '/',
    }
}

/// The pieces of `s` between the characters that the cut `k` holds of.
pub fn split_chars(s: &[char], k: CharClass) -> (r: Vec<Vec<char>>)
    ensures
        seqs(r@) == split_by(s@, class_pred(k)),
{
    let ghost sep = class_pred(k);
    let mut pieces: Vec<Vec<char>> = Vec::new();
    let mut cur: Vec<char> = Vec::new();
    let mut i: usize = 0;
    assert(s@.subrange(0, 0) =~= Seq::<char>::empty());
    assert(seqs(pieces@).push(cur@) =~= split_by(Seq::<char>::empty(), sep));
    while i < s.len()
        invariant
            i <= s.len(),
            sep == class_pred(k),
            seqs(pieces@).push(cur@) == split_by(s@.subrange(0, i as int), sep),
        decreases s.len() - i,
    {
        let c = s[i];
        let ghost pre = s@.subrange(0, i as int);
        let ghost post = s@.subrange(0, i + 1);
        assert(post.drop_last() =~= pre);
        assert(post.last() == c);
        if in_class(&k, c) {
            let ghost before = pieces@;
            let done = cur;
            pieces.push(done);
            cur = Vec::new();
            assert(seqs(pieces@) =~= seqs(before).push(done@));
            assert(seqs(pieces@).push(cur@) =~= split_by(pre, sep).push(Seq::<char>::empty()));
        } else {
            let ghost old_cur = cur@;
            cur.push(c);
            assert(seqs(pieces@).push(cur@) =~= split_by(pre, sep).update(
                split_by(pre, sep).len() - 1,
                split_by(pre, sep).last().push(c),
            ));
        }
        i = i + 1;
    }
    pieces.push(cur);
    assert(s@.subrange(0, s.len() as int) =~= s@);
    pieces
}


// ── lines ─────────────────────────────────────────────────────────────────────

/// A line without the `\r` that ends it, if any.
pub open spec fn strip_cr(l: Seq<char>) -> Seq<char> {
    if l.len() > 0 && l.last() == '\r' {
        l.drop_last()
    } else {
        l
    }
}

/// The lines of `s` (`str::lines`): the pieces between `\n` characters, each without a
/// `\r` that ends it, and without the empty piece after a final `\n`. A last piece that no
/// `\n` ends keeps its `\r`.
pub open spec fn lines(s: Seq<char>) -> Seq<Seq<char>> {
    let p = split_by(s, newline_sep());
    let k = p.len() - 1;
    let done = p.subrange(0, k).map_values(|l: Seq<char>| strip_cr(l));
    if p[k].len() == 0 {
        done
    } else {
        done.push(p[k])
    }
}

fn strip_cr_chars(l: &[char]) -> (r: Vec<char>)
    ensures
        r@ == strip_cr(l@),
{
    if l.len() > 0 && l[l.len() - 1] == '\r' {
        slice_chars(l, 0, l.len() - 1)
    } else {
        slice_chars(l, 0, l.len())
    }
}

/// The lines of `s`.
pub fn split_lines(s: &[char]) -> (r: Vec<Vec<char>>)
    ensures
        seqs(r@) == lines(s@),
{
    let pieces = split_chars(s, CharClass::Newline);
    proof {
        lemma_split_by_len(s@, newline_sep());
    }
    let ghost p = seqs(pieces@);
    let k = pieces.len() - 1;
    let mut r: Vec<Vec<char>> = Vec::new();
    let mut j: usize = 0;
    while j < k
        invariant
            k + 1 == pieces.len(),
            p == seqs(pieces@),
            j <= k,
            seqs(r@) == p.subrange(0, j as int).map_values(|l: Seq<char>| strip_cr(l)),
        decreases k - j,
    {
        let l = strip_cr_chars(pieces[j].as_slice());
        let ghost before = r@;
        let ghost lv = l@;
        assert(p[j as int] == pieces@[j as int]@);
        r.push(l);
        assert(seqs(r@) =~= seqs(before).push(lv));
        j = j + 1;
        assert(p.subrange(0, j as int).map_values(|l: Seq<char>| strip_cr(l)) =~= p.subrange(
            0,
            j - 1,
        ).map_values(|l: Seq<char>| strip_cr(l)).push(strip_cr(p[j - 1])));
    }
    if pieces[k].len() > 0 {
        let last = slice_chars(pieces[k].as_slice(), 0, pieces[k].len());
        let ghost before = r@;
        let ghost lv = last@;
        assert(p[k as int] == pieces@[k as int]@);
        assert(pieces@[k as int]@.subrange(0, pieces@[k as int]@.len() as int) =~= pieces@[k as int]@);
        r.push(last);
        assert(seqs(r@) =~= seqs(before).push(lv));
        assert(seqs(r@) =~= p.subrange(0, k as int).map_values(|l: Seq<char>| strip_cr(l)).push(
            p[k as int],
        ));
    }
    r
}

// ── case mapping ──────────────────────────────────────────────────────────────

/// The lowercase form of a string under the full Unicode case mapping
/// (`str::to_lowercase`).
pub uninterp spec fn lowercase(s: Seq<char>) -> Seq<char>;

/// `str::to_lowercase`; its result is given by the Unicode case tables, which are left
/// unstated: the contract names it `lowercase`.
#[verifier::external_body]
pub(crate) fn to_lowercase(s: &str) -> (r: String)
    ensures
        r@ == lowercase(s@),
{
    s.to_lowercase()
}


// ── numbers ───────────────────────────────────────────────────────────────────

/// The decimal digit for `d`.
pub open spec fn digit_char(d: int) -> char {
    (d + '0' as int) as char
}

/// The decimal representation of `n`, as `Display` writes it for an unsigned integer.
pub open spec fn decimal(n: nat) -> Seq<char>
    decreases n,
{
    if n < 10 {
        seq![digit_char(n as int)]
    } else {
        decimal(n / 10).push(digit_char((n % 10) as int))
    }
}

/// The decimal representation of a signed integer, as `Display` writes it.
pub open spec fn decimal_int(n: int) -> Seq<char> {
    if n < 0 {
        seq!['-'] + decimal((-n) as nat)
    } else {
        decimal(n as nat)
    }
}

/// The decimal digits of `n`.
pub fn u128_decimal(n: u128) -> (r: Vec<char>)
    ensures
        r@ == decimal(n as nat),
    decreases n,
{
    if n < 10 {
        let c = ((n as u8) + 48) as char;
        let mut v: Vec<char> = Vec::new();
        v.push(c);
        assert(v@ =~= seq![digit_char(n as int)]);
        v
    } else {
        let mut v = u128_decimal(n / 10);
        let c = (((n % 10) as u8) + 48) as char;
        v.push(c);
        v
    }
}

/// The decimal digits of `n`.
pub fn u64_decimal(n: u64) -> (r: Vec<char>)
    ensures
        r@ == decimal(n as nat),
{
    u128_decimal(n as u128)
}

/// The decimal representation of a signed integer.
pub fn i64_decimal(n: i64) -> (r: Vec<char>)
    ensures
        r@ == decimal_int(n as int),
{
    if n < 0 {
        let m: u64 = if n == i64::MIN {
            9223372036854775808u64
        } else {
            (-n) as u64
        };
        let d = u64_decimal(m);
        let mut v: Vec<char> = Vec::new();
        v.push('-');
        push_str(&mut v, d.as_slice());
        assert(v@ =~= seq!['-'] + decimal((-(n as int)) as nat));
        v
    } else {
        u64_decimal(n as u64)
    }
}

/// `n` spaces.
pub open spec fn spaces(n: int) -> Seq<char> {
    Seq::new(if n < 0 {
        0
    } else {
        n as nat
    }, |i: int| ' ')
}

/// `s` right-aligned in a field of `w` characters (the `{:>w}` format).
pub open spec fn pad_left(s: Seq<char>, w: int) -> Seq<char> {
    if s.len() >= w {
        s
    } else {
        spaces(w - s.len()) + s
    }
}

/// `s` left-aligned in a field of `w` characters (the `{:<w}` format).
pub open spec fn pad_right(s: Seq<char>, w: int) -> Seq<char> {
    if s.len() >= w {
        s
    } else {
        s + spaces(w - s.len())
    }
}

/// Appends `n` spaces.
pub fn push_spaces(out: &mut Vec<char>, n: u128)
    ensures
        final(out)@ == old(out)@ + spaces(n as int),
{
    let mut i: u128 = 0;
    while i < n
        invariant
            i <= n,
            out@ == old(out)@ + spaces(i as int),
        decreases n - i,
    {
        out.push(' ');
        i = i + 1;
        assert(out@ =~= old(out)@ + spaces(i as int));
    }
}

/// Appends `s` right-aligned in a field of `w` characters.
pub fn push_padded_left(out: &mut Vec<char>, s: &[char], w: u128)
    ensures
        final(out)@ == old(out)@ + pad_left(s@, w as int),
{
    if (s.len() as u128) < w {
        push_spaces(out, w - s.len() as u128);
    }
    push_str(out, s);
    assert(out@ =~= old(out)@ + pad_left(s@, w as int));
}

/// Appends `s` left-aligned in a field of `w` characters.
pub fn push_padded_right(out: &mut Vec<char>, s: &[char], w: u128)
    ensures
        final(out)@ == old(out)@ + pad_right(s@, w as int),
{
    push_str(out, s);
    if (s.len() as u128) < w {
        push_spaces(out, w - s.len() as u128);
    }
    assert(out@ =~= old(out)@ + pad_right(s@, w as int));
}

/// The number of bytes that UTF-8 takes for `c` (`char::len_utf8`).
pub open spec fn utf8_width(c: char) -> int {
    let u = c as u32;
    if u < 0x80 {
        1
    } else if u < 0x800 {
        2
    } else if u < 0x10000 {
        3
    } else {
        4
    }
}

/// The number of bytes that UTF-8 takes for `s` (`str::len`).
pub open spec fn byte_len(s: Seq<char>) -> int
    decreases s.len(),
{
    if s.len() == 0 {
        0
    } else {
        byte_len(s.drop_last()) + utf8_width(s.last())
    }
}

pub proof fn lemma_byte_len_bounds(s: Seq<char>)
    ensures
        s.len() <= byte_len(s) <= 4 * s.len(),
    decreases s.len(),
{
    if s.len() > 0 {
        lemma_byte_len_bounds(s.drop_last());
    }
}

pub proof fn lemma_byte_len_concat(a: Seq<char>, b: Seq<char>)
    ensures
        byte_len(a + b) == byte_len(a) + byte_len(b),
    decreases b.len(),
{
    if b.len() == 0 {
        assert(a + b =~= a);
    } else {
        lemma_byte_len_concat(a, b.drop_last());
        assert((a + b).drop_last() =~= a + b.drop_last());
    }
}

pub proof fn lemma_byte_len_subrange(s: Seq<char>, a: int, b: int)
    requires
        0 <= a <= b <= s.len(),
    ensures
        byte_len(s.subrange(a, b)) <= byte_len(s),
{
    assert(s =~= s.subrange(0, a) + s.subrange(a, b) + s.subrange(b, s.len() as int));
    lemma_byte_len_concat(s.subrange(0, a), s.subrange(a, b));
    lemma_byte_len_concat(s.subrange(0, a) + s.subrange(a, b), s.subrange(b, s.len() as int));
    lemma_byte_len_bounds(s.subrange(0, a));
    lemma_byte_len_bounds(s.subrange(b, s.len() as int));
}

pub fn char_width(c: char) -> (r: usize)
    ensures
        r == utf8_width(c),
{
    let u = c as u32;
    if u < 0x80 {
        1
    } else if u < 0x800 {
        2
    } else if u < 0x10000 {
        3
    } else {
        4
    }
}

/// The number of bytes that UTF-8 takes for `s`.
pub fn utf8_len(s: &[char]) -> (r: u128)
    ensures
        r == byte_len(s@),
{
    let mut t: u128 = 0;
    let mut i: usize = 0;
    while i < s.len()
        invariant
            i <= s.len(),
            s.len() <= usize::MAX,
            t == byte_len(s@.subrange(0, i as int)),
            t <= 4 * i,
        decreases s.len() - i,
    {
        let ghost pre = s@.subrange(0, i as int);
        assert(s@.subrange(0, i + 1).drop_last() =~= pre);
        t = t + char_width(s[i]) as u128;
        i = i + 1;
    }
    assert(s@.subrange(0, s.len() as int) =~= s@);
    t
}


// ── joining ───────────────────────────────────────────────────────────────────

/// The parts joined with `sep` between each two (`[T]::join`).
pub open spec fn join(parts: Seq<Seq<char>>, sep: Seq<char>) -> Seq<char>
    decreases parts.len(),
{
    if parts.len() == 0 {
        Seq::empty()
    } else if parts.len() == 1 {
        parts[0]
    } else {
        join(parts.drop_last(), sep) + sep + parts.last()
    }
}

/// The parts joined with `sep` between each two.
pub fn join_chars(parts: &Vec<Vec<char>>, sep: &[char]) -> (r: Vec<char>)
    ensures
        r@ == join(seqs(parts@), sep@),
{
    let ghost all = seqs(parts@);
    let mut out: Vec<char> = Vec::new();
    let mut i: usize = 0;
    while i < parts.len()
        invariant
            i <= parts.len(),
            all == seqs(parts@),
            out@ == join(all.subrange(0, i as int), sep@),
        decreases parts.len() - i,
    {
        let ghost pre = all.subrange(0, i as int);
        assert(all.subrange(0, i + 1).drop_last() =~= pre);
        assert(all.subrange(0, i + 1).last() == parts@[i as int]@);
        if i > 0 {
            push_str(&mut out, sep);
        }
        push_str(&mut out, parts[i].as_slice());
        i = i + 1;
        if i == 1 {
            assert(out@ =~= join(all.subrange(0, i as int), sep@));
        }
    }
    assert(all.subrange(0, parts.len() as int) =~= all);
    out
}


// ── ordering ──────────────────────────────────────────────────────────────────

/// `a` comes before `b` or equals it in lexicographic order of code points, which is the
/// order of `String` (UTF-8 keeps the order of code points).
pub open spec fn lex_le(a: Seq<char>, b: Seq<char>) -> bool
    decreases a.len(),
{
    if a.len() == 0 {
        true
    } else if b.len() == 0 {
        false
    } else if a[0] != b[0] {
        a[0] < b[0]
    } else {
        lex_le(a.drop_first(), b.drop_first())
    }
}

pub open spec fn lex_order() -> spec_fn(Seq<char>, Seq<char>) -> bool {
    |a: Seq<char>, b: Seq<char>| lex_le(a, b)
}

proof fn lemma_lex_refl(a: Seq<char>)
    ensures
        lex_le(a, a),
    decreases a.len(),
{
    if a.len() > 0 {
        lemma_lex_refl(a.drop_first());
    }
}

proof fn lemma_lex_antisym(a: Seq<char>, b: Seq<char>)
    requires
        lex_le(a, b),
        lex_le(b, a),
    ensures
        a == b,
    decreases a.len(),
{
    if a.len() > 0 && b.len() > 0 && a[0] == b[0] {
        lemma_lex_antisym(a.drop_first(), b.drop_first());
        assert(a =~= seq![a[0]] + a.drop_first());
        assert(b =~= seq![b[0]] + b.drop_first());
    } else if a.len() == 0 && b.len() == 0 {
        assert(a =~= b);
    }
}

proof fn lemma_lex_trans(a: Seq<char>, b: Seq<char>, c: Seq<char>)
    requires
        lex_le(a, b),
        lex_le(b, c),
    ensures
        lex_le(a, c),
    decreases a.len(),
{
    if a.len() > 0 && b.len() > 0 && c.len() > 0 && a[0] == b[0] && b[0] == c[0] {
        lemma_lex_trans(a.drop_first(), b.drop_first(), c.drop_first());
    }
}

proof fn lemma_lex_total(a: Seq<char>, b: Seq<char>)
    ensures
        lex_le(a, b) || lex_le(b, a),
    decreases a.len(),
{
    if a.len() > 0 && b.len() > 0 && a[0] == b[0] {
        lemma_lex_total(a.drop_first(), b.drop_first());
    }
}

/// The lexicographic order of code points is a total order.
pub proof fn lemma_lex_total_ordering()
    ensures
        total_ordering(lex_order()),
{
    let r = lex_order();
    assert forall|x: Seq<char>| #[trigger] r(x, x) by {
        lemma_lex_refl(x);
    }
    assert forall|x: Seq<char>, y: Seq<char>| #[trigger] r(x, y) && #[trigger] r(y, x) implies x
        == y by {
        lemma_lex_antisym(x, y);
    }
    assert forall|x: Seq<char>, y: Seq<char>, z: Seq<char>| #[trigger] r(x, y) && #[trigger] r(
        y,
        z,
    ) implies r(x, z) by {
        lemma_lex_trans(x, y, z);
    }
    assert forall|x: Seq<char>, y: Seq<char>| #[trigger] r(x, y) || #[trigger] r(y, x) by {
        lemma_lex_total(x, y);
    }
}

/// Whether `a` comes before `b` or equals it.
pub fn lex_le_chars(a: &[char], b: &[char]) -> (r: bool)
    ensures
        r == lex_le(a@, b@),
{
    let mut i: usize = 0;
    assert(a@.subrange(0, a@.len() as int) =~= a@);
    assert(b@.subrange(0, b@.len() as int) =~= b@);
    while i < a.len() && i < b.len() && a[i] == b[i]
        invariant
            i <= a.len(),
            i <= b.len(),
            lex_le(a@, b@) == lex_le(
                a@.subrange(i as int, a@.len() as int),
                b@.subrange(i as int, b@.len() as int),
            ),
        decreases a.len() - i,
    {
        let ghost sa = a@.subrange(i as int, a@.len() as int);
        let ghost sb = b@.subrange(i as int, b@.len() as int);
        assert(sa.drop_first() =~= a@.subrange(i + 1, a@.len() as int));
        assert(sb.drop_first() =~= b@.subrange(i + 1, b@.len() as int));
        i = i + 1;
    }
    if i == a.len() {
        true
    } else if i == b.len() {
        false
    } else {
        assert(a@.subrange(i as int, a@.len() as int)[0] == a@[i as int]);
        assert(b@.subrange(i as int, b@.len() as int)[0] == b@[i as int]);
        a[i] < b[i]
    }
}

/// The strings sorted in lexicographic order of code points (`[String]::sort`).
pub fn sort_strings(items: Vec<Vec<char>>) -> (r: Vec<Vec<char>>)
    ensures
        seqs(r@) == seqs(items@).sort_by(lex_order()),
{
    let ghost all = seqs(items@);
    let ghost leq = lex_order();
    proof {
        lemma_lex_total_ordering();
    }
    let mut r: Vec<Vec<char>> = Vec::new();
    let mut k: usize = 0;
    assert(seqs(r@) =~= all.subrange(0, 0));
    while k < items.len()
        invariant
            k <= items.len(),
            all == seqs(items@),
            leq == lex_order(),
            total_ordering(leq),
            sorted_by(seqs(r@), leq),
            seqs(r@).to_multiset() == all.subrange(0, k as int).to_multiset(),
        decreases items.len() - k,
    {
        let x = slice_chars(items[k].as_slice(), 0, items[k].len());
        assert(x@ =~= all[k as int]);
        let ghost cur = seqs(r@);
        let mut p: usize = 0;
        while p < r.len() && lex_le_chars(r[p].as_slice(), x.as_slice())
            invariant
                p <= r.len(),
                cur == seqs(r@),
                forall|i: int| 0 <= i < p ==> lex_le(#[trigger] cur[i], x@),
            decreases r.len() - p,
        {
            p = p + 1;
        }
        proof {
            if p < r.len() {
                lemma_lex_total(cur[p as int], x@);
            }
            assert forall|j: int| p <= j < cur.len() implies lex_le(x@, #[trigger] cur[j]) by {
                if j > p {
                    assert(leq(cur[p as int], cur[j]));
                    lemma_lex_trans(x@, cur[p as int], cur[j]);
                }
            }
        }
        let ghost xv = x@;
        r.insert(p, x);
        let ghost next = seqs(r@);
        assert(next =~= cur.insert(p as int, xv));
        proof {
            assert forall|i: int, j: int| 0 <= i < j < next.len() implies #[trigger] leq(
                next[i],
                next[j],
            ) by {
                if j < p {
                    assert(leq(cur[i], cur[j]));
                } else if j == p {
                    assert(lex_le(cur[i], xv));
                } else if i < p {
                    assert(lex_le(cur[i], xv));
                    assert(lex_le(xv, cur[j - 1]));
                    lemma_lex_trans(cur[i], xv, cur[j - 1]);
                } else if i == p {
                    assert(lex_le(xv, cur[j - 1]));
                } else {
                    assert(leq(cur[i - 1], cur[j - 1]));
                }
            }
            to_multiset_insert(cur, p as int, xv);
            assert(all.subrange(0, k + 1) =~= all.subrange(0, k as int).push(xv));
            to_multiset_build(all.subrange(0, k as int), xv);
        }
        k = k + 1;
    }
    proof {
        assert(all.subrange(0, items.len() as int) =~= all);
        all.lemma_sort_by_ensures(leq);
        lemma_sorted_unique(seqs(r@), all.sort_by(leq), leq);
    }
    r
}

} // verus!
