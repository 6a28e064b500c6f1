//! Cutting text into lines of a given width, and byte offsets in text.
use vstd::prelude::*;

use crate::text::{
    byte_len, char_width, chars_of, is_ws, lemma_byte_len_bounds, lemma_byte_len_concat, lines,
    push_str,
    seqs, slice_chars, split_by, split_chars, split_lines, string_from_chars, utf8_len, utf8_width,
    views, ws_sep, CharClass,
};

verus! {

// ── byte offsets ──────────────────────────────────────────────────────────────

/// The number of characters of `s` that take exactly `b` bytes, searching from `k` on:
/// `None` when the offset `b` falls inside a character or beyond the end.
pub open spec fn char_pos_from(s: Seq<char>, b: int, k: int) -> Option<int>
    decreases s.len() - k,
{
    if k < 0 || k > s.len() {
        None
    } else if byte_len(s.subrange(0, k)) == b {
        Some(k)
    } else if k == s.len() || byte_len(s.subrange(0, k)) > b {
        None
    } else {
        char_pos_from(s, b, k + 1)
    }
}

/// The character index at the byte offset `b` of `s`, when `b` is a character boundary.
pub open spec fn char_pos(s: Seq<char>, b: int) -> Option<int> {
    char_pos_from(s, b, 0)
}

proof fn lemma_byte_len_step(s: Seq<char>, k: int)
    requires
        0 <= k < s.len(),
    ensures
        byte_len(s.subrange(0, k + 1)) == byte_len(s.subrange(0, k)) + utf8_width(s[k]),
{
    assert(s.subrange(0, k + 1).drop_last() =~= s.subrange(0, k));
}

pub proof fn lemma_char_pos_from(s: Seq<char>, b: int, k: int)
    requires
        0 <= k <= s.len(),
    ensures
        char_pos_from(s, b, k) matches Some(j) ==> k <= j <= s.len() && byte_len(s.subrange(0, j))
            == b,
    decreases s.len() - k,
{
    if byte_len(s.subrange(0, k)) != b && k < s.len() && byte_len(s.subrange(0, k)) <= b {
        lemma_char_pos_from(s, b, k + 1);
    }
}

/// The character index at the byte offset `b` of `s`, when `b` is a character boundary.
pub fn char_index(s: &[char], b: usize) -> (r: Option<usize>)
    ensures
        match r {
            Some(k) => char_pos(s@, b as int) == Some(k as int),
            None => char_pos(s@, b as int) is None,
        },
{
    let mut k: usize = 0;
    let mut acc: usize = 0;
    assert(s@.subrange(0, 0) =~= Seq::<char>::empty());
    loop
        invariant
            k <= s.len(),
            acc == byte_len(s@.subrange(0, k as int)),
            acc <= b,
            char_pos(s@, b as int) == char_pos_from(s@, b as int, k as int),
        decreases s.len() - k,
    {
        if acc == b {
            return Some(k);
        }
        if k == s.len() {
            return None;
        }
        let w = char_width(s[k]);
        proof {
            lemma_byte_len_step(s@, k as int);
        }
        if w > b - acc {
            assert(char_pos_from(s@, b as int, k + 1) is None) by {
                if k + 1 < s.len() + 1 {
                    assert(byte_len(s@.subrange(0, k + 1)) > b);
                }
            }
            return None;
        }
        acc = acc + w;
        k = k + 1;
    }
}

// ── wrapping ──────────────────────────────────────────────────────────────────

/// The words of a line: its pieces between whitespace, empty ones left out
/// (`str::split_whitespace`).
pub open spec fn words(s: Seq<char>) -> Seq<Seq<char>> {
    split_by(s, ws_sep()).filter(nonempty())
}

pub open spec fn nonempty() -> spec_fn(Seq<char>) -> bool {
    |w: Seq<char>| w.len() > 0
}

/// A word longer than `width` bytes cut into pieces of `width` bytes and the rest that
/// fits; `None` when a cut would fall inside a character.
pub open spec fn hard_break(w: Seq<char>, width: int) -> Option<(Seq<Seq<char>>, Seq<char>)>
    decreases w.len(),
{
    if width <= 0 || byte_len(w) <= width {
        Some((Seq::empty(), w))
    } else {
        match char_pos(w, width) {
            None => None,
            Some(k) => if k <= 0 || k > w.len() {
                None
            } else {
                match hard_break(w.subrange(k, w.len() as int), width) {
                    None => None,
                    Some((cs, rest)) => Some((seq![w.subrange(0, k)] + cs, rest)),
                }
            },
        }
    }
}

/// The lines that the words `ws[i..]` of one line fill, when the line being filled holds
/// `cur`: a word joins the line (after a space) while the line stays within `width` bytes;
/// a word that starts a line and is too long for any is cut; `None` when such a cut would
/// fall inside a character.
pub open spec fn fill_words(ws: Seq<Seq<char>>, i: int, cur: Seq<char>, width: int) -> Option<
    Seq<Seq<char>>,
>
    decreases ws.len() - i,
{
    if i < 0 || i >= ws.len() {
        Some(
            if cur.len() > 0 {
                seq![cur]
            } else {
                Seq::empty()
            },
        )
    } else {
        let w = ws[i];
        if cur.len() == 0 {
            if byte_len(w) > width {
                match hard_break(w, width) {
                    None => None,
                    Some((cs, rest)) => match fill_words(ws, i + 1, rest, width) {
                        None => None,
                        Some(more) => Some(cs + more),
                    },
                }
            } else {
                fill_words(ws, i + 1, w, width)
            }
        } else if byte_len(cur) + 1 + byte_len(w) <= width {
            fill_words(ws, i + 1, cur + " "@ + w, width)
        } else {
            match fill_words(ws, i + 1, w, width) {
                None => None,
                Some(more) => Some(seq![cur] + more),
            }
        }
    }
}

/// The wrapped form of the lines `ls[j..]`: an empty line stays an empty line, a line of
/// whitespace alone gives none.
pub open spec fn wrap_lines(ls: Seq<Seq<char>>, j: int, width: int) -> Option<Seq<Seq<char>>>
    decreases ls.len() - j,
{
    if j < 0 || j >= ls.len() {
        Some(Seq::empty())
    } else if ls[j].len() == 0 {
        match wrap_lines(ls, j + 1, width) {
            None => None,
            Some(more) => Some(seq![Seq::<char>::empty()] + more),
        }
    } else {
        match fill_words(words(ls[j]), 0, Seq::empty(), width) {
            None => None,
            Some(here) => match wrap_lines(ls, j + 1, width) {
                None => None,
                Some(more) => Some(here + more),
            },
        }
    }
}

/// `text` wrapped at `width` bytes: a width under 4 leaves the text whole; no line at all
/// gives one empty line; `None` when a long word would be cut inside a character.
pub open spec fn spec_word_wrap(text: Seq<char>, width: int) -> Option<Seq<Seq<char>>> {
    if width < 4 {
        Some(seq![text])
    } else {
        match wrap_lines(lines(text), 0, width) {
            None => None,
            Some(out) => Some(
                if out.len() == 0 {
                    seq![Seq::<char>::empty()]
                } else {
                    out
                },
            ),
        }
    }
}

// ── every wrapped line fits ───────────────────────────────────────────────────

pub open spec fn all_fit(ls: Seq<Seq<char>>, width: int) -> bool {
    forall|i: int| 0 <= i < ls.len() ==> byte_len(#[trigger] ls[i]) <= width
}

proof fn lemma_hard_break_fits(w: Seq<char>, width: int)
    requires
        width > 0,
        hard_break(w, width) is Some,
    ensures
        all_fit(hard_break(w, width).unwrap().0, width),
        byte_len(hard_break(w, width).unwrap().1) <= width,
    decreases w.len(),
{
    if byte_len(w) > width {
        let k = char_pos(w, width).unwrap();
        lemma_char_pos_from(w, width, 0);
        lemma_hard_break_fits(w.subrange(k, w.len() as int), width);
        let (cs, rest) = hard_break(w.subrange(k, w.len() as int), width).unwrap();
        let all = seq![w.subrange(0, k)] + cs;
        assert forall|i: int| 0 <= i < all.len() implies byte_len(#[trigger] all[i]) <= width by {
            if i > 0 {
                assert(all[i] == cs[i - 1]);
            }
        }
    }
}

/// The words after the first of a line fit in `width` bytes.
pub open spec fn later_words_fit(ws: Seq<Seq<char>>, width: int) -> bool {
    forall|j: int| 1 <= j < ws.len() ==> byte_len(#[trigger] ws[j]) <= width
}

proof fn lemma_fill_words_fits(ws: Seq<Seq<char>>, i: int, cur: Seq<char>, width: int)
    requires
        width > 0,
        i >= 0,
        i == 0 ==> cur.len() == 0,
        later_words_fit(ws, width),
        byte_len(cur) <= width,
        fill_words(ws, i, cur, width) is Some,
    ensures
        all_fit(fill_words(ws, i, cur, width).unwrap(), width),
    decreases ws.len() - i,
{
    if 0 <= i < ws.len() {
        let w = ws[i];
        if cur.len() == 0 {
            if byte_len(w) > width {
                lemma_hard_break_fits(w, width);
                let (cs, rest) = hard_break(w, width).unwrap();
                lemma_byte_len_bounds(cur);
                lemma_fill_words_fits(ws, i + 1, rest, width);
                let more = fill_words(ws, i + 1, rest, width).unwrap();
                assert forall|j: int| 0 <= j < (cs + more).len() implies byte_len(
                    #[trigger] (cs + more)[j],
                ) <= width by {
                    if j >= cs.len() {
                        assert((cs + more)[j] == more[j - cs.len()]);
                    }
                }
            } else {
                lemma_fill_words_fits(ws, i + 1, w, width);
            }
        } else if byte_len(cur) + 1 + byte_len(w) <= width {
            reveal_strlit(" ");
            assert(" "@ =~= seq![' ']);
            assert(seq![' '].drop_last() =~= Seq::<char>::empty());
            assert(byte_len(seq![' ']) == byte_len(Seq::<char>::empty()) + utf8_width(' '));
            lemma_byte_len_concat(cur, " "@);
            lemma_byte_len_concat(cur + " "@, w);
            lemma_fill_words_fits(ws, i + 1, cur + " "@ + w, width);
        } else {
            lemma_fill_words_fits(ws, i + 1, w, width);
            let more = fill_words(ws, i + 1, w, width).unwrap();
            assert forall|j: int| 0 <= j < (seq![cur] + more).len() implies byte_len(
                #[trigger] (seq![cur] + more)[j],
            ) <= width by {
                if j >= 1 {
                    assert((seq![cur] + more)[j] == more[j - 1]);
                }
            }
        }
    }
}

proof fn lemma_wrap_lines_fits(ls: Seq<Seq<char>>, j: int, width: int)
    requires
        width > 0,
        forall|k: int| 0 <= k < ls.len() ==> later_words_fit(words(#[trigger] ls[k]), width),
        wrap_lines(ls, j, width) is Some,
    ensures
        all_fit(wrap_lines(ls, j, width).unwrap(), width),
    decreases ls.len() - j,
{
    if 0 <= j < ls.len() {
        lemma_wrap_lines_fits(ls, j + 1, width);
        let more = wrap_lines(ls, j + 1, width).unwrap();
        if ls[j].len() == 0 {
            let all = seq![Seq::<char>::empty()] + more;
            assert forall|i: int| 0 <= i < all.len() implies byte_len(#[trigger] all[i]) <= width by {
                if i >= 1 {
                    assert(all[i] == more[i - 1]);
                }
            }
        } else {
            assert(later_words_fit(words(ls[j]), width));
            lemma_fill_words_fits(words(ls[j]), 0, Seq::empty(), width);
            let here = fill_words(words(ls[j]), 0, Seq::empty(), width).unwrap();
            let all = here + more;
            assert forall|i: int| 0 <= i < all.len() implies byte_len(#[trigger] all[i]) <= width by {
                if i >= here.len() {
                    assert(all[i] == more[i - here.len()]);
                }
            }
        }
    }
}

/// In every line of `text`, the words after the first fit in `width` bytes.
pub open spec fn text_later_words_fit(text: Seq<char>, width: int) -> bool {
    forall|j: int| 0 <= j < lines(text).len() ==> later_words_fit(words(#[trigger] lines(text)[j]), width)
}

/// Wrapping at a width of 4 or more gives lines of at most that many bytes, when no word
/// longer than that follows another word on a line of the text (such a word is carried to
/// a line of its own, uncut).
pub proof fn law_wrapped_lines_fit(text: Seq<char>, width: int)
    requires
        width >= 4,
        text_later_words_fit(text, width),
        spec_word_wrap(text, width) is Some,
    ensures
        all_fit(spec_word_wrap(text, width).unwrap(), width),
{
    lemma_wrap_lines_fits(lines(text), 0, width);
    let out = wrap_lines(lines(text), 0, width).unwrap();
    if out.len() == 0 {
        assert(byte_len(Seq::<char>::empty()) == 0);
    }
}

// ── wrapping keeps the text ───────────────────────────────────────────────────

pub open spec fn not_ws() -> spec_fn(char) -> bool {
    |c: char| !is_ws(c)
}

/// The characters of `s` that are not whitespace.
pub open spec fn non_ws(s: Seq<char>) -> Seq<char> {
    s.filter(not_ws())
}

/// The lines put end to end.
pub open spec fn concat_all(ls: Seq<Seq<char>>) -> Seq<char>
    decreases ls.len(),
{
    if ls.len() == 0 {
        Seq::empty()
    } else {
        concat_all(ls.drop_last()) + ls.last()
    }
}

/// The non-whitespace characters of each line, put end to end.
pub open spec fn text_of(ls: Seq<Seq<char>>) -> Seq<char> {
    concat_all(ls.map_values(|l: Seq<char>| non_ws(l)))
}

/// `s` holds no whitespace.
pub open spec fn no_ws(s: Seq<char>) -> bool {
    forall|k: int| 0 <= k < s.len() ==> !is_ws(#[trigger] s[k])
}

proof fn lemma_non_ws_push(s: Seq<char>, c: char)
    ensures
        non_ws(s.push(c)) == if is_ws(c) {
            non_ws(s)
        } else {
            non_ws(s).push(c)
        },
{
    reveal(Seq::filter);
    assert(s.push(c).drop_last() =~= s);
}

proof fn lemma_non_ws_add(a: Seq<char>, b: Seq<char>)
    ensures
        non_ws(a + b) == non_ws(a) + non_ws(b),
{
    broadcast use Seq::filter_distributes_over_add;

}

proof fn lemma_non_ws_of_plain(s: Seq<char>)
    requires
        no_ws(s),
    ensures
        non_ws(s) == s,
    decreases s.len(),
{
    if s.len() > 0 {
        let d = s.drop_last();
        assert(no_ws(d)) by {
            assert forall|k: int| 0 <= k < d.len() implies !is_ws(#[trigger] d[k]) by {
                assert(d[k] == s[k]);
            }
        }
        lemma_non_ws_of_plain(d);
        assert(!is_ws(s[s.len() - 1]));
        lemma_non_ws_push(d, s.last());
        assert(d.push(s.last()) =~= s);
    } else {
        reveal(Seq::filter);
    }
}

proof fn lemma_non_ws_spaces()
    ensures
        non_ws(" "@) == Seq::<char>::empty(),
        non_ws(Seq::<char>::empty()) == Seq::<char>::empty(),
{
    reveal_strlit(" ");
    reveal(Seq::filter);
    assert(" "@ =~= seq![' ']);
    assert(is_ws(' '));
    lemma_non_ws_push(Seq::<char>::empty(), ' ');
    assert(Seq::<char>::empty().push(' ') =~= seq![' ']);
}

proof fn lemma_concat_all_one(x: Seq<char>)
    ensures
        concat_all(seq![x]) == x,
{
    let e = Seq::<Seq<char>>::empty();
    assert(seq![x].drop_last() =~= e);
    assert(concat_all(e) == Seq::<char>::empty());
    assert(seq![x].last() == x);
    assert(concat_all(seq![x]) == concat_all(seq![x].drop_last()) + seq![x].last());
    assert(Seq::<char>::empty() + x =~= x);
}

proof fn lemma_concat_all_add(a: Seq<Seq<char>>, b: Seq<Seq<char>>)
    ensures
        concat_all(a + b) == concat_all(a) + concat_all(b),
    decreases b.len(),
{
    if b.len() == 0 {
        assert(a + b =~= a);
        assert(concat_all(a) + Seq::<char>::empty() =~= concat_all(a));
    } else {
        lemma_concat_all_add(a, b.drop_last());
        assert((a + b).drop_last() =~= a + b.drop_last());
    }
}

proof fn lemma_text_of_add(a: Seq<Seq<char>>, b: Seq<Seq<char>>)
    ensures
        text_of(a + b) == text_of(a) + text_of(b),
{
    let f = |l: Seq<char>| non_ws(l);
    assert((a + b).map_values(f) =~= a.map_values(f) + b.map_values(f));
    lemma_concat_all_add(a.map_values(f), b.map_values(f));
}

proof fn lemma_text_of_one(l: Seq<char>)
    ensures
        text_of(seq![l]) == non_ws(l),
{
    assert(seq![l].map_values(|l: Seq<char>| non_ws(l)) =~= seq![non_ws(l)]);
    lemma_concat_all_one(non_ws(l));
}

proof fn lemma_text_of_empty()
    ensures
        text_of(Seq::<Seq<char>>::empty()) == Seq::<char>::empty(),
{
    assert(Seq::<Seq<char>>::empty().map_values(|l: Seq<char>| non_ws(l)) =~= Seq::<
        Seq<char>,
    >::empty());
}

/// The pieces between whitespace, put end to end, are the text without its whitespace.
proof fn lemma_split_ws(s: Seq<char>)
    ensures
        concat_all(split_by(s, ws_sep())) == non_ws(s),
        forall|j: int|
            0 <= j < split_by(s, ws_sep()).len() ==> no_ws(#[trigger] split_by(s, ws_sep())[j]),
    decreases s.len(),
{
    crate::text::lemma_split_by_len(s, ws_sep());
    if s.len() == 0 {
        reveal(Seq::filter);
        lemma_concat_all_one(Seq::<char>::empty());
        assert(split_by(s, ws_sep()) == seq![Seq::<char>::empty()]);
    } else {
        let d = s.drop_last();
        let c = s.last();
        lemma_split_ws(d);
        crate::text::lemma_split_by_len(d, ws_sep());
        let p = split_by(d, ws_sep());
        lemma_non_ws_push(d, c);
        assert(d.push(c) =~= s);
        if is_ws(c) {
            let q = p.push(Seq::<char>::empty());
            assert(split_by(s, ws_sep()) == q);
            assert(q.drop_last() =~= p);
            assert(concat_all(p) + Seq::<char>::empty() =~= concat_all(p));
            assert(concat_all(q) == concat_all(p));
            assert forall|j: int| 0 <= j < q.len() implies no_ws(#[trigger] q[j]) by {
                if j < p.len() {
                    assert(q[j] == p[j]);
                }
            }
        } else {
            let k = p.len() - 1;
            let q = p.update(k, p[k].push(c));
            assert(split_by(s, ws_sep()) == q);
            assert(q.drop_last() =~= p.drop_last());
            assert(q.last() == p[k].push(c));
            assert(concat_all(p) == concat_all(p.drop_last()) + p[k]);
            assert(concat_all(q) == concat_all(q.drop_last()) + q.last());
            assert(concat_all(p.drop_last()) + p[k].push(c) =~= (concat_all(p.drop_last()) + p[k]).push(c));
            assert(concat_all(q) == concat_all(p).push(c));
            assert forall|j: int| 0 <= j < q.len() implies no_ws(#[trigger] q[j]) by {
                if j < k {
                    assert(q[j] == p[j]);
                } else {
                    assert forall|m: int| 0 <= m < q[j].len() implies !is_ws(#[trigger] q[j][m]) by {
                        if m < p[k].len() {
                            assert(q[j][m] == p[k][m]);
                        }
                    }
                }
            }
        }
    }
}

proof fn lemma_concat_filter_nonempty(x: Seq<Seq<char>>)
    ensures
        concat_all(x.filter(nonempty())) == concat_all(x),
        forall|j: int| 0 <= j < x.filter(nonempty()).len() ==> x.contains(
            #[trigger] x.filter(nonempty())[j],
        ),
    decreases x.len(),
{
    broadcast use vstd::seq_lib::group_filter_ensures;

    reveal(Seq::filter);
    if x.len() > 0 {
        lemma_concat_filter_nonempty(x.drop_last());
        let f = x.drop_last().filter(nonempty());
        if x.last().len() > 0 {
            assert(f.push(x.last()).drop_last() =~= f);
        } else {
            assert(concat_all(x.drop_last()) + x.last() =~= concat_all(x.drop_last()));
        }
    }
}

/// The words of a line, put end to end, are the line without its whitespace, and no word
/// holds whitespace.
proof fn lemma_words(l: Seq<char>)
    ensures
        concat_all(words(l)) == non_ws(l),
        forall|j: int| 0 <= j < words(l).len() ==> no_ws(#[trigger] words(l)[j]),
{
    lemma_split_ws(l);
    let x = split_by(l, ws_sep());
    lemma_concat_filter_nonempty(x);
    assert forall|j: int| 0 <= j < words(l).len() implies no_ws(#[trigger] words(l)[j]) by {
        assert(x.contains(words(l)[j]));
        let i = choose|i: int| 0 <= i < x.len() && x[i] == words(l)[j];
        assert(no_ws(x[i]));
    }
}

proof fn lemma_hard_break_keeps(w: Seq<char>, width: int)
    requires
        hard_break(w, width) is Some,
        no_ws(w),
    ensures
        concat_all(hard_break(w, width).unwrap().0) + hard_break(w, width).unwrap().1 == w,
        forall|j: int|
            0 <= j < hard_break(w, width).unwrap().0.len() ==> no_ws(
                #[trigger] hard_break(w, width).unwrap().0[j],
            ),
        no_ws(hard_break(w, width).unwrap().1),
    decreases w.len(),
{
    if width <= 0 || byte_len(w) <= width {
        assert(Seq::<char>::empty() + w =~= w);
    } else {
        let k = char_pos(w, width).unwrap();
        let tail = w.subrange(k, w.len() as int);
        assert(no_ws(tail)) by {
            assert forall|m: int| 0 <= m < tail.len() implies !is_ws(#[trigger] tail[m]) by {
                assert(tail[m] == w[k + m]);
            }
        }
        lemma_hard_break_keeps(tail, width);
        let (cs, rest) = hard_break(tail, width).unwrap();
        let head = w.subrange(0, k);
        assert(no_ws(head)) by {
            assert forall|m: int| 0 <= m < head.len() implies !is_ws(#[trigger] head[m]) by {
                assert(head[m] == w[m]);
            }
        }
        lemma_concat_all_add(seq![head], cs);
        lemma_concat_all_one(head);
        assert(head + tail =~= w);
        assert(head + concat_all(cs) + rest =~= head + (concat_all(cs) + rest));
        let all = seq![head] + cs;
        assert forall|j: int| 0 <= j < all.len() implies no_ws(#[trigger] all[j]) by {
            if j > 0 {
                assert(all[j] == cs[j - 1]);
            }
        }
    }
}

pub open spec fn all_plain(ws: Seq<Seq<char>>) -> bool {
    forall|j: int| 0 <= j < ws.len() ==> no_ws(#[trigger] ws[j])
}

proof fn lemma_text_of_plain(cs: Seq<Seq<char>>)
    requires
        all_plain(cs),
    ensures
        text_of(cs) == concat_all(cs),
    decreases cs.len(),
{
    if cs.len() > 0 {
        let d = cs.drop_last();
        assert(all_plain(d)) by {
            assert forall|j: int| 0 <= j < d.len() implies no_ws(#[trigger] d[j]) by {
                assert(d[j] == cs[j]);
            }
        }
        lemma_text_of_plain(d);
        lemma_non_ws_of_plain(cs.last());
        assert(cs.map_values(|l: Seq<char>| non_ws(l)).drop_last() =~= d.map_values(
            |l: Seq<char>| non_ws(l),
        ));
    } else {
        lemma_text_of_empty();
    }
}

proof fn lemma_rest_words(ws: Seq<Seq<char>>, i: int)
    requires
        0 <= i < ws.len(),
    ensures
        concat_all(ws.subrange(i, ws.len() as int)) == ws[i] + concat_all(
            ws.subrange(i + 1, ws.len() as int),
        ),
{
    assert(ws.subrange(i, ws.len() as int) =~= seq![ws[i]] + ws.subrange(i + 1, ws.len() as int));
    lemma_concat_all_add(seq![ws[i]], ws.subrange(i + 1, ws.len() as int));
    lemma_concat_all_one(ws[i]);
}

/// A long word that starts a line: its pieces, then the lines after, keep the text.
proof fn lemma_fill_hard_step(w: Seq<char>, width: int, later: Seq<char>, more: Seq<Seq<char>>)
    requires
        no_ws(w),
        hard_break(w, width) is Some,
        text_of(more) == non_ws(hard_break(w, width).unwrap().1) + later,
    ensures
        text_of(hard_break(w, width).unwrap().0 + more) == w + later,
{
    lemma_hard_break_keeps(w, width);
    let (cs, rest) = hard_break(w, width).unwrap();
    lemma_text_of_add(cs, more);
    lemma_text_of_plain(cs);
    lemma_non_ws_of_plain(rest);
    assert(concat_all(cs) + (rest + later) =~= concat_all(cs) + rest + later);
}

/// A word joined to the line being filled keeps the text.
proof fn lemma_fill_join_step(cur: Seq<char>, w: Seq<char>, later: Seq<char>)
    requires
        no_ws(w),
    ensures
        non_ws(cur + " "@ + w) + later == non_ws(cur) + (w + later),
{
    lemma_non_ws_add(cur, " "@);
    lemma_non_ws_add(cur + " "@, w);
    lemma_non_ws_spaces();
    lemma_non_ws_of_plain(w);
    assert(non_ws(cur) + Seq::<char>::empty() =~= non_ws(cur));
    assert(non_ws(cur) + w + later =~= non_ws(cur) + (w + later));
}

/// A full line emitted before a word that does not fit keeps the text.
proof fn lemma_fill_break_step(cur: Seq<char>, w: Seq<char>, later: Seq<char>, more: Seq<Seq<char>>)
    requires
        no_ws(w),
        text_of(more) == non_ws(w) + later,
    ensures
        text_of(seq![cur] + more) == non_ws(cur) + (w + later),
{
    lemma_text_of_add(seq![cur], more);
    lemma_text_of_one(cur);
    lemma_non_ws_of_plain(w);
}

proof fn lemma_fill_words_keeps(ws: Seq<Seq<char>>, i: int, cur: Seq<char>, width: int)
    requires
        0 <= i <= ws.len(),
        all_plain(ws),
        fill_words(ws, i, cur, width) is Some,
    ensures
        text_of(fill_words(ws, i, cur, width).unwrap()) == non_ws(cur) + concat_all(
            ws.subrange(i, ws.len() as int),
        ),
    decreases ws.len() - i,
{
    if i >= ws.len() {
        assert(ws.subrange(i, ws.len() as int) =~= Seq::<Seq<char>>::empty());
        if cur.len() > 0 {
            lemma_text_of_one(cur);
        } else {
            lemma_text_of_empty();
            lemma_non_ws_spaces();
            assert(cur =~= Seq::<char>::empty());
        }
        assert(non_ws(cur) + Seq::<char>::empty() =~= non_ws(cur));
    } else {
        let w = ws[i];
        lemma_rest_words(ws, i);
        let later = concat_all(ws.subrange(i + 1, ws.len() as int));
        assert(no_ws(w));
        if cur.len() == 0 {
            lemma_non_ws_spaces();
            assert(cur =~= Seq::<char>::empty());
            assert(Seq::<char>::empty() + (w + later) =~= w + later);
            if byte_len(w) > width {
                let rest = hard_break(w, width).unwrap().1;
                lemma_fill_words_keeps(ws, i + 1, rest, width);
                lemma_fill_hard_step(w, width, later, fill_words(ws, i + 1, rest, width).unwrap());
            } else {
                lemma_fill_words_keeps(ws, i + 1, w, width);
                lemma_non_ws_of_plain(w);
            }
        } else if byte_len(cur) + 1 + byte_len(w) <= width {
            lemma_fill_words_keeps(ws, i + 1, cur + " "@ + w, width);
            lemma_fill_join_step(cur, w, later);
        } else {
            lemma_fill_words_keeps(ws, i + 1, w, width);
            lemma_fill_break_step(cur, w, later, fill_words(ws, i + 1, w, width).unwrap());
        }
    }
}

proof fn lemma_wrap_lines_keeps(ls: Seq<Seq<char>>, j: int, width: int)
    requires
        0 <= j <= ls.len(),
        wrap_lines(ls, j, width) is Some,
    ensures
        text_of(wrap_lines(ls, j, width).unwrap()) == text_of(ls.subrange(j, ls.len() as int)),
    decreases ls.len() - j,
{
    let tail = ls.subrange(j, ls.len() as int);
    if j >= ls.len() {
        assert(tail =~= Seq::<Seq<char>>::empty());
        lemma_text_of_empty();
    } else {
        lemma_wrap_lines_keeps(ls, j + 1, width);
        let more = wrap_lines(ls, j + 1, width).unwrap();
        assert(tail =~= seq![ls[j]] + ls.subrange(j + 1, ls.len() as int));
        lemma_text_of_add(seq![ls[j]], ls.subrange(j + 1, ls.len() as int));
        lemma_text_of_one(ls[j]);
        if ls[j].len() == 0 {
            lemma_text_of_add(seq![Seq::<char>::empty()], more);
            lemma_text_of_one(Seq::<char>::empty());
            lemma_non_ws_spaces();
            assert(ls[j] =~= Seq::<char>::empty());
        } else {
            lemma_words(ls[j]);
            let ws = words(ls[j]);
            lemma_fill_words_keeps(ws, 0, Seq::empty(), width);
            let here = fill_words(ws, 0, Seq::empty(), width).unwrap();
            lemma_text_of_add(here, more);
            lemma_non_ws_spaces();
            assert(ws.subrange(0, ws.len() as int) =~= ws);
            assert(Seq::<char>::empty() + concat_all(ws) =~= concat_all(ws));
        }
    }
}

proof fn lemma_text_of_last(x: Seq<Seq<char>>)
    requires
        x.len() > 0,
    ensures
        text_of(x) == text_of(x.drop_last()) + non_ws(x.last()),
{
    assert(x =~= x.drop_last() + seq![x.last()]);
    lemma_text_of_add(x.drop_last(), seq![x.last()]);
    lemma_text_of_one(x.last());
}

/// The pieces between line breaks keep the text.
proof fn lemma_split_nl(s: Seq<char>)
    ensures
        text_of(split_by(s, crate::text::newline_sep())) == non_ws(s),
    decreases s.len(),
{
    let sep = crate::text::newline_sep();
    crate::text::lemma_split_by_len(s, sep);
    lemma_non_ws_spaces();
    if s.len() == 0 {
        lemma_text_of_one(Seq::<char>::empty());
        assert(split_by(s, sep) == seq![Seq::<char>::empty()]);
    } else {
        let d = s.drop_last();
        let c = s.last();
        lemma_split_nl(d);
        crate::text::lemma_split_by_len(d, sep);
        let p = split_by(d, sep);
        lemma_non_ws_push(d, c);
        assert(d.push(c) =~= s);
        let k = p.len() - 1;
        lemma_text_of_last(p);
        assert(p.drop_last().push(p[k]) =~= p);
        if c == '\n' {
            assert(is_ws('\n'));
            let q = p.push(Seq::<char>::empty());
            assert(split_by(s, sep) == q);
            lemma_text_of_last(q);
            assert(q.drop_last() =~= p);
            assert(text_of(p) + Seq::<char>::empty() =~= text_of(p));
        } else {
            let q = p.update(k, p[k].push(c));
            assert(split_by(s, sep) == q);
            lemma_text_of_last(q);
            assert(q.drop_last() =~= p.drop_last());
            lemma_non_ws_push(p[k], c);
            if is_ws(c) {
                assert(text_of(q) == text_of(p));
            } else {
                assert(text_of(p.drop_last()) + non_ws(p[k]).push(c) =~= (text_of(p.drop_last())
                    + non_ws(p[k])).push(c));
            }
        }
    }
}

/// A line without its ending `\r` has the same text.
proof fn lemma_strip_cr_keeps(l: Seq<char>)
    ensures
        non_ws(crate::text::strip_cr(l)) == non_ws(l),
{
    if l.len() > 0 && l.last() == '\r' {
        assert(is_ws('\r'));
        lemma_non_ws_push(l.drop_last(), '\r');
        assert(l.drop_last().push('\r') =~= l);
    }
}

/// The lines of a text keep its text.
proof fn lemma_lines_keep(s: Seq<char>)
    ensures
        text_of(lines(s)) == non_ws(s),
{
    let p = split_by(s, crate::text::newline_sep());
    crate::text::lemma_split_by_len(s, crate::text::newline_sep());
    lemma_split_nl(s);
    let k = p.len() - 1;
    let head = p.subrange(0, k);
    let done = head.map_values(|l: Seq<char>| crate::text::strip_cr(l));
    assert(done.map_values(|l: Seq<char>| non_ws(l)) =~= head.map_values(|l: Seq<char>| non_ws(l)))
        by {
        assert forall|j: int| 0 <= j < head.len() implies #[trigger] non_ws(done[j]) == non_ws(
            head[j],
        ) by {
            lemma_strip_cr_keeps(head[j]);
        }
    }
    assert(text_of(done) == text_of(head));
    assert(p =~= head + seq![p[k]]);
    lemma_text_of_add(head, seq![p[k]]);
    lemma_text_of_one(p[k]);
    lemma_non_ws_spaces();
    if p[k].len() == 0 {
        assert(p[k] =~= Seq::<char>::empty());
        assert(text_of(head) + Seq::<char>::empty() =~= text_of(head));
    } else {
        lemma_text_of_add(done, seq![p[k]]);
        assert(done + seq![p[k]] =~= done.push(p[k]));
    }
}

/// Wrapping loses nothing and adds nothing but whitespace: the lines, with their
/// whitespace removed and put end to end, are the text with its whitespace removed.
pub proof fn law_wrapping_keeps_the_text(text: Seq<char>, width: int)
    requires
        spec_word_wrap(text, width) is Some,
    ensures
        text_of(spec_word_wrap(text, width).unwrap()) == non_ws(text),
{
    if width < 4 {
        lemma_text_of_one(text);
    } else {
        let ls = lines(text);
        lemma_wrap_lines_keeps(ls, 0, width);
        lemma_lines_keep(text);
        assert(ls.subrange(0, ls.len() as int) =~= ls);
        let out = wrap_lines(ls, 0, width).unwrap();
        if out.len() == 0 {
            lemma_text_of_one(Seq::<char>::empty());
            lemma_non_ws_spaces();
            lemma_text_of_empty();
            assert(out =~= Seq::<Seq<char>>::empty());
        }
    }
}

// ── executable wrapping ───────────────────────────────────────────────────────

/// The words of `s`.
fn words_of(s: &[char]) -> (r: Vec<Vec<char>>)
    ensures
        seqs(r@) == words(s@),
{
    let pieces = split_chars(s, CharClass::Whitespace);
    let ghost p = seqs(pieces@);
    let mut r: Vec<Vec<char>> = Vec::new();
    let mut i: usize = 0;
    while i < pieces.len()
        invariant
            i <= pieces.len(),
            p == seqs(pieces@),
            p == split_by(s@, ws_sep()),
            seqs(r@) == p.subrange(0, i as int).filter(nonempty()),
        decreases pieces.len() - i,
    {
        proof {
            reveal(Seq::filter);
        }
        let ghost pre = p.subrange(0, i as int);
        assert(p.subrange(0, i + 1).drop_last() =~= pre);
        assert(p.subrange(0, i + 1).last() == pieces@[i as int]@);
        if pieces[i].len() > 0 {
            let ghost before = r@;
            let w = slice_chars(pieces[i].as_slice(), 0, pieces[i].len());
            assert(w@ =~= pieces@[i as int]@);
            r.push(w);
            assert(seqs(r@) =~= seqs(before).push(w@));
        }
        i = i + 1;
    }
    assert(p.subrange(0, pieces.len() as int) =~= p);
    r
}

/// A long word cut at `width` bytes, as `hard_break` states; `None` where it does.
fn hard_break_chars(w: &[char], width: usize) -> (r: Option<(Vec<Vec<char>>, Vec<char>)>)
    ensures
        match r {
            None => hard_break(w@, width as int) is None,
            Some((cs, rest)) => hard_break(w@, width as int) == Some((seqs(cs@), rest@)),
        },
    decreases w.len(),
{
    let n = utf8_len(w);
    if width == 0 || n <= width as u128 {
        let whole = slice_chars(w, 0, w.len());
        assert(whole@ =~= w@);
        let none: Vec<Vec<char>> = Vec::new();
        assert(seqs(none@) =~= Seq::<Seq<char>>::empty());
        return Some((none, whole));
    }
    let k = match char_index(w, width) {
        Some(k) => k,
        None => {
            return None;
        },
    };
    proof {
        lemma_char_pos_from(w@, width as int, 0);
    }
    let head = slice_chars(w, 0, k);
    let rest = slice_chars(w, k, w.len());
    let (cs, tail) = match hard_break_chars(rest.as_slice(), width) {
        Some(p) => p,
        None => {
            return None;
        },
    };
    let ghost hv = head@;
    let ghost csv = seqs(cs@);
    let mut out: Vec<Vec<char>> = Vec::new();
    out.push(head);
    let mut cs = cs;
    out.append(&mut cs);
    assert(seqs(out@) =~= seq![hv] + csv);
    Some((out, tail))
}

/// Appends to `out` the lines that the words `ws` of one line fill; `false` (with `out`
/// left in any state) where `fill_words` has no result.
fn fill_line(ws: &Vec<Vec<char>>, width: usize, out: &mut Vec<Vec<char>>) -> (r: bool)
    ensures
        r == fill_words(seqs(ws@), 0, Seq::empty(), width as int) is Some,
        r ==> seqs(final(out)@) == seqs(old(out)@) + fill_words(
            seqs(ws@),
            0,
            Seq::empty(),
            width as int,
        ).unwrap(),
{
    let ghost all = seqs(ws@);
    let ghost whole = fill_words(all, 0, Seq::empty(), width as int);
    let ghost total = whole.unwrap();
    let ghost base = seqs(out@);
    let mut cur: Vec<char> = Vec::new();
    let mut cur_len: u128 = 0;
    let mut i: usize = 0;
    assert(cur@ =~= Seq::<char>::empty());
    assert(whole is Some ==> base + total =~= seqs(out@) + total);
    while i < ws.len()
        invariant
            i <= ws.len(),
            all == seqs(ws@),
            whole == fill_words(all, 0, Seq::empty(), width as int),
            total == whole.unwrap(),
            base == seqs(old(out)@),
            cur_len == byte_len(cur@),
            cur_len <= 4 * (usize::MAX as int),
            (whole is Some) == (fill_words(all, i as int, cur@, width as int) is Some),
            whole is Some ==> base + total == seqs(out@) + fill_words(
                all,
                i as int,
                cur@,
                width as int,
            ).unwrap(),
        decreases ws.len() - i,
    {
        let w = &ws[i];
        assert(all[i as int] == w@);
        let wlen = utf8_len(w.as_slice());
        let wn = w.len();
        proof {
            lemma_byte_len_bounds(w@);
        }
        let ghost before = seqs(out@);
        let ghost old_cur = cur@;
        if cur.len() == 0 {
            if wlen > width as u128 {
                let (cs, rest) = match hard_break_chars(w.as_slice(), width) {
                    Some(p) => p,
                    None => {
                        return false;
                    },
                };
                let ghost csv = seqs(cs@);
                let mut cs = cs;
                out.append(&mut cs);
                assert(seqs(out@) =~= before + csv);
                cur = rest;
                cur_len = utf8_len(cur.as_slice());
                let cn = cur.len();
                proof {
                    lemma_byte_len_bounds(cur@);
                }
                assert(whole is Some ==> base + total =~= seqs(out@) + fill_words(
                    all,
                    i + 1,
                    cur@,
                    width as int,
                ).unwrap());
            } else {
                cur = slice_chars(w.as_slice(), 0, w.len());
                assert(cur@ =~= w@);
                cur_len = wlen;
            }
        } else if cur_len + 1 + wlen <= width as u128 {
            cur.push(' ');
            push_str(&mut cur, w.as_slice());
            proof {
                reveal_strlit(" ");
                assert(old_cur + " "@ + w@ =~= cur@);
                assert(seq![' '].drop_last() =~= Seq::<char>::empty());
                assert(utf8_width(' ') == 1);
                assert(byte_len(seq![' ']) == byte_len(Seq::<char>::empty()) + utf8_width(' '));
                lemma_byte_len_concat(old_cur, " "@);
                lemma_byte_len_concat(old_cur + " "@, w@);
                assert(" "@ =~= seq![' ']);
                assert(byte_len(" "@) == 1);
                assert(byte_len(cur@) == byte_len(old_cur) + 1 + byte_len(w@));
            }
            cur_len = cur_len + 1 + wlen;
        } else {
            out.push(cur);
            assert(seqs(out@) =~= before.push(old_cur));
            cur = slice_chars(w.as_slice(), 0, w.len());
            assert(cur@ =~= w@);
            cur_len = wlen;
            assert(whole is Some ==> base + total =~= seqs(out@) + fill_words(
                all,
                i + 1,
                cur@,
                width as int,
            ).unwrap());
        }
        i = i + 1;
    }
    if cur.len() > 0 {
        let ghost before = seqs(out@);
        let ghost cv = cur@;
        out.push(cur);
        assert(seqs(out@) =~= before.push(cv));
        assert(base + total =~= seqs(out@));
    } else {
        assert(base + total =~= seqs(out@));
    }
    true
}

/// The wrapped form of all the lines `ls`, as `wrap_lines` states; `None` where it does.
fn wrap_all(ls: &Vec<Vec<char>>, width: usize) -> (r: Option<Vec<Vec<char>>>)
    ensures
        match r {
            None => wrap_lines(seqs(ls@), 0, width as int) is None,
            Some(v) => wrap_lines(seqs(ls@), 0, width as int) == Some(seqs(v@)),
        },
{
    let ghost all = seqs(ls@);
    let ghost whole = wrap_lines(all, 0, width as int);
    let ghost total = whole.unwrap();
    let mut out: Vec<Vec<char>> = Vec::new();
    let mut j: usize = 0;
    assert(total =~= seqs(out@) + total);
    while j < ls.len()
        invariant
            j <= ls.len(),
            all == seqs(ls@),
            whole == wrap_lines(all, 0, width as int),
            total == whole.unwrap(),
            (whole is Some) == (wrap_lines(all, j as int, width as int) is Some),
            whole is Some ==> total == seqs(out@) + wrap_lines(all, j as int, width as int).unwrap(),
        decreases ls.len() - j,
    {
        let l = &ls[j];
        assert(all[j as int] == l@);
        let ghost before = seqs(out@);
        if l.len() == 0 {
            let empty: Vec<char> = Vec::new();
            out.push(empty);
            assert(seqs(out@) =~= before.push(Seq::<char>::empty()));
            assert(whole is Some ==> total =~= seqs(out@) + wrap_lines(
                all,
                j + 1,
                width as int,
            ).unwrap());
        } else {
            let ws = words_of(l.as_slice());
            if !fill_line(&ws, width, &mut out) {
                return None;
            }
            assert(whole is Some ==> total =~= seqs(out@) + wrap_lines(
                all,
                j + 1,
                width as int,
            ).unwrap());
        }
        j = j + 1;
    }
    assert(total =~= seqs(out@));
    Some(out)
}

/// The wrapped lines of `text` as character vectors; `None` where `spec_word_wrap` has no
/// result.
fn wrap_text(text: &str, width: usize) -> (r: Option<Vec<Vec<char>>>)
    ensures
        match r {
            None => spec_word_wrap(text@, width as int) is None,
            Some(v) => spec_word_wrap(text@, width as int) == Some(seqs(v@)),
        },
{
    let t = chars_of(text);
    let mut lines_out: Vec<Vec<char>> = Vec::new();
    if width < 4 {
        let whole = slice_chars(t.as_slice(), 0, t.len());
        assert(whole@ =~= t@);
        lines_out.push(whole);
        assert(seqs(lines_out@) =~= seq![text@]);
    } else {
        let ls = split_lines(t.as_slice());
        lines_out = match wrap_all(&ls, width) {
            Some(v) => v,
            None => {
                return None;
            },
        };
        if lines_out.len() == 0 {
            lines_out.push(Vec::new());
            assert(seqs(lines_out@) =~= seq![Seq::<char>::empty()]);
        }
    }
    Some(lines_out)
}

/// Whether `text` can be wrapped at `width` without cutting inside a character.
pub fn wraps_cleanly(text: &str, width: usize) -> (r: bool)
    ensures
        r == spec_word_wrap(text@, width as int) is Some,
{
    wrap_text(text, width).is_some()
}

/// `text` cut into lines of at most `width` bytes at whitespace, long words cut hard; a
/// width under 4 leaves the text whole.
pub fn word_wrap(text: &str, width: usize) -> (r: Vec<String>)
    requires
        spec_word_wrap(text@, width as int) is Some,
    ensures
        views(r@) == spec_word_wrap(text@, width as int).unwrap(),
{
    let lines_out = wrap_text(text, width).unwrap();
    let ghost want = seqs(lines_out@);
    let mut r: Vec<String> = Vec::new();
    let mut i: usize = 0;
    while i < lines_out.len()
        invariant
            i <= lines_out.len(),
            want == seqs(lines_out@),
            views(r@) == want.subrange(0, i as int),
        decreases lines_out.len() - i,
    {
        let ghost before = views(r@);
        let s = string_from_chars(lines_out[i].as_slice());
        let ghost sv = s@;
        assert(want[i as int] == lines_out@[i as int]@);
        r.push(s);
        assert(views(r@) =~= before.push(sv));
        assert(views(r@) =~= want.subrange(0, i + 1));
        i = i + 1;
    }
    assert(want.subrange(0, lines_out.len() as int) =~= want);
    r
}

} // verus!
