//! Removal of ANSI/VT escape sequences from command output.
use vstd::prelude::*;

use crate::text::{chars_of, string_from_chars};

verus! {

/// Where the scanner of escape sequences stands.
#[derive(PartialEq, Eq, Structural, Clone, Copy)]
pub enum AnsiMode {
    /// Plain text.
    Text,
    /// Just after an ESC.
    Escape,
    /// Inside a CSI sequence (`ESC [`), up to its final byte.
    Csi,
    /// Inside an OSC sequence (`ESC ]`), up to BEL, ST or ESC.
    Osc,
    /// Just after an ESC that ended an OSC sequence; a `\` here is swallowed.
    OscEscape,
}

pub open spec fn esc() -> char {
    '\x1b'
}

/// The byte that ends a CSI sequence: an ASCII letter, `~` or `@`.
pub open spec fn is_csi_final(c: char) -> bool {
    ('a' <= c && c <= 'z') || ('A' <= c && c <= 'Z') || c == '~' || c == '@'
}

pub open spec fn mode_rank(m: AnsiMode) -> int {
    if m == AnsiMode::OscEscape {
        1
    } else {
        0
    }
}

/// What is left of `s[i..]` once escape sequences are removed, when the scanner stands in
/// mode `m` at index `i`.
pub open spec fn ansi_from(s: Seq<char>, i: int, m: AnsiMode) -> Seq<char>
    decreases s.len() - i, mode_rank(m),
{
    if i < 0 || i >= s.len() {
        Seq::empty()
    } else {
        let c = s[i];
        match m {
            AnsiMode::Text => if c == esc() {
                ansi_from(s, i + 1, AnsiMode::Escape)
            } else {
                seq![c] + ansi_from(s, i + 1, AnsiMode::Text)
            },
            AnsiMode::Escape => if c == '[' {
                ansi_from(s, i + 1, AnsiMode::Csi)
            } else if c == ']' {
                ansi_from(s, i + 1, AnsiMode::Osc)
            } else {
                ansi_from(s, i + 1, AnsiMode::Text)
            },
            AnsiMode::Csi => if is_csi_final(c) {
                ansi_from(s, i + 1, AnsiMode::Text)
            } else {
                ansi_from(s, i + 1, AnsiMode::Csi)
            },
            AnsiMode::Osc => if c == '\x07' || c == '\u{9c}' {
                ansi_from(s, i + 1, AnsiMode::Text)
            } else if c == esc() {
                ansi_from(s, i + 1, AnsiMode::OscEscape)
            } else {
                ansi_from(s, i + 1, AnsiMode::Osc)
            },
            AnsiMode::OscEscape => if c == '\\' {
                ansi_from(s, i + 1, AnsiMode::Text)
            } else {
                ansi_from(s, i, AnsiMode::Text)
            },
        }
    }
}

/// `s` with its ANSI/VT escape sequences removed.
pub open spec fn spec_strip_ansi(s: Seq<char>) -> Seq<char> {
    ansi_from(s, 0, AnsiMode::Text)
}

/// Removes ANSI/VT escape sequences, so that remote output does not corrupt the terminal.
///
/// An ESC followed by `[` starts a CSI sequence, which runs up to and including the first
/// ASCII letter, `~` or `@`; an ESC followed by `]` starts an OSC sequence, which runs up
/// to BEL, U+009C, or an ESC (together with a `\` right after it); an ESC followed by any
/// other character removes that character too.
pub fn strip_ansi(s: &str) -> (r: String)
    ensures
        r@ == spec_strip_ansi(s@),
{
    let v = chars_of(s);
    let mut out: Vec<char> = Vec::new();
    let mut i: usize = 0;
    let mut m = AnsiMode::Text;
    while i < v.len()
        invariant
            i <= v.len(),
            v@ == s@,
            out@ + ansi_from(v@, i as int, m) == spec_strip_ansi(v@),
        decreases v.len() - i, mode_rank(m),
    {
        let c = v[i];
        match m {
            AnsiMode::Text => {
                if c == '\x1b' {
                    m = AnsiMode::Escape;
                } else {
                    assert(out@.push(c) + ansi_from(v@, i + 1, AnsiMode::Text) =~= out@ + (seq![c]
                        + ansi_from(v@, i + 1, AnsiMode::Text)));
                    out.push(c);
                }
                i = i + 1;
            },
            AnsiMode::Escape => {
                if c == '[' {
                    m = AnsiMode::Csi;
                } else if c == ']' {
                    m = AnsiMode::Osc;
                } else {
                    m = AnsiMode::Text;
                }
                i = i + 1;
            },
            AnsiMode::Csi => {
                if ('a' <= c && c <= 'z') || ('A' <= c && c <= 'Z') || c == '~' || c == '@' {
                    m = AnsiMode::Text;
                }
                i = i + 1;
            },
            AnsiMode::Osc => {
                if c == '\x07' || c == '\u{9c}' {
                    m = AnsiMode::Text;
                } else if c == '\x1b' {
                    m = AnsiMode::OscEscape;
                }
                i = i + 1;
            },
            AnsiMode::OscEscape => {
                if c == '\\' {
                    i = i + 1;
                }
                m = AnsiMode::Text;
            },
        }
    }
    assert(out@ =~= out@ + ansi_from(v@, i as int, m));
    string_from_chars(out.as_slice())
}

proof fn lemma_ansi_from_no_esc(s: Seq<char>, i: int, m: AnsiMode)
    ensures
        !ansi_from(s, i, m).contains(esc()),
    decreases s.len() - i, mode_rank(m),
{
    if i < 0 || i >= s.len() {
    } else {
        let c = s[i];
        match m {
            AnsiMode::Text => if c == esc() {
                lemma_ansi_from_no_esc(s, i + 1, AnsiMode::Escape);
            } else {
                lemma_ansi_from_no_esc(s, i + 1, AnsiMode::Text);
                let rest = ansi_from(s, i + 1, AnsiMode::Text);
                assert forall|k: int| 0 <= k < (seq![c] + rest).len() implies (seq![c]
                    + rest)[k] != esc() by {
                    if k > 0 {
                        assert((seq![c] + rest)[k] == rest[k - 1]);
                    }
                }
            },
            AnsiMode::Escape => if c == '[' {
                lemma_ansi_from_no_esc(s, i + 1, AnsiMode::Csi);
            } else if c == ']' {
                lemma_ansi_from_no_esc(s, i + 1, AnsiMode::Osc);
            } else {
                lemma_ansi_from_no_esc(s, i + 1, AnsiMode::Text);
            },
            AnsiMode::Csi => if is_csi_final(c) {
                lemma_ansi_from_no_esc(s, i + 1, AnsiMode::Text);
            } else {
                lemma_ansi_from_no_esc(s, i + 1, AnsiMode::Csi);
            },
            AnsiMode::Osc => if c == '\x07' || c == '\u{9c}' {
                lemma_ansi_from_no_esc(s, i + 1, AnsiMode::Text);
            } else if c == esc() {
                lemma_ansi_from_no_esc(s, i + 1, AnsiMode::OscEscape);
            } else {
                lemma_ansi_from_no_esc(s, i + 1, AnsiMode::Osc);
            },
            AnsiMode::OscEscape => if c == '\\' {
                lemma_ansi_from_no_esc(s, i + 1, AnsiMode::Text);
            } else {
                lemma_ansi_from_no_esc(s, i, AnsiMode::Text);
            },
        }
    }
}

proof fn lemma_ansi_from_plain(s: Seq<char>, i: int)
    requires
        0 <= i <= s.len(),
        !s.contains(esc()),
    ensures
        ansi_from(s, i, AnsiMode::Text) == s.subrange(i, s.len() as int),
    decreases s.len() - i,
{
    if i < s.len() {
        assert(s[i] != esc());
        lemma_ansi_from_plain(s, i + 1);
        assert(seq![s[i]] + s.subrange(i + 1, s.len() as int) =~= s.subrange(i, s.len() as int));
    } else {
        assert(s.subrange(i, s.len() as int) =~= Seq::<char>::empty());
    }
}

/// What comes out of `strip_ansi` holds no ESC character: every escape sequence is removed.
pub proof fn law_strip_ansi_leaves_no_escape(s: Seq<char>)
    ensures
        !spec_strip_ansi(s).contains(esc()),
{
    lemma_ansi_from_no_esc(s, 0, AnsiMode::Text);
}

/// Text that holds no ESC character passes through `strip_ansi` unchanged; together with the
/// law above, stripping twice gives what stripping once gives.
pub proof fn law_strip_ansi_keeps_plain_text(s: Seq<char>)
    ensures
        !s.contains(esc()) ==> spec_strip_ansi(s) == s,
        spec_strip_ansi(spec_strip_ansi(s)) == spec_strip_ansi(s),
{
    if !s.contains(esc()) {
        lemma_ansi_from_plain(s, 0);
        assert(s.subrange(0, s.len() as int) =~= s);
    }
    let t = spec_strip_ansi(s);
    lemma_ansi_from_no_esc(s, 0, AnsiMode::Text);
    lemma_ansi_from_plain(t, 0);
    assert(t.subrange(0, t.len() as int) =~= t);
}

/// `idx` picks, in increasing order, positions of `s` that hold the characters of `t`.
pub open spec fn picks(idx: Seq<int>, t: Seq<char>, s: Seq<char>) -> bool {
    &&& idx.len() == t.len()
    &&& forall|k: int| 0 <= k < idx.len() ==> 0 <= #[trigger] idx[k] < s.len() && s[idx[k]] == t[k]
    &&& forall|k: int, l: int| 0 <= k < l < idx.len() ==> #[trigger] idx[k] < #[trigger] idx[l]
}

/// `t` is a subsequence of `s`: its characters occur in `s` in the same order.
pub open spec fn is_subsequence(t: Seq<char>, s: Seq<char>) -> bool {
    exists|idx: Seq<int>| picks(idx, t, s)
}

proof fn lemma_ansi_from_picks(s: Seq<char>, i: int, m: AnsiMode) -> (idx: Seq<int>)
    requires
        0 <= i,
    ensures
        picks(idx, ansi_from(s, i, m), s),
        forall|k: int| 0 <= k < idx.len() ==> i <= #[trigger] idx[k],
    decreases s.len() - i, mode_rank(m),
{
    if i >= s.len() {
        Seq::empty()
    } else {
        let c = s[i];
        match m {
            AnsiMode::Text => if c == esc() {
                lemma_ansi_from_picks(s, i + 1, AnsiMode::Escape)
            } else {
                let rest = lemma_ansi_from_picks(s, i + 1, AnsiMode::Text);
                let t = ansi_from(s, i + 1, AnsiMode::Text);
                let idx = seq![i] + rest;
                assert(ansi_from(s, i, m) == seq![c] + t);
                assert forall|k: int| 0 <= k < idx.len() implies 0 <= #[trigger] idx[k] < s.len()
                    && s[idx[k]] == (seq![c] + t)[k] && i <= idx[k] by {
                    if k > 0 {
                        assert(idx[k] == rest[k - 1]);
                    }
                }
                assert forall|k: int, l: int| 0 <= k < l < idx.len() implies #[trigger] idx[k]
                    < #[trigger] idx[l] by {
                    assert(idx[l] == rest[l - 1]);
                    if k > 0 {
                        assert(idx[k] == rest[k - 1]);
                    }
                }
                idx
            },
            AnsiMode::Escape => if c == '[' {
                lemma_ansi_from_picks(s, i + 1, AnsiMode::Csi)
            } else if c == ']' {
                lemma_ansi_from_picks(s, i + 1, AnsiMode::Osc)
            } else {
                lemma_ansi_from_picks(s, i + 1, AnsiMode::Text)
            },
            AnsiMode::Csi => if is_csi_final(c) {
                lemma_ansi_from_picks(s, i + 1, AnsiMode::Text)
            } else {
                lemma_ansi_from_picks(s, i + 1, AnsiMode::Csi)
            },
            AnsiMode::Osc => if c == '\x07' || c == '\u{9c}' {
                lemma_ansi_from_picks(s, i + 1, AnsiMode::Text)
            } else if c == esc() {
                lemma_ansi_from_picks(s, i + 1, AnsiMode::OscEscape)
            } else {
                lemma_ansi_from_picks(s, i + 1, AnsiMode::Osc)
            },
            AnsiMode::OscEscape => if c == '\\' {
                lemma_ansi_from_picks(s, i + 1, AnsiMode::Text)
            } else {
                lemma_ansi_from_picks(s, i, AnsiMode::Text)
            },
        }
    }
}

/// What comes out of `strip_ansi` is a subsequence of what went in: characters are only
/// removed, never added or reordered.
pub proof fn law_strip_ansi_only_removes(s: Seq<char>)
    ensures
        is_subsequence(spec_strip_ansi(s), s),
{
    let idx = lemma_ansi_from_picks(s, 0, AnsiMode::Text);
    assert(picks(idx, spec_strip_ansi(s), s));
}

/// A character that ends a CSI sequence, spelled out: an ASCII letter of either case, `~`
/// or `@`.
pub open spec fn ends_csi(c: char) -> bool {
    ||| 'a' <= c <= 'z'
    ||| 'A' <= c <= 'Z'
    ||| c == '~'
    ||| c == '@'
}

/// The scanner reads `t` placed after any prefix as it reads `t` alone.
proof fn lemma_ansi_shift(a: Seq<char>, t: Seq<char>, i: int, m: AnsiMode)
    requires
        0 <= i,
    ensures
        ansi_from(a + t, a.len() + i, m) == ansi_from(t, i, m),
    decreases t.len() - i, mode_rank(m),
{
    let s = a + t;
    if i < t.len() {
        assert(s[a.len() + i] == t[i]);
        let c = t[i];
        match m {
            AnsiMode::Text => if c == esc() {
                lemma_ansi_shift(a, t, i + 1, AnsiMode::Escape);
            } else {
                lemma_ansi_shift(a, t, i + 1, AnsiMode::Text);
            },
            AnsiMode::Escape => if c == '[' {
                lemma_ansi_shift(a, t, i + 1, AnsiMode::Csi);
            } else if c == ']' {
                lemma_ansi_shift(a, t, i + 1, AnsiMode::Osc);
            } else {
                lemma_ansi_shift(a, t, i + 1, AnsiMode::Text);
            },
            AnsiMode::Csi => if is_csi_final(c) {
                lemma_ansi_shift(a, t, i + 1, AnsiMode::Text);
            } else {
                lemma_ansi_shift(a, t, i + 1, AnsiMode::Csi);
            },
            AnsiMode::Osc => if c == '\x07' || c == '\u{9c}' {
                lemma_ansi_shift(a, t, i + 1, AnsiMode::Text);
            } else if c == esc() {
                lemma_ansi_shift(a, t, i + 1, AnsiMode::OscEscape);
            } else {
                lemma_ansi_shift(a, t, i + 1, AnsiMode::Osc);
            },
            AnsiMode::OscEscape => if c == '\\' {
                lemma_ansi_shift(a, t, i + 1, AnsiMode::Text);
            } else {
                lemma_ansi_shift(a, t, i, AnsiMode::Text);
            },
        }
    }
}

/// Inside a CSI sequence, parameters that do not end it are skipped up to the final byte.
proof fn lemma_csi_params(s: Seq<char>, start: int, p: Seq<char>, j: int)
    requires
        0 <= start,
        0 <= j <= p.len(),
        start + p.len() <= s.len(),
        forall|k: int| 0 <= k < p.len() ==> s[start + k] == #[trigger] p[k],
        forall|k: int| 0 <= k < p.len() ==> !ends_csi(#[trigger] p[k]),
    ensures
        ansi_from(s, start + j, AnsiMode::Csi) == ansi_from(s, start + p.len(), AnsiMode::Csi),
    decreases p.len() - j,
{
    if j < p.len() {
        assert(s[start + j] == p[j]);
        assert(!ends_csi(p[j]));
        lemma_csi_params(s, start, p, j + 1);
    }
}

/// A CSI sequence, ESC `[`, parameters, then a final byte (an ASCII letter of either case,
/// `~` or `@`), is removed whole, and the text after it is read as if it came first.
pub proof fn law_csi_sequence_removed(p: Seq<char>, f: char, t: Seq<char>)
    requires
        forall|k: int| 0 <= k < p.len() ==> !ends_csi(#[trigger] p[k]),
        ends_csi(f),
    ensures
        spec_strip_ansi(seq!['\x1b', '['] + p + seq![f] + t) == spec_strip_ansi(t),
{
    let a = seq!['\x1b', '['] + p + seq![f];
    let s = a + t;
    assert(s =~= seq!['\x1b', '['] + p + seq![f] + t);
    assert(s[0] == esc());
    assert(s[1] == '[');
    assert forall|k: int| 0 <= k < p.len() implies s[2 + k] == #[trigger] p[k] by {
        assert(s[2 + k] == a[2 + k]);
    }
    lemma_csi_params(s, 2, p, 0);
    assert(s[2 + p.len() as int] == f);
    lemma_ansi_shift(a, t, 0, AnsiMode::Text);
    assert(ansi_from(s, 0, AnsiMode::Text) == ansi_from(s, 1, AnsiMode::Escape));
    assert(ansi_from(s, 1, AnsiMode::Escape) == ansi_from(s, 2, AnsiMode::Csi));
    assert(ansi_from(s, 2 + p.len() as int, AnsiMode::Csi) == ansi_from(s, a.len() as int, AnsiMode::Text));
}

proof fn lemma_osc_params(s: Seq<char>, start: int, p: Seq<char>, j: int)
    requires
        0 <= start,
        0 <= j <= p.len(),
        start + p.len() <= s.len(),
        forall|k: int| 0 <= k < p.len() ==> s[start + k] == #[trigger] p[k],
        forall|k: int|
            0 <= k < p.len() ==> #[trigger] p[k] != '\x07' && p[k] != '\u{9c}' && p[k] != '\x1b',
    ensures
        ansi_from(s, start + j, AnsiMode::Osc) == ansi_from(s, start + p.len(), AnsiMode::Osc),
    decreases p.len() - j,
{
    if j < p.len() {
        assert(s[start + j] == p[j]);
        lemma_osc_params(s, start, p, j + 1);
    }
}

/// `strip_ansi` of `seq![ESC, ']'] + p + end + t`, where `p` holds no terminator, is what
/// the scanner reads from `end + t` inside the OSC sequence.
proof fn lemma_osc_prefix(p: Seq<char>, rest: Seq<char>)
    requires
        forall|k: int|
            0 <= k < p.len() ==> #[trigger] p[k] != '\x07' && p[k] != '\u{9c}' && p[k] != '\x1b',
    ensures
        spec_strip_ansi(seq!['\x1b', ']'] + p + rest) == ansi_from(rest, 0, AnsiMode::Osc),
{
    let a = seq!['\x1b', ']'] + p;
    let s = a + rest;
    assert(s =~= seq!['\x1b', ']'] + p + rest);
    assert(s[0] == esc());
    assert(s[1] == ']');
    assert forall|k: int| 0 <= k < p.len() implies s[2 + k] == #[trigger] p[k] by {
        assert(s[2 + k] == a[2 + k]);
    }
    lemma_osc_params(s, 2, p, 0);
    lemma_ansi_shift(a, rest, 0, AnsiMode::Osc);
    assert(ansi_from(s, 0, AnsiMode::Text) == ansi_from(s, 1, AnsiMode::Escape));
    assert(ansi_from(s, 1, AnsiMode::Escape) == ansi_from(s, 2, AnsiMode::Osc));
}

/// How `strip_ansi` reads the rest of its input: a character other than ESC is kept; an
/// ESC followed by any character but `[` or `]` is dropped with that character; an OSC
/// sequence, ESC `]` then text without BEL, U+009C or ESC, is dropped up to and including
/// a BEL or U+009C, or up to an ESC, which takes a `\` right after it along and leaves any
/// other character to be read as text.
pub proof fn law_strip_ansi_pieces(c: char, x: char, p: Seq<char>, t: Seq<char>)
    ensures
        c != '\x1b' ==> spec_strip_ansi(seq![c] + t) == seq![c] + spec_strip_ansi(t),
        x != '[' && x != ']' ==> spec_strip_ansi(seq!['\x1b', x] + t) == spec_strip_ansi(t),
        (forall|k: int|
            0 <= k < p.len() ==> #[trigger] p[k] != '\x07' && p[k] != '\u{9c}' && p[k] != '\x1b')
            ==> {
            &&& spec_strip_ansi(seq!['\x1b', ']'] + p + seq!['\x07'] + t) == spec_strip_ansi(t)
            &&& spec_strip_ansi(seq!['\x1b', ']'] + p + seq!['\u{9c}'] + t) == spec_strip_ansi(t)
            &&& spec_strip_ansi(seq!['\x1b', ']'] + p + seq!['\x1b', '\\'] + t)
                == spec_strip_ansi(t)
            &&& x != '\\' ==> spec_strip_ansi(seq!['\x1b', ']'] + p + seq!['\x1b', x] + t)
                == spec_strip_ansi(seq![x] + t)
        },
{
    if c != '\x1b' {
        let s = seq![c] + t;
        assert(s[0] == c);
        lemma_ansi_shift(seq![c], t, 0, AnsiMode::Text);
    }
    if x != '[' && x != ']' {
        let s = seq!['\x1b', x] + t;
        assert(s[0] == esc());
        assert(s[1] == x);
        lemma_ansi_shift(seq!['\x1b', x], t, 0, AnsiMode::Text);
        assert(ansi_from(s, 0, AnsiMode::Text) == ansi_from(s, 1, AnsiMode::Escape));
    }
    if forall|k: int|
        0 <= k < p.len() ==> #[trigger] p[k] != '\x07' && p[k] != '\u{9c}' && p[k] != '\x1b' {
        let r1 = seq!['\x07'] + t;
        lemma_osc_prefix(p, r1);
        assert(seq!['\x1b', ']'] + p + seq!['\x07'] + t =~= seq!['\x1b', ']'] + p + r1);
        assert(r1[0] == '\x07');
        lemma_ansi_shift(seq!['\x07'], t, 0, AnsiMode::Text);
        let r2 = seq!['\u{9c}'] + t;
        lemma_osc_prefix(p, r2);
        assert(seq!['\x1b', ']'] + p + seq!['\u{9c}'] + t =~= seq!['\x1b', ']'] + p + r2);
        assert(r2[0] == '\u{9c}');
        lemma_ansi_shift(seq!['\u{9c}'], t, 0, AnsiMode::Text);
        let r3 = seq!['\x1b', '\\'] + t;
        lemma_osc_prefix(p, r3);
        assert(seq!['\x1b', ']'] + p + seq!['\x1b', '\\'] + t =~= seq!['\x1b', ']'] + p + r3);
        assert(r3[0] == esc());
        assert(r3[1] == '\\');
        assert(ansi_from(r3, 0, AnsiMode::Osc) == ansi_from(r3, 1, AnsiMode::OscEscape));
        lemma_ansi_shift(seq!['\x1b', '\\'], t, 0, AnsiMode::Text);
        if x != '\\' {
            let r4 = seq!['\x1b', x] + t;
            lemma_osc_prefix(p, r4);
            assert(seq!['\x1b', ']'] + p + seq!['\x1b', x] + t =~= seq!['\x1b', ']'] + p + r4);
            assert(r4[0] == esc());
            assert(r4[1] == x);
            assert(ansi_from(r4, 0, AnsiMode::Osc) == ansi_from(r4, 1, AnsiMode::OscEscape));
            assert(ansi_from(r4, 1, AnsiMode::OscEscape) == ansi_from(r4, 1, AnsiMode::Text));
            lemma_ansi_shift(seq!['\x1b'], seq![x] + t, 0, AnsiMode::Text);
            assert(r4 =~= seq!['\x1b'] + (seq![x] + t));
        }
    }
}

} // verus!
