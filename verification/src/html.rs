//! Turning HTML into plain text: entities, tags, search-result pages.
use vstd::prelude::*;

use crate::text::{
    chars_of, contains, find, find_from, occurs_at, has_prefix, has_sub, lemma_find_from, push_lit, push_str,
    slice_chars, starts_with, string_from_chars, strip_end_by, trim, trim_chars, trim_end_chars,
    ws_sep, same, lines, split_lines, seqs, lowercase, to_lowercase, utf8_width, char_width,
};

use vstd::utf8::{char_is_scalar, decode_utf8, encode_scalar, encode_utf8, valid_utf8};

verus! {

// ── percent-decoding ──────────────────────────────────────────────────────────

/// The value of a hexadecimal digit, as `char::to_digit(16)` gives it.
pub open spec fn hex_value(c: char) -> Option<int> {
    if '0' <= c && c <= '9' {
        Some(c as int - '0' as int)
    } else if 'a' <= c && c <= 'f' {
        Some(c as int - 'a' as int + 10)
    } else if 'A' <= c && c <= 'F' {
        Some(c as int - 'A' as int + 10)
    } else {
        None
    }
}

/// The byte that `u8::from_str_radix` reads, in base 16, from the two characters `h1 h2`: a
/// leading `+` sign is allowed, as the standard library allows it for unsigned types.
pub open spec fn hex_pair(h1: char, h2: char) -> Option<int> {
    if h1 == '+' {
        hex_value(h2)
    } else {
        match (hex_value(h1), hex_value(h2)) {
            (Some(a), Some(b)) => Some(16 * a + b),
            _ => None,
        }
    }
}

/// The bytes that `s[i..]` decodes to: `%XY` gives the byte 0xXY (a missing digit reads as
/// `0`; an invalid pair gives nothing), `+` gives a space, any other character its UTF-8
/// encoding.
pub open spec fn pd_bytes(s: Seq<char>, i: int) -> Seq<u8>
    decreases s.len() + 3 - i,
{
    if i < 0 || i >= s.len() {
        Seq::empty()
    } else if s[i] == '%' {
        let h1 = if i + 1 < s.len() {
            s[i + 1]
        } else {
            '0'
        };
        let h2 = if i + 2 < s.len() {
            s[i + 2]
        } else {
            '0'
        };
        match hex_pair(h1, h2) {
            Some(b) => seq![b as u8] + pd_bytes(s, i + 3),
            None => pd_bytes(s, i + 3),
        }
    } else if s[i] == '+' {
        seq![0x20u8] + pd_bytes(s, i + 1)
    } else {
        encode_scalar(s[i] as u32) + pd_bytes(s, i + 1)
    }
}

/// The text that bytes give when read as UTF-8 with each invalid sequence replaced by
/// U+FFFD (`String::from_utf8_lossy`). Valid UTF-8 reads as the characters it encodes; the
/// replacement rules for invalid input are the standard library's and are left unstated.
pub uninterp spec fn utf8_lossy(b: Seq<u8>) -> Seq<char>;

/// `String::from_utf8_lossy`. The contract claims that the text is the one `utf8_lossy`
/// names for the bytes, and that valid UTF-8 gives the characters it encodes, as the
/// documentation says.
#[verifier::external_body]
fn from_utf8_lossy(b: &[u8]) -> (r: String)
    ensures
        r@ == utf8_lossy(b@),
        valid_utf8(b@) ==> r@ == decode_utf8(b@),
{
    String::from_utf8_lossy(b).into_owned()
}

/// Bytes read as UTF-8: valid UTF-8 gives the characters it encodes; other bytes give
/// the text that `utf8_lossy` names.
pub open spec fn read_utf8(b: Seq<u8>) -> Seq<char> {
    if valid_utf8(b) {
        decode_utf8(b)
    } else {
        utf8_lossy(b)
    }
}

/// The decoding of a percent-encoded text: the bytes that `pd_bytes` gives, read as UTF-8.
pub open spec fn spec_percent_decode(s: Seq<char>) -> Seq<char> {
    read_utf8(pd_bytes(s, 0))
}

/// Appends the UTF-8 encoding of `c`.
fn push_utf8(out: &mut Vec<u8>, c: char)
    ensures
        final(out)@ == old(out)@ + encode_scalar(c as u32),
{
    proof {
        char_is_scalar(c);
    }
    let u = c as u32;
    if u <= 0x7F {
        out.push((u & 0x7F) as u8);
    } else if u <= 0x7FF {
        out.push(0xC0 | ((u >> 6) & 0x1F) as u8);
        out.push(0x80 | (u & 0x3F) as u8);
    } else if u <= 0xFFFF {
        out.push(0xE0 | ((u >> 12) & 0x0F) as u8);
        out.push(0x80 | ((u >> 6) & 0x3F) as u8);
        out.push(0x80 | (u & 0x3F) as u8);
    } else {
        out.push(0xF0 | ((u >> 18) & 0x7) as u8);
        out.push(0x80 | ((u >> 12) & 0x3F) as u8);
        out.push(0x80 | ((u >> 6) & 0x3F) as u8);
        out.push(0x80 | (u & 0x3F) as u8);
    }
    assert(final(out)@ =~= old(out)@ + encode_scalar(c as u32));
}

fn hex_digit(c: char) -> (r: Option<u8>)
    ensures
        match hex_value(c) {
            Some(v) => r == Some(v as u8) && 0 <= v < 16,
            None => r is None,
        },
{
    if '0' <= c && c <= '9' {
        Some(((c as u32) - ('0' as u32)) as u8)
    } else if 'a' <= c && c <= 'f' {
        Some(((c as u32) - ('a' as u32) + 10) as u8)
    } else if 'A' <= c && c <= 'F' {
        Some(((c as u32) - ('A' as u32) + 10) as u8)
    } else {
        None
    }
}

fn read_hex_pair(h1: char, h2: char) -> (r: Option<u8>)
    ensures
        match hex_pair(h1, h2) {
            Some(v) => r == Some(v as u8) && 0 <= v < 256,
            None => r is None,
        },
{
    if h1 == '+' {
        hex_digit(h2)
    } else {
        match (hex_digit(h1), hex_digit(h2)) {
            (Some(a), Some(b)) => Some(16 * a + b),
            _ => None,
        }
    }
}

/// Decodes a percent-encoded URL component: the bytes it stands for, read as UTF-8.
pub fn percent_decode(s: &str) -> (r: String)
    ensures
        r@ == spec_percent_decode(s@),
{
    let v = chars_of(s);
    let n = v.len();
    let mut out: Vec<u8> = Vec::new();
    let mut i: usize = 0;
    while i < n
        invariant
            n == v@.len(),
            v@ == s@,
            out@ + pd_bytes(v@, i as int) == pd_bytes(v@, 0),
        decreases n - i,
    {
        let c = v[i];
        if c == '%' {
            let h1 = if n - i > 1 {
                v[i + 1]
            } else {
                '0'
            };
            let h2 = if n - i > 2 {
                v[i + 2]
            } else {
                '0'
            };
            match read_hex_pair(h1, h2) {
                Some(b) => {
                    assert(out@.push(b) + pd_bytes(v@, i + 3) =~= out@ + (seq![b] + pd_bytes(
                        v@,
                        i + 3,
                    )));
                    out.push(b);
                },
                None => {},
            }
            if n - i >= 3 {
                i = i + 3;
            } else {
                assert(pd_bytes(v@, i + 3) == Seq::<u8>::empty());
                i = n;
            }
        } else if c == '+' {
            assert(out@.push(0x20u8) + pd_bytes(v@, i + 1) =~= out@ + (seq![0x20u8] + pd_bytes(
                v@,
                i + 1,
            )));
            out.push(0x20u8);
            i = i + 1;
        } else {
            let ghost before = out@;
            push_utf8(&mut out, c);
            assert(out@ + pd_bytes(v@, i + 1) =~= before + (encode_scalar(c as u32) + pd_bytes(
                v@,
                i + 1,
            )));
            i = i + 1;
        }
    }
    assert(out@ + pd_bytes(v@, i as int) =~= out@);
    from_utf8_lossy(out.as_slice())
}

// ── entities and tags ─────────────────────────────────────────────────────────

/// The text an HTML entity name stands for: the six named entities are decoded, any other
/// name is kept as `&name;`.
pub open spec fn decode_entity(e: Seq<char>) -> Seq<char> {
    if e == "amp"@ {
        "&"@
    } else if e == "lt"@ {
        "<"@
    } else if e == "gt"@ {
        ">"@
    } else if e == "quot"@ {
        "\""@
    } else if e == "apos"@ {
        "'"@
    } else if e == "nbsp"@ {
        " "@
    } else {
        "&"@ + e + ";"@
    }
}

fn push_entity(out: &mut Vec<char>, e: &[char])
    ensures
        final(out)@ == old(out)@ + decode_entity(e@),
{
    let amp = chars_of("amp");
    let lt = chars_of("lt");
    let gt = chars_of("gt");
    let quot = chars_of("quot");
    let apos = chars_of("apos");
    let nbsp = chars_of("nbsp");
    if same(e, amp.as_slice()) {
        push_lit(out, "&");
    } else if same(e, lt.as_slice()) {
        push_lit(out, "<");
    } else if same(e, gt.as_slice()) {
        push_lit(out, ">");
    } else if same(e, quot.as_slice()) {
        push_lit(out, "\"");
    } else if same(e, apos.as_slice()) {
        push_lit(out, "'");
    } else if same(e, nbsp.as_slice()) {
        push_lit(out, " ");
    } else {
        push_lit(out, "&");
        push_str(out, e);
        push_lit(out, ";");
    }
}

/// The text of `s[i..]` with tags dropped and entities decoded, when the scanner stands
/// inside a tag (`tag`) or inside an entity whose name so far is `ent`.
pub open spec fn ht_from(s: Seq<char>, i: int, tag: bool, ent: Option<Seq<char>>) -> Seq<char>
    decreases s.len() - i,
{
    if i < 0 || i >= s.len() {
        match ent {
            Some(e) => decode_entity(e),
            None => Seq::empty(),
        }
    } else {
        let c = s[i];
        match ent {
            Some(e) => if c == ';' {
                decode_entity(e) + ht_from(s, i + 1, false, None)
            } else {
                ht_from(s, i + 1, false, Some(e.push(c)))
            },
            None => if c == '<' {
                ht_from(s, i + 1, true, None)
            } else if c == '>' {
                ht_from(s, i + 1, false, None)
            } else if tag {
                ht_from(s, i + 1, true, None)
            } else if c == '&' {
                ht_from(s, i + 1, false, Some(Seq::empty()))
            } else {
                seq![c] + ht_from(s, i + 1, false, None)
            },
        }
    }
}

/// A short piece of HTML as plain text: tags dropped, entities decoded, whitespace trimmed.
pub open spec fn spec_html_text(s: Seq<char>) -> Seq<char> {
    trim(ht_from(s, 0, false, None))
}

/// Strips the tags of a short HTML fragment and decodes its entities.
pub fn html_text_chars(s: &[char]) -> (r: Vec<char>)
    ensures
        r@ == spec_html_text(s@),
{
    let n = s.len();
    let mut out: Vec<char> = Vec::new();
    let mut ent: Vec<char> = Vec::new();
    let mut in_ent = false;
    let mut tag = false;
    let mut i: usize = 0;
    while i < n
        invariant
            n == s@.len(),
            in_ent ==> !tag,
            out@ + ht_from(
                s@,
                i as int,
                tag,
                if in_ent {
                    Some(ent@)
                } else {
                    None
                },
            ) == ht_from(s@, 0, false, None),
        decreases n - i,
    {
        let c = s[i];
        if in_ent {
            if c == ';' {
                let ghost before = out@;
                push_entity(&mut out, ent.as_slice());
                assert(out@ + ht_from(s@, i + 1, false, None) =~= before + (decode_entity(ent@)
                    + ht_from(s@, i + 1, false, None)));
                in_ent = false;
                ent = Vec::new();
            } else {
                ent.push(c);
            }
        } else if c == '<' {
            tag = true;
        } else if c == '>' {
            tag = false;
        } else if tag {
        } else if c == '&' {
            in_ent = true;
            ent = Vec::new();
        } else {
            assert(out@.push(c) + ht_from(s@, i + 1, false, None) =~= out@ + (seq![c] + ht_from(
                s@,
                i + 1,
                false,
                None,
            )));
            out.push(c);
        }
        i = i + 1;
    }
    if in_ent {
        push_entity(&mut out, ent.as_slice());
    } else {
        assert(out@ + ht_from(s@, i as int, tag, None) =~= out@);
    }
    trim_chars(out.as_slice())
}

/// Strips any remaining tags and decodes entities in a short string, then trims it.
pub fn html_text(s: &str) -> (r: String)
    ensures
        r@ == spec_html_text(s@),
{
    let v = chars_of(s);
    let t = html_text_chars(v.as_slice());
    string_from_chars(t.as_slice())
}


// ── attributes ────────────────────────────────────────────────────────────────

/// The value of the attribute `attr` in a tag, as `extract_attr` reads it: the text between
/// `attr="` and the next `"`, as plain text; a DuckDuckGo redirect link is resolved to the
/// percent-decoded value of its `uddg` parameter, and a protocol-relative URL gets `https:`.
pub open spec fn spec_extract_attr(tag: Seq<char>, attr: Seq<char>) -> Option<Seq<char>> {
    let needle = attr + "=\""@;
    match find_from(tag, needle, 0) {
        None => None,
        Some(p) => {
            let start = p + needle.len();
            match find_from(tag, "\""@, start) {
                None => None,
                Some(q) => {
                    let raw = spec_html_text(tag.subrange(start, q));
                    if contains(raw, "duckduckgo.com/l/"@) && find_from(raw, "uddg="@, 0) is Some {
                        let u = find_from(raw, "uddg="@, 0).unwrap() + 5;
                        let enc = match find_from(raw, "&"@, u) {
                            Some(k) => raw.subrange(u, k),
                            None => raw.subrange(u, raw.len() as int),
                        };
                        Some(spec_percent_decode(enc))
                    } else if starts_with(raw, "//"@) {
                        Some("https:"@ + raw)
                    } else {
                        Some(raw)
                    }
                },
            }
        },
    }
}

fn extract_attr_chars(tag: &[char], attr: &[char]) -> (r: Option<Vec<char>>)
    ensures
        match spec_extract_attr(tag@, attr@) {
            Some(x) => r matches Some(v) && v@ == x,
            None => r is None,
        },
{
    let mut needle: Vec<char> = Vec::new();
    push_str(&mut needle, attr);
    push_lit(&mut needle, "=\"");
    let p = match find(tag, needle.as_slice(), 0) {
        Some(p) => p,
        None => return None,
    };
    assert(p + needle@.len() <= tag@.len());
    let start = p + needle.len();
    let quote = chars_of("\"");
    let q = match find(tag, quote.as_slice(), start) {
        Some(q) => q,
        None => return None,
    };
    proof {
        lemma_find_from(tag@, quote@, start as int);
    }
    let inner = slice_chars(tag, start, q);
    let raw = html_text_chars(inner.as_slice());
    let ddg = chars_of("duckduckgo.com/l/");
    let uddg = chars_of("uddg=");
    if has_sub(raw.as_slice(), ddg.as_slice()) {
        match find(raw.as_slice(), uddg.as_slice(), 0) {
            Some(k) => {
                proof {
                    lemma_find_from(raw@, uddg@, 0);
                }
                proof {
                    reveal_strlit("uddg=");
                }
                let u = k + 5;
                let amp = chars_of("&");
                let end = match find(raw.as_slice(), amp.as_slice(), u) {
                    Some(e) => {
                        proof {
                            lemma_find_from(raw@, amp@, u as int);
                        }
                        e
                    },
                    None => raw.len(),
                };
                let enc = slice_chars(raw.as_slice(), u, end);
                let enc_s = string_from_chars(enc.as_slice());
                let dec = percent_decode(enc_s.as_str());
                return Some(chars_of(dec.as_str()));
            },
            None => {},
        }
    }
    let slashes = chars_of("//");
    if has_prefix(raw.as_slice(), slashes.as_slice()) {
        let mut out: Vec<char> = Vec::new();
        push_lit(&mut out, "https:");
        push_str(&mut out, raw.as_slice());
        return Some(out);
    }
    Some(raw)
}

/// Extracts an HTML attribute value (e.g. `href="..."`) from a tag string, resolving
/// DuckDuckGo redirect URLs (`?uddg=...`) to the real destination.
pub fn extract_attr(tag: &str, attr: &str) -> (r: Option<String>)
    ensures
        match spec_extract_attr(tag@, attr@) {
            Some(x) => r matches Some(v) && v@ == x,
            None => r is None,
        },
{
    let t = chars_of(tag);
    let a = chars_of(attr);
    match extract_attr_chars(t.as_slice(), a.as_slice()) {
        Some(v) => Some(string_from_chars(v.as_slice())),
        None => None,
    }
}

// ── search-result pages ───────────────────────────────────────────────────────

/// The index `j` at which the characters `h[start..j]` take exactly `need` more bytes than
/// the ones before `start`, if there is one.
pub open spec fn byte_window_end(h: Seq<char>, j: int, need: int) -> Option<int>
    decreases h.len() - j,
{
    if need == 0 {
        Some(j)
    } else if need < 0 || j < 0 || j >= h.len() {
        None
    } else {
        byte_window_end(h, j + 1, need - utf8_width(h[j]))
    }
}

/// The 2000 bytes of `h` that follow index `pos`, or nothing when the text ends before, or
/// when they do not end on a character boundary (`str::get(pos..pos + 2000)`).
pub open spec fn window_at(h: Seq<char>, pos: int) -> Seq<char> {
    match byte_window_end(h, pos, 2000) {
        Some(j) => h.subrange(pos, j),
        None => Seq::empty(),
    }
}

proof fn lemma_byte_window_end(h: Seq<char>, j: int, need: int)
    requires
        0 <= j,
    ensures
        byte_window_end(h, j, need) matches Some(e) ==> j <= e <= h.len() || (need == 0 && e == j),
    decreases h.len() - j,
{
    if need != 0 && need >= 0 && j < h.len() {
        lemma_byte_window_end(h, j + 1, need - utf8_width(h[j]));
    }
}

fn window_chars(h: &[char], pos: usize) -> (r: Vec<char>)
    requires
        pos <= h.len(),
    ensures
        r@ == window_at(h@, pos as int),
{
    let mut j: usize = pos;
    let mut need: usize = 2000;
    while need > 0 && j < h.len()
        invariant
            pos <= j <= h.len(),
            need <= 2000,
            byte_window_end(h@, pos as int, 2000) == byte_window_end(h@, j as int, need as int),
        decreases h.len() - j,
    {
        let w = char_width(h[j]);
        if w > need {
            assert(byte_window_end(h@, j + 1, need - w) is None);
            return Vec::new();
        }
        need = need - w;
        j = j + 1;
    }
    if need > 0 {
        return Vec::new();
    }
    slice_chars(h, pos, j)
}

/// The text of the first link after a `>` in `t`: what stands between that `>` and the
/// following `</a>`, as plain text; nothing when either is missing.
pub open spec fn anchor_text(t: Seq<char>) -> Seq<char> {
    match find_from(t, ">"@, 0) {
        None => Seq::empty(),
        Some(g) => match find_from(t, "</a>"@, g + 1) {
            None => Seq::empty(),
            Some(e) => spec_html_text(t.subrange(g + 1, e)),
        },
    }
}

fn anchor_text_chars(t: &[char]) -> (r: Vec<char>)
    ensures
        r@ == anchor_text(t@),
{
    let gt = chars_of(">");
    let close = chars_of("</a>");
    proof {
        reveal_strlit(">");
    }
    match find(t, gt.as_slice(), 0) {
        None => Vec::new(),
        Some(g) => {
            match find(t, close.as_slice(), g + 1) {
                None => Vec::new(),
                Some(e) => {
                    proof {
                        lemma_find_from(t@, close@, g + 1);
                    }
                    let inner = slice_chars(t, g + 1, e);
                    html_text_chars(inner.as_slice())
                },
            }
        },
    }
}

/// The class attribute that marks the title link of a search result.
pub open spec fn result_anchor() -> Seq<char> {
    "class=\"result__a\""@
}

/// One search result as it is listed: its title, its link and its snippet, each on a line
/// of its own when not empty, then a blank line.
pub open spec fn result_entry(title: Seq<char>, href: Seq<char>, snippet: Seq<char>) -> Seq<char> {
    title + "\n"@ + (if href.len() > 0 {
        href + "\n"@
    } else {
        Seq::empty()
    }) + (if snippet.len() > 0 {
        snippet + "\n"@
    } else {
        Seq::empty()
    }) + "\n"@
}

/// The search result whose title link starts at index `a` of the page `h`: its title (the
/// link text), its link target, the snippet found within the 2000 bytes after the link, and
/// the index just after the link.
pub open spec fn result_at(h: Seq<char>, a: int) -> (Seq<char>, Seq<char>, Seq<char>, int) {
    let chunk = h.subrange(a, h.len() as int);
    let href = match spec_extract_attr(chunk, "href"@) {
        Some(x) => x,
        None => Seq::empty(),
    };
    let title = anchor_text(chunk);
    let end_a = match find_from(chunk, "</a>"@, 0) {
        Some(k) => k + 4,
        None => 17,
    };
    let npos = a + end_a;
    let win = window_at(h, npos);
    let snippet = match find_from(win, "result__snippet"@, 0) {
        Some(sp) => anchor_text(win.subrange(sp, win.len() as int)),
        None => Seq::empty(),
    };
    (title, href, snippet, npos)
}

pub proof fn lemma_result_at(h: Seq<char>, a: int)
    requires
        occurs_at(h, result_anchor(), a),
    ensures
        a < result_at(h, a).3 <= h.len(),
{
    reveal_strlit("class=\"result__a\"");
    reveal_strlit("</a>");
    let chunk = h.subrange(a, h.len() as int);
    lemma_find_from(chunk, "</a>"@, 0);
}

/// The results listed from the page `h` from index `pos` on, when `count` results are
/// already listed and at most `max` are wanted. A result is found at each `class="result__a"`
/// link (see `result_at`); results without a title are skipped.
pub open spec fn ddg_from(h: Seq<char>, pos: int, count: int, max: int) -> Seq<char>
    decreases h.len() - pos,
{
    if pos < 0 || count >= max || pos >= h.len() {
        Seq::empty()
    } else {
        match find_from(h, result_anchor(), pos) {
            None => Seq::empty(),
            Some(a) => {
                let (title, href, snippet, npos) = result_at(h, a);
                proof {
                    lemma_find_from(h, result_anchor(), pos);
                    lemma_result_at(h, a);
                }
                if title.len() == 0 {
                    ddg_from(h, npos, count, max)
                } else {
                    result_entry(title, href, snippet) + ddg_from(h, npos, count + 1, max)
                }
            },
        }
    }
}

fn read_result(h: &[char], a: usize) -> (r: (Vec<char>, Vec<char>, Vec<char>, usize))
    requires
        occurs_at(h@, result_anchor(), a as int),
    ensures
        r.0@ == result_at(h@, a as int).0,
        r.1@ == result_at(h@, a as int).1,
        r.2@ == result_at(h@, a as int).2,
        r.3 == result_at(h@, a as int).3,
{
    proof {
        lemma_result_at(h@, a as int);
        reveal_strlit("class=\"result__a\"");
        reveal_strlit("</a>");
    }
    let href_name = chars_of("href");
    let close = chars_of("</a>");
    let snip_class = chars_of("result__snippet");
    let chunk = slice_chars(h, a, h.len());
    let href = match extract_attr_chars(chunk.as_slice(), href_name.as_slice()) {
        Some(x) => x,
        None => Vec::new(),
    };
    let title = anchor_text_chars(chunk.as_slice());
    let end_a = match find(chunk.as_slice(), close.as_slice(), 0) {
        Some(k) => k + 4,
        None => 17,
    };
    let npos = a + end_a;
    let win = window_chars(h, npos);
    let snippet = match find(win.as_slice(), snip_class.as_slice(), 0) {
        Some(sp) => {
            let rest = slice_chars(win.as_slice(), sp, win.len());
            anchor_text_chars(rest.as_slice())
        },
        None => Vec::new(),
    };
    (title, href, snippet, npos)
}

/// The listing of at most `max` results of a DuckDuckGo HTML result page.
pub open spec fn spec_parse_ddg_html(h: Seq<char>, max: int) -> Seq<char> {
    let r = ddg_from(h, 0, 0, max);
    if r.len() == 0 {
        "No results found."@
    } else {
        strip_end_by(r, ws_sep())
    }
}

/// Lists at most `max` results of a DuckDuckGo HTML result page, as title, link and snippet.
#[verifier::spinoff_prover]
#[verifier::rlimit(40)]
pub fn parse_ddg_html(html: &str, max: usize) -> (r: String)
    ensures
        r@ == spec_parse_ddg_html(html@, max as int),
{
    let h = chars_of(html);
    let anchor = chars_of("class=\"result__a\"");
    let mut out: Vec<char> = Vec::new();
    let mut count: usize = 0;
    let mut pos: usize = 0;
    while count < max && pos < h.len()
        invariant
            h@ == html@,
            anchor@ == result_anchor(),
            count <= max,
            pos <= h.len(),
            out@ + ddg_from(h@, pos as int, count as int, max as int) == ddg_from(
                h@,
                0,
                0,
                max as int,
            ),
        ensures
            out@ == ddg_from(h@, 0, 0, max as int),
        decreases h.len() - pos,
    {
        let a = match find(h.as_slice(), anchor.as_slice(), pos) {
            Some(a) => a,
            None => {
                assert(out@ =~= out@ + Seq::<char>::empty());
                break;
            },
        };
        let (title, href, snippet, npos) = read_result(h.as_slice(), a);
        proof {
            lemma_result_at(h@, a as int);
        }
        pos = npos;
        if title.len() == 0 {
            continue;
        }
        let ghost before = out@;
        push_str(&mut out, title.as_slice());
        push_lit(&mut out, "\n");
        if href.len() > 0 {
            push_str(&mut out, href.as_slice());
            push_lit(&mut out, "\n");
        }
        if snippet.len() > 0 {
            push_str(&mut out, snippet.as_slice());
            push_lit(&mut out, "\n");
        }
        push_lit(&mut out, "\n");
        assert(out@ =~= before + result_entry(title@, href@, snippet@));
        count = count + 1;
    }
    if out.len() == 0 {
        return string_from_chars(chars_of("No results found.").as_slice());
    }
    let t = trim_end_chars(out.as_slice());
    string_from_chars(t.as_slice())
}


// ── whole pages ───────────────────────────────────────────────────────────────

/// A closed tag (in lowercase) after which a line break is kept: the end of a paragraph,
/// a division, a list item or a heading, or a line break.
pub open spec fn breaks_line(t: Seq<char>) -> bool {
    starts_with(t, "</p"@) || starts_with(t, "</div"@) || starts_with(t, "</li"@) || starts_with(
        t,
        "<br"@,
    ) || starts_with(t, "</h"@)
}

/// Whether the text after a closed tag (in lowercase) is script or style content: after
/// an opening `<script` or `<style` tag it is, after any other tag it is not.
pub open spec fn opens_script(t: Seq<char>) -> bool {
    (starts_with(t, "<script"@) || starts_with(t, "<style"@)) && !(starts_with(t, "</script"@)
        || starts_with(t, "</style"@))
}

/// The text of the page `s` from index `i` on, with tags dropped (a line break kept after
/// the tags of `breaks_line`), script and style content dropped, and entities decoded;
/// `buf` is the tag read so far when the scanner is inside a tag, `script` tells whether it
/// is inside script or style content, and `ent` is the entity name read so far.
pub open spec fn sh_from(
    s: Seq<char>,
    i: int,
    buf: Option<Seq<char>>,
    script: bool,
    ent: Option<Seq<char>>,
) -> Seq<char>
    decreases s.len() - i,
{
    if i < 0 || i >= s.len() {
        match ent {
            Some(e) => decode_entity(e),
            None => Seq::empty(),
        }
    } else {
        let c = s[i];
        match ent {
            Some(e) => if c == ';' {
                decode_entity(e) + sh_from(s, i + 1, None, script, None)
            } else {
                sh_from(s, i + 1, None, script, Some(e.push(c)))
            },
            None => match buf {
                Some(b) => if c == '>' {
                    let t = lowercase(b.push(c));
                    (if breaks_line(t) {
                        "\n"@
                    } else {
                        Seq::empty()
                    }) + sh_from(s, i + 1, None, opens_script(t), None)
                } else {
                    sh_from(s, i + 1, Some(b.push(c)), script, None)
                },
                None => if c == '<' {
                    sh_from(s, i + 1, Some(seq!['<']), script, None)
                } else if script {
                    sh_from(s, i + 1, None, script, None)
                } else if c == '&' {
                    sh_from(s, i + 1, None, script, Some(Seq::empty()))
                } else {
                    seq![c] + sh_from(s, i + 1, None, script, None)
                },
            },
        }
    }
}

/// The lines `ls`, each trimmed, with each run of blank lines cut to one; `blank` tells
/// whether the line before was blank.
pub open spec fn collapse_blank(ls: Seq<Seq<char>>, blank: bool) -> Seq<char>
    decreases ls.len(),
{
    if ls.len() == 0 {
        Seq::empty()
    } else {
        let t = trim(ls[0]);
        if t.len() == 0 {
            (if blank {
                Seq::empty()
            } else {
                "\n"@
            }) + collapse_blank(ls.drop_first(), true)
        } else {
            t + "\n"@ + collapse_blank(ls.drop_first(), false)
        }
    }
}

/// A whole HTML page as plain text.
pub open spec fn spec_strip_html(s: Seq<char>) -> Seq<char> {
    collapse_blank(lines(sh_from(s, 0, None, false, None)), false)
}

/// What a closed tag does to the text, given the tag lowercased: whether it ends a line
/// (`</p`, `</div`, `</li`, `<br`, `</h`), and whether it opens a script or style block.
pub fn tag_effects(t: &str) -> (r: (bool, bool))
    ensures
        r == (breaks_line(t@), opens_script(t@)),
{
    let t = chars_of(t);
    let mut script = has_prefix(t.as_slice(), chars_of("<script").as_slice()) || has_prefix(
        t.as_slice(),
        chars_of("<style").as_slice(),
    );
    if has_prefix(t.as_slice(), chars_of("</script").as_slice()) || has_prefix(
        t.as_slice(),
        chars_of("</style").as_slice(),
    ) {
        script = false;
    }
    let breaks = has_prefix(t.as_slice(), chars_of("</p").as_slice()) || has_prefix(
        t.as_slice(),
        chars_of("</div").as_slice(),
    ) || has_prefix(t.as_slice(), chars_of("</li").as_slice()) || has_prefix(
        t.as_slice(),
        chars_of("<br").as_slice(),
    ) || has_prefix(t.as_slice(), chars_of("</h").as_slice());
    (breaks, script)
}

fn close_tag(out: &mut Vec<char>, buf: &[char]) -> (script: bool)
    ensures
        final(out)@ == old(out)@ + (if breaks_line(lowercase(buf@)) {
            "\n"@
        } else {
            Seq::empty()
        }),
        script == opens_script(lowercase(buf@)),
{
    let b = string_from_chars(buf);
    let lower = to_lowercase(b.as_str());
    let (breaks, script) = tag_effects(lower.as_str());
    if breaks {
        push_lit(out, "\n");
    } else {
        assert(out@ =~= out@ + Seq::<char>::empty());
    }
    script
}

fn strip_tags(s: &[char]) -> (r: Vec<char>)
    ensures
        r@ == sh_from(s@, 0, None, false, None),
{
    let n = s.len();
    let mut out: Vec<char> = Vec::new();
    let mut buf: Vec<char> = Vec::new();
    let mut in_tag = false;
    let mut ent: Vec<char> = Vec::new();
    let mut in_ent = false;
    let mut script = false;
    let mut i: usize = 0;
    while i < n
        invariant
            n == s@.len(),
            in_ent ==> !in_tag,
            out@ + sh_from(
                s@,
                i as int,
                if in_tag {
                    Some(buf@)
                } else {
                    None
                },
                script,
                if in_ent {
                    Some(ent@)
                } else {
                    None
                },
            ) == sh_from(s@, 0, None, false, None),
        decreases n - i,
    {
        let c = s[i];
        if in_ent {
            if c == ';' {
                let ghost before = out@;
                push_entity(&mut out, ent.as_slice());
                assert(out@ + sh_from(s@, i + 1, None, script, None) =~= before + (decode_entity(
                    ent@,
                ) + sh_from(s@, i + 1, None, script, None)));
                in_ent = false;
                ent = Vec::new();
            } else {
                ent.push(c);
            }
        } else if in_tag {
            buf.push(c);
            if c == '>' {
                let ghost before = out@;
                let ghost t = lowercase(buf@);
                script = close_tag(&mut out, buf.as_slice());
                assert(out@ + sh_from(s@, i + 1, None, script, None) =~= before + ((if breaks_line(
                    t,
                ) {
                    "\n"@
                } else {
                    Seq::empty()
                }) + sh_from(s@, i + 1, None, opens_script(t), None)));
                buf = Vec::new();
                in_tag = false;
            }
        } else if c == '<' {
            in_tag = true;
            buf = Vec::new();
            buf.push(c);
            assert(buf@ =~= seq!['<']);
        } else if script {
        } else if c == '&' {
            in_ent = true;
            ent = Vec::new();
        } else {
            assert(out@.push(c) + sh_from(s@, i + 1, None, script, None) =~= out@ + (seq![c]
                + sh_from(s@, i + 1, None, script, None)));
            out.push(c);
        }
        i = i + 1;
    }
    if in_ent {
        push_entity(&mut out, ent.as_slice());
    } else {
        assert(out@ + sh_from(
            s@,
            i as int,
            if in_tag {
                Some(buf@)
            } else {
                None
            },
            script,
            None,
        ) =~= out@);
    }
    out
}

/// Converts a whole HTML page to plain text: tags dropped (a line break kept after the end
/// of a paragraph, division, list item or heading and after `<br>`), script and style
/// content dropped, entities decoded, each line trimmed, and runs of blank lines cut to one.
pub fn strip_html(html: &str) -> (r: String)
    ensures
        r@ == spec_strip_html(html@),
{
    let s = chars_of(html);
    let text = strip_tags(s.as_slice());
    let ls = split_lines(text.as_slice());
    let ghost all = seqs(ls@);
    let mut out: Vec<char> = Vec::new();
    let mut blank = false;
    let mut j: usize = 0;
    assert(all.subrange(0, all.len() as int) =~= all);
    while j < ls.len()
        invariant
            j <= ls.len(),
            all == seqs(ls@),
            all == lines(text@),
            text@ == sh_from(s@, 0, None, false, None),
            s@ == html@,
            out@ + collapse_blank(all.subrange(j as int, all.len() as int), blank)
                == collapse_blank(all, false),
        decreases ls.len() - j,
    {
        let ghost rest = all.subrange(j as int, all.len() as int);
        assert(rest[0] == ls@[j as int]@);
        assert(rest.drop_first() =~= all.subrange(j + 1, all.len() as int));
        let t = trim_chars(ls[j].as_slice());
        let ghost before = out@;
        if t.len() == 0 {
            if !blank {
                push_lit(&mut out, "\n");
            } else {
                assert(out@ =~= out@ + Seq::<char>::empty());
            }
            blank = true;
        } else {
            push_str(&mut out, t.as_slice());
            push_lit(&mut out, "\n");
            blank = false;
        }
        j = j + 1;
    }
    assert(all.subrange(j as int, all.len() as int) =~= Seq::<Seq<char>>::empty());
    assert(out@ =~= out@ + Seq::<char>::empty());
    string_from_chars(out.as_slice())
}

// ── plain text passes through ─────────────────────────────────────────────────

proof fn lemma_pd_plain(s: Seq<char>, i: int)
    requires
        0 <= i <= s.len(),
        forall|j: int| 0 <= j < s.len() ==> #[trigger] s[j] != '%' && s[j] != '+',
    ensures
        pd_bytes(s, i) == encode_utf8(s.subrange(i, s.len() as int)),
    decreases s.len() - i,
{
    let rest = s.subrange(i, s.len() as int);
    if i < s.len() {
        lemma_pd_plain(s, i + 1);
        assert(rest.drop_first() =~= s.subrange(i + 1, s.len() as int));
        assert(rest[0] == s[i]);
    } else {
        assert(rest =~= Seq::<char>::empty());
    }
}

/// Decoding leaves text without `%` and `+` as it is.
pub proof fn law_percent_decode_keeps_plain_text(s: Seq<char>)
    requires
        forall|j: int| 0 <= j < s.len() ==> #[trigger] s[j] != '%' && s[j] != '+',
    ensures
        spec_percent_decode(s) == s,
{
    broadcast use {vstd::utf8::encode_utf8_valid_utf8, vstd::utf8::encode_utf8_decode_utf8};

    lemma_pd_plain(s, 0);
    assert(s.subrange(0, s.len() as int) =~= s);
}

proof fn lemma_ht_plain(s: Seq<char>, i: int)
    requires
        0 <= i <= s.len(),
        forall|j: int| 0 <= j < s.len() ==> #[trigger] s[j] != '<' && s[j] != '>' && s[j] != '&',
    ensures
        ht_from(s, i, false, None) == s.subrange(i, s.len() as int),
    decreases s.len() - i,
{
    if i < s.len() {
        lemma_ht_plain(s, i + 1);
        assert(s.subrange(i, s.len() as int) =~= seq![s[i]] + s.subrange(i + 1, s.len() as int));
    } else {
        assert(s.subrange(i, s.len() as int) =~= Seq::<char>::empty());
    }
}

/// Text without `<`, `>` and `&` comes out of `html_text` only trimmed.
pub proof fn law_html_text_keeps_plain_text(s: Seq<char>)
    requires
        forall|j: int| 0 <= j < s.len() ==> #[trigger] s[j] != '<' && s[j] != '>' && s[j] != '&',
    ensures
        spec_html_text(s) == trim(s),
{
    lemma_ht_plain(s, 0);
    assert(s.subrange(0, s.len() as int) =~= s);
}

/// No character of `s[i..k]` opens or closes a tag or starts an entity.
pub open spec fn plain_between(s: Seq<char>, i: int, k: int) -> bool {
    forall|j: int| i <= j < k ==> #[trigger] s[j] != '<' && s[j] != '>' && s[j] != '&'
}

proof fn lemma_ht_plain_run(s: Seq<char>, i: int, k: int)
    requires
        0 <= i <= k <= s.len(),
        plain_between(s, i, k),
    ensures
        ht_from(s, i, false, None) == s.subrange(i, k) + ht_from(s, k, false, None),
    decreases k - i,
{
    if i < k {
        lemma_ht_plain_run(s, i + 1, k);
        assert(s.subrange(i, k) =~= seq![s[i]] + s.subrange(i + 1, k));
    } else {
        assert(s.subrange(i, k) =~= Seq::<char>::empty());
    }
}

proof fn lemma_ht_entity_name(s: Seq<char>, start: int, name: Seq<char>, j: int)
    requires
        0 <= start,
        0 <= j <= name.len(),
        start + name.len() < s.len(),
        forall|m: int| 0 <= m < name.len() ==> s[start + m] == #[trigger] name[m],
        forall|m: int| 0 <= m < name.len() ==> #[trigger] name[m] != ';',
        s[start + name.len()] == ';',
    ensures
        ht_from(s, start + j, false, Some(name.subrange(0, j))) == decode_entity(name) + ht_from(
            s,
            start + name.len() + 1,
            false,
            None,
        ),
    decreases name.len() - j,
{
    if j < name.len() {
        assert(s[start + j] == name[j]);
        assert(name.subrange(0, j).push(name[j]) =~= name.subrange(0, j + 1));
        lemma_ht_entity_name(s, start, name, j + 1);
    } else {
        assert(name.subrange(0, j) =~= name);
    }
}

/// An entity `&name;` between plain texts reads as what the name stands for.
proof fn lemma_ht_entity_between(a: Seq<char>, name: Seq<char>, b: Seq<char>)
    requires
        plain_between(a, 0, a.len() as int),
        plain_between(b, 0, b.len() as int),
        forall|m: int| 0 <= m < name.len() ==> #[trigger] name[m] != ';',
    ensures
        ht_from(a + "&"@ + name + ";"@ + b, 0, false, None) == a + decode_entity(name) + b,
{
    reveal_strlit("&");
    reveal_strlit(";");
    let s = a + "&"@ + name + ";"@ + b;
    let k = a.len() as int;
    let e = k + 1 + name.len();
    assert forall|j: int| 0 <= j < k implies #[trigger] s[j] != '<' && s[j] != '>' && s[j] != '&' by {
        assert(s[j] == a[j]);
    }
    lemma_ht_plain_run(s, 0, k);
    assert(s.subrange(0, k) =~= a);
    assert(s[k] == '&');
    assert(name.subrange(0, 0) =~= Seq::<char>::empty());
    assert forall|m: int| 0 <= m < name.len() implies s[k + 1 + m] == #[trigger] name[m] by {}
    assert(s[e] == ';');
    lemma_ht_entity_name(s, k + 1, name, 0);
    assert forall|j: int| e + 1 <= j < s.len() implies #[trigger] s[j] != '<' && s[j] != '>' && s[j] != '&' by {
        assert(s[j] == b[j - e - 1]);
    }
    lemma_ht_plain_run(s, e + 1, s.len() as int);
    assert(s.subrange(e + 1, s.len() as int) =~= b);
}

proof fn lemma_known_entities()
    ensures
        decode_entity("amp"@) == "&"@,
        decode_entity("lt"@) == "<"@,
        decode_entity("gt"@) == ">"@,
        decode_entity("quot"@) == "\""@,
        decode_entity("apos"@) == "'"@,
        decode_entity("nbsp"@) == " "@,
{
    reveal_strlit("amp");
    reveal_strlit("lt");
    reveal_strlit("gt");
    reveal_strlit("quot");
    reveal_strlit("apos");
    reveal_strlit("nbsp");
    assert("gt"@[0] != "lt"@[0]);
    assert("apos"@[0] != "quot"@[0]);
    assert("apos"@ != "amp"@) by {
        assert("apos"@.len() != "amp"@.len());
    }
    assert("apos"@ != "lt"@) by {
        assert("apos"@.len() != "lt"@.len());
    }
    assert("apos"@ != "gt"@) by {
        assert("apos"@.len() != "gt"@.len());
    }
    assert("apos"@ != "quot"@) by {
        assert("apos"@[0] != "quot"@[0]);
    }
    assert("nbsp"@[0] != "quot"@[0]);
    assert("nbsp"@[0] != "apos"@[0]);
}

/// `html_text` of `a`, the entity `&name;`, then `b`.
proof fn lemma_ht_entity_text(a: Seq<char>, name: Seq<char>, lit: Seq<char>, b: Seq<char>)
    requires
        plain_between(a, 0, a.len() as int),
        plain_between(b, 0, b.len() as int),
        forall|m: int| 0 <= m < name.len() ==> #[trigger] name[m] != ';',
        lit == "&"@ + name + ";"@,
    ensures
        spec_html_text(a + lit + b) == trim(a + decode_entity(name) + b),
{
    lemma_ht_entity_between(a, name, b);
    assert(a + lit + b =~= a + "&"@ + name + ";"@ + b);
}

/// Between plain texts, each named entity that `html_text` knows reads as its character:
/// `&amp;` as `&`, `&lt;` as `<`, `&gt;` as `>`, `&quot;` as `"`, `&apos;` as `'`, and
/// `&nbsp;` as one space.
pub proof fn law_html_text_entities(a: Seq<char>, b: Seq<char>)
    requires
        plain_between(a, 0, a.len() as int),
        plain_between(b, 0, b.len() as int),
    ensures
        spec_html_text(a + "&amp;"@ + b) == trim(a + "&"@ + b),
        spec_html_text(a + "&lt;"@ + b) == trim(a + "<"@ + b),
        spec_html_text(a + "&gt;"@ + b) == trim(a + ">"@ + b),
        spec_html_text(a + "&quot;"@ + b) == trim(a + "\""@ + b),
        spec_html_text(a + "&apos;"@ + b) == trim(a + "'"@ + b),
        spec_html_text(a + "&nbsp;"@ + b) == trim(a + " "@ + b),
{
    reveal_strlit("&");
    reveal_strlit(";");
    reveal_strlit("amp");
    reveal_strlit("lt");
    reveal_strlit("gt");
    reveal_strlit("quot");
    reveal_strlit("apos");
    reveal_strlit("nbsp");
    reveal_strlit("&amp;");
    reveal_strlit("&lt;");
    reveal_strlit("&gt;");
    reveal_strlit("&quot;");
    reveal_strlit("&apos;");
    reveal_strlit("&nbsp;");
    lemma_known_entities();
    assert("&amp;"@ =~= "&"@ + "amp"@ + ";"@);
    lemma_ht_entity_text(a, "amp"@, "&amp;"@, b);
    assert("&lt;"@ =~= "&"@ + "lt"@ + ";"@);
    lemma_ht_entity_text(a, "lt"@, "&lt;"@, b);
    assert("&gt;"@ =~= "&"@ + "gt"@ + ";"@);
    lemma_ht_entity_text(a, "gt"@, "&gt;"@, b);
    assert("&quot;"@ =~= "&"@ + "quot"@ + ";"@);
    lemma_ht_entity_text(a, "quot"@, "&quot;"@, b);
    assert("&apos;"@ =~= "&"@ + "apos"@ + ";"@);
    lemma_ht_entity_text(a, "apos"@, "&apos;"@, b);
    assert("&nbsp;"@ =~= "&"@ + "nbsp"@ + ";"@);
    lemma_ht_entity_text(a, "nbsp"@, "&nbsp;"@, b);
}

proof fn lemma_ht_in_tag(s: Seq<char>, start: int, g: Seq<char>, j: int)
    requires
        0 <= start,
        1 <= j < g.len(),
        start + g.len() <= s.len(),
        forall|m: int| 0 <= m < g.len() ==> s[start + m] == #[trigger] g[m],
        forall|m: int| 0 <= m < g.len() - 1 ==> #[trigger] g[m] != '>',
        g[g.len() - 1] == '>',
    ensures
        ht_from(s, start + j, true, None) == ht_from(s, start + g.len(), false, None),
    decreases g.len() - j,
{
    assert(s[start + j] == g[j]);
    if j + 1 < g.len() {
        lemma_ht_in_tag(s, start, g, j + 1);
    }
}

/// Between plain texts, a tag (`<`, then anything but `>`, then `>`) is dropped, and an
/// entity name that `html_text` does not know is kept as it was written.
pub proof fn law_html_text_drops_tags(a: Seq<char>, g: Seq<char>, name: Seq<char>, b: Seq<char>)
    requires
        plain_between(a, 0, a.len() as int),
        plain_between(b, 0, b.len() as int),
    ensures
        g.len() >= 2 && g[0] == '<' && g[g.len() - 1] == '>' && (forall|m: int|
            0 <= m < g.len() - 1 ==> #[trigger] g[m] != '>') ==> spec_html_text(a + g + b) == trim(
            a + b,
        ),
        (forall|m: int| 0 <= m < name.len() ==> #[trigger] name[m] != ';') && name != "amp"@
            && name != "lt"@ && name != "gt"@ && name != "quot"@ && name != "apos"@ && name
            != "nbsp"@ ==> spec_html_text(a + "&"@ + name + ";"@ + b) == trim(
            a + "&"@ + name + ";"@ + b,
        ),
{
    if g.len() >= 2 && g[0] == '<' && g[g.len() - 1] == '>' && (forall|m: int|
        0 <= m < g.len() - 1 ==> #[trigger] g[m] != '>') {
        let s = a + g + b;
        let k = a.len() as int;
        let e = k + g.len();
        assert forall|j: int| 0 <= j < k implies #[trigger] s[j] != '<' && s[j] != '>' && s[j]
            != '&' by {
            assert(s[j] == a[j]);
        }
        lemma_ht_plain_run(s, 0, k);
        assert(s.subrange(0, k) =~= a);
        assert forall|m: int| 0 <= m < g.len() implies s[k + m] == #[trigger] g[m] by {}
        assert(s[k] == '<');
        lemma_ht_in_tag(s, k, g, 1);
        assert forall|j: int| e <= j < s.len() implies #[trigger] s[j] != '<' && s[j] != '>'
            && s[j] != '&' by {
            assert(s[j] == b[j - e]);
        }
        lemma_ht_plain_run(s, e, s.len() as int);
        assert(s.subrange(e, s.len() as int) =~= b);
        assert(a + Seq::<char>::empty() + b =~= a + b);
    }
    if (forall|m: int| 0 <= m < name.len() ==> #[trigger] name[m] != ';') {
        lemma_ht_entity_between(a, name, b);
        assert(a + "&"@ + name + ";"@ + b =~= a + ("&"@ + name + ";"@) + b);
    }
}

/// A lowercased tag that ends a line of text, spelled out: it begins `</p`, `</div`,
/// `</li`, `<br` or `</h`.
pub open spec fn block_tag(t: Seq<char>) -> bool {
    ||| starts_with(t, "</p"@)
    ||| starts_with(t, "</div"@)
    ||| starts_with(t, "</li"@)
    ||| starts_with(t, "<br"@)
    ||| starts_with(t, "</h"@)
}

/// A tag ends a line exactly when it begins `</p`, `</div`, `</li`, `<br` or `</h`; it
/// starts script or style content exactly when it begins `<script` or `<style`; and no tag
/// does both.
pub proof fn law_tag_effects(t: Seq<char>)
    ensures
        breaks_line(t) <==> block_tag(t),
        opens_script(t) <==> (starts_with(t, "<script"@) || starts_with(t, "<style"@)),
        !(breaks_line(t) && opens_script(t)),
{
    reveal_strlit("<script");
    reveal_strlit("<style");
    reveal_strlit("</script");
    reveal_strlit("</style");
    if starts_with(t, "</script"@) {
        assert(t[1] == t.subrange(0, 8)[1]);
    }
    if starts_with(t, "</style"@) {
        assert(t[1] == t.subrange(0, 7)[1]);
    }
    if starts_with(t, "<script"@) {
        assert(t[1] == t.subrange(0, 7)[1]);
    }
    if starts_with(t, "<style"@) {
        assert(t[1] == t.subrange(0, 6)[1]);
    }
    if block_tag(t) {
        law_block_tags_end_lines(t);
    }
}

/// Every tag that begins `</p`, `</div`, `</li`, `<br` or `</h` ends a line, and none of
/// them opens a script or style block.
pub proof fn law_block_tags_end_lines(t: Seq<char>)
    requires
        block_tag(t),
    ensures
        breaks_line(t),
        !opens_script(t),
{
    reveal_strlit("</p");
    reveal_strlit("</div");
    reveal_strlit("</li");
    reveal_strlit("<br");
    reveal_strlit("</h");
    reveal_strlit("<script");
    reveal_strlit("<style");
    assert(t[1] == '/' || t[1] == 'b') by {
        if starts_with(t, "</p"@) {
            assert(t[1] == t.subrange(0, 3)[1]);
        } else if starts_with(t, "</div"@) {
            assert(t[1] == t.subrange(0, 5)[1]);
        } else if starts_with(t, "</li"@) {
            assert(t[1] == t.subrange(0, 4)[1]);
        } else if starts_with(t, "<br"@) {
            assert(t[1] == t.subrange(0, 3)[1]);
        } else {
            assert(t[1] == t.subrange(0, 3)[1]);
        }
    }
    if starts_with(t, "<script"@) {
        assert(t[1] == t.subrange(0, 7)[1]);
    }
    if starts_with(t, "<style"@) {
        assert(t[1] == t.subrange(0, 6)[1]);
    }
}

/// The page scanner reads `t` placed after any prefix as it reads `t` alone.
proof fn lemma_sh_shift(
    a: Seq<char>,
    t: Seq<char>,
    i: int,
    buf: Option<Seq<char>>,
    script: bool,
    ent: Option<Seq<char>>,
)
    requires
        0 <= i,
    ensures
        sh_from(a + t, a.len() + i, buf, script, ent) == sh_from(t, i, buf, script, ent),
    decreases t.len() - i,
{
    let s = a + t;
    if i < t.len() {
        assert(s[a.len() + i] == t[i]);
        let c = t[i];
        match ent {
            Some(e) => if c == ';' {
                lemma_sh_shift(a, t, i + 1, None, script, None);
            } else {
                lemma_sh_shift(a, t, i + 1, None, script, Some(e.push(c)));
            },
            None => match buf {
                Some(b) => if c == '>' {
                    lemma_sh_shift(a, t, i + 1, None, opens_script(lowercase(b.push(c))), None);
                } else {
                    lemma_sh_shift(a, t, i + 1, Some(b.push(c)), script, None);
                },
                None => if c == '<' {
                    lemma_sh_shift(a, t, i + 1, Some(seq!['<']), script, None);
                } else if script {
                    lemma_sh_shift(a, t, i + 1, None, script, None);
                } else if c == '&' {
                    lemma_sh_shift(a, t, i + 1, None, script, Some(Seq::empty()));
                } else {
                    lemma_sh_shift(a, t, i + 1, None, script, None);
                },
            },
        }
    }
}

proof fn lemma_sh_plain_run(s: Seq<char>, i: int, k: int)
    requires
        0 <= i <= k <= s.len(),
        forall|j: int| i <= j < k ==> #[trigger] s[j] != '<' && s[j] != '&',
    ensures
        sh_from(s, i, None, false, None) == s.subrange(i, k) + sh_from(s, k, None, false, None),
    decreases k - i,
{
    if i < k {
        lemma_sh_plain_run(s, i + 1, k);
        assert(s.subrange(i, k) =~= seq![s[i]] + s.subrange(i + 1, k));
    } else {
        assert(s.subrange(i, k) =~= Seq::<char>::empty());
    }
}

proof fn lemma_sh_tag(s: Seq<char>, start: int, g: Seq<char>, j: int, script: bool)
    requires
        0 <= start,
        1 <= j < g.len(),
        start + g.len() <= s.len(),
        forall|m: int| 0 <= m < g.len() ==> s[start + m] == #[trigger] g[m],
        forall|m: int| 0 <= m < g.len() - 1 ==> #[trigger] g[m] != '>',
        g[g.len() - 1] == '>',
    ensures
        sh_from(s, start + j, Some(g.subrange(0, j)), script, None) == (if breaks_line(
            lowercase(g),
        ) {
            "\n"@
        } else {
            Seq::empty()
        }) + sh_from(s, start + g.len(), None, opens_script(lowercase(g)), None),
    decreases g.len() - j,
{
    assert(s[start + j] == g[j]);
    assert(g.subrange(0, j).push(g[j]) =~= g.subrange(0, j + 1));
    if j + 1 < g.len() {
        lemma_sh_tag(s, start, g, j + 1, script);
    } else {
        assert(g.subrange(0, j + 1) =~= g);
    }
}

/// In a page, a tag whose lowercased text begins `</p`, `</div`, `</li`, `<br` or `</h`
/// puts a line break between the text before it and the text after it, which reads as it
/// would alone.
pub proof fn law_block_tag_breaks_text(a: Seq<char>, g: Seq<char>, b: Seq<char>)
    requires
        forall|j: int| 0 <= j < a.len() ==> #[trigger] a[j] != '<' && a[j] != '&',
        g.len() >= 2,
        g[0] == '<',
        g[g.len() - 1] == '>',
        forall|m: int| 0 <= m < g.len() - 1 ==> #[trigger] g[m] != '>',
        block_tag(lowercase(g)),
    ensures
        sh_from(a + g + b, 0, None, false, None) == a + "\n"@ + sh_from(b, 0, None, false, None),
{
    let s = a + g + b;
    let k = a.len() as int;
    law_block_tags_end_lines(lowercase(g));
    assert forall|j: int| 0 <= j < k implies #[trigger] s[j] != '<' && s[j] != '&' by {
        assert(s[j] == a[j]);
    }
    lemma_sh_plain_run(s, 0, k);
    assert(s.subrange(0, k) =~= a);
    assert forall|m: int| 0 <= m < g.len() implies s[k + m] == #[trigger] g[m] by {}
    assert(s[k] == '<');
    assert(g.subrange(0, 1) =~= seq!['<']);
    lemma_sh_tag(s, k, g, 1, false);
    assert(s =~= (a + g) + b);
    lemma_sh_shift(a + g, b, 0, None, false, None);
}

} // verus!
