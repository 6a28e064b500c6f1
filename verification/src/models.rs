//! Locally installed models: sizes, capability flags, and the listing shown to the user.
use vstd::prelude::*;

use vstd::arithmetic::div_mod::{lemma_div_is_ordered, lemma_fundamental_div_mod, lemma_mod_bound};
use vstd::arithmetic::power2::{lemma2_to64, lemma2_to64_rest, lemma_pow2_pos, lemma_pow2_unfold, pow2};

use crate::text::{
    byte_len, chars_of, decimal, pad_left, pad_right, push_lit, push_padded_left,
    push_padded_right, push_str, same, string_from_chars, u64_decimal, utf8_len,
};

verus! {

/// A model as the server lists it: its name and its size in bytes.
pub struct ModelInfo {
    pub name: String,
    pub size: u64,
}

/// The capabilities of a model that the listing shows.
#[derive(Clone, Copy, PartialEq, Eq, Structural)]
pub struct ModelCaps {
    pub tools: bool,
    pub thinking: bool,
    pub vision: bool,
}

impl Default for ModelCaps {
    fn default() -> (r: Self)
        ensures
            !r.tools && !r.thinking && !r.vision,
    {
        ModelCaps { tools: false, thinking: false, vision: false }
    }
}

/// The capability flags that the list `caps` names: `tools`, `thinking` and `vision` are
/// recognised, any other name is ignored.
pub fn caps_from_list(caps: &Vec<String>) -> (r: ModelCaps)
    ensures
        r.tools == exists|i: int| 0 <= i < caps@.len() && caps@[i]@ == "tools"@,
        r.thinking == exists|i: int| 0 <= i < caps@.len() && caps@[i]@ == "thinking"@,
        r.vision == exists|i: int| 0 <= i < caps@.len() && caps@[i]@ == "vision"@,
{
    let mut r = ModelCaps { tools: false, thinking: false, vision: false };
    let tools = String::from_str("tools");
    let thinking = String::from_str("thinking");
    let vision = String::from_str("vision");
    let mut i: usize = 0;
    while i < caps.len()
        invariant
            i <= caps.len(),
            tools@ == "tools"@,
            thinking@ == "thinking"@,
            vision@ == "vision"@,
            r.tools == exists|j: int| 0 <= j < i && caps@[j]@ == "tools"@,
            r.thinking == exists|j: int| 0 <= j < i && caps@[j]@ == "thinking"@,
            r.vision == exists|j: int| 0 <= j < i && caps@[j]@ == "vision"@,
        decreases caps.len() - i,
    {
        if caps[i] == tools {
            r.tools = true;
        }
        if caps[i] == thinking {
            r.thinking = true;
        }
        if caps[i] == vision {
            r.vision = true;
        }
        i = i + 1;
    }
    r
}

// ── sizes ─────────────────────────────────────────────────────────────────────

/// The number of binary digits of `n`.
pub open spec fn bit_len(n: nat) -> nat
    decreases n,
{
    if n == 0 {
        0
    } else {
        1 + bit_len(n / 2)
    }
}

/// `n / d` rounded to the nearest integer, ties to the even one.
pub open spec fn round_half_even(n: nat, d: nat) -> nat {
    let q = n / d;
    let r = n % d;
    if 2 * r > d || (2 * r == d && q % 2 == 1) {
        q + 1
    } else {
        q
    }
}

/// The value that the conversion of `b` to `f64` gives: `b` itself below 2^53, else `b`
/// rounded to 53 significant bits, ties to even.
pub open spec fn as_f64(b: nat) -> nat {
    if b < pow2(53) {
        b
    } else {
        let unit = pow2((bit_len(b) - 53) as nat);
        round_half_even(b, unit) * unit
    }
}

/// A size in bytes as a human-readable string: from 1 GiB on in GiB with one decimal, from
/// 1 MiB on in whole MiB, else in bytes. The size is taken as an `f64`, and the decimals
/// are rounded to nearest, ties to even, as `{:.1}` and `{:.0}` round the value.
pub open spec fn spec_format_size(bytes: nat) -> Seq<char> {
    let v = as_f64(bytes);
    if v >= pow2(30) {
        let q = round_half_even(v * 10, pow2(30));
        decimal(q / 10) + "."@ + decimal(q % 10) + " GB"@
    } else if v >= pow2(20) {
        decimal(round_half_even(v, pow2(20))) + " MB"@
    } else {
        decimal(bytes) + " B"@
    }
}

proof fn lemma_bit_len_bound(n: nat, k: nat)
    requires
        n < pow2(k),
    ensures
        bit_len(n) <= k,
    decreases k,
{
    if n > 0 {
        if k == 0 {
            lemma2_to64();
        } else {
            lemma_pow2_unfold(k);
            let p = pow2((k - 1) as nat);
            assert(n / 2 < p) by (nonlinear_arith)
                requires
                    n < 2 * p,
            ;
            lemma_bit_len_bound(n / 2, (k - 1) as nat);
        }
    }
}

proof fn lemma_bit_len_low(n: nat, k: nat)
    requires
        n >= pow2(k),
    ensures
        bit_len(n) >= k + 1,
    decreases k,
{
    lemma_pow2_pos(k);
    if k > 0 {
        lemma_pow2_unfold(k);
        lemma_bit_len_low(n / 2, (k - 1) as nat);
    }
}

fn round_half_even_exec(n: u128, d: u128) -> (r: u128)
    requires
        0 < d <= 0x1_0000_0000_0000_0000,
        n <= 0x1_0000_0000_0000_0000_0000,
    ensures
        r == round_half_even(n as nat, d as nat),
        r <= n / d + 1,
{
    let q = n / d;
    let rem = n % d;
    proof {
        lemma_mod_bound(n as int, d as int);
        vstd::arithmetic::div_mod::lemma_div_is_ordered_by_denominator(n as int, 1, d as int);
    }
    if 2 * rem > d || (2 * rem == d && q % 2 == 1) {
        q + 1
    } else {
        q
    }
}

fn f64_value(b: u64) -> (r: u128)
    ensures
        r == as_f64(b as nat),
        r <= 0x1_0000_0000_0000_0800,
{
    proof {
        lemma2_to64();
        lemma2_to64_rest();
    }
    if b < 0x20_0000_0000_0000 {
        return b as u128;
    }
    let mut n: u64 = b;
    let mut len: u64 = 0;
    while n > 0
        invariant
            bit_len(b as nat) == len + bit_len(n as nat),
            len <= 64,
            n < pow2((64 - len) as nat),
        decreases n,
    {
        proof {
            lemma2_to64();
            assert(len < 64);
            lemma_pow2_unfold((64 - len) as nat);
            let p = pow2((63 - len) as nat);
            assert(n / 2 < p) by (nonlinear_arith)
                requires
                    n < 2 * p,
            ;
        }
        n = n / 2;
        len = len + 1;
    }
    proof {
        lemma_bit_len_bound(b as nat, 64);
        lemma_bit_len_low(b as nat, 53);
    }
    let shift = len - 53;
    let mut unit: u128 = 1;
    let mut k: u64 = 0;
    while k < shift
        invariant
            k <= shift <= 11,
            unit == pow2(k as nat),
            unit <= 0x800,
        decreases shift - k,
    {
        proof {
            lemma_pow2_unfold((k + 1) as nat);
            lemma2_to64();
            vstd::arithmetic::power2::lemma_pow2_strictly_increases(k as nat, 11);
        }
        unit = unit * 2;
        k = k + 1;
    }
    let q = round_half_even_exec(b as u128, unit);
    proof {
        lemma_pow2_pos(k as nat);
        lemma_div_is_ordered(b as int, 0xFFFF_FFFF_FFFF_FFFF, unit as int);
        lemma_fundamental_div_mod(b as int, unit as int);
        lemma_mod_bound(b as int, unit as int);
        assert(q * unit <= (b as int) + (unit as int)) by (nonlinear_arith)
            requires
                q <= (b as int) / (unit as int) + 1,
                b as int == unit * ((b as int) / (unit as int)) + (b as int) % (unit as int),
                0 <= (b as int) % (unit as int),
                unit >= 1,
        ;
    }
    q * unit
}

/// Formats a size in bytes as a human-readable string.
pub fn format_size(bytes: u64) -> (r: String)
    ensures
        r@ == spec_format_size(bytes as nat),
{
    let v = f64_value(bytes);
    proof {
        lemma2_to64();
    }
    let mut out: Vec<char> = Vec::new();
    if v >= 0x4000_0000 {
        let q = round_half_even_exec(v * 10, 0x4000_0000);
        proof {
            lemma_div_is_ordered((v * 10) as int, 0x1_0000_0000_0000_0800int * 10, 0x4000_0000);
        }
        let whole = u64_decimal((q / 10) as u64);
        let frac = u64_decimal((q % 10) as u64);
        push_str(&mut out, whole.as_slice());
        push_lit(&mut out, ".");
        push_str(&mut out, frac.as_slice());
        push_lit(&mut out, " GB");
    } else if v >= 0x10_0000 {
        let q = round_half_even_exec(v, 0x10_0000);
        let d = u64_decimal(q as u64);
        push_str(&mut out, d.as_slice());
        push_lit(&mut out, " MB");
    } else {
        let d = u64_decimal(bytes);
        push_str(&mut out, d.as_slice());
        push_lit(&mut out, " B");
    }
    string_from_chars(out.as_slice())
}


// ── listing ───────────────────────────────────────────────────────────────────

/// The width of the name column: the byte length of the longest name, and at least 20.
pub open spec fn name_width(ms: Seq<ModelInfo>) -> int
    decreases ms.len(),
{
    if ms.len() == 0 {
        20
    } else {
        let w = name_width(ms.drop_last());
        let b = byte_len(ms.last().name@);
        if b > w {
            b
        } else {
            w
        }
    }
}

/// One row of the model listing: a mark for the selected model, the name left-aligned in
/// a column of `w` characters, the size right-aligned in 10, then the capability icons.
pub open spec fn listing_line(m: ModelInfo, c: ModelCaps, selected: Seq<char>, w: int) -> Seq<
    char,
> {
    (if m.name@ == selected {
        "\u{25cf}"@
    } else {
        " "@
    }) + " "@ + pad_right(m.name@, w) + "  "@ + pad_left(spec_format_size(m.size as nat), 10)
        + "  "@ + (if c.tools {
        "\u{1f6e0} "@
    } else {
        "  "@
    }) + " "@ + (if c.thinking {
        "\u{1f9e0}"@
    } else {
        "  "@
    }) + " "@ + (if c.vision {
        "\u{1f441} "@
    } else {
        "  "@
    })
}

fn model_name_width(models: &[ModelInfo]) -> (r: u128)
    ensures
        r == name_width(models@),
{
    let mut w: u128 = 20;
    let mut i: usize = 0;
    while i < models.len()
        invariant
            i <= models.len(),
            w == name_width(models@.subrange(0, i as int)),
        decreases models.len() - i,
    {
        let name = chars_of(models[i].name.as_str());
        let b = utf8_len(name.as_slice());
        assert(models@.subrange(0, i + 1).drop_last() =~= models@.subrange(0, i as int));
        if b > w {
            w = b;
        }
        i = i + 1;
    }
    assert(models@.subrange(0, models.len() as int) =~= models@);
    w
}

/// The rows of the listing of the models `ms` with the capabilities `cs` (walked together,
/// as far as both go): each row's text, and whether it is the selected model.
pub open spec fn listing_rows(ms: Seq<ModelInfo>, cs: Seq<ModelCaps>, selected: Seq<char>) -> Seq<
    (Seq<char>, bool),
> {
    let n = if ms.len() < cs.len() {
        ms.len()
    } else {
        cs.len()
    };
    Seq::new(
        n,
        |i: int| (listing_line(ms[i], cs[i], selected, name_width(ms)), ms[i].name@ == selected),
    )
}

/// Rows with their text taken as character sequences.
pub open spec fn row_views(r: Seq<(String, bool)>) -> Seq<(Seq<char>, bool)> {
    r.map_values(|p: (String, bool)| (p.0@, p.1))
}

/// Builds the rows of a model listing, one per model that has capabilities given (the two
/// slices are walked together), each with whether it is the selected model.
pub fn format_model_listing(models: &[ModelInfo], caps: &[ModelCaps], selected: &str) -> (r: Vec<
    (String, bool),
>)
    ensures
        r@.len() == if models@.len() < caps@.len() {
            models@.len()
        } else {
            caps@.len()
        },
        forall|i: int|
            0 <= i < r@.len() ==> (#[trigger] r@[i]).0@ == listing_line(
                models@[i],
                caps@[i],
                selected@,
                name_width(models@),
            ) && r@[i].1 == (models@[i].name@ == selected@),
        row_views(r@) == listing_rows(models@, caps@, selected@),
{
    let w = model_name_width(models);
    let sel = chars_of(selected);
    let n = if models.len() < caps.len() {
        models.len()
    } else {
        caps.len()
    };
    let mut out: Vec<(String, bool)> = Vec::new();
    let mut i: usize = 0;
    while i < n
        invariant
            i <= n,
            n <= models.len(),
            n <= caps.len(),
            sel@ == selected@,
            w == name_width(models@),
            out@.len() == i,
            forall|j: int|
                0 <= j < i ==> (#[trigger] out@[j]).0@ == listing_line(
                    models@[j],
                    caps@[j],
                    selected@,
                    name_width(models@),
                ) && out@[j].1 == (models@[j].name@ == selected@),
        decreases n - i,
    {
        let m = &models[i];
        let c = caps[i];
        let name = chars_of(m.name.as_str());
        let is_sel = same(name.as_slice(), sel.as_slice());
        let size = format_size(m.size);
        let size_c = chars_of(size.as_str());
        let mut line: Vec<char> = Vec::new();
        if is_sel {
            push_lit(&mut line, "\u{25cf}");
        } else {
            push_lit(&mut line, " ");
        }
        push_lit(&mut line, " ");
        push_padded_right(&mut line, name.as_slice(), w);
        push_lit(&mut line, "  ");
        push_padded_left(&mut line, size_c.as_slice(), 10);
        push_lit(&mut line, "  ");
        if c.tools {
            push_lit(&mut line, "\u{1f6e0} ");
        } else {
            push_lit(&mut line, "  ");
        }
        push_lit(&mut line, " ");
        if c.thinking {
            push_lit(&mut line, "\u{1f9e0}");
        } else {
            push_lit(&mut line, "  ");
        }
        push_lit(&mut line, " ");
        if c.vision {
            push_lit(&mut line, "\u{1f441} ");
        } else {
            push_lit(&mut line, "  ");
        }
        assert(line@ =~= listing_line(models@[i as int], caps@[i as int], selected@, w as int));
        out.push((string_from_chars(line.as_slice()), is_sel));
        i = i + 1;
    }
    assert(row_views(out@) =~= listing_rows(models@, caps@, selected@));
    out
}

/// The text of one row in the listing message: marked `← current` when selected.
pub open spec fn row_text(line: Seq<char>, is_sel: bool) -> Seq<char> {
    if is_sel {
        line + "  \u{2190} current\n"@
    } else {
        line + "\n"@
    }
}

/// The rows of a listing, one per line.
pub open spec fn rows_text(rows: Seq<(Seq<char>, bool)>) -> Seq<char>
    decreases rows.len(),
{
    if rows.len() == 0 {
        Seq::empty()
    } else {
        rows_text(rows.drop_last()) + row_text(rows.last().0, rows.last().1)
    }
}

/// The message that lists the installed models: the rows, then the selected model.
pub fn model_listing_text(rows: &[(String, bool)], model: &str) -> (r: String)
    ensures
        r@ == rows_text(row_views(rows@)) + "selected: "@ + model@,
{
    let ghost all = row_views(rows@);
    let mut out: Vec<char> = Vec::new();
    let mut i: usize = 0;
    while i < rows.len()
        invariant
            i <= rows.len(),
            all == row_views(rows@),
            out@ == rows_text(all.subrange(0, i as int)),
        decreases rows.len() - i,
    {
        assert(all.subrange(0, i + 1).drop_last() =~= all.subrange(0, i as int));
        let line = chars_of(rows[i].0.as_str());
        push_str(&mut out, line.as_slice());
        if rows[i].1 {
            push_lit(&mut out, "  \u{2190} current\n");
        } else {
            push_lit(&mut out, "\n");
        }
        i = i + 1;
    }
    assert(all.subrange(0, rows.len() as int) =~= all);
    push_lit(&mut out, "selected: ");
    push_lit(&mut out, model);
    string_from_chars(out.as_slice())
}

/// The name column of the listing is at least 20 wide and wide enough for every model's
/// name, and it is no wider than that: it is 20 or the byte length of some name.
pub proof fn law_name_column_fits_every_name(ms: Seq<ModelInfo>)
    ensures
        name_width(ms) >= 20,
        forall|i: int| 0 <= i < ms.len() ==> byte_len(#[trigger] ms[i].name@) <= name_width(ms),
        name_width(ms) == 20 || exists|i: int|
            0 <= i < ms.len() && name_width(ms) == byte_len(#[trigger] ms[i].name@),
    decreases ms.len(),
{
    if ms.len() > 0 {
        let rest = ms.drop_last();
        law_name_column_fits_every_name(rest);
        let n = ms.len() - 1;
        assert forall|i: int| 0 <= i < ms.len() implies byte_len(#[trigger] ms[i].name@)
            <= name_width(ms) by {
            if i < n {
                assert(ms[i] == rest[i]);
            }
        }
        if name_width(ms) != 20 {
            if name_width(ms) == byte_len(ms[n].name@) {
            } else {
                assert(name_width(ms) == name_width(rest));
                let j = choose|j: int|
                    0 <= j < rest.len() && name_width(rest) == byte_len(#[trigger] rest[j].name@);
                assert(ms[j] == rest[j]);
            }
        }
    }
}

} // verus!
