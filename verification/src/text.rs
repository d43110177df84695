//! Decimal numerals, UTF-8 lengths and the columns that characters take.

use vstd::prelude::*;
use vstd::utf8::{
    encode_scalar, encode_utf8, has_width_1_encoding, has_width_2_encoding, has_width_3_encoding,
    has_width_4_encoding,
};
use crate::bridge::{char_width_cjk, cjk_width};

verus! {

/// The character that stands for the decimal digit `d`.
pub open spec fn digit_char(d: nat) -> char
    recommends
        d < 10,
{
    (48 + d) as char
}

/// The decimal numeral of `n`, most significant digit first, without leading zeros.
pub open spec fn decimal(n: nat) -> Seq<char>
    decreases n,
{
    if n < 10 {
        seq![digit_char(n)]
    } else {
        decimal(n / 10).push(digit_char(n % 10))
    }
}

/// A numeral has one digit more than that of a tenth of its number.
pub proof fn lemma_decimal_len(n: nat)
    ensures
        decimal(n).len() >= 1,
        n < 10 ==> decimal(n).len() == 1,
        n >= 10 ==> decimal(n).len() == decimal(n / 10).len() + 1,
    decreases n,
{
    if n >= 10 {
        lemma_decimal_len(n / 10);
    }
}

/// A larger number has no fewer digits.
pub proof fn lemma_decimal_len_grows(a: nat, b: nat)
    requires
        a <= b,
    ensures
        decimal(a).len() <= decimal(b).len(),
    decreases b,
{
    lemma_decimal_len(a);
    lemma_decimal_len(b);
    if a >= 10 {
        lemma_decimal_len_grows(a / 10, b / 10);
    }
}

/// The `k`-th power of ten.
pub open spec fn pow10(k: nat) -> nat
    decreases k,
{
    if k == 0 {
        1
    } else {
        10 * pow10((k - 1) as nat)
    }
}

/// A number below the `k`-th power of ten has at most `k` digits.
pub proof fn lemma_decimal_len_bound(n: nat, k: nat)
    requires
        k >= 1,
        n < pow10(k),
    ensures
        decimal(n).len() <= k,
    decreases n,
{
    if n >= 10 {
        reveal_with_fuel(pow10, 2);
        if k == 1 {
            assert(pow10(1) == 10);
        } else {
            assert(n / 10 < pow10((k - 1) as nat));
            lemma_decimal_len_bound(n / 10, (k - 1) as nat);
        }
    }
}

/// Every 64-bit number has at most twenty digits.
pub proof fn lemma_decimal_len_u64(n: u64)
    ensures
        1 <= decimal(n as nat).len() <= 20,
{
    lemma_decimal_len(n as nat);
    assert(pow10(20) > u64::MAX) by {
        reveal_with_fuel(pow10, 21);
    }
    lemma_decimal_len_bound(n as nat, 20);
}

/// Number of decimal digits of `n`; zero has one digit.
pub fn num_digits(n: u64) -> (d: u16)
    ensures
        d as nat == decimal(n as nat).len(),
        1 <= d <= 20,
{
    let mut d: u16 = 1;
    let mut rest: u64 = n;
    proof {
        lemma_decimal_len_u64(n);
    }
    while rest >= 10
        invariant
            1 <= d,
            d as nat + decimal(rest as nat).len() == decimal(n as nat).len() + 1,
            decimal(n as nat).len() <= 20,
        decreases rest,
    {
        proof {
            lemma_decimal_len(rest as nat);
            lemma_decimal_len((rest / 10) as nat);
        }
        rest = rest / 10;
        d = d + 1;
    }
    proof {
        lemma_decimal_len(rest as nat);
    }
    d
}

/// Number of bytes of the UTF-8 encoding of `c`.
pub open spec fn utf8_len(c: char) -> nat {
    encode_scalar(c as u32).len()
}

/// Number of bytes of the UTF-8 encoding of `text`.
pub open spec fn text_bytes(text: Seq<char>) -> nat
    decreases text.len(),
{
    if text.len() == 0 {
        0
    } else {
        text_bytes(text.drop_last()) + utf8_len(text.last())
    }
}

/// A character is encoded in one to four bytes, by its code point.
pub proof fn lemma_utf8_len(c: char)
    ensures
        1 <= utf8_len(c) <= 4,
        utf8_len(c) == if (c as u32) < 0x80 {
            1nat
        } else if (c as u32) < 0x800 {
            2nat
        } else if (c as u32) < 0x10000 {
            3nat
        } else {
            4nat
        },
{
    let v = c as u32;
    assert(has_width_1_encoding(v) <==> v < 0x80);
    assert(has_width_2_encoding(v) <==> 0x80 <= v < 0x800);
    assert(has_width_3_encoding(v) <==> 0x800 <= v < 0x10000);
    assert(has_width_4_encoding(v) <==> 0x10000 <= v);
}

/// The bytes of a text are those of its parts.
pub proof fn lemma_text_bytes_concat(a: Seq<char>, b: Seq<char>)
    ensures
        text_bytes(a + b) == text_bytes(a) + text_bytes(b),
    decreases b.len(),
{
    if b.len() == 0 {
        assert(a + b =~= a);
    } else {
        assert((a + b).drop_last() =~= a + b.drop_last());
        lemma_text_bytes_concat(a, b.drop_last());
    }
}

/// Taking one more character adds its bytes.
pub proof fn lemma_text_bytes_take(text: Seq<char>, i: int)
    requires
        0 <= i < text.len(),
    ensures
        text_bytes(text.take(i + 1)) == text_bytes(text.take(i)) + utf8_len(text[i]),
        text_bytes(text.take(i + 1)) <= text_bytes(text),
        text_bytes(text) == text_bytes(text.take(i)) + text_bytes(text.skip(i)),
        text_bytes(text.skip(i)) == utf8_len(text[i]) + text_bytes(text.skip(i + 1)),
{
    assert(text.take(i + 1).drop_last() =~= text.take(i));
    assert(text =~= text.take(i + 1) + text.skip(i + 1));
    lemma_text_bytes_concat(text.take(i + 1), text.skip(i + 1));
    assert(text =~= text.take(i) + text.skip(i));
    lemma_text_bytes_concat(text.take(i), text.skip(i));
}

/// `text_bytes` is the length of vstd's UTF-8 encoding.
pub proof fn lemma_text_bytes_is_encoding_len(text: Seq<char>)
    ensures
        text_bytes(text) == encode_utf8(text).len(),
    decreases text.len(),
{
    if text.len() > 0 {
        let head = seq![text[0]];
        let tail = text.drop_first();
        assert(text =~= head + tail);
        lemma_text_bytes_concat(head, tail);
        lemma_text_bytes_is_encoding_len(tail);
        assert(head.drop_last() =~= Seq::<char>::empty());
        assert(text_bytes(head) == utf8_len(text[0])) by {
            reveal_with_fuel(text_bytes, 2);
        }
    }
}

/// Number of bytes that `c` takes in UTF-8.
pub fn char_len_utf8(c: char) -> (n: usize)
    ensures
        n as nat == utf8_len(c),
        1 <= n <= 4,
{
    proof {
        lemma_utf8_len(c);
    }
    let v: u32 = c as u32;
    if v < 0x80 {
        1
    } else if v < 0x800 {
        2
    } else if v < 0x10000 {
        3
    } else {
        4
    }
}

/// Number of bytes that `text` takes in UTF-8.
pub fn text_len_utf8(text: &Vec<char>) -> (n: usize)
    requires
        text_bytes(text@) <= usize::MAX,
    ensures
        n as nat == text_bytes(text@),
{
    let mut n: usize = 0;
    let mut i: usize = 0;
    while i < text.len()
        invariant
            i <= text.len(),
            n as nat == text_bytes(text@.take(i as int)),
            text_bytes(text@) <= usize::MAX,
        decreases text.len() - i,
    {
        proof {
            lemma_text_bytes_take(text@, i as int);
        }
        n = n + char_len_utf8(text[i]);
        i = i + 1;
    }
    assert(text@.take(i as int) =~= text@);
    n
}

/// The zero-width joiner.
pub const ZWJ: char = '\u{200d}';

/// The columns that a character takes when it stands alone: its CJK width,
/// nothing where the width is unknown. No character in the width tables is
/// wider than three columns; the clamp makes that a fact that proofs can
/// use, so that a row of three columns always has room for one character.
pub open spec fn columns(c: char) -> nat {
    match cjk_width(c) {
        Some(n) => if n <= 3 {
            n as nat
        } else {
            3
        },
        None => 0,
    }
}

/// The columns that `c` takes when it stands alone.
pub fn char_columns(c: char) -> (w: usize)
    ensures
        w as nat == columns(c),
        w <= 3,
{
    match char_width_cjk(c) {
        Some(n) => if n <= 3 {
            n
        } else {
            3
        },
        None => 0,
    }
}

/// No character of `text` is wider than `width` columns.
pub open spec fn text_holds(text: Seq<char>, width: nat) -> bool {
    forall|j: int| 0 <= j < text.len() ==> columns(#[trigger] text[j]) <= width
}

/// The columns that `c` takes within a text: none for a zero-width joiner,
/// and none for the character that follows one.
pub open spec fn glyph_columns(c: char, after_zwj: bool) -> nat {
    if c == ZWJ || after_zwj {
        0
    } else {
        columns(c)
    }
}

/// The columns that the characters of `text` from index `i` on take, where
/// a tab is `tab_width` columns wide, or as wide as any control character
/// if that is 0. `after_zwj` tells whether the character before is a joiner.
pub open spec fn columns_from(tab_width: usize, text: Seq<char>, i: int, after_zwj: bool) -> nat
    decreases text.len() - i,
{
    if i < 0 || i >= text.len() {
        0
    } else if text[i] == '\t' && tab_width > 0 {
        tab_width as nat + columns_from(tab_width, text, i + 1, after_zwj)
    } else {
        glyph_columns(text[i], after_zwj) + columns_from(tab_width, text, i + 1, text[i] == ZWJ)
    }
}

/// The columns that `text` takes.
pub open spec fn text_columns(tab_width: usize, text: Seq<char>) -> nat {
    columns_from(tab_width, text, 0, false)
}

/// The characters of `s`.
pub fn chars_of(s: &str) -> (chars: Vec<char>)
    ensures
        chars@ == s@,
{
    let mut chars: Vec<char> = Vec::new();
    for c in it: s.chars()
        invariant
            chars@ == it.seq().take(it.index()),
            it.seq() == s@,
    {
        chars.push(c);
        assert(chars@ =~= it.seq().take(it.index() + 1));
    }
    assert(chars@ =~= s@);
    chars
}

/// The characters of `text` from index `from` on.
pub fn suffix(text: &Vec<char>, from: usize) -> (rest: Vec<char>)
    requires
        from <= text.len(),
    ensures
        rest@ == text@.skip(from as int),
{
    let mut rest: Vec<char> = Vec::new();
    let mut i: usize = from;
    while i < text.len()
        invariant
            from <= i <= text.len(),
            rest@ == text@.subrange(from as int, i as int),
        decreases text.len() - i,
    {
        rest.push(text[i]);
        i = i + 1;
        assert(rest@ =~= text@.subrange(from as int, i as int));
    }
    assert(rest@ =~= text@.skip(from as int));
    rest
}

} // verus!
