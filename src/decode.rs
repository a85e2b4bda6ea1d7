//! Reading a hexadecimal list back: split on commas, trim whitespace, strip
//! the `0x` prefix, read the digits. The laws here state that this recovers
//! the elements, and for words the bytes, that were rendered.

use vstd::prelude::*;
use vstd::arithmetic::div_mod::lemma_fundamental_div_mod_converse;
use crate::encode::{hex_text, le_word, elements, hex_char, hex_digits, hex_list, token, separator, render_prefix, ElementWidth, EncodingConfig};

verus! {

/// Whitespace that trimming removes.
pub open spec fn is_space(c: char) -> bool {
    c == ' ' || c == '\n' || c == '\t' || c == '\r'
}

/// `s` without its leading whitespace.
pub open spec fn trim_start(s: Seq<char>) -> Seq<char>
    decreases s.len(),
{
    if s.len() > 0 && is_space(s[0]) {
        trim_start(s.drop_first())
    } else {
        s
    }
}

/// `s` without its trailing whitespace.
pub open spec fn trim_end(s: Seq<char>) -> Seq<char>
    decreases s.len(),
{
    if s.len() > 0 && is_space(s.last()) {
        trim_end(s.drop_last())
    } else {
        s
    }
}

/// `s` without a leading `0x` or `0X`.
pub open spec fn strip_hex_prefix(s: Seq<char>) -> Seq<char> {
    if s.len() >= 2 && s[0] == '0' && (s[1] == 'x' || s[1] == 'X') {
        s.skip(2)
    } else {
        s
    }
}

/// The value of a hexadecimal digit of either case.
pub open spec fn digit_value(c: char) -> nat {
    if '0' <= c && c <= '9' {
        (c as u32 - '0' as u32) as nat
    } else if 'A' <= c && c <= 'F' {
        (c as u32 - 'A' as u32 + 10) as nat
    } else if 'a' <= c && c <= 'f' {
        (c as u32 - 'a' as u32 + 10) as nat
    } else {
        0
    }
}

/// The value of a string of hexadecimal digits, most significant first.
pub open spec fn hex_value(s: Seq<char>) -> nat
    decreases s.len(),
{
    if s.len() == 0 {
        0
    } else {
        hex_value(s.drop_last()) * 16 + digit_value(s.last())
    }
}

/// The pieces of `s` between commas; a text without commas is one piece.
pub open spec fn split_commas(s: Seq<char>) -> Seq<Seq<char>>
    decreases s.len(),
{
    if s.len() == 0 {
        seq![seq![]]
    } else {
        let r = split_commas(s.drop_last());
        if s.last() == ',' {
            r.push(seq![])
        } else {
            r.update(r.len() - 1, r.last().push(s.last()))
        }
    }
}

/// The value of one piece of a list.
pub open spec fn parse_piece(p: Seq<char>) -> nat {
    hex_value(strip_hex_prefix(trim_end(trim_start(p))))
}

/// The elements that a hexadecimal list holds; the empty text holds none.
pub open spec fn decode(s: Seq<char>) -> Seq<nat> {
    if s.len() == 0 {
        seq![]
    } else {
        split_commas(s).map_values(|p: Seq<char>| parse_piece(p))
    }
}

/// The four bytes of a 32-bit value, least significant first.
pub open spec fn le_bytes(w: nat) -> Seq<u8> {
    seq![
        (w % 256) as u8,
        (w / 256 % 256) as u8,
        (w / 256 / 256 % 256) as u8,
        (w / 256 / 256 / 256 % 256) as u8,
    ]
}

/// Words written back to bytes, four for each, in order.
pub open spec fn bytes_of_words(ws: Seq<nat>) -> Seq<u8>
    decreases ws.len(),
{
    if ws.len() == 0 {
        seq![]
    } else {
        bytes_of_words(ws.drop_last()) + le_bytes(ws.last())
    }
}

/// Sixteen to the power `n`.
pub open spec fn pow16(n: nat) -> nat
    decreases n,
{
    if n == 0 {
        1
    } else {
        16 * pow16((n - 1) as nat)
    }
}

proof fn lemma_hex_char(d: nat)
    requires
        d < 16,
    ensures
        digit_value(hex_char(d)) == d,
        hex_char(d) != ',',
        !is_space(hex_char(d)),
{
}

pub(crate) proof fn lemma_hex_digits(v: nat, width: nat)
    requires
        v < pow16(width),
    ensures
        hex_value(hex_digits(v, width)) == v,
        hex_digits(v, width).len() == width,
        forall|i: int|
            0 <= i < width ==> #[trigger] hex_digits(v, width)[i] != ',' && !is_space(
                hex_digits(v, width)[i],
            ),
    decreases width,
{
    if width > 0 {
        let w1 = (width - 1) as nat;
        let p = pow16(w1);
        assert(v / 16 < p) by (nonlinear_arith)
            requires
                v < 16 * p,
        ;
        lemma_hex_digits(v / 16, w1);
        lemma_hex_char(v % 16);
        let s = hex_digits(v, width);
        assert(s.drop_last() =~= hex_digits(v / 16, w1));
        assert(v == (v / 16) * 16 + v % 16) by (nonlinear_arith);
    }
}


/// What may stand before a token in its piece: nothing, or the one
/// whitespace character that followed the previous comma.
pub open spec fn is_gap(p: Seq<char>) -> bool {
    p.len() == 0 || (p.len() == 1 && is_space(p[0]))
}

/// Whether `t` holds no comma.
pub open spec fn no_comma(t: Seq<char>) -> bool {
    forall|i: int| 0 <= i < t.len() ==> #[trigger] t[i] != ','
}

proof fn lemma_split_len(s: Seq<char>)
    ensures
        split_commas(s).len() >= 1,
    decreases s.len(),
{
    if s.len() > 0 {
        lemma_split_len(s.drop_last());
    }
}

proof fn lemma_split_plain(s: Seq<char>, t: Seq<char>)
    requires
        no_comma(t),
    ensures
        split_commas(s + t) == split_commas(s).update(
            split_commas(s).len() - 1,
            split_commas(s).last() + t,
        ),
    decreases t.len(),
{
    lemma_split_len(s);
    let r = split_commas(s);
    if t.len() == 0 {
        assert(s + t =~= s);
        assert(r.last() + t =~= r.last());
        assert(r.update(r.len() - 1, r.last() + t) =~= r);
    } else {
        let t1 = t.drop_last();
        assert(no_comma(t1)) by {
            assert forall|i: int| 0 <= i < t1.len() implies #[trigger] t1[i] != ',' by {
                assert(t1[i] == t[i]);
            }
        }
        lemma_split_plain(s, t1);
        assert((s + t).drop_last() =~= s + t1);
        assert((s + t).last() == t.last());
        assert(t[t.len() - 1] != ',');
        assert((r.last() + t1).push(t.last()) =~= r.last() + t);
        assert(split_commas(s + t) =~= r.update(r.len() - 1, r.last() + t));
    }
}

proof fn lemma_split_comma(s: Seq<char>)
    ensures
        split_commas(s.push(',')) == split_commas(s).push(seq![]),
{
    assert(s.push(',').drop_last() =~= s);
}

proof fn lemma_token(gap: Seq<char>, v: nat, digits: nat)
    requires
        is_gap(gap),
        v < pow16(digits),
    ensures
        parse_piece(gap + token(v, digits)) == v,
        no_comma(token(v, digits)),
{
    lemma_hex_digits(v, digits);
    let tok = token(v, digits);
    let h = hex_digits(v, digits);
    assert(tok[0] == '0');
    assert(tok[1] == 'x');
    assert forall|i: int| 0 <= i < tok.len() implies #[trigger] tok[i] != ',' && !is_space(
        tok[i],
    ) by {
        if i >= 2 {
            assert(tok[i] == h[i - 2]);
        }
    }
    assert(trim_start(tok) == tok);
    if gap.len() == 1 {
        assert((gap + tok)[0] == gap[0]);
        assert((gap + tok).drop_first() =~= tok);
    } else {
        assert(gap + tok =~= tok);
    }
    assert(trim_start(gap + tok) == tok);
    assert(!is_space(tok.last()));
    assert(trim_end(tok) == tok);
    assert(strip_hex_prefix(tok) =~= h);
}

proof fn lemma_render_split(elems: Seq<nat>, digits: nat, g: nat, k: int)
    requires
        g > 0,
        0 <= k < elems.len(),
        forall|i: int| 0 <= i < elems.len() ==> #[trigger] elems[i] < pow16(digits),
    ensures
        split_commas(render_prefix(elems, digits, g, k)).len() == k + 1,
        forall|i: int|
            0 <= i < k ==> parse_piece(#[trigger] split_commas(render_prefix(elems, digits, g, k))[i])
                == elems[i],
        is_gap(split_commas(render_prefix(elems, digits, g, k))[k]),
    decreases k,
{
    if k > 0 {
        lemma_render_split(elems, digits, g, k - 1);
        let prev = render_prefix(elems, digits, g, k - 1);
        let s0 = split_commas(prev);
        let tok = token(elems[k - 1], digits);
        lemma_token(s0[k - 1], elems[k - 1], digits);
        let ws: char = if (k - 1) % (g as int) == g - 1 { '\n' } else { ' ' };
        assert(separator(k - 1, elems.len() as int, g as int) =~= seq![',', ws]);
        assert(render_prefix(elems, digits, g, k) =~= (prev + tok).push(',') + seq![ws]);
        lemma_split_plain(prev, tok);
        let s1 = s0.update(k - 1, s0[k - 1] + tok);
        lemma_split_comma(prev + tok);
        assert(no_comma(seq![ws]));
        lemma_split_plain((prev + tok).push(','), seq![ws]);
        let s2 = s1.push(seq![]);
        assert(s2.last() + seq![ws] =~= seq![ws]);
        let s3 = s2.update(k, seq![ws]);
        assert(split_commas(render_prefix(elems, digits, g, k)) == s3);
        assert forall|i: int| 0 <= i < k implies parse_piece(#[trigger] s3[i]) == elems[i] by {
            if i < k - 1 {
                assert(s3[i] == s0[i]);
            }
        }
    }
}

/// A hexadecimal list read back gives its elements, in order, whenever each
/// element fits in the number of digits rendered.
pub proof fn lemma_hex_list_round_trip(elems: Seq<nat>, digits: nat, g: nat)
    requires
        g > 0,
        forall|i: int| 0 <= i < elems.len() ==> #[trigger] elems[i] < pow16(digits),
    ensures
        decode(hex_list(elems, digits, g)) == elems,
{
    let n = elems.len() as int;
    if n == 0 {
        assert(decode(hex_list(elems, digits, g)) =~= elems);
    } else {
        lemma_render_split(elems, digits, g, n - 1);
        let prev = render_prefix(elems, digits, g, n - 1);
        let s0 = split_commas(prev);
        let tok = token(elems[n - 1], digits);
        lemma_token(s0[n - 1], elems[n - 1], digits);
        assert(hex_list(elems, digits, g) =~= prev + tok);
        lemma_split_plain(prev, tok);
        let s1 = s0.update(n - 1, s0[n - 1] + tok);
        assert(hex_list(elems, digits, g).len() > 0) by {
            assert(tok.len() >= 2);
        }
        let d = decode(hex_list(elems, digits, g));
        assert(d == s1.map_values(|p: Seq<char>| parse_piece(p)));
        assert forall|i: int| 0 <= i < n implies #[trigger] d[i] == elems[i] by {
            if i < n - 1 {
                assert(s1[i] == s0[i]);
            }
        }
        assert(d =~= elems);
    }
}


proof fn lemma_le_bytes(b0: u8, b1: u8, b2: u8, b3: u8)
    ensures
        le_bytes(le_word(b0, b1, b2, b3)) == seq![b0, b1, b2, b3],
        le_word(b0, b1, b2, b3) < pow16(8),
{
    let w = le_word(b0, b1, b2, b3) as int;
    let q1 = b1 + 256 * b2 + 65536 * b3;
    let q2 = b2 + 256 * b3;
    lemma_fundamental_div_mod_converse(w, 256, q1, b0 as int);
    lemma_fundamental_div_mod_converse(q1, 256, q2, b1 as int);
    lemma_fundamental_div_mod_converse(q2, 256, b3 as int, b2 as int);
    lemma_fundamental_div_mod_converse(b3 as int, 256, 0, b3 as int);
    assert(pow16(8) == 4294967296) by {
        reveal_with_fuel(pow16, 9);
    }
    assert(le_bytes(le_word(b0, b1, b2, b3)) =~= seq![b0, b1, b2, b3]);
}

proof fn lemma_words_to_bytes(b: Seq<u8>)
    requires
        b.len() % 4 == 0,
    ensures
        bytes_of_words(elements(b, ElementWidth::Word)) == b,
        forall|i: int|
            0 <= i < b.len() / 4 ==> #[trigger] elements(b, ElementWidth::Word)[i] < pow16(8),
    decreases b.len(),
{
    let ws = elements(b, ElementWidth::Word);
    if b.len() == 0 {
        assert(bytes_of_words(ws) =~= b);
    } else {
        let m = b.len() - 4;
        let b1 = b.subrange(0, m);
        lemma_words_to_bytes(b1);
        assert(ws.drop_last() =~= elements(b1, ElementWidth::Word));
        let k = b.len() / 4 - 1;
        assert(4 * k == m);
        lemma_le_bytes(b[m], b[m + 1], b[m + 2], b[m + 3]);
        assert(b =~= b1 + seq![b[m], b[m + 1], b[m + 2], b[m + 3]]);
        assert forall|i: int| 0 <= i < b.len() / 4 implies #[trigger] ws[i] < pow16(8) by {
            if i < k {
                assert(ws[i] == elements(b1, ElementWidth::Word)[i]);
            }
        }
    }
}

/// Reading back the byte-width hexadecimal list of a buffer gives the buffer.
pub proof fn lemma_byte_list_round_trip(b: Seq<u8>, config: EncodingConfig)
    requires
        config.element_width == ElementWidth::Byte,
        config.group_size > 0,
    ensures
        decode(hex_text(b, config)) == Seq::new(b.len(), |i: int| b[i] as nat),
{
    let elems = elements(b, ElementWidth::Byte);
    assert forall|i: int| 0 <= i < elems.len() implies #[trigger] elems[i] < pow16(2) by {
        assert(pow16(2) == 256) by {
            reveal_with_fuel(pow16, 3);
        }
    }
    lemma_hex_list_round_trip(elems, 2, config.group_size as nat);
}

/// Reading back the word-width hexadecimal list of a buffer whose length is a
/// multiple of four gives its little-endian words, and writing those words
/// back as bytes gives the buffer.
pub proof fn lemma_word_list_round_trip(b: Seq<u8>, config: EncodingConfig)
    requires
        config.element_width == ElementWidth::Word,
        config.group_size > 0,
        b.len() % 4 == 0,
    ensures
        decode(hex_text(b, config)) == elements(b, ElementWidth::Word),
        bytes_of_words(decode(hex_text(b, config))) == b,
{
    lemma_words_to_bytes(b);
    lemma_hex_list_round_trip(elements(b, ElementWidth::Word), 8, config.group_size as nat);
}

} // verus!
