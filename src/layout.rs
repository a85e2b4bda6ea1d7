//! Where a hexadecimal list puts its line breaks, and what it is for an
//! empty buffer.

use vstd::prelude::*;
use vstd::arithmetic::div_mod::lemma_fundamental_div_mod_converse;
use crate::decode::{is_space, lemma_hex_digits, pow16};
use crate::encode::{
    elements, hex_digits, hex_error, hex_list, hex_text, render_prefix, separator, token,
    ElementWidth, EncodingConfig,
};

verus! {

/// An empty buffer renders as the empty text under every configuration with a
/// positive group size, at either width.
pub proof fn lemma_empty_input(config: EncodingConfig)
    requires
        config.group_size > 0,
    ensures
        hex_error(seq![], config).is_none(),
        hex_text(seq![], config) == Seq::<char>::empty(),
{
    assert(elements(seq![], config.element_width).len() == 0);
}

/// Whether position `j` of a list with `digits`-digit tokens and groups of
/// `g` holds a line break: the last character of every slot of a token and
/// its separator that closes a group.
pub open spec fn is_break_position(j: int, digits: nat, g: nat) -> bool {
    let w = (digits + 4) as int;
    j % w == w - 1 && (j / w) % (g as int) == g - 1
}

proof fn lemma_prefix_breaks(elems: Seq<nat>, digits: nat, g: nat, k: int)
    requires
        g > 0,
        0 <= k < elems.len(),
        forall|i: int| 0 <= i < elems.len() ==> #[trigger] elems[i] < pow16(digits),
    ensures
        render_prefix(elems, digits, g, k).len() == k * (digits + 4),
        forall|j: int|
            0 <= j < k * (digits + 4) ==> (#[trigger] render_prefix(elems, digits, g, k)[j] == '\n'
                <==> is_break_position(j, digits, g)),
        forall|j: int|
            0 <= j < k * (digits + 4) && j % (digits + 4) as int == digits + 2 ==> #[trigger] render_prefix(
                elems,
                digits,
                g,
                k,
            )[j] == ',',
    decreases k,
{
    let w = (digits + 4) as int;
    if k > 0 {
        lemma_prefix_breaks(elems, digits, g, k - 1);
        let prev = render_prefix(elems, digits, g, k - 1);
        let tok = token(elems[k - 1], digits);
        lemma_hex_digits(elems[k - 1], digits);
        let sep = separator(k - 1, elems.len() as int, g as int);
        let cur = render_prefix(elems, digits, g, k);
        assert(cur == prev + tok + sep);
        assert((k - 1) * w + w == k * w) by (nonlinear_arith);
        assert forall|j: int| 0 <= j < k * w implies (#[trigger] cur[j] == '\n'
            <==> is_break_position(j, digits, g)) && (j % w == digits + 2 ==> cur[j] == ',') by {
            if j >= (k - 1) * w {
                let r = j - (k - 1) * w;
                lemma_fundamental_div_mod_converse(j, w as int, k - 1, r);
                if r < 2 {
                    assert(cur[j] == tok[r]);
                } else if r < digits + 2 {
                    assert(cur[j] == hex_digits(elems[k - 1], digits)[r - 2]);
                } else {
                    assert(cur[j] == sep[r - digits - 2]);
                }
            } else {
                assert(cur[j] == prev[j]);
            }
        }
    }
}

/// In a non-empty hexadecimal list, a line break stands exactly at the
/// positions that `is_break_position` names, and the text ends in a digit,
/// never in a comma.
pub proof fn lemma_line_breaks(elems: Seq<nat>, digits: nat, g: nat)
    requires
        g > 0,
        digits > 0,
        elems.len() > 0,
        forall|i: int| 0 <= i < elems.len() ==> #[trigger] elems[i] < pow16(digits),
    ensures
        hex_list(elems, digits, g).len() == elems.len() * (digits + 4) - 2,
        forall|j: int|
            0 <= j < hex_list(elems, digits, g).len() ==> (#[trigger] hex_list(elems, digits, g)[j]
                == '\n' <==> is_break_position(j, digits, g)),
        forall|j: int|
            0 <= j < (elems.len() - 1) * (digits + 4) && j % (digits + 4) as int == digits + 2
                ==> #[trigger] hex_list(elems, digits, g)[j] == ',',
        hex_list(elems, digits, g).last() != ',',
        !is_space(hex_list(elems, digits, g).last()),
{
    let n = elems.len() as int;
    let w = (digits + 4) as int;
    lemma_prefix_breaks(elems, digits, g, n - 1);
    let prev = render_prefix(elems, digits, g, n - 1);
    let h = hex_digits(elems[n - 1], digits);
    lemma_hex_digits(elems[n - 1], digits);
    let tok = token(elems[n - 1], digits);
    let t = hex_list(elems, digits, g);
    assert(t =~= prev + tok);
    assert((n - 1) * w + w == n * w) by (nonlinear_arith);
    assert forall|j: int| 0 <= j < t.len() implies (#[trigger] t[j] == '\n' <==> is_break_position(
        j,
        digits,
        g,
    )) by {
        if j >= (n - 1) * w {
            let r = j - (n - 1) * w;
            lemma_fundamental_div_mod_converse(j, w as int, n - 1, r);
            if r >= 2 {
                assert(t[j] == h[r - 2]);
            }
        } else {
            assert(t[j] == prev[j]);
        }
    }
    assert forall|j: int| 0 <= j < (n - 1) * w && j % w == digits + 2 implies #[trigger] t[j]
        == ',' by {
        assert(t[j] == prev[j]);
    }
    assert(t.last() == h[digits - 1]);
}

/// Sixteen bytes in groups of eight: the one line break follows the comma
/// after the eighth token, and the last token has no comma after it.
pub proof fn lemma_sixteen_bytes_in_groups_of_eight(b: Seq<u8>, config: EncodingConfig)
    requires
        b.len() == 16,
        config.element_width == ElementWidth::Byte,
        config.group_size == 8,
    ensures
        hex_text(b, config).len() == 94,
        hex_text(b, config)[46] == ',',
        hex_text(b, config)[47] == '\n',
        forall|j: int| 0 <= j < 94 && j != 47 ==> #[trigger] hex_text(b, config)[j] != '\n',
        hex_text(b, config).last() != ',',
{
    let elems = elements(b, ElementWidth::Byte);
    assert forall|i: int| 0 <= i < elems.len() implies #[trigger] elems[i] < pow16(2) by {
        assert(pow16(2) == 256) by {
            reveal_with_fuel(pow16, 3);
        }
    }
    lemma_line_breaks(elems, 2, 8);
    let t = hex_text(b, config);
    assert(is_break_position(47, 2, 8));
    assert forall|j: int| 0 <= j < 94 && j != 47 implies #[trigger] t[j] != '\n' by {
        assert(!is_break_position(j, 2, 8));
    }
}

} // verus!
