//! The grouped literal encoder: bytes, or little-endian 32-bit words, rendered
//! as comma-separated `0x` literals with a line break after every group.

use vstd::prelude::*;

verus! {

/// The uppercase hexadecimal digit for a value below sixteen.
pub open spec fn hex_char(d: nat) -> char {
    seq!['0', '1', '2', '3', '4', '5', '6', '7', '8', '9', 'A', 'B', 'C', 'D', 'E', 'F'][d as int]
}

/// The last `width` hexadecimal digits of `v`, most significant first.
pub open spec fn hex_digits(v: nat, width: nat) -> Seq<char>
    decreases width,
{
    if width == 0 {
        seq![]
    } else {
        hex_digits(v / 16, (width - 1) as nat).push(hex_char(v % 16))
    }
}

/// Relies on String::push: the character is appended at the end.
#[verifier::external_body]
fn push_char(s: &mut String, c: char)
    ensures
        final(s)@ == old(s)@.push(c),
{
    s.push(c);
}

/// The digit for a value below sixteen.
fn hex_digit(d: u32) -> (c: char)
    requires
        d < 16,
    ensures
        c == hex_char(d as nat),
{
    match d {
        0 => '0',
        1 => '1',
        2 => '2',
        3 => '3',
        4 => '4',
        5 => '5',
        6 => '6',
        7 => '7',
        8 => '8',
        9 => '9',
        10 => 'A',
        11 => 'B',
        12 => 'C',
        13 => 'D',
        14 => 'E',
        _ => 'F',
    }
}

/// Appends the last `width` digits of `v`, most significant first.
fn push_hex_digits(out: &mut String, v: u32, width: u32)
    ensures
        final(out)@ == old(out)@ + hex_digits(v as nat, width as nat),
    decreases width,
{
    if width > 0 {
        push_hex_digits(out, v / 16, width - 1);
        push_char(out, hex_digit(v % 16));
        proof {
            assert(old(out)@ + hex_digits(v as nat, width as nat) =~= old(out)@ + hex_digits(
                (v / 16) as nat,
                (width - 1) as nat,
            ) + seq![hex_char((v % 16) as nat)]);
        }
    } else {
        assert(old(out)@ + hex_digits(v as nat, 0) =~= old(out)@);
    }
}


/// How the buffer is cut into elements.
#[derive(Debug, Clone, Copy, PartialEq, Eq, Structural)]
pub enum ElementWidth {
    /// Each byte is one element, rendered with two digits.
    Byte,
    /// Each run of four bytes is one little-endian 32-bit element, rendered
    /// with eight digits.
    Word,
}

/// What the encoder produces.
#[derive(Debug, Clone, Copy, PartialEq, Eq, Structural)]
pub enum OutputStyle {
    /// The buffer itself, unchanged.
    Raw,
    /// Comma-separated `0x` literals, wrapped after every group.
    HexList,
}

/// The element width and the number of elements on each line.
#[derive(Debug, Clone, Copy, PartialEq, Eq, Structural)]
pub struct EncodingConfig {
    pub element_width: ElementWidth,
    pub group_size: usize,
}

/// Why a buffer could not be rendered.
#[derive(Debug, Clone, Copy, PartialEq, Eq, Structural)]
pub enum EncodeError {
    /// Word elements were asked for, and the length is not a multiple of four.
    NotMultipleOfWordSize,
    /// A hexadecimal list was asked for with a group size of zero.
    ZeroGroupSize,
}

/// The encoder's result: text for a hexadecimal list, bytes for raw output.
#[derive(Debug, Clone, PartialEq, Eq)]
pub enum RenderedOutput {
    Text(String),
    Bytes(Vec<u8>),
}

/// The element that four bytes make, least significant byte first.
pub open spec fn le_word(b0: u8, b1: u8, b2: u8, b3: u8) -> nat {
    (b0 + 256 * b1 + 65536 * b2 + 16777216 * b3) as nat
}

/// The elements of a buffer at the given width, in buffer order. For words,
/// a trailing run of fewer than four bytes makes no element.
pub open spec fn elements(b: Seq<u8>, width: ElementWidth) -> Seq<nat> {
    match width {
        ElementWidth::Byte => Seq::new(b.len(), |i: int| b[i] as nat),
        ElementWidth::Word => Seq::new(
            b.len() / 4,
            |i: int| le_word(b[4 * i], b[4 * i + 1], b[4 * i + 2], b[4 * i + 3]),
        ),
    }
}

/// The number of hexadecimal digits of one element.
pub open spec fn digit_count(width: ElementWidth) -> nat {
    match width {
        ElementWidth::Byte => 2,
        ElementWidth::Word => 8,
    }
}

/// One rendered element: `0x` and its digits.
pub open spec fn token(v: nat, digits: nat) -> Seq<char> {
    seq!['0', 'x'] + hex_digits(v, digits)
}

/// What follows element `i` of `n`: nothing after the last, a comma and a
/// line break at the end of a group, a comma and a space otherwise.
pub open spec fn separator(i: int, n: int, group_size: int) -> Seq<char> {
    if i == n - 1 {
        seq![]
    } else if i % group_size == group_size - 1 {
        seq![',', '\n']
    } else {
        seq![',', ' ']
    }
}

/// The text of the first `k` elements, each followed by its separator.
pub open spec fn render_prefix(elems: Seq<nat>, digits: nat, group_size: nat, k: int) -> Seq<char>
    decreases k,
{
    if k <= 0 {
        seq![]
    } else {
        render_prefix(elems, digits, group_size, k - 1) + token(elems[k - 1], digits) + separator(
            k - 1,
            elems.len() as int,
            group_size as int,
        )
    }
}

/// The hexadecimal list of a sequence of elements.
pub open spec fn hex_list(elems: Seq<nat>, digits: nat, group_size: nat) -> Seq<char> {
    render_prefix(elems, digits, group_size, elems.len() as int)
}

/// The hexadecimal list of a buffer under a configuration.
pub open spec fn hex_text(b: Seq<u8>, config: EncodingConfig) -> Seq<char> {
    hex_list(
        elements(b, config.element_width),
        digit_count(config.element_width),
        config.group_size as nat,
    )
}

/// The error, if any, that a hexadecimal list of `b` under `config` meets.
pub open spec fn hex_error(b: Seq<u8>, config: EncodingConfig) -> Option<EncodeError> {
    if config.element_width == ElementWidth::Word && b.len() % 4 != 0 {
        Some(EncodeError::NotMultipleOfWordSize)
    } else if config.group_size == 0 {
        Some(EncodeError::ZeroGroupSize)
    } else {
        None
    }
}

/// Element `k` of the buffer at the given width.
fn element_at(b: &[u8], width: ElementWidth, k: usize) -> (r: u32)
    requires
        k < elements(b@, width).len(),
    ensures
        r as nat == elements(b@, width)[k as int],
{
    match width {
        ElementWidth::Byte => b[k] as u32,
        ElementWidth::Word => {
            let len = b.len();
            assert(4 * k + 4 <= len) by (nonlinear_arith)
                requires
                    k < len / 4,
            ;
            let i: usize = 4 * k;
            b[i] as u32 + 256 * (b[i + 1] as u32) + 65536 * (b[i + 2] as u32) + 16777216 * (b[i
                + 3] as u32)
        },
    }
}

/// Renders `b` as a hexadecimal list.
pub fn encode_hex_list(b: &[u8], config: EncodingConfig) -> (r: Result<String, EncodeError>)
    ensures
        match hex_error(b@, config) {
            Some(e) => r == Err::<String, EncodeError>(e),
            None => r is Ok && r->Ok_0@ == hex_text(b@, config),
        },
{
    let width = config.element_width;
    let g = config.group_size;
    if width == ElementWidth::Word && b.len() % 4 != 0 {
        return Err(EncodeError::NotMultipleOfWordSize);
    }
    if g == 0 {
        return Err(EncodeError::ZeroGroupSize);
    }
    let (n, digits) = match width {
        ElementWidth::Byte => (b.len(), 2u32),
        ElementWidth::Word => (b.len() / 4, 8u32),
    };
    let ghost elems = elements(b@, width);
    let mut out = String::new();
    let mut k: usize = 0;
    while k < n
        invariant
            n == elems.len(),
            digits as nat == digit_count(width),
            g > 0,
            k <= n,
            elems == elements(b@, width),
            out@ == render_prefix(elems, digits as nat, g as nat, k as int),
        decreases n - k,
    {
        let v = element_at(b, width, k);
        push_char(&mut out, '0');
        push_char(&mut out, 'x');
        push_hex_digits(&mut out, v, digits);
        if k + 1 < n {
            push_char(&mut out, ',');
            if k % g == g - 1 {
                push_char(&mut out, '\n');
            } else {
                push_char(&mut out, ' ');
            }
        }
        proof {
            let prev = render_prefix(elems, digits as nat, g as nat, k as int);
            let sep = separator(k as int, n as int, g as int);
            assert(out@ =~= prev + token(elems[k as int], digits as nat) + sep);
        }
        k = k + 1;
    }
    Ok(out)
}

/// A fresh vector holding the bytes of `b`.
fn copy_bytes(b: &[u8]) -> (r: Vec<u8>)
    ensures
        r@ == b@,
{
    let mut r: Vec<u8> = Vec::with_capacity(b.len());
    let mut i: usize = 0;
    while i < b.len()
        invariant
            i <= b.len(),
            r@ == b@.subrange(0, i as int),
        decreases b.len() - i,
    {
        r.push(b[i]);
        i = i + 1;
        assert(r@ =~= b@.subrange(0, i as int));
    }
    assert(r@ =~= b@);
    r
}

/// Renders `b` in the given style. Raw output is the buffer itself whatever
/// the configuration; a hexadecimal list fails as `encode_hex_list` says.
pub fn encode(b: &[u8], config: EncodingConfig, style: OutputStyle) -> (r: Result<
    RenderedOutput,
    EncodeError,
>)
    ensures
        style == OutputStyle::Raw ==> r is Ok && r->Ok_0 is Bytes && r->Ok_0->Bytes_0@ == b@,
        style == OutputStyle::HexList ==> match hex_error(b@, config) {
            Some(e) => r == Err::<RenderedOutput, EncodeError>(e),
            None => r is Ok && r->Ok_0 is Text && r->Ok_0->Text_0@ == hex_text(b@, config),
        },
{
    match style {
        OutputStyle::Raw => Ok(RenderedOutput::Bytes(copy_bytes(b))),
        OutputStyle::HexList => match encode_hex_list(b, config) {
            Ok(s) => Ok(RenderedOutput::Text(s)),
            Err(e) => Err(e),
        },
    }
}

} // verus!
