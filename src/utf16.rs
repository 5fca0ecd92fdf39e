//! UTF-16 encoding and decoding of Unicode code points.
use vstd::prelude::*;
use crate::render::{list_text, push_list, push_repeated, push_str, repeated, string_of, Radix};

verus! {

/// Why encoding or decoding a sequence failed; each error carries the
/// position of the offending element.
#[derive(Debug, Clone, Copy, PartialEq, Eq, Structural)]
pub enum CodecError {
    /// The code point at `index` is above 0x10FFFF or lies in the surrogate gap.
    InvalidCodePoint { index: usize, value: u32 },
    /// The decoder was asked to start past the end of the units.
    IndexOutOfBounds { index: usize },
    /// The high surrogate at `index` is the last unit.
    UnpairedHighSurrogate { index: usize },
    /// The high surrogate at `index` is not followed by a low surrogate.
    InvalidSurrogatePair { index: usize },
}

/// A Unicode scalar value: at most 0x10FFFF and outside the surrogate gap.
pub open spec fn is_scalar(cp: u32) -> bool {
    cp <= 0x10FFFF && !(0xD800 <= cp && cp <= 0xDFFF)
}

pub open spec fn is_high_surrogate(u: u16) -> bool {
    0xD800 <= u && u <= 0xDBFF
}

pub open spec fn is_low_surrogate(u: u16) -> bool {
    0xDC00 <= u && u <= 0xDFFF
}

/// The units of one code point: itself below 0x10000, else a surrogate pair
/// holding the upper and lower ten bits of `cp - 0x10000`.
pub open spec fn encode_spec(cp: u32) -> Seq<u16> {
    if cp < 0x10000 {
        seq![cp as u16]
    } else {
        seq![
            (0xD800 + (cp - 0x10000) / 0x400) as u16,
            (0xDC00 + (cp - 0x10000) % 0x400) as u16,
        ]
    }
}

/// The units of a sequence of code points, concatenated in order.
pub open spec fn encoded(cps: Seq<u32>) -> Seq<u16>
    decreases cps.len(),
{
    if cps.len() == 0 {
        seq![]
    } else {
        encoded(cps.drop_last()) + encode_spec(cps.last())
    }
}

/// The code point that a high and a low surrogate stand for together.
pub open spec fn pair_value(high: u16, low: u16) -> u32 {
    ((high - 0xD800) * 0x400 + (low - 0xDC00) + 0x10000) as u32
}

/// One decoding step at `i`: `None` at the end, else the code point and the
/// number of units it takes.
pub open spec fn decode_step(units: Seq<u16>, i: int) -> Result<Option<(u32, usize)>, CodecError> {
    if i > units.len() {
        Err(CodecError::IndexOutOfBounds { index: i as usize })
    } else if i == units.len() {
        Ok(None)
    } else if !is_high_surrogate(units[i]) {
        Ok(Some((units[i] as u32, 1usize)))
    } else if i + 1 == units.len() {
        Err(CodecError::UnpairedHighSurrogate { index: i as usize })
    } else if is_low_surrogate(units[i + 1]) {
        Ok(Some((pair_value(units[i], units[i + 1]), 2usize)))
    } else {
        Err(CodecError::InvalidSurrogatePair { index: i as usize })
    }
}

/// `cp` in front of a decoded sequence; an error stays as it is.
pub open spec fn prepend(cp: u32, rest: Result<Seq<u32>, CodecError>) -> Result<Seq<u32>, CodecError> {
    match rest {
        Ok(s) => Ok(seq![cp] + s),
        Err(e) => Err(e),
    }
}

/// The code points decoded from `units[i..]`, or the first error met.
pub open spec fn decode_from(units: Seq<u16>, i: int) -> Result<Seq<u32>, CodecError>
    decreases units.len() - i,
{
    if i < 0 || i >= units.len() {
        Ok(seq![])
    } else if !is_high_surrogate(units[i]) {
        prepend(units[i] as u32, decode_from(units, i + 1))
    } else if i + 1 == units.len() {
        Err(CodecError::UnpairedHighSurrogate { index: i as usize })
    } else if is_low_surrogate(units[i + 1]) {
        prepend(pair_value(units[i], units[i + 1]), decode_from(units, i + 2))
    } else {
        Err(CodecError::InvalidSurrogatePair { index: i as usize })
    }
}

/// The code points of a whole unit sequence, or the first error met.
pub open spec fn decoded(units: Seq<u16>) -> Result<Seq<u32>, CodecError> {
    decode_from(units, 0)
}

/// Encodes one code point: `None` when it is not a Unicode scalar value.
pub fn encode_code_point(cp: u32) -> (r: Option<Vec<u16>>)
    ensures
        is_scalar(cp) ==> r is Some && r->Some_0@ == encode_spec(cp),
        !is_scalar(cp) ==> r is None,
{
    if cp > 0x10FFFF || (0xD800 <= cp && cp <= 0xDFFF) {
        return None;
    }
    if cp <= 0xFFFF {
        return Some(vec![cp as u16]);
    }
    let extra: u32 = cp - 0x10000;
    assert((extra >> 10) & 0x3FF == extra / 0x400 && extra & 0x3FF == extra % 0x400) by (bit_vector)
        requires
            extra < 0x100000,
    ;
    let high: u16 = (((extra >> 10) & 0x3FF) + 0xD800) as u16;
    let low: u16 = (0xDC00 + (extra & 0x3FF)) as u16;
    let mut units: Vec<u16> = Vec::new();
    units.push(high);
    units.push(low);
    assert(units@ =~= encode_spec(cp));
    Some(units)
}

/// One decoding step at `i`: the code point that starts there and how many
/// units it takes, `None` exactly at the end, or why the units are malformed.
/// A unit that is not a high surrogate stands for itself.
pub fn decode_symbol(units: &[u16], i: usize) -> (r: Result<Option<(u32, usize)>, CodecError>)
    ensures
        r == decode_step(units@, i as int),
{
    if i > units.len() {
        return Err(CodecError::IndexOutOfBounds { index: i });
    }
    if i == units.len() {
        return Ok(None);
    }
    let unit: u16 = units[i];
    if unit < 0xD800 || unit > 0xDBFF {
        return Ok(Some((unit as u32, 1)));
    }
    if i + 1 == units.len() {
        return Err(CodecError::UnpairedHighSurrogate { index: i });
    }
    let low: u16 = units[i + 1];
    assert((low & 0xFC00) == 0xDC00 <==> 0xDC00 <= low <= 0xDFFF) by (bit_vector);
    if (low & 0xFC00) == 0xDC00 {
        let h: u32 = unit as u32;
        let l: u32 = low as u32;
        assert(((h & 0x3FF) << 10) == (h - 0xD800) * 0x400 && (l & 0x3FF) == l - 0xDC00)
            by (bit_vector)
            requires
                0xD800 <= h <= 0xDBFF,
                0xDC00 <= l <= 0xDFFF,
        ;
        let cp: u32 = ((h & 0x3FF) << 10) + (l & 0x3FF) + 0x10000;
        Ok(Some((cp, 2)))
    } else {
        Err(CodecError::InvalidSurrogatePair { index: i })
    }
}

/// Encodes a sequence of code points, the units of each in input order.
/// Fails on the first code point that is not a Unicode scalar value,
/// reporting its position and value.
pub fn encode_in_utf16(cps: &[u32]) -> (r: Result<Vec<u16>, CodecError>)
    ensures
        r is Ok <==> forall|k: int| 0 <= k < cps@.len() ==> is_scalar(#[trigger] cps@[k]),
        r matches Ok(v) ==> v@ == encoded(cps@),
        r matches Err(e) ==> e matches CodecError::InvalidCodePoint { index, value } && index
            < cps@.len() && value == cps@[index as int] && !is_scalar(value) && forall|k: int|
            0 <= k < index ==> is_scalar(#[trigger] cps@[k]),
{
    let mut out: Vec<u16> = Vec::new();
    let mut i: usize = 0;
    while i < cps.len()
        invariant
            i <= cps@.len(),
            out@ == encoded(cps@.take(i as int)),
            forall|k: int| 0 <= k < i ==> is_scalar(#[trigger] cps@[k]),
        decreases cps@.len() - i,
    {
        let cp: u32 = cps[i];
        match encode_code_point(cp) {
            Some(mut units) => {
                assert(cps@.take(i + 1).drop_last() =~= cps@.take(i as int));
                out.append(&mut units);
            },
            None => {
                return Err(CodecError::InvalidCodePoint { index: i, value: cp });
            },
        }
        i = i + 1;
    }
    assert(cps@.take(i as int) =~= cps@);
    Ok(out)
}

/// Decodes a sequence of units into code points, left to right.
/// Fails with the first malformed surrogate and its position.
pub fn decode_from_utf16(units: &[u16]) -> (r: Result<Vec<u32>, CodecError>)
    ensures
        match r {
            Ok(v) => decoded(units@) == Ok::<Seq<u32>, CodecError>(v@),
            Err(e) => decoded(units@) == Err::<Seq<u32>, CodecError>(e),
        },
{
    let mut out: Vec<u32> = Vec::new();
    let mut i: usize = 0;
    while i < units.len()
        invariant
            i <= units@.len(),
            decoded(units@) == match decode_from(units@, i as int) {
                Ok(s) => Ok(out@ + s),
                Err(e) => Err::<Seq<u32>, CodecError>(e),
            },
        decreases units@.len() - i,
    {
        match decode_symbol(units, i) {
            Ok(Some((cp, n))) => {
                proof {
                    let next = (i + n) as int;
                    assert(decode_from(units@, i as int) == prepend(cp, decode_from(units@, next)));
                    if let Ok(s) = decode_from(units@, next) {
                        assert(out@ + (seq![cp] + s) =~= out@.push(cp) + s);
                    }
                }
                out.push(cp);
                i = i + n;
            },
            Ok(None) => {
                return Ok(out);
            },
            Err(e) => {
                return Err(e);
            },
        }
    }
    assert(out@ + seq![] =~= out@);
    Ok(out)
}

/// Units that hold no lone surrogate: they decode, and only to scalar values.
pub open spec fn is_well_formed(units: Seq<u16>) -> bool {
    &&& decoded(units) is Ok
    &&& forall|k: int|
        0 <= k < decoded(units)->Ok_0.len() ==> is_scalar(#[trigger] decoded(units)->Ok_0[k])
}

/// The report on `units`, whose code points are `cps`: a header that quotes
/// the text, the units in hexadecimal, in binary (16 digits each) when
/// `binary` holds, in decimal, then a rule as wide as the header.
pub open spec fn utf16_report(units: Seq<u16>, cps: Seq<u32>, binary: bool) -> Seq<char> {
    let vals = units.map_values(|u: u16| u as u32);
    let text = cps.map_values(|c: u32| c as char);
    "\n--------------- UTF-16 of \""@ + text + "\" ---------------\nHex: "@ + list_text(
        vals,
        Radix::Hex,
    ) + "\n"@ + (if binary {
        "Bin: "@ + list_text(vals, Radix::Binary { width: 16 }) + "\n"@
    } else {
        Seq::<char>::empty()
    }) + "Dec: "@ + list_text(vals, Radix::Decimal) + "\n"@ + repeated('-', 44 + text.len())
        + "\n\n"@
}

/// Relies on `String::from_utf16`: it decodes UTF-16, and fails exactly when
/// the units hold a lone surrogate.
#[verifier::external_body]
fn chars_from_utf16(units: &[u16]) -> (r: Option<Vec<char>>)
    ensures
        r is Some <==> is_well_formed(units@),
        r matches Some(cs) ==> cs@.map_values(|c: char| c as u32) == decoded(units@)->Ok_0,
{
    String::from_utf16(units).ok().map(|s| s.chars().collect())
}

fn print_utf16_vec(units: &[u16], binary: bool) -> (r: Option<String>)
    ensures
        r is Some <==> is_well_formed(units@),
        r matches Some(s) ==> s@ == utf16_report(units@, decoded(units@)->Ok_0, binary),
{
    let mut text: Vec<char> = match chars_from_utf16(units) {
        Some(cs) => cs,
        None => {
            return None;
        },
    };
    let ghost cps = decoded(units@)->Ok_0;
    proof {
        assert forall|k: int| 0 <= k < text@.len() implies text@[k] == (cps[k] as char) by {
            assert(cps[k] == text@.map_values(|c: char| c as u32)[k]);
            vstd::utf8::char_u32_cast(text@[k], cps[k]);
        }
        assert(cps.len() == text@.map_values(|c: char| c as u32).len());
        assert(text@ =~= cps.map_values(|c: u32| c as char));
    }
    let mut vals: Vec<u32> = Vec::new();
    let mut i: usize = 0;
    while i < units.len()
        invariant
            i <= units@.len(),
            vals@ == units@.take(i as int).map_values(|u: u16| u as u32),
        decreases units@.len() - i,
    {
        vals.push(units[i] as u32);
        i = i + 1;
        assert(vals@ =~= units@.take(i as int).map_values(|u: u16| u as u32));
    }
    assert(units@.take(i as int) =~= units@);
    let width: usize = text.len();
    let mut out: Vec<char> = Vec::new();
    push_str(&mut out, "\n--------------- UTF-16 of \"");
    out.append(&mut text);
    push_str(&mut out, "\" ---------------\nHex: ");
    push_list(&mut out, &vals, Radix::Hex);
    push_str(&mut out, "\n");
    if binary {
        push_str(&mut out, "Bin: ");
        push_list(&mut out, &vals, Radix::Binary { width: 16 });
        push_str(&mut out, "\n");
    }
    push_str(&mut out, "Dec: ");
    push_list(&mut out, &vals, Radix::Decimal);
    push_str(&mut out, "\n");
    push_repeated(&mut out, '-', 44);
    push_repeated(&mut out, '-', width);
    assert(repeated('-', 44) + repeated('-', width as nat) =~= repeated('-', 44 + width as nat));
    push_str(&mut out, "\n\n");
    assert(out@ =~= utf16_report(units@, cps, binary));
    Some(string_of(&out))
}

/// The text that shows `units` in hexadecimal and decimal under a header
/// that quotes the text they encode; `None` when they hold a lone surrogate.
pub fn print_utf16(units: &[u16]) -> (r: Option<String>)
    ensures
        r is Some <==> is_well_formed(units@),
        r matches Some(s) ==> s@ == utf16_report(units@, decoded(units@)->Ok_0, false),
{
    print_utf16_vec(units, false)
}

/// The text that shows `units` in hexadecimal, binary and decimal under a
/// header that quotes the text they encode; `None` when they hold a lone
/// surrogate.
pub fn print_utf16_b(units: &[u16]) -> (r: Option<String>)
    ensures
        r is Some <==> is_well_formed(units@),
        r matches Some(s) ==> s@ == utf16_report(units@, decoded(units@)->Ok_0, true),
{
    print_utf16_vec(units, true)
}

/// A code point below 0x10000 encodes to one unit equal to itself; one at or
/// above 0x10000 encodes to a high surrogate followed by a low surrogate.
pub proof fn lemma_unit_count(cp: u32)
    requires
        is_scalar(cp),
    ensures
        cp < 0x10000 ==> encode_spec(cp) == seq![cp as u16] && encode_spec(cp)[0] as u32 == cp,
        cp >= 0x10000 ==> encode_spec(cp).len() == 2 && is_high_surrogate(encode_spec(cp)[0])
            && is_low_surrogate(encode_spec(cp)[1]),
{
}

/// Encoding a sequence that starts with `c` gives the units of `c` first.
proof fn lemma_encoded_front(c: u32, cps: Seq<u32>)
    ensures
        encoded(seq![c] + cps) == encode_spec(c) + encoded(cps),
    decreases cps.len(),
{
    if cps.len() == 0 {
        assert(seq![c] + cps =~= seq![c]);
        assert(seq![c].drop_last() =~= Seq::<u32>::empty());
        assert(encoded(Seq::<u32>::empty()) == Seq::<u16>::empty());
        assert(encoded(seq![c]) == encoded(Seq::<u32>::empty()) + encode_spec(c));
        assert(encode_spec(c) + encoded(cps) =~= encode_spec(c));
        assert(Seq::<u16>::empty() + encode_spec(c) =~= encode_spec(c));
    } else {
        lemma_encoded_front(c, cps.drop_last());
        assert((seq![c] + cps).drop_last() =~= seq![c] + cps.drop_last());
        assert((seq![c] + cps).last() == cps.last());
        assert(encode_spec(c) + encoded(cps.drop_last()) + encode_spec(cps.last())
            =~= encode_spec(c) + (encoded(cps.drop_last()) + encode_spec(cps.last())));
    }
}

/// The surrogate pair of a code point at or above 0x10000 decodes back to it.
proof fn lemma_pair_inverse(cp: u32)
    requires
        is_scalar(cp),
        cp >= 0x10000,
    ensures
        pair_value(encode_spec(cp)[0], encode_spec(cp)[1]) == cp,
{
    let x: int = cp - 0x10000;
    assert(x == (x / 0x400) * 0x400 + x % 0x400) by (nonlinear_arith);
}

/// Decoding from the end of any prefix `p`, followed by the units of valid
/// code points, gives back exactly those code points.
proof fn lemma_decode_after(p: Seq<u16>, cps: Seq<u32>)
    requires
        forall|k: int| 0 <= k < cps.len() ==> is_scalar(#[trigger] cps[k]),
    ensures
        decode_from(p + encoded(cps), p.len() as int) == Ok::<Seq<u32>, CodecError>(cps),
    decreases cps.len(),
{
    let s = p + encoded(cps);
    if cps.len() == 0 {
        assert(cps =~= Seq::<u32>::empty());
    } else {
        let c = cps[0];
        let rest = cps.drop_first();
        assert(cps =~= seq![c] + rest);
        lemma_encoded_front(c, rest);
        let e = encode_spec(c);
        let q = p + e;
        assert(s =~= q + encoded(rest));
        assert forall|k: int| 0 <= k < rest.len() implies is_scalar(#[trigger] rest[k]) by {
            assert(rest[k] == cps[k + 1]);
        }
        lemma_decode_after(q, rest);
        lemma_unit_count(c);
        let i = p.len() as int;
        if c < 0x10000 {
            assert(s[i] == e[0]);
        } else {
            assert(s[i] == e[0] && s[i + 1] == e[1]);
            lemma_pair_inverse(c);
        }
        assert(seq![c] + rest =~= cps);
    }
}

/// Every Unicode scalar value decodes back to itself after encoding.
pub proof fn lemma_round_trip(cp: u32)
    requires
        is_scalar(cp),
    ensures
        decoded(encoded(seq![cp])) == Ok::<Seq<u32>, CodecError>(seq![cp]),
{
    lemma_round_trip_sequence(seq![cp]);
}

/// Decoding the encoding of a sequence of Unicode scalar values gives the
/// same sequence back.
pub proof fn lemma_round_trip_sequence(cps: Seq<u32>)
    requires
        forall|k: int| 0 <= k < cps.len() ==> is_scalar(#[trigger] cps[k]),
    ensures
        decoded(encoded(cps)) == Ok::<Seq<u32>, CodecError>(cps),
{
    lemma_decode_after(Seq::<u16>::empty(), cps);
    assert(Seq::<u16>::empty() + encoded(cps) =~= encoded(cps));
}

} // verus!
