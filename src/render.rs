//! Text renderings of integer sequences: lists of hexadecimal, decimal or
//! zero-padded binary numerals, as printed by the report functions.
use vstd::prelude::*;
use vstd::string::StrSliceExecFns;

verus! {

/// How each number of a list is written.
#[derive(Debug, Clone, Copy, PartialEq, Eq, Structural)]
pub enum Radix {
    /// Lower-case base 16, no prefix.
    Hex,
    /// Base 10.
    Decimal,
    /// Base 2, zero-padded to `width` digits, between double quotes.
    Binary { width: usize },
}

/// The character of a digit below 16, lower case.
pub open spec fn digit_char(d: nat) -> char {
    if d < 10 {
        (48 + d) as u32 as char
    } else {
        (87 + d) as u32 as char
    }
}

/// The digits of `n` in `base`, most significant first, with no leading zero.
pub open spec fn digits(n: nat, base: nat) -> Seq<char>
    decreases n
    via digits_decreases
{
    if base < 2 || n < base {
        seq![digit_char(n)]
    } else {
        digits(n / base, base).push(digit_char(n % base))
    }
}

#[via_fn]
proof fn digits_decreases(n: nat, base: nat) {
    if !(base < 2 || n < base) {
        assert(n / base < n) by (nonlinear_arith)
            requires
                base >= 2,
                n >= base,
        ;
    }
}

/// `s` with zeros in front, up to `width` characters.
pub open spec fn padded(s: Seq<char>, width: nat) -> Seq<char> {
    if s.len() >= width {
        s
    } else {
        Seq::new((width - s.len()) as nat, |i: int| '0') + s
    }
}

pub open spec fn numeral(v: u32, radix: Radix) -> Seq<char> {
    match radix {
        Radix::Hex => digits(v as nat, 16),
        Radix::Decimal => digits(v as nat, 10),
        Radix::Binary { width } => seq!['"'] + padded(digits(v as nat, 2), width as nat) + seq!['"'],
    }
}

/// The items separated by a comma and a space.
pub open spec fn joined(items: Seq<Seq<char>>) -> Seq<char>
    decreases items.len(),
{
    if items.len() == 0 {
        seq![]
    } else if items.len() == 1 {
        items[0]
    } else {
        joined(items.drop_last()) + seq![',', ' '] + items.last()
    }
}

/// The numerals of `vals`, comma-separated, between square brackets.
pub open spec fn list_text(vals: Seq<u32>, radix: Radix) -> Seq<char> {
    seq!['['] + joined(vals.map_values(|v: u32| numeral(v, radix))) + seq![']']
}

/// `n` copies of `c`.
pub open spec fn repeated(c: char, n: nat) -> Seq<char> {
    Seq::new(n, |i: int| c)
}

fn digit(d: u32) -> (c: char)
    requires
        d < 16,
    ensures
        c == digit_char(d as nat),
{
    if d < 10 {
        ((48 + d) as u8) as char
    } else {
        ((87 + d) as u8) as char
    }
}

/// The digits of `n` in `base`.
pub fn render_digits(n: u32, base: u32) -> (r: Vec<char>)
    requires
        2 <= base <= 16,
    ensures
        r@ == digits(n as nat, base as nat),
    decreases n,
{
    if n < base {
        vec![digit(n)]
    } else {
        assert(n / base < n) by (nonlinear_arith)
            requires
                base >= 2,
                n >= base,
        ;
        let mut r: Vec<char> = render_digits(n / base, base);
        r.push(digit(n % base));
        r
    }
}

/// The numeral of `v` as `radix` writes it.
pub fn render_numeral(v: u32, radix: Radix) -> (r: Vec<char>)
    ensures
        r@ == numeral(v, radix),
{
    match radix {
        Radix::Hex => render_digits(v, 16),
        Radix::Decimal => render_digits(v, 10),
        Radix::Binary { width } => {
            let bits: Vec<char> = render_digits(v, 2);
            let mut r: Vec<char> = Vec::new();
            r.push('"');
            let mut k: usize = bits.len();
            while k < width
                invariant
                    bits.len() <= k <= width || width <= bits.len() == k,
                    r@ == seq!['"'] + Seq::new((k - bits.len()) as nat, |i: int| '0'),
                decreases width - k,
            {
                r.push('0');
                k = k + 1;
                assert(r@ =~= seq!['"'] + Seq::new((k - bits.len()) as nat, |i: int| '0'));
            }
            let mut i: usize = 0;
            while i < bits.len()
                invariant
                    i <= bits.len(),
                    r@ == seq!['"'] + Seq::new((k - bits.len()) as nat, |i: int| '0') + bits@.take(
                        i as int,
                    ),
                decreases bits.len() - i,
            {
                r.push(bits[i]);
                i = i + 1;
                assert(r@ =~= seq!['"'] + Seq::new((k - bits.len()) as nat, |i: int| '0')
                    + bits@.take(i as int));
            }
            r.push('"');
            assert(bits@.take(i as int) =~= bits@);
            if bits.len() >= width {
                assert(r@ =~= seq!['"'] + bits@ + seq!['"']);
            } else {
                assert(r@ =~= seq!['"'] + padded(bits@, width as nat) + seq!['"']);
            }
            r
        },
    }
}

/// Appends the characters of `s` to `out`.
pub fn push_str(out: &mut Vec<char>, s: &str)
    ensures
        final(out)@ == old(out)@ + s@,
{
    let n: usize = s.unicode_len();
    let mut i: usize = 0;
    while i < n
        invariant
            n == s@.len(),
            i <= n,
            out@ == old(out)@ + s@.take(i as int),
        decreases n - i,
    {
        out.push(s.get_char(i));
        i = i + 1;
        assert(out@ =~= old(out)@ + s@.take(i as int));
    }
    assert(s@.take(i as int) =~= s@);
}

/// Appends `n` copies of `c` to `out`.
pub fn push_repeated(out: &mut Vec<char>, c: char, n: usize)
    ensures
        final(out)@ == old(out)@ + repeated(c, n as nat),
{
    let mut i: usize = 0;
    while i < n
        invariant
            i <= n,
            out@ == old(out)@ + repeated(c, i as nat),
        decreases n - i,
    {
        out.push(c);
        i = i + 1;
        assert(out@ =~= old(out)@ + repeated(c, i as nat));
    }
}

/// Appends the bracketed, comma-separated numerals of `vals` to `out`.
pub fn push_list(out: &mut Vec<char>, vals: &[u32], radix: Radix)
    ensures
        final(out)@ == old(out)@ + list_text(vals@, radix),
{
    let ghost items = vals@.map_values(|v: u32| numeral(v, radix));
    out.push('[');
    let mut i: usize = 0;
    while i < vals.len()
        invariant
            i <= vals@.len(),
            items == vals@.map_values(|v: u32| numeral(v, radix)),
            out@ == old(out)@ + seq!['['] + joined(items.take(i as int)),
        decreases vals@.len() - i,
    {
        let mut item: Vec<char> = render_numeral(vals[i], radix);
        proof {
            let t = items.take(i + 1);
            assert(t.drop_last() =~= items.take(i as int));
            assert(t.last() == item@);
            if i == 0 {
                assert(t.len() == 1 && t[0] == item@);
            }
        }
        if i > 0 {
            out.push(',');
            out.push(' ');
            assert(out@ =~= old(out)@ + seq!['['] + joined(items.take(i as int)) + seq![',', ' ']);
        }
        out.append(&mut item);
        i = i + 1;
        assert(out@ =~= old(out)@ + seq!['['] + joined(items.take(i as int)));
    }
    out.push(']');
    assert(items.take(i as int) =~= items);
    assert(out@ =~= old(out)@ + list_text(vals@, radix));
}

/// Relies on `String`'s `FromIterator<char>`: the string of exactly those
/// characters, in order.
#[verifier::external_body]
pub(crate) fn string_of(chars: &Vec<char>) -> (r: String)
    ensures
        r@ == chars@,
{
    chars.iter().collect()
}

} // verus!
