//! Text reports of Unicode code point sequences.
use vstd::prelude::*;
use crate::render::{list_text, push_list, push_repeated, push_str, repeated, string_of, Radix};

verus! {

/// The report on `cps`: a header, the code points in hexadecimal, in binary
/// (32 digits each) when `binary` holds, in decimal, then a closing rule.
pub open spec fn unicode_report(cps: Seq<u32>, binary: bool) -> Seq<char> {
    "\n--------------- UNICODE code points ---------------\nHex: "@ + list_text(cps, Radix::Hex)
        + "\n"@ + (if binary {
        "Bin: "@ + list_text(cps, Radix::Binary { width: 32 }) + "\n"@
    } else {
        Seq::<char>::empty()
    }) + "Dec: "@ + list_text(cps, Radix::Decimal) + "\n"@ + repeated('-', 51) + "\n\n"@
}

fn print_unicode_vec(cps: &[u32], binary: bool) -> (r: String)
    ensures
        r@ == unicode_report(cps@, binary),
{
    let mut out: Vec<char> = Vec::new();
    push_str(&mut out, "\n--------------- UNICODE code points ---------------\nHex: ");
    push_list(&mut out, cps, Radix::Hex);
    push_str(&mut out, "\n");
    if binary {
        push_str(&mut out, "Bin: ");
        push_list(&mut out, cps, Radix::Binary { width: 32 });
        push_str(&mut out, "\n");
    }
    push_str(&mut out, "Dec: ");
    push_list(&mut out, cps, Radix::Decimal);
    push_str(&mut out, "\n");
    push_repeated(&mut out, '-', 51);
    push_str(&mut out, "\n\n");
    assert(out@ =~= unicode_report(cps@, binary));
    string_of(&out)
}

/// The text that shows `cps` in hexadecimal, binary and decimal.
pub fn print_unicode_b(cps: &[u32]) -> (r: String)
    ensures
        r@ == unicode_report(cps@, true),
{
    print_unicode_vec(cps, true)
}

/// The text that shows `cps` in hexadecimal and decimal.
pub fn print_unicode(cps: &[u32]) -> (r: String)
    ensures
        r@ == unicode_report(cps@, false),
{
    print_unicode_vec(cps, false)
}

} // verus!
