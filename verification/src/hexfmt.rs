//! Rendering of byte strings as lowercase hexadecimal and of integers as
//! decimal, for the human-readable diagnostics of the failure values.

use vstd::prelude::*;
use vstd::string::StringExecFns;

verus! {

/// The character for one digit value below sixteen.
pub open spec fn digit_char(n: u8) -> char {
    if n == 0 {
        '0'
    } else if n == 1 {
        '1'
    } else if n == 2 {
        '2'
    } else if n == 3 {
        '3'
    } else if n == 4 {
        '4'
    } else if n == 5 {
        '5'
    } else if n == 6 {
        '6'
    } else if n == 7 {
        '7'
    } else if n == 8 {
        '8'
    } else if n == 9 {
        '9'
    } else if n == 10 {
        'a'
    } else if n == 11 {
        'b'
    } else if n == 12 {
        'c'
    } else if n == 13 {
        'd'
    } else if n == 14 {
        'e'
    } else {
        'f'
    }
}

/// The lowercase hexadecimal rendering of a byte string: two digits per
/// byte, high digit first.
pub open spec fn spec_hex(b: Seq<u8>) -> Seq<char>
    decreases b.len(),
{
    if b.len() == 0 {
        Seq::empty()
    } else {
        spec_hex(b.drop_last()) + seq![
            digit_char(b.last() / 16),
            digit_char(b.last() % 16),
        ]
    }
}

/// The decimal rendering of a non-negative integer, most significant digit
/// first, with no leading zeros except for zero itself.
pub open spec fn spec_dec(v: int) -> Seq<char>
    decreases v,
{
    if v < 10 {
        seq![digit_char(if v < 0 { 0 } else { (v % 10) as u8 })]
    } else {
        spec_dec(v / 10) + seq![digit_char((v % 10) as u8)]
    }
}

/// A one-character string slice for one digit value below sixteen.
fn digit_str(n: u8) -> (r: &'static str)
    requires
        n < 16,
    ensures
        r@ == seq![digit_char(n)],
{
    let r: &'static str = if n == 0 {
        "0"
    } else if n == 1 {
        "1"
    } else if n == 2 {
        "2"
    } else if n == 3 {
        "3"
    } else if n == 4 {
        "4"
    } else if n == 5 {
        "5"
    } else if n == 6 {
        "6"
    } else if n == 7 {
        "7"
    } else if n == 8 {
        "8"
    } else if n == 9 {
        "9"
    } else if n == 10 {
        "a"
    } else if n == 11 {
        "b"
    } else if n == 12 {
        "c"
    } else if n == 13 {
        "d"
    } else if n == 14 {
        "e"
    } else {
        "f"
    };
    proof {
        reveal_strlit("0");
        reveal_strlit("1");
        reveal_strlit("2");
        reveal_strlit("3");
        reveal_strlit("4");
        reveal_strlit("5");
        reveal_strlit("6");
        reveal_strlit("7");
        reveal_strlit("8");
        reveal_strlit("9");
        reveal_strlit("a");
        reveal_strlit("b");
        reveal_strlit("c");
        reveal_strlit("d");
        reveal_strlit("e");
        reveal_strlit("f");
        assert(r@ =~= seq![digit_char(n)]);
    }
    r
}

/// Render a byte string as lowercase hexadecimal.
pub fn to_hex_string(b: &Vec<u8>) -> (r: String)
    ensures
        r@ == spec_hex(b@),
{
    let mut s = String::new();
    let mut i: usize = 0;
    while i < b.len()
        invariant
            i <= b.len(),
            s@ == spec_hex(b@.take(i as int)),
        decreases b.len() - i,
    {
        let byte: u8 = b[i];
        s.append(digit_str(byte / 16));
        s.append(digit_str(byte % 16));
        proof {
            assert(b@.take(i as int + 1).drop_last() =~= b@.take(i as int));
            assert(b@.take(i as int + 1).last() == b@[i as int]);
            assert(s@ =~= spec_hex(b@.take(i as int + 1)));
        }
        i = i + 1;
    }
    proof {
        assert(b@.take(b@.len() as int) =~= b@);
    }
    s
}

/// Render an integer in decimal.
pub fn u32_to_dec_string(v: u32) -> (r: String)
    ensures
        r@ == spec_dec(v as int),
{
    if v < 10 {
        let s = String::from_str(digit_str((v % 10) as u8));
        return s;
    }
    let mut s = String::new();
    let mut x: u32 = v;
    while x > 0
        invariant
            x > 0 ==> spec_dec(v as int) == spec_dec(x as int) + s@,
            x == 0 ==> spec_dec(v as int) == s@,
        decreases x,
    {
        let d: u8 = (x % 10) as u8;
        let mut t = String::from_str(digit_str(d));
        t.append(s.as_str());
        proof {
            if x >= 10 {
                assert(spec_dec(x as int) == spec_dec(x as int / 10) + seq![digit_char(d)]);
                assert(spec_dec(x as int / 10) + (seq![digit_char(d)] + s@) =~= (spec_dec(
                    x as int / 10,
                ) + seq![digit_char(d)]) + s@);
                assert((x / 10) as int == x as int / 10);
            } else {
                assert(spec_dec(x as int) =~= seq![digit_char(d)]);
                assert(seq![digit_char(d)] + s@ =~= spec_dec(x as int) + s@);
            }
        }
        s = t;
        x = x / 10;
    }
    s
}

} // verus!
