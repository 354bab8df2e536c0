//! Decimal and hexadecimal digit rendering.
//!
//! Every numeric field of a BDF line is rendered here: base-10 with a
//! leading `-` for negative values and no leading zeros, and upper-case
//! base-16 padded on the left to at least two digits (the shape
//! `{:02X}` produces), which the bitmap rows use.

use vstd::prelude::*;

verus! {

use vstd::arithmetic::power::pow;
use vstd::arithmetic::power::lemma_pow_increases;
use vstd::arithmetic::power::lemma_pow_positive;

/// The character for a single digit value below sixteen: decimal
/// digits first, then upper-case letters.
pub open spec fn digit(d: nat) -> char {
    if d == 0 {
        '0'
    } else if d == 1 {
        '1'
    } else if d == 2 {
        '2'
    } else if d == 3 {
        '3'
    } else if d == 4 {
        '4'
    } else if d == 5 {
        '5'
    } else if d == 6 {
        '6'
    } else if d == 7 {
        '7'
    } else if d == 8 {
        '8'
    } else if d == 9 {
        '9'
    } else if d == 10 {
        'A'
    } else if d == 11 {
        'B'
    } else if d == 12 {
        'C'
    } else if d == 13 {
        'D'
    } else if d == 14 {
        'E'
    } else {
        'F'
    }
}

/// The base-`b` digits of `v`, most significant first; empty for zero.
pub open spec fn digits_of(v: nat, b: nat) -> Seq<char>
    decreases v,
        when b > 1 via digits_of_dec
{
    if b <= 1 || v == 0 {
        Seq::empty()
    } else {
        digits_of(v / b, b).push(digit(v % b))
    }
}

#[via_fn]
proof fn digits_of_dec(v: nat, b: nat) {
    if !(b <= 1 || v == 0) {
        assert(v / b < v) by (nonlinear_arith)
            requires
                b > 1 && v > 0,
        ;
    }
}

/// Decimal rendering of a non-negative value: no sign, no leading
/// zeros, a single `0` for zero.
pub open spec fn dec_nat(v: nat) -> Seq<char> {
    if v == 0 {
        seq!['0']
    } else {
        digits_of(v, 10)
    }
}

/// Decimal rendering of an integer: a leading `-` for negative values,
/// no leading `+`.
pub open spec fn dec_int(v: int) -> Seq<char> {
    if v < 0 {
        seq!['-'] + dec_nat((-v) as nat)
    } else {
        dec_nat(v as nat)
    }
}

/// Upper-case hexadecimal padded on the left to at least two digits and
/// otherwise minimal: exactly the shape `{:02X}` produces.
pub open spec fn hex_min2(v: nat) -> Seq<char> {
    if v < 16 {
        seq!['0', digit(v)]
    } else {
        digits_of(v, 16)
    }
}

/// The digit characters of `ds` in reverse order, last first.
spec fn chars_rev(ds: Seq<u64>) -> Seq<char>
    decreases ds.len(),
{
    if ds.len() == 0 {
        Seq::empty()
    } else {
        seq![digit(ds.last() as nat)] + chars_rev(ds.drop_last())
    }
}

/// `chars_rev` can also be unrolled from the other end: the first
/// element of `ds` comes out last.
proof fn lemma_chars_rev_first(ds: Seq<u64>)
    requires
        ds.len() > 0,
    ensures
        chars_rev(ds) == chars_rev(ds.drop_first()) + seq![digit(ds.first() as nat)],
    decreases ds.len(),
{
    if ds.len() == 1 {
        assert(chars_rev(ds.drop_first()) == Seq::<char>::empty());
        assert(chars_rev(ds.drop_last()) == Seq::<char>::empty());
        assert(ds.last() == ds.first());
        assert(chars_rev(ds) =~= chars_rev(ds.drop_first()) + seq![digit(ds.first() as nat)]);
    } else {
        lemma_chars_rev_first(ds.drop_last());
        assert(ds.drop_last().first() == ds.first());
        assert(ds.drop_last().drop_first() =~= ds.drop_first().drop_last());
        assert(ds.drop_first().last() == ds.last());
        assert(chars_rev(ds.drop_first()) == seq![digit(ds.last() as nat)] + chars_rev(
            ds.drop_first().drop_last(),
        ));
        assert(chars_rev(ds) =~= chars_rev(ds.drop_first()) + seq![digit(ds.first() as nat)]);
    }
}

/// The one-character string for a digit value below sixteen.
fn digit_str(d: u64) -> (r: &'static str)
    requires
        d < 16,
    ensures
        r@ == seq![digit(d as nat)],
{
    if d == 0 {
        proof {
            reveal_strlit("0");
            assert("0"@ =~= seq![digit(d as nat)]);
        }
        "0"
    } else if d == 1 {
        proof {
            reveal_strlit("1");
            assert("1"@ =~= seq![digit(d as nat)]);
        }
        "1"
    } else if d == 2 {
        proof {
            reveal_strlit("2");
            assert("2"@ =~= seq![digit(d as nat)]);
        }
        "2"
    } else if d == 3 {
        proof {
            reveal_strlit("3");
            assert("3"@ =~= seq![digit(d as nat)]);
        }
        "3"
    } else if d == 4 {
        proof {
            reveal_strlit("4");
            assert("4"@ =~= seq![digit(d as nat)]);
        }
        "4"
    } else if d == 5 {
        proof {
            reveal_strlit("5");
            assert("5"@ =~= seq![digit(d as nat)]);
        }
        "5"
    } else if d == 6 {
        proof {
            reveal_strlit("6");
            assert("6"@ =~= seq![digit(d as nat)]);
        }
        "6"
    } else if d == 7 {
        proof {
            reveal_strlit("7");
            assert("7"@ =~= seq![digit(d as nat)]);
        }
        "7"
    } else if d == 8 {
        proof {
            reveal_strlit("8");
            assert("8"@ =~= seq![digit(d as nat)]);
        }
        "8"
    } else if d == 9 {
        proof {
            reveal_strlit("9");
            assert("9"@ =~= seq![digit(d as nat)]);
        }
        "9"
    } else if d == 10 {
        proof {
            reveal_strlit("A");
            assert("A"@ =~= seq![digit(d as nat)]);
        }
        "A"
    } else if d == 11 {
        proof {
            reveal_strlit("B");
            assert("B"@ =~= seq![digit(d as nat)]);
        }
        "B"
    } else if d == 12 {
        proof {
            reveal_strlit("C");
            assert("C"@ =~= seq![digit(d as nat)]);
        }
        "C"
    } else if d == 13 {
        proof {
            reveal_strlit("D");
            assert("D"@ =~= seq![digit(d as nat)]);
        }
        "D"
    } else if d == 14 {
        proof {
            reveal_strlit("E");
            assert("E"@ =~= seq![digit(d as nat)]);
        }
        "E"
    } else {
        proof {
            reveal_strlit("F");
            assert("F"@ =~= seq![digit(d as nat)]);
        }
        "F"
    }
}

/// Append the character for one digit value below sixteen.
fn push_digit(out: &mut String, d: u64)
    requires
        d < 16,
    ensures
        final(out)@ == old(out)@ + seq![digit(d as nat)],
{
    let s = digit_str(d);
    out.append(s);
}

/// Append the base-`b` digits of a positive value, most significant
/// first.
fn push_digits(out: &mut String, v: u64, b: u64)
    requires
        b == 10 || b == 16,
        v > 0,
    ensures
        final(out)@ == old(out)@ + digits_of(v as nat, b as nat),
{
    let mut ds: Vec<u64> = Vec::new();
    let mut x: u64 = v;
    while x > 0
        invariant
            b == 10 || b == 16,
            digits_of(v as nat, b as nat) == digits_of(x as nat, b as nat) + chars_rev(ds@),
            forall|i: int| 0 <= i < ds@.len() ==> ds@[i] < 16,
        decreases x,
    {
        let d: u64 = x % b;
        proof {
            let ghost ds0 = ds@;
            let ghost xo = x as nat;
            assert(digits_of(xo, b as nat) == digits_of(xo / (b as nat), b as nat).push(
                digit(xo % (b as nat)),
            ));
            assert(chars_rev(ds0.push(d)) == seq![digit(d as nat)] + chars_rev(ds0)) by {
                assert(ds0.push(d).last() == d);
                assert(ds0.push(d).drop_last() =~= ds0);
            }
            assert(digits_of(xo / (b as nat), b as nat) + chars_rev(ds0.push(d)) =~= digits_of(
                xo,
                b as nat,
            ) + chars_rev(ds0));
        }
        ds.push(d);
        x = x / b;
    }
    proof {
        assert(digits_of(0, b as nat) == Seq::<char>::empty());
        assert(digits_of(v as nat, b as nat) =~= chars_rev(ds@));
    }
    let ghost out0 = out@;
    let ghost n = ds@.len() as int;
    let mut k: usize = ds.len();
    while k > 0
        invariant
            k <= ds@.len(),
            n == ds@.len() as int,
            forall|i: int| 0 <= i < ds@.len() ==> ds@[i] < 16,
            out@ == out0 + chars_rev(ds@.subrange(k as int, n)),
        decreases k,
    {
        let d = ds[k - 1];
        proof {
            let ghost tail = ds@.subrange(k as int, n);
            let ghost full = ds@.subrange(k as int - 1, n);
            lemma_chars_rev_first(full);
            assert(full.drop_first() =~= tail);
            assert(full.first() == ds@[k as int - 1]);
        }
        push_digit(out, d);
        k = k - 1;
        proof {
            assert(out@ =~= out0 + chars_rev(ds@.subrange(k as int, n)));
        }
    }
    proof {
        assert(ds@.subrange(0, n) =~= ds@);
    }
}

/// Append the decimal rendering of a non-negative value.
pub fn push_u64(out: &mut String, v: u64)
    ensures
        final(out)@ == old(out)@ + dec_nat(v as nat),
{
    if v == 0 {
        push_digit(out, 0);
        proof {
            assert(out@ =~= old(out)@ + dec_nat(0));
        }
    } else {
        push_digits(out, v, 10);
    }
}

/// Append the decimal rendering of an integer, `-` first when it is
/// negative.
pub fn push_i64(out: &mut String, v: i64)
    ensures
        final(out)@ == old(out)@ + dec_int(v as int),
{
    if v >= 0 {
        push_u64(out, v as u64);
    } else {
        out.append("-");
        let m: u64 = if v == i64::MIN {
            9223372036854775808u64
        } else {
            (-v) as u64
        };
        proof {
            reveal_strlit("-");
            assert(m as nat == (-(v as int)) as nat);
        }
        push_u64(out, m);
        proof {
            assert("-"@ =~= seq!['-']);
            assert(out@ =~= old(out)@ + dec_int(v as int));
        }
    }
}

/// Append the upper-case hexadecimal rendering of a value, padded on
/// the left to at least two digits.
pub fn push_hex_min2(out: &mut String, v: u64)
    ensures
        final(out)@ == old(out)@ + hex_min2(v as nat),
{
    if v < 16 {
        push_digit(out, 0);
        push_digit(out, v);
        proof {
            assert(out@ =~= old(out)@ + hex_min2(v as nat));
        }
    } else {
        push_digits(out, v, 16);
    }
}

/// The digit count of `digits_of` is minimal: a positive `v` has
/// exactly as many base-`b` digits as its magnitude calls for.
pub proof fn lemma_digits_len(v: nat, b: nat)
    requires
        b > 1,
        v > 0,
    ensures
        digits_of(v, b).len() >= 1,
        pow(b as int, (digits_of(v, b).len() - 1) as nat) <= v < pow(b as int, digits_of(v, b).len()),
    decreases v,
{
    reveal_with_fuel(pow, 3);
    if v < b {
        assert(v / b == 0) by (nonlinear_arith)
            requires
                b > 1 && 0 < v < b,
        ;
        assert(digits_of(0, b) == Seq::<char>::empty());
        assert(digits_of(v, b).len() == 1);
        assert(pow(b as int, 0) == 1);
        assert(pow(b as int, 1) == b as int * pow(b as int, 0));
    } else {
        let q = v / b;
        assert(q >= 1 && q < v && v >= b * q && v <= b * q + (b - 1)) by (nonlinear_arith)
            requires
                b > 1 && v >= b,
                q == v / b,
        ;
        lemma_digits_len(q, b);
        let l = digits_of(q, b).len();
        assert(digits_of(v, b).len() == l + 1);
        let lo = pow(b as int, (l - 1) as nat);
        let hi = pow(b as int, l);
        lemma_pow_positive(b as int, (l - 1) as nat);
        assert(hi == b as int * lo);
        assert(pow(b as int, (l + 1) as nat) == b as int * hi);
        assert(b * q >= b * lo) by (nonlinear_arith)
            requires
                b > 1 && q >= lo >= 0,
        ;
        assert(v < b as int * hi) by (nonlinear_arith)
            requires
                b > 1 && q < hi && v <= b * q + (b - 1),
        ;
    }
}

/// The emitted width of a bitmap row's hex form: the minimal digit
/// count of the row value, with two digits as the floor.  Every value
/// below 256 takes exactly two digits, so rows at most eight pixels
/// wide always emit one hex pair.
pub proof fn lemma_hex_min2_len(v: u64)
    ensures
        hex_min2(v as nat).len() == if digits_of(v as nat, 16).len() <= 2 {
            2int
        } else {
            digits_of(v as nat, 16).len() as int
        },
        v < 256 ==> hex_min2(v as nat).len() == 2,
        v >= 16 ==> pow(16, (hex_min2(v as nat).len() - 1) as nat) <= v as int,
        v >= 16 ==> (v as int) < pow(16, hex_min2(v as nat).len() as nat),
{
    reveal_with_fuel(pow, 4);
    if v < 16 {
        if v > 0 {
            lemma_digits_len(v as nat, 16);
            assert(pow(16, 1) == 16 * pow(16, 0));
            if digits_of(v as nat, 16).len() >= 2 {
                lemma_pow_increases(16, 1, (digits_of(v as nat, 16).len() - 1) as nat);
            }
        }
    } else {
        lemma_digits_len(v as nat, 16);
        let l = digits_of(v as nat, 16).len();
        assert(pow(16, 1) == 16 * pow(16, 0));
        assert(pow(16, 2) == 16 * pow(16, 1));
        if l < 2 {
            lemma_pow_increases(16, l, 1);
        }
        if v < 256 && l > 2 {
            lemma_pow_increases(16, 2, (l - 1) as nat);
        }
    }
}

} // verus!
