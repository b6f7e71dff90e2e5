//! Rendering the account table as delimited text: a header line, then one
//! line per account, each balance written as a canonical decimal — sign,
//! integer part, and the fractional part with its trailing zeros trimmed,
//! omitted entirely when it is zero.

use vstd::prelude::*;

use crate::engine::AccountSummary;

verus! {

pub open spec fn digit_byte(d: int) -> u8 {
    (48 + d) as u8
}

/// The decimal digits of a non-negative integer, most significant first.
pub open spec fn spec_digits(n: int) -> Seq<u8>
    decreases n,
{
    if n < 10 {
        seq![digit_byte(n)]
    } else {
        spec_digits(n / 10).push(digit_byte(n % 10))
    }
}

/// The low `places` decimal digits of `f`, zero-padded, most significant
/// first.
pub open spec fn spec_padded(f: int, places: nat) -> Seq<u8>
    decreases places,
{
    if places == 0 {
        Seq::empty()
    } else {
        spec_padded(f / 10, (places - 1) as nat).push(digit_byte(f % 10))
    }
}

/// The low `places` decimal digits of `f` with trailing zeros trimmed.
pub open spec fn spec_trimmed(f: int, places: nat) -> Seq<u8>
    decreases places,
{
    if places == 0 {
        Seq::empty()
    } else if f % 10 == 0 {
        spec_trimmed(f / 10, (places - 1) as nat)
    } else {
        spec_padded(f, places)
    }
}

/// The fractional part of an amount: nothing when it is zero, otherwise a
/// point and the four fraction digits with trailing zeros trimmed.
pub open spec fn spec_frac(f: int) -> Seq<u8> {
    if f == 0 {
        Seq::empty()
    } else {
        seq![46u8] + spec_trimmed(f, 4)
    }
}

pub open spec fn spec_magnitude(n: int) -> Seq<u8> {
    spec_digits(n / 10000) + spec_frac(n % 10000)
}

/// The canonical decimal rendering of an amount counted in ten-thousandth
/// units.
pub open spec fn spec_units(u: int) -> Seq<u8> {
    if u < 0 {
        seq![45u8] + spec_magnitude(-u)
    } else {
        spec_magnitude(u)
    }
}

pub open spec fn pow10(p: nat) -> int
    decreases p,
{
    if p == 0 {
        1
    } else {
        10 * pow10((p - 1) as nat)
    }
}

fn push_digits(n: u128, v: &mut Vec<u8>)
    ensures
        final(v)@ == old(v)@ + spec_digits(n as int),
    decreases n,
{
    if n < 10 {
        v.push(48 + (n as u8));
        proof {
            assert(v@ =~= old(v)@ + spec_digits(n as int));
        }
    } else {
        push_digits(n / 10, v);
        v.push(48 + ((n % 10) as u8));
        proof {
            assert(v@ =~= old(v)@ + spec_digits(n as int));
        }
    }
}

fn push_padded(f: u128, places: usize, v: &mut Vec<u8>)
    ensures
        final(v)@ == old(v)@ + spec_padded(f as int, places as nat),
    decreases places,
{
    if places == 0 {
        proof {
            assert(v@ =~= old(v)@ + spec_padded(f as int, 0));
        }
        return ;
    }
    push_padded(f / 10, places - 1, v);
    v.push(48 + ((f % 10) as u8));
    proof {
        assert(v@ =~= old(v)@ + spec_padded(f as int, places as nat));
    }
}

fn push_frac(frac: u128, v: &mut Vec<u8>)
    requires
        frac < 10000,
    ensures
        final(v)@ == old(v)@ + spec_frac(frac as int),
{
    if frac == 0 {
        proof {
            assert(v@ =~= old(v)@ + spec_frac(0));
        }
        return ;
    }
    v.push(46);
    proof {
        reveal_with_fuel(pow10, 5);
        assert(pow10(4) == 10000);
    }
    let mut f: u128 = frac;
    let mut places: usize = 4;
    while f % 10 == 0
        invariant
            0 < f,
            1 <= places <= 4,
            f < pow10(places as nat),
            spec_trimmed(frac as int, 4) == spec_trimmed(f as int, places as nat),
            v@ == old(v)@ + seq![46u8],
        decreases places,
    {
        proof {
            reveal_with_fuel(pow10, 5);
            if places == 1 {
                assert(f < 10);
                assert(false);
            }
            assert(pow10(places as nat) == 10 * pow10((places - 1) as nat));
        }
        f = f / 10;
        places = places - 1;
    }
    push_padded(f, places, v);
    proof {
        assert(spec_trimmed(f as int, places as nat) == spec_padded(f as int, places as nat));
        assert(v@ =~= old(v)@ + spec_frac(frac as int));
    }
}

fn push_units(units: i128, v: &mut Vec<u8>)
    ensures
        final(v)@ == old(v)@ + spec_units(units as int),
{
    let mag: u128;
    if units < 0 {
        v.push(45);
        mag = ((-(units + 1)) as u128) + 1;
        proof {
            assert(mag as int == -(units as int));
        }
    } else {
        mag = units as u128;
    }
    push_digits(mag / 10000, v);
    push_frac(mag % 10000, v);
    proof {
        assert(v@ =~= old(v)@ + spec_units(units as int));
    }
}

/// The canonical decimal rendering of one amount, as bytes.
pub fn render_units(units: i128) -> (s: Vec<u8>)
    ensures
        s@ == spec_units(units as int),
{
    let mut v: Vec<u8> = Vec::new();
    push_units(units, &mut v);
    proof {
        assert(v@ =~= spec_units(units as int));
    }
    v
}

pub open spec fn spec_bool(b: bool) -> Seq<u8> {
    if b {
        seq![116u8, 114u8, 117u8, 101u8]
    } else {
        seq![102u8, 97u8, 108u8, 115u8, 101u8]
    }
}

/// One output line: client, the three balances, and the lock status,
/// comma-separated and newline-terminated.
pub open spec fn spec_row(s: AccountSummary) -> Seq<u8> {
    spec_digits(s.client as int) + seq![44u8] + spec_units(s.available as int) + seq![44u8]
        + spec_units(s.held as int) + seq![44u8] + spec_units(s.total as int) + seq![44u8]
        + spec_bool(s.locked) + seq![10u8]
}

/// The header line `client,available,held,total,locked`.
pub open spec fn spec_header() -> Seq<u8> {
    seq![
        99u8,
        108u8,
        105u8,
        101u8,
        110u8,
        116u8,
        44u8,
        97u8,
        118u8,
        97u8,
        105u8,
        108u8,
        97u8,
        98u8,
        108u8,
        101u8,
        44u8,
        104u8,
        101u8,
        108u8,
        100u8,
        44u8,
        116u8,
        111u8,
        116u8,
        97u8,
        108u8,
        44u8,
        108u8,
        111u8,
        99u8,
        107u8,
        101u8,
        100u8,
        10u8,
    ]
}

pub open spec fn spec_table(rows: Seq<AccountSummary>) -> Seq<u8>
    decreases rows.len(),
{
    if rows.len() == 0 {
        Seq::empty()
    } else {
        spec_table(rows.drop_last()) + spec_row(rows.last())
    }
}

#[verifier::rlimit(50)]
fn push_row(s: &AccountSummary, v: &mut Vec<u8>)
    ensures
        final(v)@ == old(v)@ + spec_row(*s),
{
    push_digits(s.client as u128, v);
    v.push(44);
    push_units(s.available, v);
    v.push(44);
    push_units(s.held, v);
    v.push(44);
    push_units(s.total, v);
    v.push(44);
    if s.locked {
        v.push(116);
        v.push(114);
        v.push(117);
        v.push(101);
    } else {
        v.push(102);
        v.push(97);
        v.push(108);
        v.push(115);
        v.push(101);
    }
    v.push(10);
    proof {
        assert(v@ =~= old(v)@ + spec_row(*s));
    }
}

#[verifier::rlimit(50)]
fn header_bytes() -> (v: Vec<u8>)
    ensures
        v@ == spec_header(),
{
    let mut v: Vec<u8> = Vec::new();
    v.push(99);
    v.push(108);
    v.push(105);
    v.push(101);
    v.push(110);
    v.push(116);
    v.push(44);
    v.push(97);
    v.push(118);
    v.push(97);
    v.push(105);
    v.push(108);
    v.push(97);
    v.push(98);
    v.push(108);
    v.push(101);
    v.push(44);
    v.push(104);
    v.push(101);
    v.push(108);
    v.push(100);
    v.push(44);
    v.push(116);
    v.push(111);
    v.push(116);
    v.push(97);
    v.push(108);
    v.push(44);
    v.push(108);
    v.push(111);
    v.push(99);
    v.push(107);
    v.push(101);
    v.push(100);
    v.push(10);
    proof {
        assert(v@ =~= spec_header());
    }
    v
}

/// The whole account table as delimited text: the header line followed by
/// one rendered line per row, in the rows' order.
pub fn render_table(rows: &Vec<AccountSummary>) -> (out: Vec<u8>)
    ensures
        out@ == spec_header() + spec_table(rows@),
{
    let mut v: Vec<u8> = header_bytes();
    proof {
        assert(v@ =~= spec_header() + spec_table(rows@.take(0)));
    }
    let mut i: usize = 0;
    while i < rows.len()
        invariant
            0 <= i <= rows@.len(),
            v@ == spec_header() + spec_table(rows@.take(i as int)),
        decreases rows@.len() - i,
    {
        push_row(&rows[i], &mut v);
        proof {
            assert(rows@.take(i + 1 as int).drop_last() =~= rows@.take(i as int));
            assert(rows@.take(i + 1 as int).last() == rows@[i as int]);
            assert(v@ =~= spec_header() + spec_table(rows@.take(i + 1 as int)));
        }
        i = i + 1;
    }
    proof {
        assert(rows@.take(rows@.len() as int) =~= rows@);
    }
    v
}

} // verus!
