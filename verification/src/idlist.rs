//! Formatting of claimed resource identifiers: the decimal notation of one
//! identifier and the comma-joined list handed to the launched command, both
//! as the substitution value and as the environment binding value.

use vstd::prelude::*;
use crate::template::chars_to_string;

verus! {

/// The decimal digit character for `d` (0 to 9).
pub open spec fn digit_char(d: nat) -> char {
    if d == 0 {
        '0'
    } else if d == 1 {
        '1'
    } else if d == 2 {
        '2'
    } else if d == 3 {
        '3'
    } else if d == 4 {
        '4'
    } else if d == 5 {
        '5'
    } else if d == 6 {
        '6'
    } else if d == 7 {
        '7'
    } else if d == 8 {
        '8'
    } else {
        '9'
    }
}

/// The decimal notation of `n`, most significant digit first, no leading
/// zeroes (a single `0` for zero).
pub open spec fn decimal(n: nat) -> Seq<char>
    decreases n,
{
    if n < 10 {
        seq![digit_char(n)]
    } else {
        decimal(n / 10).push(digit_char(n % 10))
    }
}

/// The comma-joined decimal identifiers, in order.
pub open spec fn id_list(ids: Seq<u32>) -> Seq<char>
    decreases ids.len(),
{
    if ids.len() == 0 {
        Seq::empty()
    } else if ids.len() == 1 {
        decimal(ids[0] as nat)
    } else {
        id_list(ids.drop_last()) + seq![','] + decimal(ids.last() as nat)
    }
}

/// The decimal digit character for `d` (0 to 9).
fn digit_of(d: u32) -> (c: char)
    requires
        d < 10,
    ensures
        c == digit_char(d as nat),
{
    if d == 0 {
        '0'
    } else if d == 1 {
        '1'
    } else if d == 2 {
        '2'
    } else if d == 3 {
        '3'
    } else if d == 4 {
        '4'
    } else if d == 5 {
        '5'
    } else if d == 6 {
        '6'
    } else if d == 7 {
        '7'
    } else if d == 8 {
        '8'
    } else {
        '9'
    }
}

/// The decimal notation of `n` as characters.
fn u32_decimal(n: u32) -> (v: Vec<char>)
    ensures
        v@ == decimal(n as nat),
{
    let mut rev: Vec<char> = Vec::new();
    let mut m: u32 = n;
    if m == 0 {
        rev.push('0');
        return rev;
    }
    while m > 0
        invariant
            m > 0 ==> decimal(n as nat) == decimal(m as nat) + rev@.reverse(),
            m == 0 ==> decimal(n as nat) == rev@.reverse(),
        decreases m,
    {
        let ghost old_rev = rev@;
        let ghost old_m = m as nat;
        let d = m % 10;
        rev.push(digit_of(d));
        m = m / 10;
        proof {
            assert(old_rev.push(digit_char(old_m % 10)).reverse() =~= seq![
                digit_char(old_m % 10),
            ] + old_rev.reverse());
            if old_m < 10 {
                assert(decimal(old_m) =~= seq![digit_char(old_m)]);
                assert(decimal(old_m) + old_rev.reverse() =~= seq![digit_char(old_m % 10)]
                    + old_rev.reverse());
            } else {
                assert(decimal(old_m) == decimal(old_m / 10).push(digit_char(old_m % 10)));
                assert(decimal(old_m) + old_rev.reverse() =~= decimal(old_m / 10) + (seq![
                    digit_char(old_m % 10),
                ] + old_rev.reverse()));
            }
        }
    }
    let mut v: Vec<char> = Vec::new();
    let mut i: usize = rev.len();
    while i > 0
        invariant
            i <= rev@.len(),
            v@.len() == rev@.len() - i,
            forall|k: int| 0 <= k < v@.len() ==> v@[k] == rev@[rev@.len() - 1 - k],
        decreases i,
    {
        i -= 1;
        v.push(rev[i]);
    }
    proof {
        assert(v@ =~= rev@.reverse());
    }
    v
}

/// The comma-joined decimal identifiers of `ids` as a string: the value
/// substituted for `{}` and bound to the environment variable.
pub fn gpu_list_string(ids: &Vec<u32>) -> (s: String)
    ensures
        s@ == id_list(ids@),
{
    let mut v: Vec<char> = Vec::new();
    let mut i: usize = 0;
    while i < ids.len()
        invariant
            i <= ids@.len(),
            v@ == id_list(ids@.take(i as int)),
        decreases ids@.len() - i,
    {
        if i > 0 {
            v.push(',');
        }
        let mut d = u32_decimal(ids[i]);
        let ghost dv = d@;
        v.append(&mut d);
        proof {
            assert(ids@.take(i + 1).drop_last() =~= ids@.take(i as int));
            assert(ids@.take(i + 1).last() == ids@[i as int]);
            if i == 0 {
                assert(v@ =~= dv);
            } else {
                assert(v@ =~= id_list(ids@.take(i as int)) + seq![','] + dv);
            }
        }
        i += 1;
    }
    proof {
        assert(ids@.take(ids@.len() as int) =~= ids@);
    }
    chars_to_string(&v)
}

} // verus!
