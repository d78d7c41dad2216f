//! Doubles by their bits: what can be said of them without arithmetic.

use vstd::prelude::*;

verus! {

/// The bit that says a double is negative.
pub const SIGN: u64 = 0x8000_0000_0000_0000;

/// The magnitude of infinity; beyond it there is no number.
pub const INFINITE: u64 = 0x7ff0_0000_0000_0000;

pub open spec fn is_negative(bits: u64) -> bool {
    bits >= SIGN
}

/// How far from zero a double is, in the order of the magnitudes.
pub open spec fn magnitude(bits: u64) -> int {
    if is_negative(bits) {
        bits - SIGN
    } else {
        bits as int
    }
}

/// No number at all.
pub open spec fn is_nan(bits: u64) -> bool {
    magnitude(bits) > INFINITE
}

/// Zero, of either sign.
pub open spec fn is_zero(bits: u64) -> bool {
    magnitude(bits) == 0
}

/// Where a double stands in the total order of doubles: negative ones by falling magnitude, then
/// the others by rising magnitude, minus zero just before zero.
pub open spec fn rank(bits: u64) -> int {
    if is_negative(bits) {
        -1 - magnitude(bits)
    } else {
        magnitude(bits)
    }
}

/// Whether a double comes before another in the total order.
pub open spec fn ranks_before(a: u64, b: u64) -> bool {
    rank(a) < rank(b)
}

/// Whether a number is no less than another: both zeros are equal, and what is no number is neither
/// less nor more.
pub open spec fn reaches(a: u64, b: u64) -> bool {
    !is_nan(a) && !is_nan(b) && (rank(a) >= rank(b) || (is_zero(a) && is_zero(b)))
}

pub fn is_before(a: u64, b: u64) -> (yes: bool)
    ensures
        yes == ranks_before(a, b),
{
    if a >= SIGN {
        if b >= SIGN {
            a > b
        } else {
            true
        }
    } else if b >= SIGN {
        false
    } else {
        a < b
    }
}

fn size(bits: u64) -> (n: u64)
    ensures
        n == magnitude(bits),
{
    if bits >= SIGN {
        bits - SIGN
    } else {
        bits
    }
}

pub fn is_at_least(a: u64, b: u64) -> (yes: bool)
    ensures
        yes == reaches(a, b),
{
    size(a) <= INFINITE && size(b) <= INFINITE && (!is_before(a, b) || (size(a) == 0 && size(b)
        == 0))
}

pub fn zero(bits: u64) -> (yes: bool)
    ensures
        yes == is_zero(bits),
{
    size(bits) == 0
}

/// Two doubles of one rank have the same bits: the total order tells all doubles apart.
pub proof fn ranks_are_distinct(a: u64, b: u64)
    ensures
        rank(a) == rank(b) <==> a == b,
{
}

/// The greatest of some doubles that are numbers is zero: one of them is, and none is more.
pub open spec fn greatest_is_zero(list: Seq<u64>) -> bool {
    &&& exists|i: int| 0 <= i < list.len() && is_zero(#[trigger] list[i])
    &&& forall|i: int|
        0 <= i < list.len() && !is_nan(#[trigger] list[i]) ==> is_zero(list[i]) || is_negative(
            list[i],
        )
}

pub fn is_greatest_zero(list: &Vec<u64>) -> (yes: bool)
    ensures
        yes == greatest_is_zero(list@),
{
    let mut found: bool = false;
    for i in 0..list.len()
        invariant
            found == exists|k: int| 0 <= k < i && is_zero(#[trigger] list@[k]),
            forall|k: int|
                0 <= k < i && !is_nan(#[trigger] list@[k]) ==> is_zero(list@[k]) || is_negative(
                    list@[k],
                ),
    {
        let bits: u64 = list[i];
        if size(bits) == 0 {
            assert(is_zero(list@[i as int]));
            found = true;
        } else if size(bits) <= INFINITE && bits < SIGN {
            assert(!is_nan(list@[i as int]));
            return false;
        }
    }
    found
}

} // verus!
