//! Conversions between Discord ids and the integers stored in SQLite.

use vstd::prelude::*;

verus! {

/// Two's-complement reinterpretation of an unsigned 64-bit value.
pub open spec fn spec_to_i64(unsigned: u64) -> i64 {
    if unsigned <= i64::MAX as u64 {
        unsigned as i64
    } else {
        (unsigned as int - 0x1_0000_0000_0000_0000int) as i64
    }
}

/// Two's-complement reinterpretation of a signed 64-bit value.
pub open spec fn spec_from_i64(signed: i64) -> u64 {
    if signed >= 0 {
        signed as u64
    } else {
        (signed as int + 0x1_0000_0000_0000_0000int) as u64
    }
}

/// Bit-cast u64 (user.id in Discord API) to i64 (stored in the `SQLite` database).
pub fn to_i64(unsigned: u64) -> (signed: i64)
    ensures
        signed == spec_to_i64(unsigned),
{
    if unsigned <= 0x7fff_ffff_ffff_ffff {
        unsigned as i64
    } else {
        let below: u64 = unsigned - 0x8000_0000_0000_0000u64;
        (below as i64) - 0x7fff_ffff_ffff_ffffi64 - 1
    }
}

/// Bit-cast i64 (stored in `SQLite` database) to u64 (user.id in Discord API).
pub fn from_i64(signed: i64) -> (unsigned: u64)
    ensures
        unsigned == spec_from_i64(signed),
{
    if signed >= 0 {
        signed as u64
    } else {
        let above: i64 = signed + 0x7fff_ffff_ffff_ffffi64 + 1;
        (above as u64) + 0x8000_0000_0000_0000u64
    }
}

/// Storing an id and reading it back gives the id again.
pub proof fn lemma_from_to_i64(unsigned: u64)
    ensures
        spec_from_i64(spec_to_i64(unsigned)) == unsigned,
{
}

/// Reading a stored value and storing it again gives the stored value again.
pub proof fn lemma_to_from_i64(signed: i64)
    ensures
        spec_to_i64(spec_from_i64(signed)) == signed,
{
}

/// Distinct ids are stored as distinct values.
pub proof fn lemma_to_i64_injective(a: u64, b: u64)
    ensures
        spec_to_i64(a) == spec_to_i64(b) ==> a == b,
{
    lemma_from_to_i64(a);
    lemma_from_to_i64(b);
}

/// Ids up to `i64::MAX` are stored unchanged.
pub proof fn lemma_to_i64_small(unsigned: u64)
    requires
        unsigned <= i64::MAX,
    ensures
        spec_to_i64(unsigned) as int == unsigned as int,
{
}

} // verus!
