//! Which lock serialises the writes to a file.
//!
//! Every write to one physical file takes the same of a fixed number of locks for
//! its whole duration, so a write of several frames lands as a unit. Unrelated
//! files that share a lock merely wait for each other now and then.

use vstd::prelude::*;

verus! {

/// Number of locks.
pub const STRIPES: usize = 1024;

/// The mix of the two halves of a key: neighbouring inodes spread over the locks.
pub open spec fn mixed_key(key: u128) -> u64 {
    let lo = ((key % 0x1_0000_0000_0000_0000) as u64).wrapping_mul(0x9E37_79B9_7F4A_7C15);
    let hi = ((key / 0x1_0000_0000_0000_0000) as u64).wrapping_mul(0xD1B5_4A32_D192_ED03);
    lo ^ ((hi << 32) | (hi >> 32))
}

/// The index of the lock for the file with this key. It depends on the key alone:
/// two writers of one file always meet at the same lock.
pub fn stripe_for(key: u128) -> (res: usize)
    ensures
        res == mixed_key(key) % 1024,
        res < STRIPES,
{
    let lo: u64 = ((key % 0x1_0000_0000_0000_0000) as u64).wrapping_mul(0x9E37_79B9_7F4A_7C15);
    let hi: u64 = ((key / 0x1_0000_0000_0000_0000) as u64).wrapping_mul(0xD1B5_4A32_D192_ED03);
    let mixed: u64 = lo ^ ((hi << 32) | (hi >> 32));
    (mixed % 1024) as usize
}

/// The key of a file on a device, as an integer.
pub open spec fn key_of(dev: u64, ino: u64) -> u128 {
    (dev * 0x1_0000_0000_0000_0000 + ino) as u128
}

/// The factor of the mix is 21 behind a multiple of 1024.
proof fn lemma_low_product(ino: u64)
    ensures
        ino.wrapping_mul(0x9E37_79B9_7F4A_7C15) as int % 1024 == (ino * 21) % 1024,
{
    let n: int = ino as int;
    let p: int = n * 0x9E37_79B9_7F4A_7C15;
    let q: int = p / 0x1_0000_0000_0000_0000;
    let f: int = n * 0x27_8DDE_6E5F_D29F - q * 0x40_0000_0000_0000;
    vstd::arithmetic::div_mod::lemma_fundamental_div_mod(p, 0x1_0000_0000_0000_0000);
    assert(p % 0x1_0000_0000_0000_0000 == 1024 * f + n * 21);
    vstd::arithmetic::div_mod::lemma_mod_multiples_vanish(f, n * 21, 1024);
    assert(ino.wrapping_mul(0x9E37_79B9_7F4A_7C15) == p % 0x1_0000_0000_0000_0000);
}

/// 21 times 829 is one more than a multiple of 1024.
proof fn lemma_odd_factor(i: int, j: int)
    requires
        (i * 21) % 1024 == (j * 21) % 1024,
    ensures
        i % 1024 == j % 1024,
{
    let e: int = i - j;
    vstd::arithmetic::div_mod::lemma_fundamental_div_mod(i * 21, 1024);
    vstd::arithmetic::div_mod::lemma_fundamental_div_mod(j * 21, 1024);
    let d: int = (i * 21) / 1024 - (j * 21) / 1024;
    let f: int = 829 * d - 17 * e;
    assert(e * 21 == 1024 * d);
    assert(i == 1024 * f + j);
    vstd::arithmetic::div_mod::lemma_mod_multiples_vanish(f, j, 1024);
}

proof fn lemma_mixed_key(dev: u64, ino: u64)
    ensures
        mixed_key(key_of(dev, ino)) == ino.wrapping_mul(0x9E37_79B9_7F4A_7C15) ^ mixed_device(dev),
{
    let k = key_of(dev, ino);
    assert(k % 0x1_0000_0000_0000_0000 == ino);
    assert(k / 0x1_0000_0000_0000_0000 == dev);
}

/// What the device adds to the mix.
spec fn mixed_device(dev: u64) -> u64 {
    let hi = dev.wrapping_mul(0xD1B5_4A32_D192_ED03);
    (hi << 32) | (hi >> 32)
}

/// Two files of one device get different locks, unless their inodes differ by a multiple
/// of the number of locks: a run of neighbouring inodes never shares one.
pub proof fn law_neighbouring_inodes_get_different_locks(dev: u64, i: u64, j: u64)
    requires
        i as int % 1024 != j as int % 1024,
    ensures
        mixed_key(key_of(dev, i)) % 1024 != mixed_key(key_of(dev, j)) % 1024,
{
    let h = mixed_device(dev);
    let a = i.wrapping_mul(0x9E37_79B9_7F4A_7C15);
    let b = j.wrapping_mul(0x9E37_79B9_7F4A_7C15);
    lemma_mixed_key(dev, i);
    lemma_mixed_key(dev, j);
    assert((a ^ h) % 1024 == (b ^ h) % 1024 ==> a % 1024 == b % 1024) by (bit_vector);
    if a % 1024 == b % 1024 {
        lemma_low_product(i);
        lemma_low_product(j);
        lemma_odd_factor(i as int, j as int);
    }
}

} // verus!
