//! Fletcher checksums over 8-, 16- and 32-bit words.
//!
//! A checksum keeps two sums in one's-complement arithmetic and packs them
//! into a word twice as wide as the words of the input. With all of the
//! input at hand, call [`calc_fletcher16`], [`calc_fletcher32`] or
//! [`calc_fletcher64`]. To feed the input piece by piece, keep a
//! [`Fletcher16`], [`Fletcher32`] or [`Fletcher64`] and call
//! [`Fletcher::update`] on it.
//!
//! The check values of an input are two words that, appended to it, bring its
//! checksum to zero: see [`checkvalues_fletcher16`] and its siblings, or
//! [`Fletcher::check_values`].
//!
//! Every function is specified against the definitions in [`model`]; what
//! follows from them for every input is proved in [`laws`].

use vstd::prelude::*;

pub mod accumulator;
pub mod engine;
pub mod laws;
pub mod lemmas;
pub mod model;

pub use accumulator::FletcherAccumulator;
pub use engine::{Fletcher, Fletcher16, Fletcher32, Fletcher64};

use accumulator::words;
use model::{check_pair, checksum, fletcher};

verus! {

/// The 16-bit checksum of `data` in one call.
pub fn calc_fletcher16(data: &[u8]) -> (r: u16)
    ensures
        r == checksum(0xff, words::<u16>(data@)),
{
    let mut checksum = Fletcher16::new();
    checksum.update(data);
    checksum.value()
}

/// The two bytes that, appended to `data`, bring its 16-bit checksum to
/// zero.
pub fn checkvalues_fletcher16(data: &[u8]) -> (r: [u8; 2])
    ensures
        r[0] == check_pair(0xff, fletcher(0xff, words::<u16>(data@))).0,
        r[1] == check_pair(0xff, fletcher(0xff, words::<u16>(data@))).1,
{
    let mut checksum = Fletcher16::new();
    checksum.update(data);
    checksum.check_values()
}

/// The 32-bit checksum of `data` in one call.
pub fn calc_fletcher32(data: &[u16]) -> (r: u32)
    ensures
        r == checksum(0xffff, words::<u32>(data@)),
{
    let mut checksum = Fletcher32::new();
    checksum.update(data);
    checksum.value()
}

/// The two 16-bit words that, appended to `data`, bring its 32-bit checksum
/// to zero.
pub fn checkvalues_fletcher32(data: &[u16]) -> (r: [u16; 2])
    ensures
        r[0] == check_pair(0xffff, fletcher(0xffff, words::<u32>(data@))).0,
        r[1] == check_pair(0xffff, fletcher(0xffff, words::<u32>(data@))).1,
{
    let mut checksum = Fletcher32::new();
    checksum.update(data);
    checksum.check_values()
}

/// The 64-bit checksum of `data` in one call.
pub fn calc_fletcher64(data: &[u32]) -> (r: u64)
    ensures
        r == checksum(0xffff_ffff, words::<u64>(data@)),
{
    let mut checksum = Fletcher64::new();
    checksum.update(data);
    checksum.value()
}

/// The two 32-bit words that, appended to `data`, bring its 64-bit checksum
/// to zero.
pub fn checkvalues_fletcher64(data: &[u32]) -> (r: [u32; 2])
    ensures
        r[0] == check_pair(0xffff_ffff, fletcher(0xffff_ffff, words::<u64>(data@))).0,
        r[1] == check_pair(0xffff_ffff, fletcher(0xffff_ffff, words::<u64>(data@))).1,
{
    let mut checksum = Fletcher64::new();
    checksum.update(data);
    checksum.check_values()
}

} // verus!
