//! Turning what the player typed as a seed into the number that mine
//! placement is seeded with.

use vstd::prelude::*;
use vstd::string::StrSliceExecFns;
use crate::rng::random_seed;

verus! {

/// What `atoi::atoi` for `u64` reads from a text: the number at its start,
/// if there is one that fits.
pub uninterp spec fn parsed_number(text: Seq<u8>) -> Option<u64>;

/// The CRC-64/ECMA-182 checksum of `data`, as the `crc` crate computes it.
pub uninterp spec fn crc64_ecma(data: Seq<u8>) -> u64;

/// Calls `atoi::atoi` for `u64`. Its result depends on the text alone and is
/// given the name `parsed_number`; nothing more is claimed of it.
#[verifier::external_body]
pub(crate) fn read_number(text: &[u8]) -> (number: Option<u64>)
    ensures
        number == parsed_number(text@),
{
    atoi::atoi::<u64>(text)
}

/// Calls `Crc::checksum` of a `crc::Crc` made by `Crc::new` for the algorithm
/// `crc::CRC_64_ECMA_182`. Its result depends on the data alone and is given
/// the name `crc64_ecma`; nothing more is claimed of it.
#[verifier::external_body]
pub(crate) fn checksum(data: &[u8]) -> (sum: u64)
    ensures
        sum == crc64_ecma(data@),
{
    crc::Crc::<u64>::new(&crc::CRC_64_ECMA_182).checksum(data)
}

/// The low eight bits of the code of each character.
pub open spec fn low_bytes(text: Seq<char>) -> Seq<u8> {
    Seq::new(text.len(), |i: int| (text[i] as u32 & 0xff) as u8)
}

/// The seed for a text of which `number` was read: the number, if one was
/// read, else the checksum of the text's bytes.
pub open spec fn seed_from(number: Option<u64>, bytes: Seq<u8>) -> u64 {
    match number {
        Some(n) => n,
        None => crc64_ecma(bytes),
    }
}

/// The seed that a text stands for: the number at its start, if it starts
/// with one that fits, else the checksum of the low bytes of its characters.
pub open spec fn seed_of(text: Seq<char>) -> u64 {
    seed_from(parsed_number(low_bytes(text)), low_bytes(text))
}

/// The seed for the text with the bytes `bytes`, given what was read from it
/// as a number: that number, or the checksum of the bytes if none was read.
pub fn seed_or_checksum(number: Option<u64>, bytes: &[u8]) -> (seed: u64)
    ensures
        seed == seed_from(number, bytes@),
{
    match number {
        Some(n) => n,
        None => checksum(bytes),
    }
}

/// The seed that `seed` stands for. A text that starts with a number stands
/// for that number, so that players can pass a seed on; any other text
/// stands for its checksum.
pub fn seed_to_u64(seed: &str) -> (value: u64)
    ensures
        value == seed_of(seed@),
{
    let mut char_bytes: Vec<u8> = Vec::new();
    let n = seed.unicode_len();
    let mut i: usize = 0;
    while i < n
        invariant
            i <= n,
            n == seed@.len(),
            char_bytes@ == low_bytes(seed@).take(i as int),
        decreases n - i,
    {
        let c = seed.get_char(i);
        char_bytes.push((c as u32 & 0xff) as u8);
        assert(char_bytes@ =~= low_bytes(seed@).take(i + 1));
        i += 1;
    }
    assert(char_bytes@ =~= low_bytes(seed@));
    let number = read_number(char_bytes.as_slice());
    seed_or_checksum(number, char_bytes.as_slice())
}

/// The options a game is started with.
#[derive(Debug)]
pub struct Args {
    /// What the player gave as a seed, if anything.
    pub seed: Option<String>,
    pub width: u8,
    pub height: u8,
    pub mines: u16,
    /// Whether to play in the terminal.
    pub tui: bool,
}

impl Args {
    /// The seed to place the mines with: the one the player's text stands
    /// for, or a fresh random one if the player gave none. The options stay
    /// as they are.
    pub fn get_seed(&mut self) -> (seed: u64)
        ensures
            *final(self) == *old(self),
            old(self).seed matches Some(text) ==> seed == seed_of(text@),
    {
        match &self.seed {
            None => random_seed(),
            Some(text) => seed_to_u64(text.as_str()),
        }
    }

    /// A fresh random seed. The options stay as they are.
    pub fn new_random_seed(&mut self) -> (seed: u64)
        ensures
            *final(self) == *old(self),
    {
        random_seed()
    }
}

} // verus!
