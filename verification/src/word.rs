//! Thirty-two bit words: addresses that wrap around, and their little-endian bytes.

use vstd::prelude::*;

verus! {

/// The word that an integer wraps around to.
pub open spec fn wrap(x: int) -> u32 {
    (x % 0x1_0000_0000) as u32
}

/// The number that the first four bytes of a sequence spell, lowest byte first.
pub open spec fn value(bytes: Seq<u8>) -> int {
    bytes[0] + 0x100 * bytes[1] + 0x1_0000 * bytes[2] + 0x100_0000 * bytes[3]
}

/// The four bytes of a word, lowest byte first.
pub open spec fn bytes(word: u32) -> Seq<u8> {
    seq![
        (word % 0x100) as u8,
        (word / 0x100 % 0x100) as u8,
        (word / 0x1_0000 % 0x100) as u8,
        (word / 0x100_0000) as u8,
    ]
}

/// An integer that fits a word is its own word, and whole turns around make no difference.
pub proof fn law_words_wrap_around(x: int, turns: int)
    ensures
        0 <= x < 0x1_0000_0000 ==> wrap(x) == x,
        wrap(x + 0x1_0000_0000 * turns) == wrap(x),
{
}

/// Of the four bytes of a word, each counts for as much as all that come before it can.
pub proof fn law_bytes_come_lowest_first(word: u32, four: Seq<u8>)
    ensures
        ({
            let bytes = bytes(word);
            &&& bytes.len() == 4
            &&& bytes[0] + 0x100 * bytes[1] + 0x1_0000 * bytes[2] + 0x100_0000 * bytes[3] == word
        }),
        value(four) == four[0] + 0x100 * four[1] + 0x1_0000 * four[2] + 0x100_0000 * four[3],
{
}

/// Steps from an address add up, wherever they wrap around.
pub proof fn law_steps_add_up(base: int, first: int, second: int)
    ensures
        wrap(wrap(base + first) + second) == wrap(base + first + second),
{
}

/// Reading the bytes of a word gives the word back.
pub proof fn law_word_survives_its_bytes(word: u32)
    ensures
        bytes(word).len() == 4,
        value(bytes(word)) == word,
{
}

/// Writing the word that four bytes spell gives the bytes back.
pub proof fn law_bytes_survive_their_word(four: Seq<u8>)
    requires
        four.len() == 4,
    ensures
        0 <= value(four) < 0x1_0000_0000,
        bytes(value(four) as u32) == four,
{
    let word = value(four) as u32;
    let tail: int = four[1] + 0x100 * four[2] + 0x1_0000 * four[3];
    assert(word == 0x100 * tail + four[0]);
    assert(word / 0x100 == tail && word % 0x100 == four[0]);
    let tail2: int = four[2] + 0x100 * four[3];
    assert(tail == 0x100 * tail2 + four[1]);
    assert(word / 0x1_0000 == tail2 && tail % 0x100 == four[1]);
    assert(word / 0x100_0000 == four[3] && tail2 % 0x100 == four[2]);
    assert(bytes(word) =~= four);
}

/// The bytes of a word, lowest byte first.
pub fn to_bytes(word: u32) -> (four: Vec<u8>)
    ensures
        four@ == bytes(word),
{
    let mut four: Vec<u8> = Vec::new();
    four.push((word % 0x100) as u8);
    four.push((word / 0x100 % 0x100) as u8);
    four.push((word / 0x1_0000 % 0x100) as u8);
    four.push((word / 0x100_0000) as u8);
    assert(four@ =~= bytes(word));
    four
}

/// The word that four bytes starting at `at` spell, lowest byte first.
pub fn from_bytes(data: &[u8], at: usize) -> (word: u32)
    requires
        at + 4 <= data@.len(),
    ensures
        word == value(data@.subrange(at as int, at + 4)),
{
    data[at] as u32 + 0x100 * (data[at + 1] as u32) + 0x1_0000 * (data[at + 2] as u32)
        + 0x100_0000 * (data[at + 3] as u32)
}

/// The address `len` bytes after `base`.
pub fn offset(base: u32, len: usize) -> (address: u32)
    ensures
        address == wrap(base + len),
{
    let low: u32 = (len as u64 % 0x1_0000_0000) as u32;
    base.wrapping_add(low)
}

} // verus!
