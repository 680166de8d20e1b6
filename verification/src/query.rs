//! The query for the event information, which is made in two calls: the first
//! asks for the size of the information, the second fills a buffer with it.

use vstd::prelude::*;

use crate::error::TdhDecodeError;

verus! {

/// Status of the call that asks for the size: the buffer, of which there is
/// none, is too small.
pub const ERROR_INSUFFICIENT_BUFFER: u32 = 122;

/// The `k`-th byte of a little-endian word.
pub open spec fn byte_of_word(word: u64, k: int) -> u8 {
    ((word >> ((8 * k) as u64)) & 0xff) as u8
}

/// Event information in a buffer of whole words, which keeps it aligned.
#[derive(Debug)]
pub struct AlignedTeiBuf {
    storage: Vec<u64>,
    len: usize,
}

impl View for AlignedTeiBuf {
    type V = Seq<u8>;

    closed spec fn view(&self) -> Seq<u8> {
        information_bytes(self.storage@, self.len as int)
    }
}

/// The first `len` bytes of a buffer of little-endian words.
pub open spec fn information_bytes(storage: Seq<u64>, len: int) -> Seq<u8> {
    Seq::new(len as nat, |i: int| byte_of_word(storage[i / 8], i % 8))
}

impl AlignedTeiBuf {
    /// The buffer holds as many bytes as it says.
    #[verifier::type_invariant]
    spec fn holds_its_bytes(self) -> bool {
        self.len <= 8 * self.storage@.len()
    }

    /// The bytes of the information.
    pub fn as_bytes(&self) -> (bytes: Vec<u8>)
        ensures
            bytes@ == self@,
    {
        proof {
            use_type_invariant(self);
        }
        let mut bytes: Vec<u8> = Vec::new();
        let mut i: usize = 0;
        while i < self.len
            invariant
                i <= self.len,
                self.len <= 8 * self.storage@.len(),
                bytes@ == self@.take(i as int),
            decreases self.len - i,
        {
            let word: u64 = self.storage[i / 8];
            let shift: u64 = 8 * (i % 8) as u64;
            assert((word >> shift) & 0xff <= 0xff) by (bit_vector);
            bytes.push(((word >> shift) & 0xff) as u8);
            i += 1;
            assert(bytes@ =~= self@.take(i as int));
        }
        assert(self@.take(self.len as int) =~= self@);
        bytes
    }
}

/// Decides on the reply to the call that asks for the size: how many words the
/// buffer for the second call has, or why there is none.
pub fn words_for_information(status: u32, buffer_size: u32) -> (words: Result<
    usize,
    TdhDecodeError,
>)
    ensures
        status != ERROR_INSUFFICIENT_BUFFER ==> words == Err::<usize, TdhDecodeError>(
            TdhDecodeError::Win32(status),
        ),
        status == ERROR_INSUFFICIENT_BUFFER && buffer_size == 0 ==> words == Err::<
            usize,
            TdhDecodeError,
        >(TdhDecodeError::Malformed("TDH returned zero buffer size")),
        status == ERROR_INSUFFICIENT_BUFFER && buffer_size != 0 ==> {
            &&& words matches Ok(count)
            &&& buffer_size <= 8 * count < buffer_size + 8
        },
        words is Ok == (status == 122 && buffer_size != 0),
{
    if status != ERROR_INSUFFICIENT_BUFFER {
        return Err(TdhDecodeError::Win32(status));
    }
    if buffer_size == 0 {
        return Err(TdhDecodeError::Malformed("TDH returned zero buffer size"));
    }
    Ok(((buffer_size as u64 + 7) / 8) as usize)
}

/// Decides on the reply to the call that fills the buffer: the information, or
/// why there is none. What was filled lies within the buffer.
pub fn accept_information(status: u32, storage: Vec<u64>, buffer_size: u32) -> (accepted: Result<
    AlignedTeiBuf,
    TdhDecodeError,
>)
    requires
        status == 0 ==> buffer_size <= 8 * storage@.len(),
    ensures
        status != 0 ==> accepted == Err::<AlignedTeiBuf, TdhDecodeError>(
            TdhDecodeError::Win32(status),
        ),
        status == 0 ==> {
            &&& accepted matches Ok(information)
            &&& information@ == information_bytes(storage@, buffer_size as int)
        },
{
    if status != 0 {
        return Err(TdhDecodeError::Win32(status));
    }
    Ok(AlignedTeiBuf { storage, len: buffer_size as usize })
}

/// A word is made of its bytes, the lowest first.
pub proof fn law_word_is_made_of_its_bytes(word: u64)
    ensures
        word == byte_of_word(word, 0) + 0x100 * byte_of_word(word, 1) + 0x1_0000 * byte_of_word(
            word,
            2,
        ) + 0x100_0000 * byte_of_word(word, 3) + 0x1_0000_0000 * byte_of_word(word, 4)
            + 0x100_0000_0000 * byte_of_word(word, 5) + 0x1_0000_0000_0000 * byte_of_word(word, 6)
            + 0x100_0000_0000_0000 * byte_of_word(word, 7),
{
    assert(word == ((word >> 0u64) & 0xff) as u8 + 0x100 * (((word >> 8u64) & 0xff) as u8)
        + 0x1_0000 * (((word >> 16u64) & 0xff) as u8) + 0x100_0000 * (((word >> 24u64) & 0xff) as u8)
        + 0x1_0000_0000 * (((word >> 32u64) & 0xff) as u8) + 0x100_0000_0000 * (((word >> 40u64)
        & 0xff) as u8) + 0x1_0000_0000_0000 * (((word >> 48u64) & 0xff) as u8)
        + 0x100_0000_0000_0000 * (((word >> 56u64) & 0xff) as u8)) by (bit_vector);
}

/// The information has as many bytes as were announced, and they are those of
/// the words, eight of each, in order.
pub proof fn law_information_is_its_words(storage: Seq<u64>, len: int, word: int, k: int)
    requires
        0 <= len <= 8 * storage.len(),
    ensures
        information_bytes(storage, len).len() == len,
        0 <= word && 0 <= k < 8 && 8 * word + k < len ==> information_bytes(storage, len)[8 * word
            + k] == byte_of_word(storage[word], k),
{
    if 0 <= k < 8 {
        assert((8 * word + k) / 8 == word && (8 * word + k) % 8 == k);
    }
}

} // verus!
