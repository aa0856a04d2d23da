use vstd::prelude::*;
use crate::error::{CallbackError, CallbackReadError};
use crate::format::le_word_at;

verus! {

/// The byte source a datafile is read from. Users implement this for files,
/// network streams or in-memory buffers; the reader only ever sees these
/// four operations. A return of `Ok(0)` from a read means the source can
/// supply no more bytes at that position.
pub trait Callback {
    /// Read up to `buffer.len()` bytes into the front of `buffer` and
    /// return how many were read.
    fn read(&mut self, buffer: &mut Vec<u8>) -> (r: Result<usize, CallbackError>)
        ensures
            r matches Ok(n) ==> n <= old(buffer)@.len() && final(buffer)@.len() == old(
                buffer,
            )@.len(),
    ;

    /// Read up to `buffer.len()` bytes starting `start` bytes after the seek
    /// base and return how many were read.
    fn seek_read(&mut self, start: u32, buffer: &mut Vec<u8>) -> (r: Result<usize, CallbackError>)
        ensures
            r matches Ok(n) ==> n <= old(buffer)@.len() && final(buffer)@.len() == old(
                buffer,
            )@.len(),
    ;

    /// Fix the current stream position as offset zero for future seek reads.
    fn set_seek_base(&mut self) -> (r: Result<(), CallbackError>);

    /// Ask the source to make sure `filesize` bytes can be addressed; the
    /// inner result says whether the source supports the operation.
    fn ensure_filesize(&mut self, filesize: u32) -> (r: Result<Result<(), ()>, CallbackError>);
}

/// Zero-filled vector of the given length.
fn zero_vec(len: usize) -> (r: Vec<u8>)
    ensures
        r@.len() == len,
{
    let mut v: Vec<u8> = Vec::new();
    let mut i: usize = 0;
    while i < len
        invariant
            i <= len,
            v@.len() == i,
        decreases len - i,
    {
        v.push(0u8);
        i = i + 1;
    }
    v
}

/// Read up to `len` bytes from the source, stopping early only at end of
/// stream.
pub fn read_up_to<CB: Callback>(cb: &mut CB, len: usize) -> (r: Result<Vec<u8>, CallbackError>)
    ensures
        r matches Ok(v) ==> v@.len() <= len,
{
    let mut out: Vec<u8> = Vec::new();
    loop
        invariant
            out@.len() <= len,
        decreases len - out@.len(),
    {
        if out.len() >= len {
            break;
        }
        let want = len - out.len();
        let mut chunk = zero_vec(want);
        let n = match cb.read(&mut chunk) {
            Ok(n) => n,
            Err(e) => {
                return Err(e);
            },
        };
        if n == 0 {
            break;
        }
        let ghost len0 = out@.len();
        let mut i: usize = 0;
        while i < n
            invariant
                i <= n,
                n <= chunk@.len(),
                out@.len() == len0 + i,
                len0 + chunk@.len() <= len,
            decreases n - i,
        {
            out.push(chunk[i]);
            i = i + 1;
        }
    }
    Ok(out)
}

/// Read exactly `len` bytes; a stream that ends first is reported as
/// `EndOfFile`.
pub fn read_exact<CB: Callback>(cb: &mut CB, len: usize) -> (r: Result<Vec<u8>, CallbackReadError>)
    ensures
        r matches Ok(v) ==> v@.len() == len,
{
    let v = match read_up_to(cb, len) {
        Ok(v) => v,
        Err(e) => {
            return Err(CallbackReadError::Cb(e));
        },
    };
    if v.len() != len {
        return Err(CallbackReadError::EndOfFile);
    }
    Ok(v)
}

/// Decode `count` little-endian 32-bit words from a byte buffer: word `i`
/// is read from bytes `4 * i .. 4 * i + 4`.
pub fn decode_le_words(bytes: &Vec<u8>, count: usize) -> (r: Vec<i32>)
    requires
        bytes@.len() == 4 * count,
    ensures
        r@.len() == count,
        forall|i: int| 0 <= i < count ==> r@[i] == le_word_at(bytes@, 4 * i),
{
    let blen = bytes.len();
    let mut words: Vec<i32> = Vec::new();
    let mut i: usize = 0;
    while i < count
        invariant
            i <= count,
            blen == 4 * count,
            bytes@.len() == 4 * count,
            words@.len() == i,
            forall|j: int| 0 <= j < i ==> words@[j] == le_word_at(bytes@, 4 * j),
        decreases count - i,
    {
        let w = crate::format::decode_le_word(
            bytes[4 * i],
            bytes[4 * i + 1],
            bytes[4 * i + 2],
            bytes[4 * i + 3],
        );
        words.push(w);
        i = i + 1;
    }
    words
}

/// Read exactly `count` little-endian 32-bit words: the byte run that the
/// source supplies, decoded by `decode_le_words`.
pub fn read_le_words<CB: Callback>(cb: &mut CB, count: usize) -> (r: Result<
    Vec<i32>,
    CallbackReadError,
>)
    requires
        4 * count <= 0x8000_0000,
    ensures
        r matches Ok(v) ==> v@.len() == count,
{
    let bytes = match read_exact(cb, 4 * count) {
        Ok(b) => b,
        Err(e) => {
            return Err(e);
        },
    };
    Ok(decode_le_words(&bytes, count))
}

/// Seek-read exactly `len` bytes starting `start` bytes after the seek base;
/// a stream that ends first is reported as `EndOfFile`.
pub fn seek_read_exact<CB: Callback>(cb: &mut CB, start: u32, len: usize) -> (r: Result<
    Vec<u8>,
    CallbackReadError,
>)
    requires
        start + len <= u32::MAX,
    ensures
        r matches Ok(v) ==> v@.len() == len,
{
    let mut out: Vec<u8> = Vec::new();
    loop
        invariant
            out@.len() <= len,
            start + len <= u32::MAX,
        decreases len - out@.len(),
    {
        if out.len() >= len {
            break;
        }
        let want = len - out.len();
        let mut chunk = zero_vec(want);
        let pos: u32 = start + out.len() as u32;
        let n = match cb.seek_read(pos, &mut chunk) {
            Ok(n) => n,
            Err(e) => {
                return Err(CallbackReadError::Cb(e));
            },
        };
        if n == 0 {
            break;
        }
        let ghost len0 = out@.len();
        let mut i: usize = 0;
        while i < n
            invariant
                i <= n,
                n <= chunk@.len(),
                out@.len() == len0 + i,
                len0 + chunk@.len() <= len,
            decreases n - i,
        {
            out.push(chunk[i]);
            i = i + 1;
        }
    }
    if out.len() != len {
        return Err(CallbackReadError::EndOfFile);
    }
    Ok(out)
}

} // verus!
