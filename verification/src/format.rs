use vstd::prelude::*;
use crate::error::DatafileError;

verus! {

/// Item type ids stored in the file must lie below this bound.
pub const DATAFILE_ITEMTYPE_ID_RANGE: i32 = 0x10000;

/// Mathematical value of four little-endian bytes, read as a signed
/// 32-bit word.
pub open spec fn le_word(b0: u8, b1: u8, b2: u8, b3: u8) -> int {
    let u = b0 + 0x100 * b1 + 0x10000 * b2 + 0x1000000 * b3;
    if u < 0x8000_0000 {
        u
    } else {
        u - 0x1_0000_0000
    }
}

/// The signed word stored little-endian at byte offset `i`.
pub open spec fn le_word_at(b: Seq<u8>, i: int) -> int {
    le_word(b[i], b[i + 1], b[i + 2], b[i + 3])
}

/// Decode one signed 32-bit word from four little-endian bytes.
pub fn decode_le_word(b0: u8, b1: u8, b2: u8, b3: u8) -> (r: i32)
    ensures
        r == le_word(b0, b1, b2, b3),
{
    let u: u32 = b0 as u32 + 0x100 * (b1 as u32) + 0x10000 * (b2 as u32) + 0x1000000 * (b3 as u32);
    if u >= 0x8000_0000 {
        ((u as i64) - 0x1_0000_0000i64) as i32
    } else {
        u as i32
    }
}

/// Unsigned 32-bit value of a stored word (its two's-complement bit pattern).
pub open spec fn word_unsigned(w: i32) -> int {
    if w >= 0 {
        w as int
    } else {
        w + 0x1_0000_0000
    }
}

/// Type id packed into the upper 16 bits of an item header word.
pub open spec fn packed_type_id(w: i32) -> int {
    word_unsigned(w) / 0x10000
}

/// Id packed into the lower 16 bits of an item header word.
pub open spec fn packed_id(w: i32) -> int {
    word_unsigned(w) % 0x10000
}

fn word_to_unsigned(w: i32) -> (r: u32)
    ensures
        r == word_unsigned(w),
{
    if w >= 0 {
        w as u32
    } else {
        ((w as i64) + 0x1_0000_0000i64) as u32
    }
}

/// Extract the type id from a packed item header word.
pub fn item_header_type_id(w: i32) -> (r: u16)
    ensures
        r == packed_type_id(w),
{
    let u = word_to_unsigned(w);
    proof {
        assert(u / 0x10000 < 0x10000) by (nonlinear_arith)
            requires u <= 0xffff_ffffu32;
    }
    (u / 0x10000) as u16
}

/// Extract the id from a packed item header word.
pub fn item_header_id(w: i32) -> (r: u16)
    ensures
        r == packed_id(w),
{
    let u = word_to_unsigned(w);
    (u % 0x10000) as u16
}

/// The two accepted magic tokens, in file byte order: the little-endian
/// token and its byte-swapped form.
pub open spec fn valid_magic(m: Seq<u8>) -> bool {
    &&& m.len() == 4
    &&& {
        ||| (m[0] == 0x44u8 && m[1] == 0x41u8 && m[2] == 0x54u8 && m[3] == 0x41u8)
        ||| (m[0] == 0x41u8 && m[1] == 0x54u8 && m[2] == 0x41u8 && m[3] == 0x44u8)
    }
}

/// Leading header fields: magic token (kept in file byte order) and
/// format version.
#[derive(Clone, Copy, Debug)]
pub struct DatafileHeaderVersion {
    pub magic: [u8; 4],
    pub version: i32,
}

impl DatafileHeaderVersion {
    /// Magic is one of the accepted tokens and the version is supported.
    pub open spec fn valid(self) -> bool {
        &&& valid_magic(self.magic@)
        &&& (self.version == 3 || self.version == 4)
    }

    /// Validate magic and version.
    pub fn check(&self) -> (r: Result<(), DatafileError>)
        ensures
            r is Ok <==> self.valid(),
            !valid_magic(self.magic@) ==> r == Err::<(), DatafileError>(
                DatafileError::WrongMagic(self.magic),
            ),
            valid_magic(self.magic@) && !(self.version == 3 || self.version == 4) ==> r
                == Err::<(), DatafileError>(DatafileError::UnsupportedVersion(self.version)),
    {
        let m = &self.magic;
        let little = m[0] == 0x44u8 && m[1] == 0x41u8 && m[2] == 0x54u8 && m[3] == 0x41u8;
        let big = m[0] == 0x41u8 && m[1] == 0x54u8 && m[2] == 0x41u8 && m[3] == 0x44u8;
        if !(little || big) {
            return Err(DatafileError::WrongMagic(self.magic));
        }
        if !(self.version == 3 || self.version == 4) {
            return Err(DatafileError::UnsupportedVersion(self.version));
        }
        Ok(())
    }
}

/// Remaining header fields: declared total size, swap length, table counts
/// and blob sizes.
#[derive(Clone, Copy, Debug)]
pub struct DatafileHeaderRest {
    pub size: i32,
    pub swaplen: i32,
    pub num_item_types: i32,
    pub num_items: i32,
    pub num_data: i32,
    pub size_items: i32,
    pub size_data: i32,
}

impl DatafileHeaderRest {
    /// Counts and sizes are non-negative and the item blob holds whole
    /// 32-bit words.
    pub open spec fn valid(self) -> bool {
        &&& self.num_item_types >= 0
        &&& self.num_items >= 0
        &&& self.num_data >= 0
        &&& self.size_items >= 0
        &&& self.size_data >= 0
        &&& self.size_items % 4 == 0
    }

    /// Validate the value ranges of the counts and sizes.
    pub fn check(&self) -> (r: Result<(), DatafileError>)
        ensures
            r is Ok <==> self.valid(),
            r is Err ==> r == Err::<(), DatafileError>(DatafileError::MalformedHeader),
    {
        if self.num_item_types < 0 || self.num_items < 0 || self.num_data < 0
            || self.size_items < 0 || self.size_data < 0 || self.size_items % 4 != 0 {
            return Err(DatafileError::MalformedHeader);
        }
        Ok(())
    }
}

/// One item type descriptor: a type id and the contiguous run of items
/// of that type, as stored in the file (all fields widened to 32 bits).
#[derive(Clone, Copy, Debug)]
pub struct DatafileItemType {
    pub type_id: i32,
    pub start: i32,
    pub num: i32,
}

} // verus!
