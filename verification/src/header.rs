use vstd::prelude::*;
use crate::error::{DatafileError, Error};
use crate::format::{le_word_at, valid_magic, DatafileHeaderRest, DatafileHeaderVersion};
use crate::source::{read_up_to, Callback};

verus! {

/// Size in bytes of the leading header fields (magic and version).
pub const HEADER_VERSION_SIZE: usize = 8;

/// Size in bytes of the whole header.
pub const HEADER_SIZE: usize = 36;

/// The whole fixed-layout datafile header.
#[derive(Clone, Copy, Debug)]
pub struct DatafileHeader {
    pub hv: DatafileHeaderVersion,
    pub hr: DatafileHeaderRest,
}

/// The rest sub-header encoded little-endian at byte offset 8 of `b`.
pub open spec fn spec_rest_of_bytes(b: Seq<u8>) -> DatafileHeaderRest {
    DatafileHeaderRest {
        size: le_word_at(b, 8) as i32,
        swaplen: le_word_at(b, 12) as i32,
        num_item_types: le_word_at(b, 16) as i32,
        num_items: le_word_at(b, 20) as i32,
        num_data: le_word_at(b, 24) as i32,
        size_items: le_word_at(b, 28) as i32,
        size_data: le_word_at(b, 32) as i32,
    }
}

impl DatafileHeader {
    /// Everything later validation relies on: accepted magic and version,
    /// counts in range, and a declared size that matches the recomputed one.
    pub open spec fn valid(self) -> bool {
        &&& self.hv.valid()
        &&& self.hr.valid()
        &&& self.spec_total_size() == self.hr.size
    }

    /// Expected total size of everything after the version sub-header,
    /// recomputed from the declared counts: the rest sub-header without its
    /// `size` and `swaplen` fields, the item type table, the item offset
    /// table, the data offset table, the uncompressed-size table (format
    /// version 4 only), the item blob and the data blob.
    pub open spec fn spec_total_size(self) -> int {
        20 + 12 * self.hr.num_item_types + 4 * self.hr.num_items + 4 * self.hr.num_data + (
        if self.hv.version >= 4 {
            4 * self.hr.num_data
        } else {
            0
        }) + self.hr.size_items + self.hr.size_data
    }

    /// Recompute the expected total size in 64-bit width and narrow it to
    /// the declared field's width; a value that does not fit is malformed.
    pub fn total_size(&self) -> (r: Result<i32, DatafileError>)
        requires
            self.hr.valid(),
        ensures
            r is Ok <==> self.spec_total_size() <= i32::MAX,
            r matches Ok(s) ==> s == self.spec_total_size(),
            r is Err ==> r == Err::<i32, DatafileError>(DatafileError::MalformedHeader),
    {
        let total: i64 = 20i64 + 12i64 * (self.hr.num_item_types as i64) + 4i64 * (self.hr.num_items
            as i64) + 4i64 * (self.hr.num_data as i64) + (
        if self.hv.version >= 4 {
            4i64 * (self.hr.num_data as i64)
        } else {
            0i64
        }) + (self.hr.size_items as i64) + (self.hr.size_data as i64);
        if total <= i32::MAX as i64 {
            Ok(total as i32)
        } else {
            Err(DatafileError::MalformedHeader)
        }
    }

    /// Compare the declared size against the recomputed total size.
    pub fn check(&self) -> (r: Result<(), DatafileError>)
        requires
            self.hr.valid(),
        ensures
            r is Ok <==> self.valid_size(),
            r is Err ==> r == Err::<(), DatafileError>(DatafileError::MalformedHeader),
    {
        let expected_size = match self.total_size() {
            Ok(s) => s,
            Err(e) => {
                return Err(e);
            },
        };
        if self.hr.size != expected_size {
            return Err(DatafileError::MalformedHeader);
        }
        Ok(())
    }

    /// The declared size equals the recomputed total size.
    pub open spec fn valid_size(self) -> bool {
        self.spec_total_size() == self.hr.size
    }

    /// A stream prefix decodes into an accepted header: it covers the whole
    /// header, carries an accepted magic and version, counts in range, and a
    /// declared size equal to the recomputed one.
    pub open spec fn spec_bytes_ok(b: Seq<u8>) -> bool {
        &&& b.len() >= 36
        &&& valid_magic(b.subrange(0, 4))
        &&& (le_word_at(b, 4) == 3 || le_word_at(b, 4) == 4)
        &&& spec_rest_of_bytes(b).valid()
        &&& (DatafileHeader {
            hv: DatafileHeaderVersion { magic: [b[0], b[1], b[2], b[3]], version: le_word_at(b, 4) as i32 },
            hr: spec_rest_of_bytes(b),
        }).valid_size()
    }

    /// Decode and validate a header from the prefix of a byte stream. All
    /// words but the magic token are read little-endian; the magic keeps
    /// its file byte order.
    pub fn parse(bytes: &Vec<u8>) -> (r: Result<DatafileHeader, DatafileError>)
        ensures
            r is Ok <==> Self::spec_bytes_ok(bytes@),
            r matches Ok(h) ==> {
                &&& h.hv.magic@ == bytes@.subrange(0, 4)
                &&& h.hv.version == le_word_at(bytes@, 4)
                &&& h.hr == spec_rest_of_bytes(bytes@)
                &&& h.valid()
            },
            bytes@.len() < 8 ==> r == Err::<DatafileHeader, DatafileError>(
                DatafileError::TooShortHeaderVersion,
            ),
            bytes@.len() >= 8 && !valid_magic(bytes@.subrange(0, 4)) ==> (r matches Err(e)
                && e matches DatafileError::WrongMagic(m) && m@ == bytes@.subrange(0, 4)),
            bytes@.len() >= 8 && valid_magic(bytes@.subrange(0, 4)) && !(le_word_at(bytes@, 4) == 3
                || le_word_at(bytes@, 4) == 4) ==> (r matches Err(e)
                && e matches DatafileError::UnsupportedVersion(v) && v == le_word_at(bytes@, 4)),
            bytes@.len() >= 8 && valid_magic(bytes@.subrange(0, 4)) && (le_word_at(bytes@, 4) == 3
                || le_word_at(bytes@, 4) == 4) && bytes@.len() < 36 ==> r == Err::<
                DatafileHeader,
                DatafileError,
            >(DatafileError::TooShortHeader),
            bytes@.len() >= 36 && valid_magic(bytes@.subrange(0, 4)) && (le_word_at(bytes@, 4) == 3
                || le_word_at(bytes@, 4) == 4) && !Self::spec_bytes_ok(bytes@) ==> r == Err::<
                DatafileHeader,
                DatafileError,
            >(DatafileError::MalformedHeader),
    {
        if bytes.len() < HEADER_VERSION_SIZE {
            return Err(DatafileError::TooShortHeaderVersion);
        }
        let magic: [u8; 4] = [bytes[0], bytes[1], bytes[2], bytes[3]];
        proof {
            assert(magic@ =~= bytes@.subrange(0, 4));
        }
        let version = crate::format::decode_le_word(bytes[4], bytes[5], bytes[6], bytes[7]);
        let hv = DatafileHeaderVersion { magic, version };
        match hv.check() {
            Ok(()) => {},
            Err(e) => {
                return Err(e);
            },
        }
        if bytes.len() < HEADER_SIZE {
            return Err(DatafileError::TooShortHeader);
        }
        let hr = DatafileHeaderRest {
            size: crate::format::decode_le_word(bytes[8], bytes[9], bytes[10], bytes[11]),
            swaplen: crate::format::decode_le_word(bytes[12], bytes[13], bytes[14], bytes[15]),
            num_item_types: crate::format::decode_le_word(
                bytes[16],
                bytes[17],
                bytes[18],
                bytes[19],
            ),
            num_items: crate::format::decode_le_word(bytes[20], bytes[21], bytes[22], bytes[23]),
            num_data: crate::format::decode_le_word(bytes[24], bytes[25], bytes[26], bytes[27]),
            size_items: crate::format::decode_le_word(bytes[28], bytes[29], bytes[30], bytes[31]),
            size_data: crate::format::decode_le_word(bytes[32], bytes[33], bytes[34], bytes[35]),
        };
        match hr.check() {
            Ok(()) => {},
            Err(e) => {
                return Err(e);
            },
        }
        let result = DatafileHeader { hv, hr };
        match result.check() {
            Ok(()) => {},
            Err(e) => {
                return Err(e);
            },
        }
        Ok(result)
    }

    /// Read the header-sized prefix from the byte source and decode it.
    /// A transport failure surfaces as is; a decode failure as the exact
    /// domain error.
    pub fn read<CB: Callback>(cb: &mut CB) -> (r: Result<DatafileHeader, Error>)
        ensures
            r matches Ok(h) ==> h.valid(),
    {
        let bytes = match read_up_to(cb, HEADER_SIZE) {
            Ok(b) => b,
            Err(e) => {
                return Err(Error::Cb(e));
            },
        };
        match Self::parse(&bytes) {
            Ok(h) => Ok(h),
            Err(e) => Err(Error::Df(e)),
        }
    }
}

/// The two rest sub-headers agree on everything but exactly one of the five
/// counted fields.
pub open spec fn differs_in_one_count(a: DatafileHeaderRest, b: DatafileHeaderRest) -> bool {
    let types_eq = a.num_item_types == b.num_item_types;
    let items_eq = a.num_items == b.num_items;
    let data_eq = a.num_data == b.num_data;
    let size_items_eq = a.size_items == b.size_items;
    let size_data_eq = a.size_data == b.size_data;
    ||| (!types_eq && items_eq && data_eq && size_items_eq && size_data_eq)
    ||| (types_eq && !items_eq && data_eq && size_items_eq && size_data_eq)
    ||| (types_eq && items_eq && !data_eq && size_items_eq && size_data_eq)
    ||| (types_eq && items_eq && data_eq && !size_items_eq && size_data_eq)
    ||| (types_eq && items_eq && data_eq && size_items_eq && !size_data_eq)
}

/// Corrupting any single count of a size-consistent header breaks the size
/// equation: if two headers share magic, version, declared size and swap
/// length, exactly one of the five counted fields differs, and the first
/// header's declared size matches its recomputed total, then the second
/// header's size validation must fail.
pub proof fn lemma_header_count_corruption(h1: DatafileHeader, h2: DatafileHeader)
    requires
        h1.hr.valid(),
        h2.hr.valid(),
        h1.valid_size(),
        h2.hv == h1.hv,
        h2.hr.size == h1.hr.size,
        h2.hr.swaplen == h1.hr.swaplen,
        differs_in_one_count(h1.hr, h2.hr),
    ensures
        !h2.valid_size(),
{
    assert(h2.spec_total_size() != h1.spec_total_size());
}

} // verus!
