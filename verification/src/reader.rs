use vstd::prelude::*;
use crate::error::{DatafileError, Error};
use crate::format::{
    packed_id, packed_type_id, DatafileItemType, DATAFILE_ITEMTYPE_ID_RANGE,
};
use crate::header::DatafileHeader;
use crate::source::{read_le_words, seek_read_exact, Callback};

verus! {

/// One item: its identity and a copy of its payload words.
pub struct ItemView {
    pub type_id: u16,
    pub id: u16,
    pub data: Vec<i32>,
}

/// Sum of the `num` fields of the first `i` type descriptors; descriptor
/// `i`'s declared `start` must equal it.
pub open spec fn type_start_sum(types: Seq<DatafileItemType>, i: int) -> int
    decreases i,
{
    if i <= 0 {
        0
    } else {
        type_start_sum(types, i - 1) + types[i - 1].num
    }
}

/// Type descriptor `i` is well formed: type id in range, a non-negative
/// count that stays within the item table, a `start` equal to the running
/// sum of earlier counts, and a type id no earlier descriptor uses.
pub open spec fn item_types_ok_at(types: Seq<DatafileItemType>, num_items: int, i: int) -> bool {
    &&& 0 <= types[i].type_id < DATAFILE_ITEMTYPE_ID_RANGE
    &&& 0 <= types[i].num
    &&& types[i].num <= num_items - types[i].start
    &&& types[i].start == type_start_sum(types, i)
    &&& forall|k: int| 0 <= k < i ==> types[k].type_id != types[i].type_id
}

/// The whole item type table is well formed and its runs cover the item
/// table exactly.
pub open spec fn item_types_ok(types: Seq<DatafileItemType>, num_items: int) -> bool {
    &&& forall|i: int| 0 <= i < types.len() ==> item_types_ok_at(types, num_items, i)
    &&& type_start_sum(types, types.len() as int) == num_items
}

/// Word index of item `i`'s header inside the item blob: a cursor that
/// starts at zero and advances over a two-word item header plus the byte
/// size that header declares.
pub open spec fn item_cursor(words: Seq<i32>, i: int) -> int
    decreases i,
{
    if i <= 0 {
        0
    } else {
        let c = item_cursor(words, i - 1);
        c + 2 + words[c + 1] / 4
    }
}

/// Item `i`'s recorded offset is non-negative and equals the running
/// cursor's byte position, its header and declared size lie within the
/// item blob, and the size is a non-negative whole number of words.
pub open spec fn item_offsets_ok_at(
    offsets: Seq<i32>,
    words: Seq<i32>,
    size_items: int,
    i: int,
) -> bool {
    let c = item_cursor(words, i);
    let size = words[c + 1];
    &&& offsets[i] >= 0
    &&& offsets[i] == 4 * c
    &&& 4 * c + 8 <= size_items
    &&& size >= 0
    &&& size % 4 == 0
    &&& 4 * c + 8 + size <= size_items
}

/// The item offset table is well formed and the items consume the item
/// blob exactly.
pub open spec fn item_offsets_ok(offsets: Seq<i32>, words: Seq<i32>, size_items: int) -> bool {
    &&& forall|i: int| 0 <= i < offsets.len() ==> item_offsets_ok_at(offsets, words, size_items, i)
    &&& 4 * item_cursor(words, offsets.len() as int) == size_items
}

/// Data entry `i` is well formed: a non-negative uncompressed size where
/// that table exists, an offset within the data blob, and offsets that do
/// not decrease.
pub open spec fn data_offsets_ok_at(
    offsets: Seq<i32>,
    uncomp: Option<Seq<i32>>,
    size_data: int,
    i: int,
) -> bool {
    &&& (uncomp matches Some(u) ==> u[i] >= 0)
    &&& 0 <= offsets[i] <= size_data
    &&& (i > 0 ==> offsets[i - 1] <= offsets[i])
}

/// The whole data offset table is well formed.
pub open spec fn data_offsets_ok(
    offsets: Seq<i32>,
    uncomp: Option<Seq<i32>>,
    size_data: int,
) -> bool {
    forall|i: int| 0 <= i < offsets.len() ==> data_offsets_ok_at(offsets, uncomp, size_data, i)
}

/// Every item carries, in its own packed header, the type id of the
/// descriptor whose run it lies in.
pub open spec fn items_match_types(
    types: Seq<DatafileItemType>,
    offsets: Seq<i32>,
    words: Seq<i32>,
) -> bool {
    forall|t: int, k: int|
        0 <= t < types.len() && types[t].start <= k < types[t].start + types[t].num
            ==> packed_type_id(words[offsets[k] / 4]) == types[t].type_id
}

/// A validated datafile: the header, the fixed-size tables, and the raw
/// item blob as words. Construction validates everything eagerly; item and
/// data content is materialized on demand.
pub struct Reader {
    header: DatafileHeader,
    item_types: Vec<DatafileItemType>,
    item_offsets: Vec<i32>,
    data_offsets: Vec<i32>,
    uncomp_data_sizes: Option<Vec<i32>>,
    items_raw: Vec<i32>,
}

impl Reader {
    /// The header this reader was built from.
    pub closed spec fn spec_header(self) -> DatafileHeader {
        self.header
    }

    /// The item type table.
    pub closed spec fn spec_item_types(self) -> Seq<DatafileItemType> {
        self.item_types@
    }

    /// The item offset table.
    pub closed spec fn spec_item_offsets(self) -> Seq<i32> {
        self.item_offsets@
    }

    /// The data offset table.
    pub closed spec fn spec_data_offsets(self) -> Seq<i32> {
        self.data_offsets@
    }

    /// The raw item blob, as 32-bit words.
    pub closed spec fn spec_items_raw(self) -> Seq<i32> {
        self.items_raw@
    }

    /// The uncompressed-size table, present exactly for format version 4.
    pub closed spec fn spec_uncomp(self) -> Option<Seq<i32>> {
        match self.uncomp_data_sizes {
            Some(v) => Some(v@),
            None => None,
        }
    }

    pub open spec fn spec_num_items(self) -> int {
        self.spec_header().hr.num_items as int
    }

    pub open spec fn spec_num_data(self) -> int {
        self.spec_header().hr.num_data as int
    }

    pub open spec fn spec_num_item_types(self) -> int {
        self.spec_header().hr.num_item_types as int
    }

    /// The tables have the lengths the header declares, and the
    /// uncompressed-size table exists exactly for version 4.
    pub open spec fn lengths_ok(self) -> bool {
        &&& self.spec_header().valid()
        &&& self.spec_item_types().len() == self.spec_header().hr.num_item_types
        &&& self.spec_item_offsets().len() == self.spec_header().hr.num_items
        &&& self.spec_data_offsets().len() == self.spec_header().hr.num_data
        &&& (self.spec_header().hv.version == 4 <==> self.spec_uncomp() is Some)
        &&& (self.spec_uncomp() matches Some(u) ==> u.len() == self.spec_header().hr.num_data)
        &&& 4 * self.spec_items_raw().len() == self.spec_header().hr.size_items
    }

    /// All four structural validation passes hold.
    pub open spec fn spec_check_ok(self) -> bool {
        &&& item_types_ok(self.spec_item_types(), self.spec_num_items())
        &&& item_offsets_ok(
            self.spec_item_offsets(),
            self.spec_items_raw(),
            self.spec_header().hr.size_items as int,
        )
        &&& data_offsets_ok(
            self.spec_data_offsets(),
            self.spec_uncomp(),
            self.spec_header().hr.size_data as int,
        )
        &&& items_match_types(
            self.spec_item_types(),
            self.spec_item_offsets(),
            self.spec_items_raw(),
        )
    }

    /// A fully validated reader.
    pub open spec fn wf(self) -> bool {
        &&& self.lengths_ok()
        &&& self.spec_check_ok()
    }

    /// Run the four structural validation passes: item type table, item
    /// offset table, data offset table, and the cross-reference of each
    /// item's packed type id against the type table. Succeeds if and only
    /// if every structural invariant holds.
    pub fn check(&self) -> (r: Result<(), DatafileError>)
        requires
            self.lengths_ok(),
        ensures
            r is Ok <==> self.spec_check_ok(),
            r is Err ==> r == Err::<(), DatafileError>(DatafileError::Malformed),
    {
        let num_item_types = self.item_types.len();
        let num_items_i64: i64 = self.header.hr.num_items as i64;
        let mut expected_start: i64 = 0;
        let mut i: usize = 0;
        while i < num_item_types
            invariant
                self.lengths_ok(),
                num_item_types == self.item_types@.len(),
                num_items_i64 == self.header.hr.num_items,
                i <= num_item_types,
                expected_start == type_start_sum(self.item_types@, i as int),
                0 <= expected_start <= num_items_i64,
                forall|j: int|
                    0 <= j < i ==> item_types_ok_at(self.item_types@, num_items_i64 as int, j),
            decreases num_item_types - i,
        {
            let t = self.item_types[i];
            if !(0 <= t.type_id && t.type_id < DATAFILE_ITEMTYPE_ID_RANGE) {
                proof {
                    assert(!item_types_ok_at(self.item_types@, self.spec_num_items(), i as int));
                }
                return Err(DatafileError::Malformed);
            }
            if !(0 <= t.num && (t.num as i64) <= num_items_i64 - (t.start as i64)) {
                proof {
                    assert(!item_types_ok_at(self.item_types@, self.spec_num_items(), i as int));
                }
                return Err(DatafileError::Malformed);
            }
            if (t.start as i64) != expected_start {
                proof {
                    assert(!item_types_ok_at(self.item_types@, self.spec_num_items(), i as int));
                }
                return Err(DatafileError::Malformed);
            }
            let mut k: usize = 0;
            while k < i
                invariant
                    num_item_types == self.item_types@.len(),
                    k <= i < num_item_types,
                    t == self.item_types@[i as int],
                    forall|j: int|
                        0 <= j < k ==> self.item_types@[j].type_id != self.item_types@[
                            i as int
                        ].type_id,
                decreases i - k,
            {
                if self.item_types[k].type_id == t.type_id {
                    proof {
                        assert(self.item_types@[k as int].type_id == self.item_types@[
                            i as int
                        ].type_id);
                        assert(!item_types_ok_at(self.item_types@, self.spec_num_items(), i as int));
                    }
                    return Err(DatafileError::Malformed);
                }
                k = k + 1;
            }
            expected_start = expected_start + (t.num as i64);
            i = i + 1;
        }
        if expected_start != num_items_i64 {
            proof {
                assert(!item_types_ok(self.item_types@, self.spec_num_items()));
            }
            return Err(DatafileError::Malformed);
        }
        assert(item_types_ok(self.item_types@, self.spec_num_items()));

        let num_items = self.item_offsets.len();
        let size_items_u64: u64 = self.header.hr.size_items as u64;
        let mut cursor: u64 = 0;
        let mut i: usize = 0;
        while i < num_items
            invariant
                self.lengths_ok(),
                num_items == self.item_offsets@.len(),
                size_items_u64 == self.header.hr.size_items,
                i <= num_items,
                cursor == item_cursor(self.items_raw@, i as int),
                4 * cursor <= size_items_u64,
                forall|j: int|
                    0 <= j < i ==> item_offsets_ok_at(
                        self.item_offsets@,
                        self.items_raw@,
                        size_items_u64 as int,
                        j,
                    ),
            decreases num_items - i,
        {
            let off_i = self.item_offsets[i];
            if off_i < 0 {
                proof {
                    assert(!item_offsets_ok_at(
                        self.item_offsets@,
                        self.items_raw@,
                        self.header.hr.size_items as int,
                        i as int,
                    ));
                }
                return Err(DatafileError::Malformed);
            }
            if (off_i as u64) != 4 * cursor {
                proof {
                    assert(!item_offsets_ok_at(
                        self.item_offsets@,
                        self.items_raw@,
                        self.header.hr.size_items as int,
                        i as int,
                    ));
                }
                return Err(DatafileError::Malformed);
            }
            if 4 * cursor + 8 > size_items_u64 {
                proof {
                    assert(!item_offsets_ok_at(
                        self.item_offsets@,
                        self.items_raw@,
                        self.header.hr.size_items as int,
                        i as int,
                    ));
                }
                return Err(DatafileError::Malformed);
            }
            let wi: usize = (cursor as usize) + 1;
            let size = self.items_raw[wi];
            if size < 0 {
                proof {
                    assert(!item_offsets_ok_at(
                        self.item_offsets@,
                        self.items_raw@,
                        self.header.hr.size_items as int,
                        i as int,
                    ));
                }
                return Err(DatafileError::Malformed);
            }
            if size % 4 != 0 {
                proof {
                    assert(!item_offsets_ok_at(
                        self.item_offsets@,
                        self.items_raw@,
                        self.header.hr.size_items as int,
                        i as int,
                    ));
                }
                return Err(DatafileError::Malformed);
            }
            if 4 * cursor + 8 + (size as u64) > size_items_u64 {
                proof {
                    assert(!item_offsets_ok_at(
                        self.item_offsets@,
                        self.items_raw@,
                        self.header.hr.size_items as int,
                        i as int,
                    ));
                }
                return Err(DatafileError::Malformed);
            }
            cursor = cursor + 2 + (size as u64) / 4;
            i = i + 1;
        }
        if 4 * cursor != size_items_u64 {
            proof {
                assert(!item_offsets_ok(
                    self.item_offsets@,
                    self.items_raw@,
                    self.header.hr.size_items as int,
                ));
            }
            return Err(DatafileError::Malformed);
        }
        assert(item_offsets_ok(
            self.item_offsets@,
            self.items_raw@,
            self.header.hr.size_items as int,
        ));

        let num_data = self.data_offsets.len();
        let size_data = self.header.hr.size_data;
        let mut previous: i32 = 0;
        let mut i: usize = 0;
        while i < num_data
            invariant
                self.lengths_ok(),
                num_data == self.data_offsets@.len(),
                size_data == self.header.hr.size_data,
                i <= num_data,
                i == 0 ==> previous == 0,
                i > 0 ==> previous == self.data_offsets@[i as int - 1],
                previous >= 0,
                forall|j: int|
                    0 <= j < i ==> data_offsets_ok_at(
                        self.data_offsets@,
                        self.spec_uncomp(),
                        size_data as int,
                        j,
                    ),
            decreases num_data - i,
        {
            match &self.uncomp_data_sizes {
                Some(uds) => {
                    if uds[i] < 0 {
                        proof {
                            assert(!data_offsets_ok_at(
                                self.data_offsets@,
                                self.spec_uncomp(),
                                size_data as int,
                                i as int,
                            ));
                        }
                        return Err(DatafileError::Malformed);
                    }
                },
                None => {},
            }
            let off = self.data_offsets[i];
            if off < 0 || off > size_data {
                proof {
                    assert(!data_offsets_ok_at(
                        self.data_offsets@,
                        self.spec_uncomp(),
                        size_data as int,
                        i as int,
                    ));
                }
                return Err(DatafileError::Malformed);
            }
            if previous > off {
                proof {
                    assert(!data_offsets_ok_at(
                        self.data_offsets@,
                        self.spec_uncomp(),
                        size_data as int,
                        i as int,
                    ));
                }
                return Err(DatafileError::Malformed);
            }
            previous = off;
            i = i + 1;
        }
        assert(data_offsets_ok(
            self.data_offsets@,
            self.spec_uncomp(),
            self.header.hr.size_data as int,
        ));

        let mut t: usize = 0;
        while t < num_item_types
            invariant
                self.lengths_ok(),
                num_item_types == self.item_types@.len(),
                t <= num_item_types,
                item_types_ok(self.item_types@, self.spec_num_items()),
                item_offsets_ok(
                    self.item_offsets@,
                    self.items_raw@,
                    self.header.hr.size_items as int,
                ),
                forall|u: int, k: int|
                    0 <= u < t && self.item_types@[u].start <= k < self.item_types@[u].start
                        + self.item_types@[u].num ==> packed_type_id(
                        self.items_raw@[self.item_offsets@[k] / 4],
                    ) == self.item_types@[u].type_id,
            decreases num_item_types - t,
        {
            let ty = self.item_types[t];
            proof {
                assert(item_types_ok_at(self.item_types@, self.spec_num_items(), t as int));
                assert forall|j: int| 0 <= j < t as int implies self.item_types@[j].num >= 0 by {
                    assert(item_types_ok_at(self.item_types@, self.spec_num_items(), j));
                }
                lemma_type_start_sum_nonneg(self.item_types@, t as int);
            }
            let start = ty.start as usize;
            let end = (ty.start + ty.num) as usize;
            let mut k = start;
            while k < end
                invariant
                    self.lengths_ok(),
                    item_offsets_ok(
                        self.item_offsets@,
                        self.items_raw@,
                        self.header.hr.size_items as int,
                    ),
                    t < self.item_types@.len(),
                    ty == self.item_types@[t as int],
                    start == ty.start,
                    end == ty.start + ty.num,
                    end <= self.item_offsets@.len(),
                    start <= k <= end,
                    forall|k2: int|
                        start <= k2 < k ==> packed_type_id(
                            self.items_raw@[self.item_offsets@[k2] / 4],
                        ) == ty.type_id,
                decreases end - k,
            {
                proof {
                    assert(item_offsets_ok_at(
                        self.item_offsets@,
                        self.items_raw@,
                        self.header.hr.size_items as int,
                        k as int,
                    ));
                    lemma_word_index(
                        self.item_offsets@,
                        self.items_raw@,
                        self.header.hr.size_items as int,
                        k as int,
                    );
                }
                let off = self.item_offsets[k];
                let w = self.items_raw[(off as usize) / 4];
                let tid = crate::format::item_header_type_id(w);
                if (tid as i32) != ty.type_id {
                    proof {
                        assert(packed_type_id(
                            self.items_raw@[self.item_offsets@[k as int] / 4],
                        ) != self.item_types@[t as int].type_id);
                        assert(!items_match_types(
                            self.item_types@,
                            self.item_offsets@,
                            self.items_raw@,
                        ));
                    }
                    return Err(DatafileError::Malformed);
                }
                k = k + 1;
            }
            t = t + 1;
        }
        assert(items_match_types(self.item_types@, self.item_offsets@, self.items_raw@));
        Ok(())
    }

    /// Parse the header, read the fixed-size tables and the item blob, fix
    /// the seek base for later data reads, and validate everything. A
    /// reader is returned only in a fully validated state.
    pub fn new<CB: Callback>(cb: &mut CB) -> (r: Result<Reader, Error>)
        ensures
            r matches Ok(reader) ==> reader.wf(),
    {
        let header = match DatafileHeader::read(cb) {
            Ok(h) => h,
            Err(e) => {
                return Err(e);
            },
        };
        proof {
            assert(header.spec_total_size() == header.hr.size);
            assert(12 * header.hr.num_item_types <= header.spec_total_size());
            assert(4 * header.hr.num_items <= header.spec_total_size());
            assert(4 * header.hr.num_data <= header.spec_total_size());
            assert(header.hr.size_items <= header.spec_total_size());
            assert(header.hr.size_items == 4 * (header.hr.size_items as int / 4));
        }
        let num_item_types = header.hr.num_item_types as usize;
        let num_items = header.hr.num_items as usize;
        let num_data = header.hr.num_data as usize;
        let num_item_words = (header.hr.size_items as usize) / 4;

        let type_words = match read_le_words(cb, 3 * num_item_types) {
            Ok(v) => v,
            Err(e) => {
                return Err(e.on_eof(DatafileError::TooShort));
            },
        };
        let item_types = item_types_from_words(&type_words, num_item_types);

        let item_offsets = match read_le_words(cb, num_items) {
            Ok(v) => v,
            Err(e) => {
                return Err(e.on_eof(DatafileError::TooShort));
            },
        };
        let data_offsets = match read_le_words(cb, num_data) {
            Ok(v) => v,
            Err(e) => {
                return Err(e.on_eof(DatafileError::TooShort));
            },
        };
        let uncomp_data_sizes = if header.hv.version == 4 {
            match read_le_words(cb, num_data) {
                Ok(v) => Some(v),
                Err(e) => {
                    return Err(e.on_eof(DatafileError::TooShort));
                },
            }
        } else {
            None
        };
        let items_raw = match read_le_words(cb, num_item_words) {
            Ok(v) => v,
            Err(e) => {
                return Err(e.on_eof(DatafileError::TooShort));
            },
        };
        match cb.set_seek_base() {
            Ok(()) => {},
            Err(e) => {
                return Err(Error::Cb(e));
            },
        }
        let result = Reader {
            header,
            item_types,
            item_offsets,
            data_offsets,
            uncomp_data_sizes,
            items_raw,
        };
        match result.check() {
            Ok(()) => Ok(result),
            Err(e) => Err(Error::Df(e)),
        }
    }
}

/// A running sum of non-negative counts is non-negative.
proof fn lemma_type_start_sum_nonneg(types: Seq<DatafileItemType>, i: int)
    requires
        0 <= i <= types.len(),
        forall|j: int| 0 <= j < i ==> types[j].num >= 0,
    ensures
        type_start_sum(types, i) >= 0,
    decreases i,
{
    if i > 0 {
        lemma_type_start_sum_nonneg(types, i - 1);
    }
}

/// For a well-formed item `k`, the recorded byte offset divided by the word
/// size is exactly the word cursor, and both header words lie inside the
/// item blob.
proof fn lemma_word_index(offsets: Seq<i32>, words: Seq<i32>, size_items: int, k: int)
    requires
        0 <= k < offsets.len(),
        item_offsets_ok_at(offsets, words, size_items, k),
        4 * words.len() == size_items,
    ensures
        offsets[k] / 4 == item_cursor(words, k),
        0 <= item_cursor(words, k),
        item_cursor(words, k) + 2 <= words.len(),
{
    let c = item_cursor(words, k);
    assert(offsets[k] == 4 * c);
    assert(4 * c >= 0);
    assert(c >= 0);
    assert((4 * c) / 4 == c) by (nonlinear_arith);
}

impl Reader {
    /// Word index of item `k`'s packed header inside the item blob.
    pub open spec fn spec_item_word_index(self, k: int) -> int {
        self.spec_item_offsets()[k] / 4
    }

    /// The type id packed into item `k`'s header.
    pub open spec fn spec_item_type_id(self, k: int) -> int {
        packed_type_id(self.spec_items_raw()[self.spec_item_word_index(k)])
    }

    /// The id packed into item `k`'s header.
    pub open spec fn spec_item_id(self, k: int) -> int {
        packed_id(self.spec_items_raw()[self.spec_item_word_index(k)])
    }

    /// Length of item `k`'s payload, in words.
    pub open spec fn spec_item_size_words(self, k: int) -> int {
        self.spec_items_raw()[self.spec_item_word_index(k) + 1] / 4
    }

    /// Item `k`'s payload: the words after its two-word header.
    pub open spec fn spec_item_data(self, k: int) -> Seq<i32> {
        self.spec_items_raw().subrange(
            self.spec_item_word_index(k) + 2,
            self.spec_item_word_index(k) + 2 + self.spec_item_size_words(k),
        )
    }

    /// Some type descriptor carries this type id.
    pub open spec fn spec_has_type(self, tid: int) -> bool {
        exists|t: int|
            0 <= t < self.spec_item_types().len() && self.spec_item_types()[t].type_id == tid
    }

    /// Index of the type descriptor carrying this type id (unique in a
    /// well-formed reader).
    pub open spec fn spec_type_index(self, tid: int) -> int {
        choose|t: int|
            0 <= t < self.spec_item_types().len() && self.spec_item_types()[t].type_id == tid
    }

    /// First item index of the type's run, or zero for an absent type.
    pub open spec fn spec_type_start(self, tid: int) -> int {
        if self.spec_has_type(tid) {
            self.spec_item_types()[self.spec_type_index(tid)].start as int
        } else {
            0
        }
    }

    /// Number of items in the type's run, or zero for an absent type.
    pub open spec fn spec_type_num(self, tid: int) -> int {
        if self.spec_has_type(tid) {
            self.spec_item_types()[self.spec_type_index(tid)].num as int
        } else {
            0
        }
    }

    pub fn num_items(&self) -> (r: usize)
        requires
            self.wf(),
        ensures
            r == self.spec_num_items(),
    {
        self.header.hr.num_items as usize
    }

    pub fn num_data(&self) -> (r: usize)
        requires
            self.wf(),
        ensures
            r == self.spec_num_data(),
    {
        self.header.hr.num_data as usize
    }

    pub fn num_item_types(&self) -> (r: usize)
        requires
            self.wf(),
        ensures
            r == self.spec_num_item_types(),
    {
        self.header.hr.num_item_types as usize
    }

    /// Type id of type descriptor `index`.
    pub fn item_type(&self, index: usize) -> (r: u16)
        requires
            self.wf(),
            index < self.spec_num_item_types(),
        ensures
            r == self.spec_item_types()[index as int].type_id,
    {
        proof {
            assert(item_types_ok_at(self.item_types@, self.spec_num_items(), index as int));
        }
        self.item_types[index].type_id as u16
    }

    /// The contiguous range of item indices of the given type; empty if the
    /// type table has no descriptor for it.
    pub fn item_type_indices(&self, type_id: u16) -> (r: core::ops::Range<usize>)
        requires
            self.wf(),
        ensures
            r.start == self.spec_type_start(type_id as int),
            r.end == self.spec_type_start(type_id as int) + self.spec_type_num(type_id as int),
            r.start <= r.end <= self.spec_num_items(),
    {
        let n = self.item_types.len();
        let mut t: usize = 0;
        while t < n
            invariant
                self.wf(),
                n == self.spec_item_types().len(),
                t <= n,
                forall|u: int|
                    0 <= u < t ==> self.spec_item_types()[u].type_id != type_id,
            decreases n - t,
        {
            let ty = self.item_types[t];
            if ty.type_id == type_id as i32 {
                proof {
                    self.lemma_type_index_unique(type_id as int, t as int);
                    assert(item_types_ok_at(self.item_types@, self.spec_num_items(), t as int));
                    assert forall|j: int| 0 <= j < t as int implies self.item_types@[j].num >= 0 by {
                        assert(item_types_ok_at(self.item_types@, self.spec_num_items(), j));
                    }
                    lemma_type_start_sum_nonneg(self.item_types@, t as int);
                }
                let start = ty.start as usize;
                let end = (ty.start + ty.num) as usize;
                return start..end;
            }
            t = t + 1;
        }
        proof {
            if self.spec_has_type(type_id as int) {
                let t2 = self.spec_type_index(type_id as int);
                assert(0 <= t2 < self.spec_item_types().len() && self.spec_item_types()[
                    t2
                ].type_id == type_id);
                assert(false);
            }
        }
        0usize..0usize
    }

    /// The descriptor found at `t` is the one `spec_type_index` names.
    proof fn lemma_type_index_unique(self, tid: int, t: int)
        requires
            self.wf(),
            0 <= t < self.spec_item_types().len(),
            self.spec_item_types()[t].type_id == tid,
        ensures
            self.spec_has_type(tid),
            self.spec_type_index(tid) == t,
    {
        assert(self.spec_has_type(tid));
        let t2 = self.spec_type_index(tid);
        assert(0 <= t2 < self.spec_item_types().len() && self.spec_item_types()[t2].type_id
            == tid);
        if t2 < t {
            assert(item_types_ok_at(self.spec_item_types(), self.spec_num_items(), t));
        } else if t2 > t {
            assert(item_types_ok_at(self.spec_item_types(), self.spec_num_items(), t2));
        }
    }

    /// Materialize item `index`: its packed identity and a copy of its
    /// payload words.
    pub fn item(&self, index: usize) -> (r: ItemView)
        requires
            self.wf(),
            index < self.spec_num_items(),
        ensures
            r.type_id == self.spec_item_type_id(index as int),
            r.id == self.spec_item_id(index as int),
            r.data@ == self.spec_item_data(index as int),
    {
        proof {
            assert(item_offsets_ok_at(
                self.item_offsets@,
                self.items_raw@,
                self.header.hr.size_items as int,
                index as int,
            ));
            lemma_word_index(
                self.item_offsets@,
                self.items_raw@,
                self.header.hr.size_items as int,
                index as int,
            );
        }
        let off = self.item_offsets[index];
        let wi = (off as usize) / 4;
        let w = self.items_raw[wi];
        let size_bytes = self.items_raw[wi + 1];
        proof {
            assert(size_bytes as int == 4 * (size_bytes as int / 4)) by (nonlinear_arith)
                requires size_bytes >= 0 && size_bytes as int % 4 == 0;
        }
        let size_words = (size_bytes as usize) / 4;
        let type_id = crate::format::item_header_type_id(w);
        let id = crate::format::item_header_id(w);
        let n_words = self.items_raw.len();
        let mut data: Vec<i32> = Vec::new();
        let mut j: usize = 0;
        while j < size_words
            invariant
                n_words == self.items_raw@.len(),
                wi + 2 + size_words <= n_words,
                j <= size_words,
                data@.len() == j,
                data@ == self.items_raw@.subrange(wi as int + 2, wi as int + 2 + j as int),
            decreases size_words - j,
        {
            data.push(self.items_raw[wi + 2 + j]);
            proof {
                assert(data@ =~= self.items_raw@.subrange(
                    wi as int + 2,
                    wi as int + 2 + j as int + 1,
                ));
            }
            j = j + 1;
        }
        ItemView { type_id, id, data }
    }

    /// All items, in table order.
    pub fn items(&self) -> (r: Vec<ItemView>)
        requires
            self.wf(),
        ensures
            r@.len() == self.spec_num_items(),
            forall|k: int|
                0 <= k < r@.len() ==> r@[k].type_id == self.spec_item_type_id(k) && r@[k].id
                    == self.spec_item_id(k) && r@[k].data@ == self.spec_item_data(k),
    {
        let n = self.num_items();
        let mut r: Vec<ItemView> = Vec::new();
        let mut k: usize = 0;
        while k < n
            invariant
                self.wf(),
                n == self.spec_num_items(),
                k <= n,
                r@.len() == k,
                forall|k2: int|
                    0 <= k2 < k ==> r@[k2].type_id == self.spec_item_type_id(k2) && r@[k2].id
                        == self.spec_item_id(k2) && r@[k2].data@ == self.spec_item_data(k2),
            decreases n - k,
        {
            r.push(self.item(k));
            k = k + 1;
        }
        r
    }

    /// All type ids, in table order.
    pub fn item_types(&self) -> (r: Vec<u16>)
        requires
            self.wf(),
        ensures
            r@.len() == self.spec_num_item_types(),
            forall|t: int| 0 <= t < r@.len() ==> r@[t] == self.spec_item_types()[t].type_id,
    {
        let n = self.num_item_types();
        let mut r: Vec<u16> = Vec::new();
        let mut t: usize = 0;
        while t < n
            invariant
                self.wf(),
                n == self.spec_num_item_types(),
                t <= n,
                r@.len() == t,
                forall|u: int| 0 <= u < t ==> r@[u] == self.spec_item_types()[u].type_id,
            decreases n - t,
        {
            r.push(self.item_type(t));
            t = t + 1;
        }
        r
    }

    /// All items of the given type, in table order; empty for an absent
    /// type.
    pub fn item_type_items(&self, type_id: u16) -> (r: Vec<ItemView>)
        requires
            self.wf(),
        ensures
            r@.len() == self.spec_type_num(type_id as int),
            forall|j: int|
                0 <= j < r@.len() ==> (#[trigger] r@[j]).type_id == self.spec_item_type_id(
                    self.spec_type_start(type_id as int) + j,
                ) && r@[j].id == self.spec_item_id(self.spec_type_start(type_id as int) + j)
                    && r@[j].data@ == self.spec_item_data(self.spec_type_start(type_id as int) + j),
    {
        let range = self.item_type_indices(type_id);
        let mut r: Vec<ItemView> = Vec::new();
        let mut k: usize = range.start;
        let end: usize = range.end;
        while k < end
            invariant
                self.wf(),
                range.start == self.spec_type_start(type_id as int),
                end == self.spec_type_start(type_id as int) + self.spec_type_num(type_id as int),
                end <= self.spec_num_items(),
                range.start <= k <= end,
                r@.len() == k - range.start,
                forall|j: int|
                    0 <= j < r@.len() ==> (#[trigger] r@[j]).type_id == self.spec_item_type_id(
                        self.spec_type_start(type_id as int) + j,
                    ) && r@[j].id == self.spec_item_id(self.spec_type_start(type_id as int) + j)
                        && r@[j].data@ == self.spec_item_data(
                        self.spec_type_start(type_id as int) + j,
                    ),
            decreases end - k,
        {
            r.push(self.item(k));
            k = k + 1;
        }
        r
    }

    /// Raw (still compressed for version 4) byte length of data entry
    /// `index`, derived from consecutive offsets.
    pub open spec fn spec_data_size_file(self, i: int) -> int {
        let end = if i + 1 < self.spec_num_data() {
            self.spec_data_offsets()[i + 1] as int
        } else {
            self.spec_header().hr.size_data as int
        };
        end - self.spec_data_offsets()[i]
    }

    /// Byte length `read_data` returns for entry `index`: the declared
    /// uncompressed size for version 4, the raw span length for version 3.
    pub open spec fn spec_data_out_len(self, i: int) -> int {
        match self.spec_uncomp() {
            Some(u) => u[i] as int,
            None => self.spec_data_size_file(i),
        }
    }

    fn data_size_file(&self, index: usize) -> (r: usize)
        requires
            self.wf(),
            index < self.spec_num_data(),
        ensures
            r == self.spec_data_size_file(index as int),
            r <= self.spec_header().hr.size_data,
    {
        proof {
            assert(data_offsets_ok_at(
                self.data_offsets@,
                self.spec_uncomp(),
                self.header.hr.size_data as int,
                index as int,
            ));
            if index as int + 1 < self.spec_num_data() {
                assert(data_offsets_ok_at(
                    self.data_offsets@,
                    self.spec_uncomp(),
                    self.header.hr.size_data as int,
                    index as int + 1,
                ));
            }
        }
        let start = self.data_offsets[index];
        let end = if index < self.data_offsets.len() - 1 {
            self.data_offsets[index + 1]
        } else {
            self.header.hr.size_data
        };
        (end - start) as usize
    }

    /// Fetch data entry `index`: seek-read its raw span and, for version 4,
    /// decompress it and hold the result to the declared uncompressed size.
    /// On success the returned bytes have exactly the promised length.
    pub fn read_data<CB: Callback>(&self, cb: &mut CB, index: usize) -> (r: Result<Vec<u8>, Error>)
        requires
            self.wf(),
            index < self.spec_num_data(),
        ensures
            r matches Ok(d) ==> d@.len() == self.spec_data_out_len(index as int),
    {
        proof {
            assert(data_offsets_ok_at(
                self.data_offsets@,
                self.spec_uncomp(),
                self.header.hr.size_data as int,
                index as int,
            ));
            if index as int + 1 < self.spec_num_data() {
                assert(data_offsets_ok_at(
                    self.data_offsets@,
                    self.spec_uncomp(),
                    self.header.hr.size_data as int,
                    index as int + 1,
                ));
            }
        }
        let raw_len = self.data_size_file(index);
        let start = self.data_offsets[index] as u32;
        let raw = match seek_read_exact(cb, start, raw_len) {
            Ok(v) => v,
            Err(e) => {
                return Err(e.on_eof(DatafileError::TooShort));
            },
        };
        match &self.uncomp_data_sizes {
            Some(uds) => {
                let expected = uds[index] as usize;
                decompress_expected(&raw, expected)
            },
            None => Ok(raw),
        }
    }

    /// Fetch every data blob in index order, each as `read_data` returns
    /// it.
    pub fn data_iter<CB: Callback>(&self, cb: &mut CB) -> (r: Vec<Result<Vec<u8>, Error>>)
        requires
            self.wf(),
        ensures
            r@.len() == self.spec_num_data(),
            forall|i: int|
                0 <= i < r@.len() ==> ((#[trigger] r@[i]) matches Ok(d) ==> d@.len()
                    == self.spec_data_out_len(i)),
    {
        let n = self.num_data();
        let mut r: Vec<Result<Vec<u8>, Error>> = Vec::new();
        let mut i: usize = 0;
        while i < n
            invariant
                self.wf(),
                n == self.spec_num_data(),
                i <= n,
                r@.len() == i,
                forall|j: int|
                    0 <= j < i ==> ((#[trigger] r@[j]) matches Ok(d) ==> d@.len()
                        == self.spec_data_out_len(j)),
            decreases n - i,
        {
            r.push(self.read_data(cb, i));
            i = i + 1;
        }
        r
    }
}

/// Group a flat word table into item type descriptors, three words each:
/// descriptor `i` is read from words `3 * i .. 3 * i + 3`.
fn item_types_from_words(words: &Vec<i32>, count: usize) -> (r: Vec<DatafileItemType>)
    requires
        words@.len() == 3 * count,
    ensures
        r@.len() == count,
        forall|i: int|
            0 <= i < count ==> (#[trigger] r@[i]).type_id == words@[3 * i] && r@[i].start
                == words@[3 * i + 1] && r@[i].num == words@[3 * i + 2],
{
    let wlen = words.len();
    let mut r: Vec<DatafileItemType> = Vec::new();
    let mut i: usize = 0;
    while i < count
        invariant
            i <= count,
            wlen == 3 * count,
            words@.len() == 3 * count,
            r@.len() == i,
            forall|j: int|
                0 <= j < i ==> (#[trigger] r@[j]).type_id == words@[3 * j] && r@[j].start
                    == words@[3 * j + 1] && r@[j].num == words@[3 * j + 2],
        decreases count - i,
    {
        r.push(
            DatafileItemType {
                type_id: words[3 * i],
                start: words[3 * i + 1],
                num: words[3 * i + 2],
            },
        );
        i = i + 1;
    }
    r
}

/// Decompress a version-4 raw span and hold the result to the declared
/// uncompressed size: succeeds exactly when the bytes decode as a zlib
/// stream of exactly that length; anything else is a compression error.
pub fn decompress_expected(raw: &Vec<u8>, expected: usize) -> (r: Result<Vec<u8>, Error>)
    ensures
        r is Ok <==> (zlib_inflate(raw@) matches Some(s) && s.len() == expected),
        r matches Ok(d) ==> zlib_inflate(raw@) == Some(d@) && d@.len() == expected,
        r is Err ==> r == Err::<Vec<u8>, Error>(Error::Df(DatafileError::CompressionError)),
{
    match inflate(raw) {
        Some(d) => {
            if d.len() == expected {
                Ok(d)
            } else {
                Err(Error::Df(DatafileError::CompressionError))
            }
        },
        None => Err(Error::Df(DatafileError::CompressionError)),
    }
}

/// What a zlib stream inflates to, if anything: a function of the input
/// bytes alone.
pub uninterp spec fn zlib_inflate(src: Seq<u8>) -> Option<Seq<u8>>;

/// Relies on miniz_oxide::inflate::decompress_to_vec_zlib: whether the
/// input decodes as a zlib stream, and the decoded bytes, depend on the
/// input alone.
#[verifier::external_body]
fn inflate(src: &Vec<u8>) -> (r: Option<Vec<u8>>)
    ensures
        r matches Some(v) ==> zlib_inflate(src@) == Some(v@),
        r is None ==> zlib_inflate(src@) is None,
{
    miniz_oxide::inflate::decompress_to_vec_zlib(src.as_slice()).ok()
}

/// Every item of a type's run carries that type's id in its own packed
/// header: reading any item index out of the range that
/// `item_type_indices` reports for a present type id yields an item of
/// exactly that type.
pub proof fn lemma_item_type_consistent(r: Reader, tid: u16, k: int)
    requires
        r.wf(),
        r.spec_has_type(tid as int),
        r.spec_type_start(tid as int) <= k < r.spec_type_start(tid as int) + r.spec_type_num(
            tid as int,
        ),
    ensures
        r.spec_item_type_id(k) == tid,
{
    let t = r.spec_type_index(tid as int);
    assert(0 <= t < r.spec_item_types().len() && r.spec_item_types()[t].type_id == tid);
    assert(packed_type_id(r.spec_items_raw()[r.spec_item_offsets()[k] / 4])
        == r.spec_item_types()[t].type_id);
}

/// Any item index below `type_start_sum(types, i)` lies in the run of one
/// of the first `i` descriptors.
proof fn lemma_type_covering(types: Seq<DatafileItemType>, num_items: int, i: int, k: int)
    requires
        forall|j: int| 0 <= j < types.len() ==> item_types_ok_at(types, num_items, j),
        0 <= i <= types.len(),
        0 <= k < type_start_sum(types, i),
    ensures
        exists|t: int|
            0 <= t < i && (#[trigger] types[t]).start <= k < types[t].start + types[t].num,
    decreases i,
{
    assert(i > 0);
    assert(item_types_ok_at(types, num_items, i - 1));
    if k < type_start_sum(types, i - 1) {
        lemma_type_covering(types, num_items, i - 1, k);
        let t = choose|t: int|
            0 <= t < i - 1 && (#[trigger] types[t]).start <= k < types[t].start + types[t].num;
        assert(0 <= t < i && (#[trigger] types[t]).start <= k < types[t].start + types[t].num);
    } else {
        assert(types[i - 1].start <= k < types[i - 1].start + types[i - 1].num);
    }
}

/// Every item index is governed by exactly the type whose id its own
/// packed header carries: the range `item_type_indices` reports for that
/// id contains the index.
pub proof fn lemma_item_governed(r: Reader, k: int)
    requires
        r.wf(),
        0 <= k < r.spec_num_items(),
    ensures
        r.spec_has_type(r.spec_item_type_id(k)),
        r.spec_type_start(r.spec_item_type_id(k)) <= k < r.spec_type_start(r.spec_item_type_id(k))
            + r.spec_type_num(r.spec_item_type_id(k)),
{
    let types = r.spec_item_types();
    let n = r.spec_num_items();
    lemma_type_covering(types, n, types.len() as int, k);
    let t = choose|t: int|
        0 <= t < types.len() && (#[trigger] types[t]).start <= k < types[t].start + types[t].num;
    assert(packed_type_id(r.spec_items_raw()[r.spec_item_offsets()[k] / 4]) == types[t].type_id);
    let tid = types[t].type_id as int;
    assert(r.spec_item_type_id(k) == tid);
    r.lemma_type_index_unique(tid, t);
}

} // verus!
