use vstd::prelude::*;

verus! {

/// One type descriptor of the buffer: a type id and the contiguous run of
/// items of that type.
#[derive(Clone, Copy, Debug)]
pub struct DfBufItemType {
    pub type_id: u16,
    pub start: usize,
    pub num: usize,
}

/// One buffered item: its identity and an owned copy of its payload.
#[derive(Clone, Debug)]
pub struct DfBufItem {
    pub type_id: u16,
    pub id: u16,
    pub data: Vec<i32>,
}

/// Mathematical image of a buffered item.
pub ghost struct BufItemModel {
    pub type_id: u16,
    pub id: u16,
    pub data: Seq<i32>,
}

/// Mathematical value of one buffered item.
pub open spec fn buf_item_model(it: DfBufItem) -> BufItemModel {
    BufItemModel { type_id: it.type_id, id: it.id, data: it.data@ }
}

/// Mathematical values of a list of buffered items.
pub open spec fn buf_items_model(s: Seq<DfBufItem>) -> Seq<BufItemModel> {
    s.map_values(|it: DfBufItem| buf_item_model(it))
}

/// Sum of the `num` fields of the first `i` type descriptors.
pub open spec fn buf_start_sum(types: Seq<DfBufItemType>, i: int) -> int
    decreases i,
{
    if i <= 0 {
        0
    } else {
        buf_start_sum(types, i - 1) + types[i - 1].num
    }
}

/// The write-side, in-memory mirror of a datafile: item types kept sorted
/// ascending by type id, items kept grouped per type with ids ascending,
/// and an append-only list of data blobs.
pub struct DatafileBuffer {
    item_types: Vec<DfBufItemType>,
    items: Vec<DfBufItem>,
    data: Vec<Vec<u8>>,
}

impl DatafileBuffer {
    /// The type descriptor table.
    pub closed spec fn spec_item_types(self) -> Seq<DfBufItemType> {
        self.item_types@
    }

    /// The items, as mathematical values.
    pub closed spec fn spec_items(self) -> Seq<BufItemModel> {
        buf_items_model(self.items@)
    }

    /// The data blobs, as byte sequences.
    pub closed spec fn spec_data(self) -> Seq<Seq<u8>> {
        self.data@.map_values(|v: Vec<u8>| v@)
    }

    /// The buffer's invariant over its two parallel tables.
    pub open spec fn wf(self) -> bool {
        buf_tables_wf(self.spec_item_types(), self.spec_items())
    }

    /// Some item carries this (type id, id) pair.
    pub open spec fn spec_has_item(self, type_id: u16, id: u16) -> bool {
        exists|k: int|
            0 <= k < self.spec_items().len() && (#[trigger] self.spec_items()[k]).type_id
                == type_id && self.spec_items()[k].id == id
    }

    /// Some descriptor carries this type id.
    pub open spec fn spec_has_type(self, tid: u16) -> bool {
        exists|t: int|
            0 <= t < self.spec_item_types().len() && (#[trigger] self.spec_item_types()[
                t
            ]).type_id == tid
    }

    /// Index of the descriptor carrying this type id (unique in a
    /// well-formed buffer).
    pub open spec fn spec_type_index(self, tid: u16) -> int {
        choose|t: int|
            0 <= t < self.spec_item_types().len() && (#[trigger] self.spec_item_types()[
                t
            ]).type_id == tid
    }

    /// The descriptor found at `t` is the one `spec_type_index` names.
    proof fn lemma_type_index_is(self, t: int, tid: u16)
        requires
            self.wf(),
            0 <= t < self.spec_item_types().len(),
            self.spec_item_types()[t].type_id == tid,
        ensures
            self.spec_has_type(tid),
            self.spec_type_index(tid) == t,
    {
        assert(self.spec_has_type(tid));
        let t2 = self.spec_type_index(tid);
        assert(0 <= t2 < self.spec_item_types().len() && self.spec_item_types()[t2].type_id
            == tid);
        if t2 < t {
            assert(self.spec_item_types()[t2].type_id < self.spec_item_types()[t].type_id);
        } else if t2 > t {
            assert(self.spec_item_types()[t].type_id < self.spec_item_types()[t2].type_id);
        }
    }

    /// An empty buffer.
    pub fn new() -> (r: DatafileBuffer)
        ensures
            r.wf(),
            r.spec_item_types().len() == 0,
            r.spec_items().len() == 0,
            r.spec_data().len() == 0,
    {
        DatafileBuffer { item_types: Vec::new(), items: Vec::new(), data: Vec::new() }
    }

    /// Where `type_id` lives in the sorted type table: the first index with
    /// a type id not below it, and whether it is already present there.
    fn get_item_type_index(&self, type_id: u16) -> (r: (usize, bool))
        requires
            self.wf(),
        ensures
            r.0 <= self.spec_item_types().len(),
            r.1 ==> r.0 < self.spec_item_types().len() && self.spec_item_types()[
                r.0 as int
            ].type_id == type_id,
            !r.1 ==> forall|i: int|
                0 <= i < self.spec_item_types().len() ==> (#[trigger] self.spec_item_types()[
                    i
                ]).type_id != type_id,
            forall|i: int|
                0 <= i < r.0 ==> (#[trigger] self.spec_item_types()[i]).type_id < type_id,
            forall|i: int|
                r.0 <= i < self.spec_item_types().len() ==> type_id <= (
                #[trigger] self.spec_item_types()[i]).type_id,
    {
        let n = self.item_types.len();
        let mut i: usize = 0;
        while i < n
            invariant
                self.wf(),
                n == self.spec_item_types().len(),
                i <= n,
                forall|j: int|
                    0 <= j < i ==> (#[trigger] self.spec_item_types()[j]).type_id < type_id,
            decreases n - i,
        {
            let other = self.item_types[i].type_id;
            if type_id <= other {
                return (i, type_id == other);
            }
            i = i + 1;
        }
        (n, false)
    }

    /// Where an item with this id lives inside the run of the type at
    /// `item_type_index` (when found), or the position a fresh item of a
    /// fresh type would take (when not).
    fn get_item_index(&self, item_type_index: usize, item_type_found: bool, id: u16) -> (r: (
        usize,
        bool,
    ))
        requires
            self.wf(),
            item_type_found ==> item_type_index < self.spec_item_types().len(),
            !item_type_found ==> item_type_index <= self.spec_item_types().len(),
        ensures
            !item_type_found && item_type_index < self.spec_item_types().len() ==> r.0
                == self.spec_item_types()[item_type_index as int].start && !r.1,
            !item_type_found && item_type_index == self.spec_item_types().len() ==> r.0
                == self.spec_items().len() && !r.1,
            item_type_found ==> {
                let ty = self.spec_item_types()[item_type_index as int];
                &&& ty.start <= r.0 <= ty.start + ty.num
                &&& forall|k: int|
                    ty.start <= k < r.0 ==> (#[trigger] self.spec_items()[k]).id < id
                &&& forall|k: int|
                    r.0 <= k < ty.start + ty.num ==> id <= (#[trigger] self.spec_items()[k]).id
                &&& (r.1 ==> r.0 < ty.start + ty.num && self.spec_items()[r.0 as int].id == id)
                &&& (!r.1 ==> forall|k: int|
                    ty.start <= k < ty.start + ty.num ==> id != (
                    #[trigger] self.spec_items()[k]).id)
            },
    {
        if !item_type_found {
            if item_type_index != self.item_types.len() {
                proof {
                    lemma_buf_sum_nonneg(self.spec_item_types(), item_type_index as int);
                }
                (self.item_types[item_type_index].start, false)
            } else {
                (self.items.len(), false)
            }
        } else {
            let ty = self.item_types[item_type_index];
            let n_items = self.items.len();
            proof {
                lemma_buf_sum_bounds(self.spec_item_types(), item_type_index as int);
                assert(ty.start + ty.num <= n_items);
            }
            let start = ty.start;
            let num = ty.num;
            let end = start + num;
            let mut k = start;
            while k < end
                invariant
                    self.wf(),
                    item_type_found,
                    item_type_index < self.spec_item_types().len(),
                    ty == self.spec_item_types()[item_type_index as int],
                    start == ty.start,
                    end == ty.start + ty.num,
                    end <= self.spec_items().len(),
                    start <= k <= end,
                    forall|k2: int|
                        start <= k2 < k ==> (#[trigger] self.spec_items()[k2]).id < id,
                decreases end - k,
            {
                let other_id = self.items[k].id;
                proof {
                    assert(self.spec_items()[k as int].id == other_id);
                }
                if id <= other_id {
                    return (k, id == other_id);
                }
                k = k + 1;
            }
            (end, false)
        }
    }
}

/// The tables' invariant: type descriptors strictly sorted by type id,
/// each `start` equal to the running sum of earlier counts, every run
/// non-empty and covering the item list exactly, every item carrying its
/// run's type id, and ids strictly ascending within a run.
pub open spec fn buf_tables_wf(ts: Seq<DfBufItemType>, its: Seq<BufItemModel>) -> bool {
    &&& forall|i: int, j: int|
        0 <= i < j < ts.len() ==> (#[trigger] ts[i]).type_id < (#[trigger] ts[j]).type_id
    &&& forall|i: int| 0 <= i < ts.len() ==> (#[trigger] ts[i]).start == buf_start_sum(ts, i)
    &&& forall|i: int| 0 <= i < ts.len() ==> (#[trigger] ts[i]).num >= 1
    &&& buf_start_sum(ts, ts.len() as int) == its.len()
    &&& forall|t: int, k: int|
        0 <= t < ts.len() && (#[trigger] ts[t]).start <= k < ts[t].start + ts[t].num ==> (
        #[trigger] its[k]).type_id == ts[t].type_id
    &&& forall|t: int, k1: int, k2: int|
        0 <= t < ts.len() && (#[trigger] ts[t]).start <= k1 < k2 < ts[t].start + ts[t].num ==> (
        #[trigger] its[k1]).id < (#[trigger] its[k2]).id
}

impl DatafileBuffer {
    /// Insert an item, keeping both tables' order invariants: locate the
    /// type's slot in the sorted type table and the id's slot inside the
    /// type's run, refuse a duplicate (type id, id) pair, create a fresh
    /// descriptor when the type is new, bump the matched descriptor's
    /// count, shift every later descriptor's start by one, and store a
    /// private copy of the payload. Fails exactly on a duplicate pair, and
    /// then changes nothing.
    #[verifier::rlimit(100)]
    pub fn add_item(&mut self, type_id: u16, id: u16, data: &[i32]) -> (r: Result<(), ()>)
        requires
            old(self).wf(),
            old(self).spec_items().len() < usize::MAX - 1,
        ensures
            final(self).wf(),
            r is Err <==> old(self).spec_has_item(type_id, id),
            r is Err ==> *final(self) == *old(self),
            r is Ok ==> final(self).spec_data() == old(self).spec_data(),
            r is Ok ==> exists|p: int|
                0 <= p <= old(self).spec_items().len() && final(self).spec_items() == old(
                    self,
                ).spec_items().insert(p, BufItemModel { type_id, id, data: data@ }),
            r is Ok ==> final(self).spec_has_item(type_id, id),
            r is Ok ==> final(self).spec_has_type(type_id),
            r is Ok && !old(self).spec_has_type(type_id) ==> {
                let ti = final(self).spec_type_index(type_id);
                let ts0 = old(self).spec_item_types();
                let ts2 = final(self).spec_item_types();
                &&& ts2.len() == ts0.len() + 1
                &&& 0 <= ti < ts2.len()
                &&& ts2[ti].type_id == type_id
                &&& ts2[ti].num == 1
                &&& forall|t: int| 0 <= t < ti ==> (#[trigger] ts2[t]) == ts0[t]
                &&& forall|t: int|
                    ti < t < ts2.len() ==> (#[trigger] ts2[t]).type_id == ts0[t - 1].type_id
                        && ts2[t].num == ts0[t - 1].num && ts2[t].start == ts0[t - 1].start + 1
            },
            r is Ok && old(self).spec_has_type(type_id) ==> {
                let ti = old(self).spec_type_index(type_id);
                let ts0 = old(self).spec_item_types();
                let ts2 = final(self).spec_item_types();
                &&& ts2.len() == ts0.len()
                &&& 0 <= ti < ts2.len()
                &&& ts2[ti].type_id == type_id
                &&& ts2[ti].num == ts0[ti].num + 1
                &&& forall|t: int|
                    0 <= t < ts2.len() && t != ti ==> (#[trigger] ts2[t]).type_id == ts0[
                        t
                    ].type_id && ts2[t].num == ts0[t].num
                &&& forall|t: int| 0 <= t <= ti ==> (#[trigger] ts2[t]).start == ts0[t].start
                &&& forall|t: int|
                    ti < t < ts2.len() ==> (#[trigger] ts2[t]).start == ts0[t].start + 1
            },
    {
        let ghost ts0 = self.item_types@;
        let ghost its0 = self.spec_items();
        let (type_index, type_found) = self.get_item_type_index(type_id);
        let (item_index, item_found) = self.get_item_index(type_index, type_found, id);

        if item_found {
            proof {
                lemma_buf_sum_bounds(ts0, type_index as int);
                assert(its0[item_index as int].type_id == ts0[type_index as int].type_id);
                assert(self.spec_has_item(type_id, id));
            }
            return Err(());
        }
        proof {
            lemma_no_such_item(ts0, its0, type_id, id, type_index as int, type_found);
            if type_found {
                let ti = type_index as int;
                assert forall|k: int|
                    item_index <= k < ts0[ti].start + ts0[ti].num implies id < (
                #[trigger] its0[k]).id by {
                    assert(id <= its0[k].id);
                    assert(id != its0[k].id);
                }
            } else {
                assert forall|i: int|
                    type_index <= i < ts0.len() implies type_id < (#[trigger] ts0[i]).type_id by {
                    assert(type_id <= ts0[i].type_id);
                    assert(ts0[i].type_id != type_id);
                }
            }
        }
        self.insert_item_at(type_index, type_found, item_index, type_id, id, data);
        Ok(())
    }

    /// Perform the insertion that `add_item` decided on: create a fresh
    /// descriptor when the type is new, bump the matched descriptor's
    /// count, shift every later descriptor's start by one, and insert the
    /// item with a private copy of the payload.
    #[verifier::rlimit(100)]
    #[verifier::loop_isolation(false)]
    fn insert_item_at(
        &mut self,
        type_index: usize,
        type_found: bool,
        item_index: usize,
        type_id: u16,
        id: u16,
        data: &[i32],
    )
        requires
            old(self).wf(),
            old(self).spec_items().len() < usize::MAX - 1,
            ({
                let ts0 = old(self).spec_item_types();
                let its0 = old(self).spec_items();
                &&& type_index <= ts0.len()
                &&& (type_found ==> type_index < ts0.len() && ts0[type_index as int].type_id
                    == type_id)
                &&& (!type_found ==> forall|i: int|
                    type_index <= i < ts0.len() ==> type_id < (#[trigger] ts0[i]).type_id)
                &&& forall|i: int|
                    0 <= i < type_index ==> (#[trigger] ts0[i]).type_id < type_id
                &&& (type_found ==> ts0[type_index as int].start <= item_index <= ts0[
                    type_index as int
                ].start + ts0[type_index as int].num)
                &&& (type_found ==> forall|k: int|
                    ts0[type_index as int].start <= k < item_index ==> (#[trigger] its0[k]).id
                        < id)
                &&& (type_found ==> forall|k: int|
                    item_index <= k < ts0[type_index as int].start + ts0[type_index as int].num
                        ==> id < (#[trigger] its0[k]).id)
                &&& (!type_found && type_index < ts0.len() ==> item_index == ts0[
                    type_index as int
                ].start)
                &&& (!type_found && type_index == ts0.len() ==> item_index == its0.len())
            }),
        ensures
            final(self).wf(),
            final(self).spec_data() == old(self).spec_data(),
            final(self).spec_items() == old(self).spec_items().insert(
                item_index as int,
                BufItemModel { type_id, id, data: data@ },
            ),
            item_index <= old(self).spec_items().len(),
            final(self).spec_has_item(type_id, id),
            final(self).spec_has_type(type_id),
            !old(self).spec_has_type(type_id) ==> {
                let ti = final(self).spec_type_index(type_id);
                let ts0 = old(self).spec_item_types();
                let ts2 = final(self).spec_item_types();
                &&& ts2.len() == ts0.len() + 1
                &&& 0 <= ti < ts2.len()
                &&& ts2[ti].type_id == type_id
                &&& ts2[ti].num == 1
                &&& forall|t: int| 0 <= t < ti ==> (#[trigger] ts2[t]) == ts0[t]
                &&& forall|t: int|
                    ti < t < ts2.len() ==> (#[trigger] ts2[t]).type_id == ts0[t - 1].type_id
                        && ts2[t].num == ts0[t - 1].num && ts2[t].start == ts0[t - 1].start + 1
            },
            old(self).spec_has_type(type_id) ==> {
                let ti = old(self).spec_type_index(type_id);
                let ts0 = old(self).spec_item_types();
                let ts2 = final(self).spec_item_types();
                &&& ts2.len() == ts0.len()
                &&& 0 <= ti < ts2.len()
                &&& ts2[ti].type_id == type_id
                &&& ts2[ti].num == ts0[ti].num + 1
                &&& forall|t: int|
                    0 <= t < ts2.len() && t != ti ==> (#[trigger] ts2[t]).type_id == ts0[
                        t
                    ].type_id && ts2[t].num == ts0[t].num
                &&& forall|t: int| 0 <= t <= ti ==> (#[trigger] ts2[t]).start == ts0[t].start
                &&& forall|t: int|
                    ti < t < ts2.len() ==> (#[trigger] ts2[t]).start == ts0[t].start + 1
            },
    {
        let ghost ts0 = self.item_types@;
        let ghost its0 = self.spec_items();
        let ghost pre_items = self.items@;
        let ghost pre_data = self.data@;
        let ghost item_m = BufItemModel { type_id, id, data: data@ };
        let ghost p = item_index as int;
        let ghost ti = type_index as int;

        proof {
            lemma_buf_starts_bounded(ts0, its0);
            if type_found {
                lemma_buf_sum_bounds(ts0, ti);
                lemma_buf_sum_nonneg(ts0, ti);
            }
        }
        if !type_found {
            self.item_types.insert(
                type_index,
                DfBufItemType { type_id, start: item_index, num: 0 },
            );
            proof {
                ts0.insert_ensures(
                    type_index as int,
                    DfBufItemType { type_id, start: item_index, num: 0 },
                );
            }
        }
        let mut t0 = self.item_types[type_index];
        t0.num = t0.num + 1;
        self.item_types.set(type_index, t0);

        let n_types = self.item_types.len();
        let mut u = type_index + 1;
        while u < n_types
            invariant
                n_types == self.item_types@.len(),
                type_index < u <= n_types,
                type_found ==> n_types == ts0.len(),
                !type_found ==> n_types == ts0.len() + 1,
                type_found ==> forall|v: int|
                    0 <= v < ts0.len() && v != ti ==> (#[trigger] self.item_types@[v]).type_id
                        == ts0[v].type_id && self.item_types@[v].num == ts0[v].num,
                type_found ==> self.item_types@[ti].type_id == ts0[ti].type_id
                    && self.item_types@[ti].num == ts0[ti].num + 1 && self.item_types@[ti].start
                    == ts0[ti].start,
                type_found ==> forall|v: int|
                    0 <= v < u && v != ti ==> (#[trigger] self.item_types@[v]).start == ts0[
                        v
                    ].start + if ti < v {
                        1int
                    } else {
                        0int
                    },
                type_found ==> forall|v: int|
                    u <= v < n_types ==> (#[trigger] self.item_types@[v]).start == ts0[v].start,
                !type_found ==> forall|v: int|
                    0 <= v < ti ==> (#[trigger] self.item_types@[v]) == ts0[v],
                !type_found ==> self.item_types@[ti].type_id == type_id && self.item_types@[
                    ti
                ].num == 1 && self.item_types@[ti].start == item_index,
                !type_found ==> forall|v: int|
                    ti < v < n_types ==> (#[trigger] self.item_types@[v]).type_id == ts0[
                        v - 1
                    ].type_id && self.item_types@[v].num == ts0[v - 1].num,
                !type_found ==> forall|v: int|
                    ti < v < u ==> (#[trigger] self.item_types@[v]).start == ts0[v - 1].start + 1,
                !type_found ==> forall|v: int|
                    u <= v < n_types ==> (#[trigger] self.item_types@[v]).start == ts0[
                        v - 1
                    ].start,
                self.items@ == pre_items,
                self.data@ == pre_data,
            decreases n_types - u,
        {
            let mut tu = self.item_types[u];
            tu.start = tu.start + 1;
            self.item_types.set(u, tu);
            u = u + 1;
        }

        let payload = vstd::slice::slice_to_vec(data);
        proof {
            assert(its0.len() == pre_items.len());
            assert(item_index as int <= self.items@.len());
        }
        self.items.insert(item_index, DfBufItem { type_id, id, data: payload });
        proof {
            lemma_model_insert_pointwise(
                pre_items,
                self.items@,
                p,
                DfBufItem { type_id, id, data: payload },
            );
            let its2 = self.spec_items();
            let ts2 = self.item_types@;
            if type_found {
                lemma_insert_existing_type(ts0, its0, ts2, its2, ti, p, item_m);
            } else {
                lemma_insert_new_type(ts0, its0, ts2, its2, ti, p, item_m);
            }
            if type_found {
                old(self).lemma_type_index_is(ti, type_id);
            } else {
                if old(self).spec_has_type(type_id) {
                    let t2 = old(self).spec_type_index(type_id);
                    assert(0 <= t2 < ts0.len() && ts0[t2].type_id == type_id);
                    assert(false);
                }
            }
            assert(self.spec_item_types()[ti].type_id == type_id);
            self.lemma_type_index_is(ti, type_id);
        }
    }
}

/// Any item index below `buf_start_sum(ts, i)` lies in the run of one of
/// the first `i` descriptors.
proof fn lemma_buf_covering(ts: Seq<DfBufItemType>, i: int, k: int)
    requires
        forall|j: int| 0 <= j < ts.len() ==> (#[trigger] ts[j]).start == buf_start_sum(ts, j),
        forall|j: int| 0 <= j < ts.len() ==> (#[trigger] ts[j]).num >= 0,
        0 <= i <= ts.len(),
        0 <= k < buf_start_sum(ts, i),
    ensures
        exists|t: int| 0 <= t < i && (#[trigger] ts[t]).start <= k < ts[t].start + ts[t].num,
    decreases i,
{
    assert(i > 0);
    if k < buf_start_sum(ts, i - 1) {
        lemma_buf_covering(ts, i - 1, k);
        let t = choose|t: int|
            0 <= t < i - 1 && (#[trigger] ts[t]).start <= k < ts[t].start + ts[t].num;
        assert(0 <= t < i && (#[trigger] ts[t]).start <= k < ts[t].start + ts[t].num);
    } else {
        assert(ts[i - 1].start <= k < ts[i - 1].start + ts[i - 1].num);
    }
}

impl DatafileBuffer {
    pub fn num_item_types(&self) -> (r: usize)
        ensures
            r == self.spec_item_types().len(),
    {
        self.item_types.len()
    }

    /// Type id, start and count of type descriptor `index`.
    pub fn item_type(&self, index: usize) -> (r: (u16, usize, usize))
        requires
            index < self.spec_item_types().len(),
        ensures
            r.0 == self.spec_item_types()[index as int].type_id,
            r.1 == self.spec_item_types()[index as int].start,
            r.2 == self.spec_item_types()[index as int].num,
    {
        let t = self.item_types[index];
        (t.type_id, t.start, t.num)
    }

    pub fn num_items(&self) -> (r: usize)
        ensures
            r == self.spec_items().len(),
    {
        self.items.len()
    }

    /// Type id, id and a copy of the payload of item `index`.
    pub fn item(&self, index: usize) -> (r: (u16, u16, Vec<i32>))
        requires
            index < self.spec_items().len(),
        ensures
            r.0 == self.spec_items()[index as int].type_id,
            r.1 == self.spec_items()[index as int].id,
            r.2@ == self.spec_items()[index as int].data,
    {
        let it = &self.items[index];
        (it.type_id, it.id, vstd::slice::slice_to_vec(it.data.as_slice()))
    }

    pub fn num_data(&self) -> (r: usize)
        ensures
            r == self.spec_data().len(),
    {
        self.data.len()
    }

    /// Borrow data blob `index`.
    pub fn data_noerr(&self, index: usize) -> (r: &Vec<u8>)
        requires
            index < self.spec_data().len(),
        ensures
            r@ == self.spec_data()[index as int],
    {
        &self.data[index]
    }

    /// Copies of all data blobs, in insertion order.
    pub fn data_noerr_iter(&self) -> (r: Vec<Vec<u8>>)
        ensures
            r@.len() == self.spec_data().len(),
            forall|i: int|
                0 <= i < r@.len() ==> (#[trigger] r@[i])@ == self.spec_data()[i],
    {
        let n = self.data.len();
        let mut r: Vec<Vec<u8>> = Vec::new();
        let mut i: usize = 0;
        while i < n
            invariant
                n == self.spec_data().len(),
                i <= n,
                r@.len() == i,
                forall|j: int| 0 <= j < i ==> (#[trigger] r@[j])@ == self.spec_data()[j],
            decreases n - i,
        {
            r.push(vstd::slice::slice_to_vec(self.data[i].as_slice()));
            i = i + 1;
        }
        r
    }

    /// Append a data blob and return its index: dense, zero-based, one more
    /// than the previous call's.
    pub fn add_data(&mut self, data: Vec<u8>) -> (r: usize)
        ensures
            r == old(self).spec_data().len(),
            final(self).spec_data() == old(self).spec_data().push(data@),
            final(self).spec_items() == old(self).spec_items(),
            final(self).spec_item_types() == old(self).spec_item_types(),
            old(self).wf() ==> final(self).wf(),
    {
        let ghost d0 = self.spec_data();
        self.data.push(data);
        proof {
            assert(self.spec_data() =~= d0.push(data@));
        }
        self.data.len() - 1
    }
}

/// Data blob indices are dense and start at zero: the index `add_data`
/// returns equals the count of blobs stored before the call, so successive
/// calls return strictly increasing indices, and the blob then found at
/// that index is exactly the one handed in.
pub proof fn lemma_add_data_indices(b0: DatafileBuffer, b1: DatafileBuffer, d: Seq<u8>, r: usize)
    requires
        b1.spec_data() == b0.spec_data().push(d),
        r == b0.spec_data().len(),
    ensures
        r + 1 == b1.spec_data().len(),
        b1.spec_data()[r as int] == d,
{
}

/// In a well-formed buffer every descriptor's start lies strictly below
/// the item count.
proof fn lemma_buf_starts_bounded(ts: Seq<DfBufItemType>, its: Seq<BufItemModel>)
    requires
        buf_tables_wf(ts, its),
    ensures
        forall|v: int| 0 <= v < ts.len() ==> (#[trigger] ts[v]).start + 1 <= its.len(),
{
    assert forall|v: int| 0 <= v < ts.len() implies (#[trigger] ts[v]).start + 1 <= its.len() by {
        lemma_buf_sum_bounds(ts, v);
    }
}

/// Inserting a buffered item and taking models commutes, pointwise and as
/// a whole.
proof fn lemma_model_insert_pointwise(pre: Seq<DfBufItem>, post: Seq<DfBufItem>, p: int, it: DfBufItem)
    requires
        0 <= p <= pre.len(),
        post == pre.insert(p, it),
    ensures
        insert_pointwise(buf_items_model(pre), buf_items_model(post), p, buf_item_model(it)),
        buf_items_model(post) == buf_items_model(pre).insert(p, buf_item_model(it)),
{
    pre.insert_ensures(p, it);
    assert forall|k: int| 0 <= k < p implies (#[trigger] buf_items_model(post)[k])
        == buf_items_model(pre)[k] by {
        assert(post[k] == pre[k]);
    }
    assert forall|k: int| p < k < post.len() implies (#[trigger] buf_items_model(post)[k])
        == buf_items_model(pre)[k - 1] by {
        assert(post[k] == pre[k - 1]);
    }
    buf_items_model(pre).insert_ensures(p, buf_item_model(it));
    assert(buf_items_model(post) =~= buf_items_model(pre).insert(p, buf_item_model(it)));
}

/// When the searches found no (type id, id) match, no item carries that
/// pair: a matching item would lie in some run, that run would be the
/// type's own, and the id scan would have found it.
proof fn lemma_no_such_item(
    ts0: Seq<DfBufItemType>,
    its0: Seq<BufItemModel>,
    type_id: u16,
    id: u16,
    type_index: int,
    type_found: bool,
)
    requires
        buf_tables_wf(ts0, its0),
        type_found ==> 0 <= type_index < ts0.len() && ts0[type_index].type_id == type_id,
        !type_found ==> forall|i: int|
            0 <= i < ts0.len() ==> (#[trigger] ts0[i]).type_id != type_id,
        type_found ==> forall|k: int|
            ts0[type_index].start <= k < ts0[type_index].start + ts0[type_index].num ==> id != (
            #[trigger] its0[k]).id,
    ensures
        !(exists|k: int|
            0 <= k < its0.len() && (#[trigger] its0[k]).type_id == type_id && its0[k].id == id),
{
    if exists|k: int|
        0 <= k < its0.len() && (#[trigger] its0[k]).type_id == type_id && its0[k].id == id {
        let k = choose|k: int|
            0 <= k < its0.len() && (#[trigger] its0[k]).type_id == type_id && its0[k].id == id;
        assert forall|v: int| 0 <= v < ts0.len() implies (#[trigger] ts0[v]).num >= 0 by {
            assert(ts0[v].num >= 1);
        }
        lemma_buf_covering(ts0, ts0.len() as int, k);
        let t = choose|t: int|
            0 <= t < ts0.len() && (#[trigger] ts0[t]).start <= k < ts0[t].start + ts0[t].num;
        assert(its0[k].type_id == ts0[t].type_id);
        if type_found {
            if t < type_index {
                assert(ts0[t].type_id < ts0[type_index].type_id);
            } else if t > type_index {
                assert(ts0[type_index].type_id < ts0[t].type_id);
            }
            assert(t == type_index);
            assert(its0[k].id != id);
        } else {
            assert(ts0[t].type_id != type_id);
        }
        assert(false);
    }
}

/// A running sum of counts that are at least one is non-negative.
proof fn lemma_buf_sum_nonneg(types: Seq<DfBufItemType>, i: int)
    requires
        0 <= i <= types.len(),
    ensures
        buf_start_sum(types, i) >= 0,
    decreases i,
{
    if i > 0 {
        lemma_buf_sum_nonneg(types, i - 1);
    }
}

/// The running sum is monotone in its index.
proof fn lemma_buf_sum_monotone(types: Seq<DfBufItemType>, i: int, j: int)
    requires
        0 <= i <= j <= types.len(),
        forall|v: int| 0 <= v < types.len() ==> (#[trigger] types[v]).num >= 0,
    ensures
        buf_start_sum(types, i) <= buf_start_sum(types, j),
    decreases j - i,
{
    if i < j {
        lemma_buf_sum_monotone(types, i, j - 1);
    }
}

/// For a well-formed table, a type's run lies inside the item list.
proof fn lemma_buf_sum_bounds(types: Seq<DfBufItemType>, t: int)
    requires
        0 <= t < types.len(),
        forall|i: int| 0 <= i < types.len() ==> (#[trigger] types[i]).start == buf_start_sum(
            types,
            i,
        ),
        forall|i: int| 0 <= i < types.len() ==> (#[trigger] types[i]).num >= 1,
    ensures
        0 <= types[t].start,
        types[t].start + types[t].num == buf_start_sum(types, t + 1),
        types[t].start + types[t].num <= buf_start_sum(types, types.len() as int),
    decreases t,
{
    lemma_buf_sum_nonneg(types, t);
    assert forall|v: int| 0 <= v < types.len() implies (#[trigger] types[v]).num >= 0 by {
        assert(types[v].num >= 1);
    }
    lemma_buf_sum_monotone(types, t + 1, types.len() as int);
}


/// Bumping one descriptor's count by one shifts the running sum by one
/// past that descriptor.
proof fn lemma_sum_bump(ts0: Seq<DfBufItemType>, ts2: Seq<DfBufItemType>, ti: int, v: int)
    requires
        ts2.len() == ts0.len(),
        0 <= ti < ts0.len(),
        forall|j: int| 0 <= j < ts0.len() && j != ti ==> (#[trigger] ts2[j]).num == ts0[j].num,
        ts2[ti].num == ts0[ti].num + 1,
        0 <= v <= ts0.len(),
    ensures
        buf_start_sum(ts2, v) == buf_start_sum(ts0, v) + if v > ti {
            1int
        } else {
            0int
        },
    decreases v,
{
    if v > 0 {
        lemma_sum_bump(ts0, ts2, ti, v - 1);
    }
}

/// Inserting a descriptor with count one shifts the running sum by one
/// past the insertion point.
proof fn lemma_sum_insert(ts0: Seq<DfBufItemType>, ts2: Seq<DfBufItemType>, ti: int, v: int)
    requires
        ts2.len() == ts0.len() + 1,
        0 <= ti <= ts0.len(),
        forall|j: int| 0 <= j < ti ==> (#[trigger] ts2[j]).num == ts0[j].num,
        ts2[ti].num == 1,
        forall|j: int| ti < j < ts2.len() ==> (#[trigger] ts2[j]).num == ts0[j - 1].num,
        0 <= v <= ts2.len(),
    ensures
        buf_start_sum(ts2, v) == if v <= ti {
            buf_start_sum(ts0, v)
        } else {
            buf_start_sum(ts0, v - 1) + 1
        },
    decreases v,
{
    if v > 0 {
        lemma_sum_insert(ts0, ts2, ti, v - 1);
    }
}

/// The new item list equals the old one with `item` inserted at `p`.
pub open spec fn insert_pointwise(
    its0: Seq<BufItemModel>,
    its2: Seq<BufItemModel>,
    p: int,
    item: BufItemModel,
) -> bool {
    &&& its2.len() == its0.len() + 1
    &&& forall|k: int| 0 <= k < p ==> (#[trigger] its2[k]) == its0[k]
    &&& its2[p] == item
    &&& forall|k: int| p < k < its2.len() ==> (#[trigger] its2[k]) == its0[k - 1]
}

/// Shape of an insertion into the run of the existing descriptor `ti`, at
/// item position `p` chosen so ids stay ascending: the item list gains the
/// item at `p`, descriptor `ti` counts one more, and every later
/// descriptor starts one later.
pub open spec fn existing_type_step(
    ts0: Seq<DfBufItemType>,
    its0: Seq<BufItemModel>,
    ts2: Seq<DfBufItemType>,
    its2: Seq<BufItemModel>,
    ti: int,
    p: int,
    item: BufItemModel,
) -> bool {
    &&& buf_tables_wf(ts0, its0)
    &&& 0 <= ti < ts0.len()
    &&& ts0[ti].type_id == item.type_id
    &&& ts0[ti].start <= p <= ts0[ti].start + ts0[ti].num
    &&& forall|k: int| ts0[ti].start <= k < p ==> (#[trigger] its0[k]).id < item.id
    &&& forall|k: int| p <= k < ts0[ti].start + ts0[ti].num ==> item.id < (#[trigger] its0[k]).id
    &&& insert_pointwise(its0, its2, p, item)
    &&& ts2.len() == ts0.len()
    &&& forall|v: int|
        0 <= v < ts0.len() && v != ti ==> (#[trigger] ts2[v]).type_id == ts0[v].type_id && ts2[
            v
        ].num == ts0[v].num
    &&& ts2[ti].type_id == ts0[ti].type_id
    &&& ts2[ti].num == ts0[ti].num + 1
    &&& forall|v: int| 0 <= v <= ti ==> (#[trigger] ts2[v]).start == ts0[v].start
    &&& forall|v: int| ti < v < ts0.len() ==> (#[trigger] ts2[v]).start == ts0[v].start + 1
}

/// After an existing-type insertion, every item carries its run's type id.
#[verifier::rlimit(100)]
proof fn lemma_existing_types_agree(
    ts0: Seq<DfBufItemType>,
    its0: Seq<BufItemModel>,
    ts2: Seq<DfBufItemType>,
    its2: Seq<BufItemModel>,
    ti: int,
    p: int,
    item: BufItemModel,
)
    requires
        existing_type_step(ts0, its0, ts2, its2, ti, p, item),
    ensures
        forall|t: int, k: int|
            0 <= t < ts2.len() && (#[trigger] ts2[t]).start <= k < ts2[t].start + ts2[t].num
                ==> (#[trigger] its2[k]).type_id == ts2[t].type_id,
{
    assert forall|v: int| 0 <= v < ts0.len() implies (#[trigger] ts0[v]).num >= 0 by {
        assert(ts0[v].num >= 1);
    }
    lemma_buf_sum_bounds(ts0, ti);
    assert forall|t: int, k: int|
        0 <= t < ts2.len() && (#[trigger] ts2[t]).start <= k < ts2[t].start + ts2[t].num implies (
    #[trigger] its2[k]).type_id == ts2[t].type_id by {
        if t < ti {
            lemma_buf_sum_monotone(ts0, t + 1, ti);
            lemma_buf_sum_bounds(ts0, t);
            assert(k < p);
            assert(its2[k] == its0[k]);
            assert(its0[k].type_id == ts0[t].type_id);
        } else if t == ti {
            if k < p {
                assert(its2[k] == its0[k]);
                assert(its0[k].type_id == ts0[t].type_id);
            } else if k == p {
                assert(its2[k] == item);
            } else {
                assert(its2[k] == its0[k - 1]);
                assert(its0[k - 1].type_id == ts0[t].type_id);
            }
        } else {
            lemma_buf_sum_monotone(ts0, ti + 1, t);
            lemma_buf_sum_bounds(ts0, ti);
            lemma_buf_sum_bounds(ts0, t);
            assert(ts0[t].start >= ts0[ti].start + ts0[ti].num);
            assert(k > p);
            assert(its2[k] == its0[k - 1]);
            assert(its0[k - 1].type_id == ts0[t].type_id);
        }
    }
}

/// After an existing-type insertion, ids still ascend within every run.
#[verifier::rlimit(100)]
proof fn lemma_existing_ids_sorted(
    ts0: Seq<DfBufItemType>,
    its0: Seq<BufItemModel>,
    ts2: Seq<DfBufItemType>,
    its2: Seq<BufItemModel>,
    ti: int,
    p: int,
    item: BufItemModel,
)
    requires
        existing_type_step(ts0, its0, ts2, its2, ti, p, item),
    ensures
        forall|t: int, k1: int, k2: int|
            0 <= t < ts2.len() && (#[trigger] ts2[t]).start <= k1 < k2 < ts2[t].start + ts2[t].num
                ==> (#[trigger] its2[k1]).id < (#[trigger] its2[k2]).id,
{
    assert forall|v: int| 0 <= v < ts0.len() implies (#[trigger] ts0[v]).num >= 0 by {
        assert(ts0[v].num >= 1);
    }
    lemma_buf_sum_bounds(ts0, ti);
    assert forall|t: int, k1: int, k2: int|
        0 <= t < ts2.len() && (#[trigger] ts2[t]).start <= k1 < k2 < ts2[t].start + ts2[t].num
        implies (#[trigger] its2[k1]).id < (#[trigger] its2[k2]).id by {
        if t < ti {
            lemma_buf_sum_monotone(ts0, t + 1, ti);
            lemma_buf_sum_bounds(ts0, t);
            assert(its2[k1] == its0[k1] && its2[k2] == its0[k2]);
        } else if t == ti {
            let lo = ts0[ti].start;
            let hi = ts0[ti].start + ts0[ti].num;
            if k2 < p {
                assert(its2[k1] == its0[k1] && its2[k2] == its0[k2]);
            } else if k1 < p && k2 == p {
                assert(its2[k1] == its0[k1] && its2[k2] == item);
            } else if k1 < p {
                assert(its2[k1] == its0[k1] && its2[k2] == its0[k2 - 1]);
                if k2 - 1 < p {
                    assert(its0[k1].id < its0[k2 - 1].id);
                } else {
                    assert(its0[k1].id < item.id);
                    assert(item.id < its0[k2 - 1].id);
                }
            } else if k1 == p {
                assert(its2[k1] == item && its2[k2] == its0[k2 - 1]);
                assert(item.id < its0[k2 - 1].id);
            } else {
                assert(its2[k1] == its0[k1 - 1] && its2[k2] == its0[k2 - 1]);
                assert(lo <= k1 - 1 < k2 - 1 < hi);
            }
        } else {
            lemma_buf_sum_monotone(ts0, ti + 1, t);
            lemma_buf_sum_bounds(ts0, ti);
            lemma_buf_sum_bounds(ts0, t);
            assert(k1 > p && k2 > p);
            assert(its2[k1] == its0[k1 - 1] && its2[k2] == its0[k2 - 1]);
        }
    }
}

/// Inserting an item into the run of an existing descriptor, at a position
/// that keeps ids ascending, preserves the tables' invariant.
#[verifier::rlimit(100)]
proof fn lemma_insert_existing_type(
    ts0: Seq<DfBufItemType>,
    its0: Seq<BufItemModel>,
    ts2: Seq<DfBufItemType>,
    its2: Seq<BufItemModel>,
    ti: int,
    p: int,
    item: BufItemModel,
)
    requires
        existing_type_step(ts0, its0, ts2, its2, ti, p, item),
    ensures
        buf_tables_wf(ts2, its2),
{
    assert forall|v: int| 0 <= v < ts0.len() implies (#[trigger] ts0[v]).num >= 0 by {
        assert(ts0[v].num >= 1);
    }
    assert forall|v: int| 0 <= v < ts2.len() implies (#[trigger] ts2[v]).start == buf_start_sum(
        ts2,
        v,
    ) by {
        lemma_sum_bump(ts0, ts2, ti, v);
        assert(ts0[v].start == buf_start_sum(ts0, v));
    }
    assert(buf_start_sum(ts2, ts2.len() as int) == its2.len()) by {
        lemma_sum_bump(ts0, ts2, ti, ts0.len() as int);
    }
    lemma_existing_types_agree(ts0, its0, ts2, its2, ti, p, item);
    lemma_existing_ids_sorted(ts0, its0, ts2, its2, ti, p, item);
}

/// Inserting a fresh descriptor with a single item, at the position that
/// keeps type ids sorted, preserves the tables' invariant.
#[verifier::rlimit(100)]
proof fn lemma_insert_new_type(
    ts0: Seq<DfBufItemType>,
    its0: Seq<BufItemModel>,
    ts2: Seq<DfBufItemType>,
    its2: Seq<BufItemModel>,
    ti: int,
    p: int,
    item: BufItemModel,
)
    requires
        buf_tables_wf(ts0, its0),
        0 <= ti <= ts0.len(),
        forall|i: int| 0 <= i < ti ==> (#[trigger] ts0[i]).type_id < item.type_id,
        forall|i: int| ti <= i < ts0.len() ==> item.type_id < (#[trigger] ts0[i]).type_id,
        p == if ti < ts0.len() {
            ts0[ti].start as int
        } else {
            its0.len() as int
        },
        its2.len() == its0.len() + 1,
        forall|k: int| 0 <= k < p ==> (#[trigger] its2[k]) == its0[k],
        its2[p] == item,
        forall|k: int| p < k < its2.len() ==> (#[trigger] its2[k]) == its0[k - 1],
        ts2.len() == ts0.len() + 1,
        forall|v: int| 0 <= v < ti ==> (#[trigger] ts2[v]) == ts0[v],
        ts2[ti].type_id == item.type_id,
        ts2[ti].start == p,
        ts2[ti].num == 1,
        forall|v: int|
            ti < v < ts2.len() ==> (#[trigger] ts2[v]).type_id == ts0[v - 1].type_id && ts2[
                v
            ].num == ts0[v - 1].num && ts2[v].start == ts0[v - 1].start + 1,
    ensures
        buf_tables_wf(ts2, its2),
{
    assert(0 <= p <= its0.len()) by {
        if ti < ts0.len() {
            lemma_buf_sum_bounds(ts0, ti);
            lemma_buf_sum_nonneg(ts0, ti);
        }
    }
    assert forall|v: int| 0 <= v < ts0.len() implies (#[trigger] ts0[v]).num >= 0 by {
        assert(ts0[v].num >= 1);
    }
    assert(p == buf_start_sum(ts0, ti));
    assert forall|i: int, j: int|
        0 <= i < j < ts2.len() implies (#[trigger] ts2[i]).type_id < (
    #[trigger] ts2[j]).type_id by {
        if j < ti {
        } else if j == ti {
            assert(ts2[i] == ts0[i]);
        } else if i == ti {
            assert(item.type_id < ts0[j - 1].type_id);
        } else if i < ti {
            assert(ts2[i] == ts0[i]);
            assert(ts0[i].type_id < item.type_id);
            assert(item.type_id < ts0[j - 1].type_id);
        } else {
            assert(ts0[i - 1].type_id < ts0[j - 1].type_id);
        }
    }
    assert forall|v: int| 0 <= v < ts2.len() implies (#[trigger] ts2[v]).start == buf_start_sum(
        ts2,
        v,
    ) by {
        lemma_sum_insert(ts0, ts2, ti, v);
        if v < ti {
            assert(ts0[v].start == buf_start_sum(ts0, v));
        } else if v > ti {
            assert(ts0[v - 1].start == buf_start_sum(ts0, v - 1));
        }
    }
    assert(buf_start_sum(ts2, ts2.len() as int) == its2.len()) by {
        lemma_sum_insert(ts0, ts2, ti, ts2.len() as int);
    }
    assert forall|t: int, k: int|
        0 <= t < ts2.len() && (#[trigger] ts2[t]).start <= k < ts2[t].start + ts2[t].num implies (
    #[trigger] its2[k]).type_id == ts2[t].type_id by {
        if t < ti {
            lemma_buf_sum_monotone(ts0, t + 1, ti);
            lemma_buf_sum_bounds(ts0, t);
            assert(k < p);
            assert(its2[k] == its0[k]);
            assert(its0[k].type_id == ts0[t].type_id);
        } else if t == ti {
            assert(k == p);
            assert(its2[k] == item);
        } else {
            lemma_buf_sum_monotone(ts0, ti, t - 1);
            lemma_buf_sum_bounds(ts0, t - 1);
            assert(ts0[t - 1].start >= p);
            assert(k > p);
            assert(its2[k] == its0[k - 1]);
            assert(its0[k - 1].type_id == ts0[t - 1].type_id);
        }
    }
    assert forall|t: int, k1: int, k2: int|
        0 <= t < ts2.len() && (#[trigger] ts2[t]).start <= k1 < k2 < ts2[t].start + ts2[t].num
        implies (#[trigger] its2[k1]).id < (#[trigger] its2[k2]).id by {
        if t < ti {
            lemma_buf_sum_monotone(ts0, t + 1, ti);
            lemma_buf_sum_bounds(ts0, t);
            assert(its2[k1] == its0[k1] && its2[k2] == its0[k2]);
        } else if t == ti {
            assert(false);
        } else {
            lemma_buf_sum_monotone(ts0, ti, t - 1);
            lemma_buf_sum_bounds(ts0, t - 1);
            assert(k1 > p && k2 > p);
            assert(its2[k1] == its0[k1 - 1] && its2[k2] == its0[k2 - 1]);
        }
    }
}

} // verus!
