//! The metadata store: the sector table and the order-to-placement table,
//! changed together so that every sector's used capacity is the sum of the
//! lengths placed in it.

use vstd::prelude::*;
use crate::error::IpseError;
use crate::sector::{
    SectorInfo, SectorTable, SECTOR_SIZE, capacities_in_range, numbered_in_order, remains_of, first_fit, allocatable, reserve,
    release, lemma_first_fit, lemma_reserve_in_range,
};

verus! {

/// One row of the placement table: where the content of an order lies.
#[derive(Debug, Clone, PartialEq, Eq)]
pub struct DataInfo {
    pub order: u64,
    pub sector: u64,
    pub length: u64,
    /// The content-store handle; in IPFS, the hash.
    pub file_url: String,
}

/// What a placement row records.
pub struct Placement {
    pub order: u64,
    pub sector: u64,
    pub length: u64,
    pub handle: Seq<char>,
}

impl View for DataInfo {
    type V = Placement;

    open spec fn view(&self) -> Placement {
        Placement {
            order: self.order,
            sector: self.sector,
            length: self.length,
            handle: self.file_url@,
        }
    }
}

/// The state of the metadata store: remaining capacity of sector `i + 1` at
/// index `i`, and the placement rows.
pub struct MetaView {
    pub remains: Seq<int>,
    pub rows: Seq<Placement>,
}

/// Sum of the lengths of the rows placed in `sector`.
pub open spec fn used(rows: Seq<Placement>, sector: int) -> int
    decreases rows.len(),
{
    if rows.len() == 0 {
        0
    } else {
        used(rows.drop_last(), sector) + if rows.last().sector == sector {
            rows.last().length as int
        } else {
            0
        }
    }
}

/// Whether a row exists for `order`.
pub open spec fn has_order(rows: Seq<Placement>, order: u64) -> bool {
    exists|i: int| 0 <= i < rows.len() && (#[trigger] rows[i]).order == order
}

/// Whether some row refers to `handle`.
pub open spec fn handle_used(rows: Seq<Placement>, handle: Seq<char>) -> bool {
    exists|i: int| 0 <= i < rows.len() && (#[trigger] rows[i]).handle == handle
}

/// At most one row per order.
pub open spec fn orders_unique(rows: Seq<Placement>) -> bool {
    forall|i: int, j: int|
        0 <= i < rows.len() && 0 <= j < rows.len() && i != j ==> (#[trigger] rows[i]).order
            != (#[trigger] rows[j]).order
}

/// Every sector's used capacity, `SECTOR_SIZE - remaining`, is the sum of the
/// lengths of the rows placed in it.
pub open spec fn capacity_accounted(v: MetaView) -> bool {
    forall|s: int|
        1 <= s <= v.remains.len() ==> SECTOR_SIZE - v.remains[s - 1] == #[trigger] used(v.rows, s)
}

/// The invariant of the metadata store.
pub open spec fn meta_wf(v: MetaView) -> bool {
    &&& capacities_in_range(v.remains)
    &&& v.remains.len() < u64::MAX
    &&& orders_unique(v.rows)
    &&& forall|i: int| 0 <= i < v.rows.len() ==> 1 <= (#[trigger] v.rows[i]).sector <= v.remains.len()
    &&& capacity_accounted(v)
}

/// The state after placing `length` bytes of `order` under `handle`.
pub open spec fn placed(v: MetaView, order: u64, length: u64, handle: Seq<char>) -> MetaView {
    MetaView {
        remains: reserve(v.remains, length as int),
        rows: v.rows.push(
            Placement {
                order,
                sector: (first_fit(v.remains, length as int) + 1) as u64,
                length,
                handle,
            },
        ),
    }
}

/// Index of the row of `order`, when there is one.
pub open spec fn row_of(rows: Seq<Placement>, order: u64) -> int {
    choose|i: int| 0 <= i < rows.len() && (#[trigger] rows[i]).order == order
}

/// The state after removing the row of `order` and giving its space back; the
/// same state when there is no such row.
pub open spec fn unplaced(v: MetaView, order: u64) -> MetaView {
    if has_order(v.rows, order) {
        let p = v.rows[row_of(v.rows, order)];
        MetaView {
            remains: release(v.remains, p.sector as int, p.length as int),
            rows: v.rows.remove(row_of(v.rows, order)),
        }
    } else {
        v
    }
}

proof fn lemma_used_push(rows: Seq<Placement>, p: Placement, s: int)
    ensures
        used(rows.push(p), s) == used(rows, s) + if p.sector == s {
            p.length as int
        } else {
            0
        },
{
    assert(rows.push(p).drop_last() =~= rows);
}

proof fn lemma_used_nonneg(rows: Seq<Placement>, s: int)
    ensures
        used(rows, s) >= 0,
    decreases rows.len(),
{
    if rows.len() > 0 {
        lemma_used_nonneg(rows.drop_last(), s);
    }
}

proof fn lemma_used_absent(rows: Seq<Placement>, s: int)
    requires
        forall|i: int| 0 <= i < rows.len() ==> (#[trigger] rows[i]).sector != s,
    ensures
        used(rows, s) == 0,
    decreases rows.len(),
{
    if rows.len() > 0 {
        lemma_used_absent(rows.drop_last(), s);
    }
}

proof fn lemma_used_prefix(rows: Seq<Placement>, j: int, s: int)
    requires
        0 <= j <= rows.len(),
    ensures
        used(rows.take(j), s) <= used(rows, s),
    decreases rows.len(),
{
    if j == rows.len() {
        assert(rows.take(j) =~= rows);
    } else {
        lemma_used_prefix(rows.drop_last(), j, s);
        assert(rows.drop_last().take(j) =~= rows.take(j));
    }
}

proof fn lemma_used_remove(rows: Seq<Placement>, i: int, s: int)
    requires
        0 <= i < rows.len(),
    ensures
        used(rows.remove(i), s) == used(rows, s) - if rows[i].sector == s {
            rows[i].length as int
        } else {
            0
        },
    decreases rows.len(),
{
    if i == rows.len() - 1 {
        assert(rows.remove(i) =~= rows.drop_last());
    } else {
        lemma_used_remove(rows.drop_last(), i, s);
        assert(rows.remove(i).drop_last() =~= rows.drop_last().remove(i));
        assert(rows.remove(i).last() == rows.last());
    }
}

/// Placing a new order keeps the invariant.
pub proof fn lemma_placed_wf(v: MetaView, order: u64, length: u64, handle: Seq<char>)
    requires
        meta_wf(v),
        !has_order(v.rows, order),
        allocatable(v.remains, length as int),
    ensures
        meta_wf(placed(v, order, length, handle)),
{
    let w = placed(v, order, length, handle);
    let f = first_fit(v.remains, length as int);
    let p = w.rows.last();
    lemma_first_fit(v.remains, length as int);
    lemma_reserve_in_range(v.remains, length as int);
    assert(w.rows == v.rows.push(p));
    assert forall|i: int, j: int|
        0 <= i < w.rows.len() && 0 <= j < w.rows.len() && i != j implies (#[trigger] w.rows[i]).order
        != (#[trigger] w.rows[j]).order by {
        if i == v.rows.len() {
            assert(v.rows[j] == w.rows[j]);
        } else if j == v.rows.len() {
            assert(v.rows[i] == w.rows[i]);
        } else {
            assert(v.rows[i] == w.rows[i] && v.rows[j] == w.rows[j]);
        }
    }
    assert forall|i: int| 0 <= i < w.rows.len() implies 1 <= (#[trigger] w.rows[i]).sector
        <= w.remains.len() by {
        if i < v.rows.len() {
            assert(v.rows[i] == w.rows[i]);
        }
    }
    assert forall|s: int| 1 <= s <= w.remains.len() implies SECTOR_SIZE - w.remains[s - 1]
        == #[trigger] used(w.rows, s) by {
        lemma_used_push(v.rows, p, s);
        if s == v.remains.len() + 1 {
            assert forall|i: int| 0 <= i < v.rows.len() implies (#[trigger] v.rows[i]).sector
                != s by {}
            lemma_used_absent(v.rows, s);
        }
    }
}

/// Removing an order's row and freeing its space keeps the invariant.
pub proof fn lemma_unplaced_wf(v: MetaView, order: u64)
    requires
        meta_wf(v),
    ensures
        meta_wf(unplaced(v, order)),
        has_order(v.rows, order) ==> v.rows[row_of(v.rows, order)].length
            + v.remains[v.rows[row_of(v.rows, order)].sector - 1] <= SECTOR_SIZE,
{
    if has_order(v.rows, order) {
        let k = row_of(v.rows, order);
        let p = v.rows[k];
        let w = unplaced(v, order);
        lemma_used_remove(v.rows, k, p.sector as int);
        lemma_used_nonneg(v.rows.remove(k), p.sector as int);
        assert(used(v.rows, p.sector as int) == SECTOR_SIZE - v.remains[p.sector - 1]);
        assert forall|i: int, j: int|
            0 <= i < w.rows.len() && 0 <= j < w.rows.len() && i != j implies (#[trigger] w.rows[i]).order
            != (#[trigger] w.rows[j]).order by {
            let i0 = if i < k { i } else { i + 1 };
            let j0 = if j < k { j } else { j + 1 };
            assert(w.rows[i] == v.rows[i0] && w.rows[j] == v.rows[j0]);
        }
        assert forall|i: int| 0 <= i < w.rows.len() implies 1 <= (#[trigger] w.rows[i]).sector
            <= w.remains.len() by {
            let i0 = if i < k { i } else { i + 1 };
            assert(w.rows[i] == v.rows[i0]);
        }
        assert forall|s: int| 1 <= s <= w.remains.len() implies SECTOR_SIZE - w.remains[s - 1]
            == #[trigger] used(w.rows, s) by {
            lemma_used_remove(v.rows, k, s);
        }
    }
}

/// Deleting twice is deleting once: after the first removal no row is left
/// for the order, so the second finds nothing to remove and changes nothing.
pub proof fn lemma_delete_idempotent(v: MetaView, order: u64)
    requires
        meta_wf(v),
    ensures
        !has_order(unplaced(v, order).rows, order),
        unplaced(unplaced(v, order), order) == unplaced(v, order),
{
    if has_order(v.rows, order) {
        let k = row_of(v.rows, order);
        let w = unplaced(v, order);
        if has_order(w.rows, order) {
            let i = choose|i: int| 0 <= i < w.rows.len() && (#[trigger] w.rows[i]).order == order;
            let i0 = if i < k { i } else { i + 1 };
            assert(w.rows[i] == v.rows[i0]);
        }
    }
}

/// The state that stored rows describe.
pub open spec fn stored_view(sectors: Seq<SectorInfo>, data: Seq<DataInfo>) -> MetaView {
    MetaView { remains: remains_of(sectors), rows: data.map_values(|d: DataInfo| d@) }
}

/// The metadata store.
pub struct MetaStore {
    sectors: SectorTable,
    data: Vec<DataInfo>,
}

impl View for MetaStore {
    type V = MetaView;

    closed spec fn view(&self) -> MetaView {
        MetaView { remains: self.sectors@, rows: self.data@.map_values(|d: DataInfo| d@) }
    }
}

impl MetaStore {
    /// The sector table is well formed and the invariant holds.
    pub closed spec fn wf(&self) -> bool {
        &&& self.sectors.wf()
        &&& meta_wf(self@)
    }

    /// A well-formed store satisfies the invariant.
    pub proof fn lemma_wf(&self)
        requires
            self.wf(),
        ensures
            meta_wf(self@),
    {
    }

    /// An empty store.
    pub fn new() -> (r: MetaStore)
        ensures
            r.wf(),
            meta_wf(r@),
            r@.remains.len() == 0,
            r@.rows.len() == 0,
    {
        let r = MetaStore { sectors: SectorTable::new(), data: Vec::new() };
        assert(r@.rows =~= Seq::<Placement>::empty());
        r
    }

    /// Rebuilds the store from stored rows. Fails with `Inconsistent` unless
    /// the sector rows are numbered 1, 2, ... and the rows satisfy the
    /// invariant of the store.
    pub fn load(sectors: Vec<SectorInfo>, data: Vec<DataInfo>) -> (r: Result<MetaStore, IpseError>)
        ensures
            r is Ok <==> numbered_in_order(sectors@) && meta_wf(stored_view(sectors@, data@)),
            r is Ok ==> r->Ok_0.wf() && meta_wf(r->Ok_0@) && r->Ok_0@ == stored_view(sectors@, data@),
            r is Err ==> r->Err_0 == IpseError::Inconsistent,
    {
        let ghost sv = sectors@;
        let ghost v = stored_view(sectors@, data@);
        let table = match SectorTable::from_rows(sectors) {
            Ok(t) => t,
            Err(e) => {
                return Err(e);
            },
        };
        let n = table.len();
        let mut i: usize = 0;
        while i < data.len()
            invariant
                i <= data@.len(),
                v == stored_view(sv, data@),
                sv == sectors@,
                n == v.remains.len(),
                v.rows == data@.map_values(|d: DataInfo| d@),
                forall|k: int| 0 <= k < i ==> 1 <= (#[trigger] v.rows[k]).sector <= n,
                forall|k: int, j: int|
                    0 <= k < i && 0 <= j < i && k != j ==> (#[trigger] v.rows[k]).order
                        != (#[trigger] v.rows[j]).order,
            decreases data@.len() - i,
        {
            if data[i].sector == 0 || data[i].sector > n as u64 {
                assert(v.rows[i as int] == data@[i as int]@);
                assert(!(1 <= v.rows[i as int].sector <= v.remains.len()));
                assert(!meta_wf(v));
                return Err(IpseError::Inconsistent);
            }
            let mut j: usize = 0;
            while j < i
                invariant
                    j <= i < data@.len(),
                    v.rows == data@.map_values(|d: DataInfo| d@),
                    forall|k: int| 0 <= k < j ==> v.rows[k].order != data@[i as int].order,
                decreases i - j,
            {
                if data[j].order == data[i].order {
                    assert(v.rows[j as int] == data@[j as int]@);
                    assert(v.rows[i as int] == data@[i as int]@);
                    assert(!orders_unique(v.rows));
                    return Err(IpseError::Inconsistent);
                }
                assert(v.rows[j as int] == data@[j as int]@);
                j = j + 1;
            }
            assert(v.rows[i as int] == data@[i as int]@);
            i = i + 1;
        }
        let rows = table.rows();
        let mut s: usize = 0;
        while s < n
            invariant
                s <= n == v.remains.len() == rows@.len(),
                v == stored_view(sv, data@),
                sv == sectors@,
                table.wf(),
                table@ == v.remains,
                capacities_in_range(v.remains),
                forall|t: int|
                    0 <= t < rows@.len() ==> (#[trigger] rows@[t]).sector == t + 1 && rows@[t].remain
                        == v.remains[t],
                v.rows == data@.map_values(|d: DataInfo| d@),
                forall|t: int|
                    1 <= t <= s ==> SECTOR_SIZE - v.remains[t - 1] == #[trigger] used(v.rows, t),
            decreases n - s,
        {
            let target = SECTOR_SIZE - rows[s].remain;
            let sector = s as u64 + 1;
            let mut acc: u64 = 0;
            let mut j: usize = 0;
            while j < data.len()
                invariant
                    j <= data@.len(),
                    v == stored_view(sv, data@),
                    sv == sectors@,
                sv == sectors@,
                    s < n == v.remains.len(),
                    target == SECTOR_SIZE - v.remains[s as int],
                    sector == s + 1,
                    v.rows == data@.map_values(|d: DataInfo| d@),
                    acc <= target,
                    acc == used(v.rows.take(j as int), sector as int),
                decreases data@.len() - j,
            {
                assert(v.rows.take(j + 1).drop_last() =~= v.rows.take(j as int));
                assert(v.rows[j as int] == data@[j as int]@);
                if data[j].sector == sector {
                    if data[j].length > target - acc {
                        proof {
                            lemma_used_prefix(v.rows, j + 1, sector as int);
                            assert(used(v.rows.take(j + 1), sector as int) > target);
                            assert(SECTOR_SIZE - v.remains[s as int] != used(v.rows, sector as int));
                            assert(!capacity_accounted(v));
                        }
                        return Err(IpseError::Inconsistent);
                    }
                    acc = acc + data[j].length;
                }
                j = j + 1;
            }
            assert(v.rows.take(data@.len() as int) =~= v.rows);
            if acc != target {
                assert(SECTOR_SIZE - v.remains[s as int] != used(v.rows, sector as int));
                assert(!capacity_accounted(v));
                return Err(IpseError::Inconsistent);
            }
            s = s + 1;
        }
        let r = MetaStore { sectors: table, data };
        assert(r@ == v);
        Ok(r)
    }

    /// The sector table.
    pub fn sectors(&self) -> (r: &SectorTable)
        requires
            self.wf(),
        ensures
            r.wf(),
            r@ == self@.remains,
    {
        &self.sectors
    }

    /// The placement rows.
    pub fn placements(&self) -> (r: &Vec<DataInfo>)
        ensures
            r@.map_values(|d: DataInfo| d@) == self@.rows,
    {
        &self.data
    }

    /// Index of the row of `order`, or `None`.
    fn find(&self, order: u64) -> (r: Option<usize>)
        ensures
            r is None <==> !has_order(self@.rows, order),
            r is Some ==> r->Some_0 < self@.rows.len() && self@.rows[r->Some_0 as int].order
                == order,
    {
        let mut i: usize = 0;
        while i < self.data.len()
            invariant
                i <= self.data@.len(),
                forall|j: int| 0 <= j < i ==> self.data@[j].order != order,
            decreases self.data@.len() - i,
        {
            if self.data[i].order == order {
                assert(self@.rows[i as int] == self.data@[i as int]@);
                return Some(i);
            }
            i = i + 1;
        }
        assert forall|j: int| 0 <= j < self@.rows.len() implies (#[trigger] self@.rows[j]).order
            != order by {
            assert(self@.rows[j] == self.data@[j]@);
        }
        None
    }

    /// The placement of an order, if any.
    pub fn get_placement(&self, order: u64) -> (r: Option<&DataInfo>)
        requires
            self.wf(),
        ensures
            r is None <==> !has_order(self@.rows, order),
            r is Some ==> r->Some_0@ == self@.rows[row_of(self@.rows, order)],
    {
        match self.find(order) {
            Some(i) => {
                assert(self@.rows[i as int] == self.data@[i as int]@);
                Some(&self.data[i])
            },
            None => None,
        }
    }

    /// Whether some placement refers to `handle`.
    pub fn handle_in_use(&self, handle: &String) -> (r: bool)
        ensures
            r == handle_used(self@.rows, handle@),
    {
        let mut i: usize = 0;
        while i < self.data.len()
            invariant
                i <= self.data@.len(),
                forall|j: int| 0 <= j < i ==> self.data@[j].file_url@ != handle@,
            decreases self.data@.len() - i,
        {
            if self.data[i].file_url == *handle {
                assert(self@.rows[i as int] == self.data@[i as int]@);
                return true;
            }
            i = i + 1;
        }
        assert forall|j: int| 0 <= j < self@.rows.len() implies (#[trigger] self@.rows[j]).handle
            != handle@ by {
            assert(self@.rows[j] == self.data@[j]@);
        }
        false
    }

    /// Places `length` bytes of `order` under `handle`: reserves the space
    /// first-fit and records the row, both or neither. Fails with
    /// `DuplicateOrder` when the order is already placed, and with
    /// `AllocationExhausted` when no sector can take the content; a failure
    /// changes nothing. Returns the sector's number.
    pub fn put_placement(&mut self, order: u64, length: u64, handle: String) -> (r: Result<
        u64,
        IpseError,
    >)
        requires
            old(self).wf(),
        ensures
            final(self).wf(),
            meta_wf(final(self)@),
            has_order(old(self)@.rows, order) ==> r == Err::<u64, IpseError>(
                IpseError::DuplicateOrder,
            ),
            !has_order(old(self)@.rows, order) && !allocatable(old(self)@.remains, length as int)
                ==> r == Err::<u64, IpseError>(IpseError::AllocationExhausted),
            !has_order(old(self)@.rows, order) && allocatable(old(self)@.remains, length as int)
                ==> r == Ok::<u64, IpseError>((first_fit(old(self)@.remains, length as int) + 1) as u64)
                && final(self)@ == placed(old(self)@, order, length, handle@),
            r is Err ==> final(self)@ == old(self)@,
    {
        if self.find(order).is_some() {
            return Err(IpseError::DuplicateOrder);
        }
        let ghost v = self@;
        let ghost h = handle@;
        match self.sectors.allocate(length) {
            Ok(sector) => {
                self.data.push(DataInfo { order, sector, length, file_url: handle });
                proof {
                    lemma_first_fit(v.remains, length as int);
                    assert(self@.rows =~= placed(v, order, length, h).rows);
                    lemma_placed_wf(v, order, length, h);
                }
                Ok(sector)
            },
            Err(e) => {
                assert(self@.rows =~= v.rows);
                Err(e)
            },
        }
    }

    /// Removes the placement of `order` and gives its space back to its
    /// sector, both or neither, returning the removed row; `None`, changing
    /// nothing, when the order has no placement.
    pub fn remove_placement(&mut self, order: u64) -> (r: Option<DataInfo>)
        requires
            old(self).wf(),
        ensures
            final(self).wf(),
            meta_wf(final(self)@),
            r is None <==> !has_order(old(self)@.rows, order),
            r is Some ==> r->Some_0@ == old(self)@.rows[row_of(old(self)@.rows, order)],
            final(self)@ == unplaced(old(self)@, order),
    {
        match self.find(order) {
            None => None,
            Some(i) => {
                let ghost v = self@;
                let ghost k = row_of(v.rows, order);
                proof {
                    assert(k == i);
                    lemma_unplaced_wf(v, order);
                }
                let d = self.data.remove(i);
                let freed = self.sectors.free(d.sector, d.length);
                proof {
                    assert(freed is Ok);
                    assert(self@.rows =~= unplaced(v, order).rows);
                }
                Some(d)
            },
        }
    }
}

} // verus!
