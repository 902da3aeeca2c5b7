//! Sector capacity bookkeeping: fixed-size sectors, numbered from 1 in the
//! order they were created, each with its remaining capacity. Space is taken
//! first-fit and given back in place; sectors are never removed.

use vstd::prelude::*;
use crate::error::IpseError;

verus! {

/// Capacity of every sector, in bytes.
pub const SECTOR_SIZE: u64 = 128 * 1024 * 1024;

/// One row of the sector table.
#[derive(Debug, Clone, Copy, PartialEq, Eq)]
pub struct SectorInfo {
    pub sector: u64,
    /// remaining storage capacity
    pub remain: u64,
}

/// Every remaining capacity lies between zero and the sector size.
pub open spec fn capacities_in_range(rs: Seq<int>) -> bool {
    forall|i: int| 0 <= i < rs.len() ==> 0 <= #[trigger] rs[i] <= SECTOR_SIZE
}

/// Index of the first sector with at least `size` bytes left, or the number
/// of sectors when none has.
pub open spec fn first_fit(rs: Seq<int>, size: int) -> int
    decreases rs.len(),
{
    if rs.len() == 0 {
        0
    } else if rs[0] >= size {
        0
    } else {
        1 + first_fit(rs.drop_first(), size)
    }
}

/// Whether `size` bytes can be reserved: the content fits in one sector, and
/// either a sector has room or one more sector can still be numbered.
pub open spec fn allocatable(rs: Seq<int>, size: int) -> bool {
    &&& size <= SECTOR_SIZE
    &&& (first_fit(rs, size) < rs.len() || rs.len() + 1 < u64::MAX)
}

/// The capacities after reserving `size` bytes first-fit, creating a sector
/// when none has room.
pub open spec fn reserve(rs: Seq<int>, size: int) -> Seq<int> {
    let i = first_fit(rs, size);
    if i < rs.len() {
        rs.update(i, rs[i] - size)
    } else {
        rs.push(SECTOR_SIZE - size)
    }
}

/// Whether `size` bytes can be given back to sector `sector` (numbered from 1).
pub open spec fn releasable(rs: Seq<int>, sector: int, size: int) -> bool {
    1 <= sector <= rs.len() && rs[sector - 1] + size <= SECTOR_SIZE
}

/// The capacities after giving `size` bytes back to sector `sector`.
pub open spec fn release(rs: Seq<int>, sector: int, size: int) -> Seq<int> {
    rs.update(sector - 1, rs[sector - 1] + size)
}

/// `first_fit` is the first index whose capacity suffices.
pub proof fn lemma_first_fit(rs: Seq<int>, size: int)
    ensures
        0 <= first_fit(rs, size) <= rs.len(),
        forall|j: int| 0 <= j < first_fit(rs, size) ==> rs[j] < size,
        first_fit(rs, size) < rs.len() ==> rs[first_fit(rs, size)] >= size,
    decreases rs.len(),
{
    if rs.len() > 0 && rs[0] < size {
        lemma_first_fit(rs.drop_first(), size);
        assert forall|j: int| 0 <= j < first_fit(rs, size) implies rs[j] < size by {
            if j > 0 {
                assert(rs[j] == rs.drop_first()[j - 1]);
            }
        }
    }
}

/// An index before which no capacity suffices, and at which one does (or
/// which is past the end), is `first_fit`.
pub proof fn lemma_first_fit_at(rs: Seq<int>, size: int, i: int)
    requires
        0 <= i <= rs.len(),
        forall|j: int| 0 <= j < i ==> rs[j] < size,
        i < rs.len() ==> rs[i] >= size,
    ensures
        first_fit(rs, size) == i,
    decreases rs.len(),
{
    if i > 0 {
        assert(rs[0] < size);
        assert forall|j: int| 0 <= j < i - 1 implies rs.drop_first()[j] < size by {
            assert(rs.drop_first()[j] == rs[j + 1]);
        }
        lemma_first_fit_at(rs.drop_first(), size, i - 1);
    }
}

/// Reserving keeps every capacity in range, however many reservations follow
/// one another: no sector is ever driven below zero.
pub proof fn lemma_reserve_in_range(rs: Seq<int>, size: int)
    requires
        capacities_in_range(rs),
        0 <= size <= SECTOR_SIZE,
    ensures
        capacities_in_range(reserve(rs, size)),
{
    lemma_first_fit(rs, size);
}

/// Two reservations made one after the other, as the exclusive access to the
/// table makes concurrent requests, leave no sector below zero, and each lands
/// where its size fits.
pub proof fn lemma_two_reservations_fit(rs: Seq<int>, a: int, b: int)
    requires
        capacities_in_range(rs),
        0 <= a <= SECTOR_SIZE,
        0 <= b <= SECTOR_SIZE,
    ensures
        capacities_in_range(reserve(reserve(rs, a), b)),
        forall|i: int|
            0 <= i < reserve(reserve(rs, a), b).len() ==> #[trigger] reserve(reserve(rs, a), b)[i]
                >= 0,
{
    lemma_reserve_in_range(rs, a);
    lemma_reserve_in_range(reserve(rs, a), b);
}

/// Rows numbered 1, 2, ... in order.
pub open spec fn numbered_in_order(rows: Seq<SectorInfo>) -> bool {
    forall|i: int| 0 <= i < rows.len() ==> (#[trigger] rows[i]).sector == i + 1
}

/// The remaining capacities that rows record, sector 1 first.
pub open spec fn remains_of(rows: Seq<SectorInfo>) -> Seq<int> {
    rows.map_values(|s: SectorInfo| s.remain as int)
}

/// The sector table.
pub struct SectorTable {
    sectors: Vec<SectorInfo>,
}

impl View for SectorTable {
    type V = Seq<int>;

    /// The remaining capacity of sector `i + 1` at index `i`.
    closed spec fn view(&self) -> Seq<int> {
        self.sectors@.map_values(|s: SectorInfo| s.remain as int)
    }
}

impl SectorTable {
    /// Sectors are numbered 1, 2, ... in order, their capacities are in range,
    /// and their number fits the identifier type.
    pub closed spec fn wf(&self) -> bool {
        &&& self.sectors@.len() < u64::MAX
        &&& forall|i: int|
            0 <= i < self.sectors@.len() ==> (#[trigger] self.sectors@[i]).sector == i + 1
                && self.sectors@[i].remain <= SECTOR_SIZE
    }

    /// A table without sectors.
    pub fn new() -> (r: SectorTable)
        ensures
            r.wf(),
            r@ == Seq::<int>::empty(),
    {
        let r = SectorTable { sectors: Vec::new() };
        assert(r@ =~= Seq::<int>::empty());
        r
    }

    /// The number of sectors.
    pub fn len(&self) -> (r: usize)
        ensures
            r == self@.len(),
    {
        self.sectors.len()
    }

    /// The rows of the table, sector 1 first.
    pub fn rows(&self) -> (r: &Vec<SectorInfo>)
        requires
            self.wf(),
        ensures
            r@.len() == self@.len(),
            forall|i: int|
                0 <= i < r@.len() ==> (#[trigger] r@[i]).sector == i + 1 && r@[i].remain
                    == self@[i],
    {
        &self.sectors
    }

    /// The remaining capacity of a sector, if it exists.
    pub fn remaining(&self, sector: u64) -> (r: Option<u64>)
        requires
            self.wf(),
        ensures
            r is Some <==> 1 <= sector <= self@.len(),
            r is Some ==> r->Some_0 == self@[sector - 1],
    {
        if sector >= 1 && sector - 1 < self.sectors.len() as u64 {
            Some(self.sectors[(sector - 1) as usize].remain)
        } else {
            None
        }
    }

    /// Rebuilds a table from stored rows; fails with `Inconsistent` unless the
    /// rows are numbered 1, 2, ... and hold capacities in range.
    pub fn from_rows(rows: Vec<SectorInfo>) -> (r: Result<SectorTable, IpseError>)
        ensures
            r is Ok <==> rows@.len() < u64::MAX && numbered_in_order(rows@) && capacities_in_range(
                remains_of(rows@),
            ),
            r is Ok ==> r->Ok_0.wf() && r->Ok_0@ == remains_of(rows@),
            r is Err ==> r->Err_0 == IpseError::Inconsistent,
    {
        if rows.len() as u64 == u64::MAX {
            return Err(IpseError::Inconsistent);
        }
        let mut i: usize = 0;
        while i < rows.len()
            invariant
                i <= rows@.len() < u64::MAX,
                forall|j: int|
                    0 <= j < i ==> (#[trigger] rows@[j]).sector == j + 1 && rows@[j].remain
                        <= SECTOR_SIZE,
            decreases rows@.len() - i,
        {
            if rows[i].sector != i as u64 + 1 || rows[i].remain > SECTOR_SIZE {
                assert(remains_of(rows@)[i as int] == rows@[i as int].remain);
                return Err(IpseError::Inconsistent);
            }
            i = i + 1;
        }
        let t = SectorTable { sectors: rows };
        assert(t@ =~= remains_of(rows@));
        Ok(t)
    }

    /// Reserves `size` bytes in the first sector that has room, creating a
    /// sector when none has, and returns the sector's number. Fails with
    /// `AllocationExhausted`, changing nothing, when the content is larger than
    /// a sector or no further sector can be numbered.
    pub fn allocate(&mut self, size: u64) -> (r: Result<u64, IpseError>)
        requires
            old(self).wf(),
        ensures
            final(self).wf(),
            r is Ok <==> allocatable(old(self)@, size as int),
            r is Ok ==> r->Ok_0 == first_fit(old(self)@, size as int) + 1 && final(self)@ == reserve(
                old(self)@,
                size as int,
            ),
            r is Err ==> r->Err_0 == IpseError::AllocationExhausted && final(self)@ == old(self)@,
    {
        if size > SECTOR_SIZE {
            return Err(IpseError::AllocationExhausted);
        }
        let ghost rs = self@;
        let mut i: usize = 0;
        while i < self.sectors.len() && self.sectors[i].remain < size
            invariant
                self.wf(),
                self@ == rs,
                i <= rs.len(),
                forall|j: int| 0 <= j < i ==> rs[j] < size,
            decreases rs.len() - i,
        {
            i = i + 1;
        }
        proof {
            lemma_first_fit_at(rs, size as int, i as int);
        }
        if i < self.sectors.len() {
            let s = self.sectors[i];
            self.sectors.set(i, SectorInfo { sector: s.sector, remain: s.remain - size });
            assert(self@ =~= reserve(rs, size as int));
            Ok(s.sector)
        } else {
            if self.sectors.len() as u64 >= u64::MAX - 1 {
                return Err(IpseError::AllocationExhausted);
            }
            let id = self.sectors.len() as u64 + 1;
            self.sectors.push(SectorInfo { sector: id, remain: SECTOR_SIZE - size });
            assert(self@ =~= reserve(rs, size as int));
            Ok(id)
        }
    }

    /// Gives `size` bytes back to sector `sector`. Fails with `Inconsistent`,
    /// changing nothing, when the sector does not exist or the capacity would
    /// exceed the sector size.
    pub fn free(&mut self, sector: u64, size: u64) -> (r: Result<(), IpseError>)
        requires
            old(self).wf(),
        ensures
            final(self).wf(),
            r is Ok <==> releasable(old(self)@, sector as int, size as int),
            r is Ok ==> final(self)@ == release(old(self)@, sector as int, size as int),
            r is Err ==> r->Err_0 == IpseError::Inconsistent && final(self)@ == old(self)@,
    {
        if sector == 0 || sector - 1 >= self.sectors.len() as u64 {
            return Err(IpseError::Inconsistent);
        }
        let idx = (sector - 1) as usize;
        let s = self.sectors[idx];
        if size > SECTOR_SIZE - s.remain {
            return Err(IpseError::Inconsistent);
        }
        self.sectors.set(idx, SectorInfo { sector: s.sector, remain: s.remain + size });
        assert(self@ =~= release(old(self)@, sector as int, size as int));
        Ok(())
    }
}

} // verus!
