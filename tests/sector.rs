use ipse_miner::error::IpseError;
use ipse_miner::sector::{SectorInfo, SectorTable, SECTOR_SIZE};

const MIB: u64 = 1024 * 1024;

#[test]
fn sector_size_is_128_mib() {
    assert_eq!(SECTOR_SIZE, 128 * MIB);
}

#[test]
fn first_allocation_creates_sector_one() {
    let mut t = SectorTable::new();
    assert_eq!(t.allocate(1000), Ok(1));
    assert_eq!(t.len(), 1);
    assert_eq!(t.remaining(1), Some(SECTOR_SIZE - 1000));
}

#[test]
fn allocation_is_first_fit() {
    let mut t = SectorTable::new();
    assert_eq!(t.allocate(100 * MIB), Ok(1));
    assert_eq!(t.allocate(100 * MIB), Ok(2));
    // sector 1 has 28 MiB left, sector 2 too: the first one is taken
    assert_eq!(t.allocate(10 * MIB), Ok(1));
    assert_eq!(t.remaining(1), Some(18 * MIB));
    assert_eq!(t.remaining(2), Some(28 * MIB));
    assert_eq!(t.allocate(20 * MIB), Ok(2));
    assert_eq!(t.remaining(2), Some(8 * MIB));
}

#[test]
fn exact_fit_fills_sector() {
    let mut t = SectorTable::new();
    assert_eq!(t.allocate(SECTOR_SIZE), Ok(1));
    assert_eq!(t.remaining(1), Some(0));
    assert_eq!(t.allocate(0), Ok(1));
    assert_eq!(t.allocate(1), Ok(2));
}

#[test]
fn oversized_allocation_is_refused() {
    let mut t = SectorTable::new();
    assert_eq!(t.allocate(SECTOR_SIZE + 1), Err(IpseError::AllocationExhausted));
    assert_eq!(t.len(), 0);
}

#[test]
fn free_restores_capacity() {
    let mut t = SectorTable::new();
    t.allocate(5000).unwrap();
    assert_eq!(t.free(1, 5000), Ok(()));
    assert_eq!(t.remaining(1), Some(SECTOR_SIZE));
}

#[test]
fn free_past_sector_size_is_inconsistent() {
    let mut t = SectorTable::new();
    t.allocate(5000).unwrap();
    assert_eq!(t.free(1, 5001), Err(IpseError::Inconsistent));
    assert_eq!(t.remaining(1), Some(SECTOR_SIZE - 5000));
}

#[test]
fn free_of_unknown_sector_is_inconsistent() {
    let mut t = SectorTable::new();
    assert_eq!(t.free(0, 1), Err(IpseError::Inconsistent));
    assert_eq!(t.free(1, 1), Err(IpseError::Inconsistent));
}

#[test]
fn sectors_load_from_rows() {
    let rows = vec![
        SectorInfo { sector: 1, remain: 10 },
        SectorInfo { sector: 2, remain: SECTOR_SIZE },
    ];
    let t = SectorTable::from_rows(rows.clone()).unwrap();
    assert_eq!(t.rows(), &rows);
}

#[test]
fn sectors_out_of_order_are_refused() {
    let rows = vec![SectorInfo { sector: 2, remain: 10 }];
    assert!(matches!(SectorTable::from_rows(rows), Err(IpseError::Inconsistent)));
    let rows = vec![SectorInfo { sector: 1, remain: SECTOR_SIZE + 1 }];
    assert!(matches!(SectorTable::from_rows(rows), Err(IpseError::Inconsistent)));
}

#[test]
fn remaining_never_below_zero_after_many_allocations() {
    let mut t = SectorTable::new();
    for size in [100 * MIB, 100 * MIB, 27 * MIB, 28 * MIB, 1, SECTOR_SIZE, 64 * MIB] {
        t.allocate(size).unwrap();
    }
    for row in t.rows() {
        assert!(row.remain <= SECTOR_SIZE);
    }
    assert_eq!(t.remaining(1), Some(MIB - 1));
    assert_eq!(t.remaining(2), Some(0));
    assert_eq!(t.remaining(3), Some(0));
    assert_eq!(t.remaining(4), Some(64 * MIB));
}
