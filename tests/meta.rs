use ipse_miner::error::IpseError;
use ipse_miner::meta::{DataInfo, MetaStore};
use ipse_miner::sector::{SectorInfo, SECTOR_SIZE};

fn row(order: u64, sector: u64, length: u64, url: &str) -> DataInfo {
    DataInfo { order, sector, length, file_url: url.to_string() }
}

fn used_of(m: &MetaStore, sector: u64) -> u64 {
    m.placements().iter().filter(|d| d.sector == sector).map(|d| d.length).sum()
}

fn assert_accounted(m: &MetaStore) {
    for s in m.sectors().rows() {
        assert_eq!(SECTOR_SIZE - s.remain, used_of(m, s.sector));
    }
}

#[test]
fn placement_charges_its_sector() {
    let mut m = MetaStore::new();
    assert_eq!(m.put_placement(3, 1000, "QmA".to_string()), Ok(1));
    assert_eq!(m.get_placement(3), Some(&row(3, 1, 1000, "QmA")));
    assert_eq!(m.sectors().remaining(1), Some(SECTOR_SIZE - 1000));
    assert_accounted(&m);
}

#[test]
fn duplicate_order_is_refused_without_change() {
    let mut m = MetaStore::new();
    m.put_placement(3, 1000, "QmA".to_string()).unwrap();
    assert_eq!(m.put_placement(3, 50, "QmB".to_string()), Err(IpseError::DuplicateOrder));
    assert_eq!(m.placements().len(), 1);
    assert_eq!(m.sectors().remaining(1), Some(SECTOR_SIZE - 1000));
}

#[test]
fn oversized_placement_is_refused_without_change() {
    let mut m = MetaStore::new();
    assert_eq!(
        m.put_placement(4, SECTOR_SIZE + 1, "QmA".to_string()),
        Err(IpseError::AllocationExhausted)
    );
    assert!(m.placements().is_empty());
    assert_eq!(m.sectors().len(), 0);
}

#[test]
fn removal_gives_space_back() {
    let mut m = MetaStore::new();
    m.put_placement(1, 10, "a".to_string()).unwrap();
    m.put_placement(2, 20, "b".to_string()).unwrap();
    m.put_placement(3, 30, "c".to_string()).unwrap();
    assert_eq!(m.remove_placement(2), Some(row(2, 1, 20, "b")));
    assert_eq!(m.sectors().remaining(1), Some(SECTOR_SIZE - 40));
    assert_eq!(m.get_placement(2), None);
    assert_eq!(m.get_placement(3), Some(&row(3, 1, 30, "c")));
    assert_accounted(&m);
}

#[test]
fn removal_of_absent_order_changes_nothing() {
    let mut m = MetaStore::new();
    m.put_placement(1, 10, "a".to_string()).unwrap();
    assert_eq!(m.remove_placement(9), None);
    assert_eq!(m.placements().len(), 1);
    assert_eq!(m.sectors().remaining(1), Some(SECTOR_SIZE - 10));
}

#[test]
fn handle_in_use_finds_shared_content() {
    let mut m = MetaStore::new();
    m.put_placement(1, 10, "same".to_string()).unwrap();
    assert!(m.handle_in_use(&"same".to_string()));
    assert!(!m.handle_in_use(&"other".to_string()));
}

#[test]
fn accounting_holds_through_mixed_operations() {
    let mib = 1024 * 1024;
    let mut m = MetaStore::new();
    for (order, len) in [(1, 100 * mib), (2, 100 * mib), (3, 20 * mib), (4, 30 * mib)] {
        m.put_placement(order, len, format!("h{}", order)).unwrap();
        assert_accounted(&m);
    }
    m.remove_placement(1).unwrap();
    assert_accounted(&m);
    assert_eq!(m.put_placement(5, 90 * mib, "h5".to_string()), Ok(1));
    assert_accounted(&m);
}

#[test]
fn consistent_rows_load() {
    let sectors = vec![
        SectorInfo { sector: 1, remain: SECTOR_SIZE - 30 },
        SectorInfo { sector: 2, remain: SECTOR_SIZE },
    ];
    let data = vec![row(1, 1, 10, "a"), row(2, 1, 20, "b")];
    let m = MetaStore::load(sectors, data.clone()).unwrap();
    assert_eq!(m.placements(), &data);
    assert_eq!(m.sectors().remaining(2), Some(SECTOR_SIZE));
}

#[test]
fn rows_with_wrong_accounting_are_refused() {
    let sectors = vec![SectorInfo { sector: 1, remain: SECTOR_SIZE - 31 }];
    let data = vec![row(1, 1, 10, "a"), row(2, 1, 20, "b")];
    assert!(matches!(MetaStore::load(sectors, data), Err(IpseError::Inconsistent)));
}

#[test]
fn rows_with_duplicate_order_are_refused() {
    let sectors = vec![SectorInfo { sector: 1, remain: SECTOR_SIZE - 30 }];
    let data = vec![row(1, 1, 10, "a"), row(1, 1, 20, "b")];
    assert!(matches!(MetaStore::load(sectors, data), Err(IpseError::Inconsistent)));
}

#[test]
fn rows_with_unknown_sector_are_refused() {
    let sectors = vec![SectorInfo { sector: 1, remain: SECTOR_SIZE }];
    let data = vec![row(1, 2, 10, "a")];
    assert!(matches!(MetaStore::load(sectors, data), Err(IpseError::Inconsistent)));
}

#[test]
fn rows_overfilling_a_sector_are_refused() {
    let sectors = vec![SectorInfo { sector: 1, remain: 0 }];
    let data = vec![row(1, 1, SECTOR_SIZE, "a"), row(2, 1, u64::MAX, "b")];
    assert!(matches!(MetaStore::load(sectors, data), Err(IpseError::Inconsistent)));
}
