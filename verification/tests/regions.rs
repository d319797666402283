use ak_os_kernel::mem::region::{MemoryRegion, MemoryRegions};

fn region(start: u64, end: u64) -> MemoryRegion {
    MemoryRegion { start, end }
}

fn set_of(regions: &[(u64, u64)]) -> MemoryRegions {
    let mut set = MemoryRegions::new();
    for (start, end) in regions {
        set.add(region(*start, *end));
    }
    set
}

#[test]
fn new_set_is_empty() {
    let set = MemoryRegions::new();
    assert!(set.is_empty());
    assert_eq!(set.len(), 0);
}

#[test]
fn adjacent_regions_merge_low_first() {
    let set = set_of(&[(0, 10), (10, 20)]);
    assert_eq!(set.regions(), &vec![region(0, 20)]);
}

#[test]
fn adjacent_regions_merge_high_first() {
    let set = set_of(&[(10, 20), (0, 10)]);
    assert_eq!(set.regions(), &vec![region(0, 20)]);
}

#[test]
fn contained_region_is_ignored() {
    let set = set_of(&[(0, 100), (20, 30)]);
    assert_eq!(set.regions(), &vec![region(0, 100)]);
}

#[test]
fn overlapping_region_extends_down_and_up() {
    let set = set_of(&[(50, 100), (40, 60)]);
    assert_eq!(set.regions(), &vec![region(40, 100)]);
    let set = set_of(&[(50, 100), (90, 120)]);
    assert_eq!(set.regions(), &vec![region(50, 120)]);
}

#[test]
fn disjoint_regions_are_kept_in_address_order() {
    let set = set_of(&[(50, 60), (10, 20), (30, 40)]);
    assert_eq!(set.regions(), &vec![region(10, 20), region(30, 40), region(50, 60)]);
    assert_eq!(set.get(1), region(30, 40));
}

#[test]
fn one_region_can_bridge_several() {
    let set = set_of(&[(10, 20), (30, 40), (50, 60), (70, 80), (20, 50)]);
    assert_eq!(set.regions(), &vec![region(10, 60), region(70, 80)]);
}

#[test]
fn empty_and_inverted_regions_change_nothing() {
    let set = set_of(&[(10, 20), (15, 15), (40, 30)]);
    assert_eq!(set.regions(), &vec![region(10, 20)]);
}

#[test]
fn cut_splits_a_region() {
    let mut set = set_of(&[(0, 100)]);
    assert_eq!(set.cut(region(40, 60)), Ok(()));
    assert_eq!(set.regions(), &vec![region(0, 40), region(60, 100)]);
}

#[test]
fn cut_at_the_edges_leaves_one_piece_or_none() {
    let mut set = set_of(&[(0, 100)]);
    assert_eq!(set.cut(region(0, 30)), Ok(()));
    assert_eq!(set.regions(), &vec![region(30, 100)]);
    assert_eq!(set.cut(region(70, 100)), Ok(()));
    assert_eq!(set.regions(), &vec![region(30, 70)]);
    assert_eq!(set.cut(region(30, 70)), Ok(()));
    assert!(set.is_empty());
}

#[test]
fn cut_fails_without_a_containing_region() {
    let mut set = set_of(&[(0, 10), (20, 30)]);
    assert_eq!(set.cut(region(5, 25)), Err(()));
    assert_eq!(set.cut(region(40, 50)), Err(()));
    assert_eq!(set.regions(), &vec![region(0, 10), region(20, 30)]);
}

#[test]
fn cut_then_add_restores_the_set() {
    let mut set = set_of(&[(0, 10), (20, 30), (40, 50)]);
    assert_eq!(set.cut(region(22, 27)), Ok(()));
    assert_eq!(set.len(), 4);
    set.add(region(22, 27));
    assert_eq!(set.regions(), &vec![region(0, 10), region(20, 30), region(40, 50)]);
}

#[test]
fn contains_asks_for_one_spanning_region() {
    let set = set_of(&[(0, 10), (20, 30)]);
    assert!(set.contains(region(2, 8)));
    assert!(set.contains(region(20, 30)));
    assert!(!set.contains(region(5, 25)));
    assert!(!set.contains(region(10, 20)));
    assert_eq!(set.find_containing(region(21, 22)), Some(1));
    assert_eq!(set.find_containing(region(31, 32)), None);
}

#[test]
fn first_fit_takes_the_lowest_region_that_is_long_enough() {
    let set = set_of(&[(0, 10), (20, 120), (200, 1000)]);
    assert_eq!(set.find_with_page_size(5), Some(region(0, 10)));
    assert_eq!(set.find_with_page_size(100), Some(region(20, 120)));
    assert_eq!(set.find_with_page_size(101), Some(region(200, 1000)));
    assert_eq!(set.find_with_page_size(801), None);
}

#[test]
fn region_size_overlap_and_containment() {
    let a = region(10, 20);
    assert_eq!(a.size(), 10);
    assert!(a.overlaps(&region(19, 25)));
    assert!(!a.overlaps(&region(20, 25)));
    assert!(a.contains(&region(10, 20)));
    assert!(!a.contains(&region(9, 20)));
}
