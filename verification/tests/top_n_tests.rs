use tower_defense::targeting::PACK_BASE;
use tower_defense::targeting::pack_score;
use tower_defense::top_n::TopN;

#[test]
fn find_top_3() {
    let mut top_n = TopN::new(3);
    top_n.insert(10);
    top_n.insert(20);
    top_n.insert(5);
    top_n.insert(30);
    top_n.insert(15);

    assert_eq!(top_n.get_sorted(), vec![5, 10, 15])
}

#[test]
fn find_top_3_elements() {
    // Elements ordered by one field with a payload in the other, packed
    // into a single score as the target selection does it.
    let mut top_n = TopN::new(3);
    top_n.insert(pack_score(10, 1));
    top_n.insert(pack_score(20, 2));
    top_n.insert(pack_score(5, 3));
    top_n.insert(pack_score(30, 4));
    top_n.insert(pack_score(15, 5));

    let kept: Vec<(u64, u64)> = top_n
        .get_sorted()
        .iter()
        .map(|v| ((v / PACK_BASE) as u64, (v % PACK_BASE) as u64))
        .collect();
    assert_eq!(kept, vec![(5, 3), (10, 1), (15, 5)])
}

#[test]
fn bound_zero_keeps_nothing() {
    let mut top_n = TopN::new(0);
    top_n.insert(1);
    top_n.insert(2);
    assert_eq!(top_n.get(), vec![]);
}

#[test]
fn under_capacity_keeps_everything() {
    let mut top_n = TopN::new(5);
    top_n.insert(42);
    top_n.insert(7);
    assert_eq!(top_n.get_sorted(), vec![7, 42]);
}

#[test]
fn duplicates_count_separately() {
    let mut top_n = TopN::new(2);
    top_n.insert(8);
    top_n.insert(8);
    top_n.insert(3);
    assert_eq!(top_n.get_sorted(), vec![3, 8]);
}
