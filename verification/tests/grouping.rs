use gallerynet::error::DomainError;
use gallerynet::grouping::{
    check_face_count, connected_components, group_similar, too_many_face_pairs, GroupingError,
    MAX_EDGES, MAX_GROUPABLE_FACES, MAX_GROUPABLE_ITEMS,
};
use gallerynet::union_find::UnionFind;

#[test]
fn union_find_basic() {
    let mut uf = UnionFind::new(5);
    uf.union(0, 1);
    uf.union(2, 3);
    assert_eq!(uf.find(0), uf.find(1));
    assert_ne!(uf.find(0), uf.find(2));
    uf.union(1, 3);
    assert_eq!(uf.find(0), uf.find(3));
    // 4 is still isolated
    assert_ne!(uf.find(0), uf.find(4));
}

#[test]
fn constants_are_valid() {
    assert!(MAX_GROUPABLE_ITEMS > 0);
    assert!(MAX_GROUPABLE_ITEMS <= 100_000);
    assert!(MAX_EDGES > 0);
    assert!(MAX_EDGES <= 50_000_000);
}

#[test]
fn components_skip_singletons() {
    let groups = connected_components(6, &vec![(0, 1), (1, 2), (4, 5)]);
    let mut sorted: Vec<Vec<usize>> = groups.clone();
    sorted.sort();
    assert_eq!(sorted, vec![vec![0, 1, 2], vec![4, 5]]);
}

#[test]
fn groups_newest_first() {
    // items 0,1 are old; 2,3 are new; 4 stands alone
    let dates = vec![100i128, 50, 900, 800, 1000];
    let groups = group_similar(5, &vec![(0, 1), (3, 2)], &dates).ok().unwrap();
    assert_eq!(groups, vec![vec![2, 3], vec![0, 1]]);
}

#[test]
fn grouping_limits() {
    assert_eq!(group_similar(0, &vec![], &vec![]).ok().unwrap().len(), 0);
    let dates = vec![0i128; MAX_GROUPABLE_ITEMS + 1];
    match group_similar(MAX_GROUPABLE_ITEMS + 1, &vec![], &dates) {
        Err(GroupingError::TooManyItems(n)) => assert_eq!(n, MAX_GROUPABLE_ITEMS + 1),
        _ => panic!("expected refusal"),
    }
    let e = GroupingError::TooManyItems(12345).to_domain_error();
    match e {
        DomainError::Io(m) => assert_eq!(m, "Too many items to group: 12345 (max 10000)"),
        _ => panic!(),
    }
    match GroupingError::TooManyPairs.to_domain_error() {
        DomainError::Io(m) => assert_eq!(
            m,
            "Too many similar pairs (>5000000) — try a higher similarity threshold"
        ),
        _ => panic!(),
    }
}

#[test]
fn face_grouping_limits() {
    assert!(check_face_count(MAX_GROUPABLE_FACES).is_ok());
    match check_face_count(MAX_GROUPABLE_FACES + 1) {
        Err(DomainError::Io(m)) => assert_eq!(m, "Too many faces to group: 20001 (max 20000)"),
        _ => panic!(),
    }
    match too_many_face_pairs() {
        DomainError::Io(m) => assert_eq!(m, "Too many similar face pairs (>10000000)"),
        _ => panic!(),
    }
}
