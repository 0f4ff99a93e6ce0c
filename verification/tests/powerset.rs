use gottlob::powerset::{IntoPowerSet, PowerSet};

fn collect_subsets(items: Vec<u32>) -> Vec<Vec<u32>> {
    let mut ps: PowerSet<u32> = items.powerset();
    let mut out: Vec<Vec<u32>> = Vec::new();
    while let Some(mut sub) = ps.next() {
        sub.sort();
        out.push(sub);
    }
    out
}

#[test]
fn test_powerset() {
    let set = vec![1, 2, 3];
    assert_eq!(collect_subsets(set).len(), 8);

    let set = vec![1, 2, 3, 4];
    assert_eq!(collect_subsets(set).len(), 16);
}

#[test]
fn powerset_is_exhaustive_and_duplicate_free() {
    for n in 0..5u32 {
        let items: Vec<u32> = (0..n).collect();
        let mut subsets = collect_subsets(items.clone());
        let count = subsets.len();
        assert_eq!(count, 1usize << n, "2^{} subsets expected", n);
        subsets.sort();
        subsets.dedup();
        assert_eq!(subsets.len(), count, "every subset exactly once");
        for sub in &subsets {
            for x in sub {
                assert!(items.contains(x));
            }
        }
    }
}

#[test]
fn powerset_starts_empty_and_is_single_use() {
    let items = vec![7u32, 9];
    let mut ps = items.powerset();
    assert_eq!(ps.next(), Some(vec![]));
    assert!(ps.next().is_some());
    assert!(ps.next().is_some());
    assert!(ps.next().is_some());
    assert_eq!(ps.next(), None);
    assert_eq!(ps.next(), None);
}
