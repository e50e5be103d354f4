use unzip::partition::plan_partition;

#[test]
fn ten_entries_three_workers() {
    let ranges = plan_partition(10, 3);
    assert_eq!(ranges.len(), 3);
    let bounds: Vec<(usize, usize)> = ranges.iter().map(|r| (r.start, r.end)).collect();
    assert_eq!(bounds, vec![(0, 3), (3, 6), (6, 10)]);
}

#[test]
fn ranges_are_contiguous_and_exhaustive() {
    for n in [0usize, 1, 7, 100, 101] {
        for w in [1usize, 2, 3, 8] {
            let ranges = plan_partition(n, w);
            assert_eq!(ranges.len(), w);
            assert_eq!(ranges[0].start, 0);
            assert_eq!(ranges[w - 1].end, n);
            for i in 0..w - 1 {
                assert_eq!(ranges[i].end, ranges[i + 1].start);
            }
            let lo = n / w;
            for r in &ranges {
                let size = r.end - r.start;
                assert!(size == lo || size == lo + 1);
                if n % w == 0 {
                    assert_eq!(size, lo);
                }
            }
        }
    }
}

#[test]
fn zero_workers_yield_no_ranges() {
    let ranges = plan_partition(12, 0);
    assert!(ranges.is_empty());
}

#[test]
fn one_worker_takes_everything() {
    let ranges = plan_partition(5, 1);
    assert_eq!(ranges.len(), 1);
    assert_eq!((ranges[0].start, ranges[0].end), (0, 5));
}

#[test]
fn more_workers_than_entries() {
    let ranges = plan_partition(2, 5);
    assert_eq!(ranges.len(), 5);
    let total: usize = ranges.iter().map(|r| r.end - r.start).sum();
    assert_eq!(total, 2);
}
