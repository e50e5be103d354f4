use unzip::listing::find_and_sort;

#[test]
fn paths_come_back_sorted() {
    let paths = vec![
        "dir/z.txt".to_string(),
        "a.txt".to_string(),
        "dir/a.txt".to_string(),
        "b.txt".to_string(),
    ];
    let sorted = find_and_sort(paths);
    assert_eq!(
        sorted,
        vec![
            "a.txt".to_string(),
            "b.txt".to_string(),
            "dir/a.txt".to_string(),
            "dir/z.txt".to_string(),
        ]
    );
}

#[test]
fn duplicates_are_kept() {
    let paths = vec!["b".to_string(), "a".to_string(), "b".to_string()];
    let sorted = find_and_sort(paths);
    assert_eq!(sorted, vec!["a".to_string(), "b".to_string(), "b".to_string()]);
}

#[test]
fn empty_list_stays_empty() {
    assert!(find_and_sort(Vec::new()).is_empty());
}

#[test]
fn prefix_precedes_extension() {
    let sorted = find_and_sort(vec!["abc".to_string(), "ab".to_string()]);
    assert_eq!(sorted, vec!["ab".to_string(), "abc".to_string()]);
}
