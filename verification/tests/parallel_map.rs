use systems_toolkit::parallel_map::{blank_output, put_result, take_item};

#[test]
fn items_are_taken_from_the_back() {
    let mut stock = vec!['a', 'b', 'c'];
    assert_eq!(take_item(&mut stock), Some((2, 'c')));
    assert_eq!(take_item(&mut stock), Some((1, 'b')));
    assert_eq!(take_item(&mut stock), Some((0, 'a')));
    assert_eq!(take_item(&mut stock), None);
}

#[test]
fn the_output_begins_with_defaults() {
    assert_eq!(blank_output::<u32>(3), vec![0, 0, 0]);
    assert!(blank_output::<String>(0).is_empty());
}

#[test]
fn results_may_arrive_in_any_order() {
    let input = vec![6, 7, 8, 9, 10, 1, 2, 3, 4, 5, 12, 18, 11, 5, 20];
    let expected: Vec<i32> = input.iter().map(|n| n * n).collect();
    let mut stock = input.clone();
    let mut results = Vec::new();
    while let Some((ix, val)) = take_item(&mut stock) {
        results.push((ix, val * val));
    }
    for turn in 0..results.len() {
        let mut arrivals = results.clone();
        arrivals.rotate_left(turn);
        if turn % 2 == 1 {
            arrivals.reverse();
        }
        let mut output = blank_output::<i32>(input.len());
        for (ix, val) in arrivals {
            put_result(&mut output, ix, val);
        }
        assert_eq!(output, expected);
    }
}
