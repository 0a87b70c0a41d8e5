use myvec::unique_triplet::find;

fn process_vecs(input: &mut Vec<i32>, expect: Vec<[i32; 3]>) {
    let output = find(input);
    assert_eq!(output, expect);
}

#[test]
fn it_works_empty() {
    let expect = vec![];
    let mut input: Vec<i32> = vec![];
    process_vecs(&mut input, expect)
}

#[test]
fn it_works_zero() {
    let expect = vec![];
    let mut input: Vec<i32> = vec![0, 0, 0, 0, 0, 0, 0];
    process_vecs(&mut input, expect)
}

#[test]
fn it_works_three() {
    let expect = vec![];
    let mut input: Vec<i32> = vec![-1, 0, 0];
    process_vecs(&mut input, expect)
}

#[test]
fn it_works_one() {
    let expect = vec![];
    let mut input: Vec<i32> = vec![2];
    process_vecs(&mut input, expect)
}

#[test]
fn it_works_four() {
    let expect = vec![[-1, 0, 1]];
    let mut input: Vec<i32> = vec![-1, 0, 1, 1];
    process_vecs(&mut input, expect)
}

#[test]
fn it_works_six() {
    let expect = vec![[-1, -1, 2], [-1, 0, 1]];
    let mut input: Vec<i32> = vec![-1, 0, 1, 2, -1, -4];
    process_vecs(&mut input, expect)
}

#[test]
fn it_works_nine() {
    let expect = vec![[-1, -1, 2], [-1, 0, 1]];
    let mut input: Vec<i32> = vec![-1, 0, 1, 2, -1, -4, -1, -1, -1];
    process_vecs(&mut input, expect)
}

#[test]
fn input_is_left_sorted() {
    let mut input: Vec<i32> = vec![3, -2, 7, 0, -2, 1];
    find(&mut input);
    assert_eq!(input, vec![-2, -2, 0, 1, 3, 7]);
}

#[test]
fn two_values_are_sorted_and_give_nothing() {
    let mut input: Vec<i32> = vec![5, -5];
    assert_eq!(find(&mut input), Vec::<[i32; 3]>::new());
    assert_eq!(input, vec![-5, 5]);
}

#[test]
fn several_anchors() {
    let mut input: Vec<i32> = vec![4, -2, 1, -3, 2, 0];
    assert_eq!(find(&mut input), vec![[-3, 1, 2], [-2, 0, 2]]);
}

#[test]
fn values_at_the_limits() {
    let mut input: Vec<i32> = vec![100000, -100000, 0];
    assert_eq!(find(&mut input), vec![[-100000, 0, 100000]]);
}

#[test]
fn leading_repeats_after_the_anchor_are_passed_over() {
    let mut input: Vec<i32> = vec![-2, 1, 1, 1, 1];
    assert_eq!(find(&mut input), Vec::<[i32; 3]>::new());
}

#[test]
fn only_positive_values() {
    let mut input: Vec<i32> = vec![1, 2, 3, 4];
    assert_eq!(find(&mut input), Vec::<[i32; 3]>::new());
}

#[test]
fn every_triplet_sums_to_zero_and_ascends() {
    let mut state: u64 = 99;
    for round in 0..300 {
        let len = round % 40;
        let mut input: Vec<i32> = Vec::new();
        for _ in 0..len {
            state = state.wrapping_mul(6364136223846793005).wrapping_add(1442695040888963407);
            input.push(((state >> 33) % 21) as i32 - 10);
        }
        let mut sorted = input.clone();
        sorted.sort();
        let found = find(&mut input);
        assert_eq!(input, sorted);
        for row in found {
            assert_eq!(row[0] + row[1] + row[2], 0);
            assert!(row[0] <= row[1] && row[1] <= row[2]);
            assert!(row[0] <= 0);
            for value in row {
                assert!(input.contains(&value));
            }
        }
    }
}
