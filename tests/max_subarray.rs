use max_subarray::crossing::find_max_crossing_subarray;
use max_subarray::solve::find_max_subarray;

fn solve_all(arr: &[i32]) -> (usize, usize, i64) {
    find_max_subarray(arr, 0, arr.len() - 1)
}

fn brute_force_max(arr: &[i32]) -> i64 {
    let mut best = i64::MIN;
    for i in 0..arr.len() {
        let mut sum: i64 = 0;
        for j in i..arr.len() {
            sum += arr[j] as i64;
            if sum > best {
                best = sum;
            }
        }
    }
    best
}

fn exact_sum(arr: &[i32], i: usize, j: usize) -> i64 {
    arr[i..=j].iter().map(|&x| x as i64).sum()
}

fn check_against_brute_force(arr: &[i32]) {
    let (lo, hi, sum) = solve_all(arr);
    assert!(lo <= hi && hi < arr.len());
    assert_eq!(sum, exact_sum(arr, lo, hi));
    assert_eq!(sum, brute_force_max(arr));
}

#[test]
fn matches_brute_force_on_enumerated_sequences() {
    let values = [-3, -1, 0, 2, 5];
    for len in 1..=5usize {
        let total = values.len().pow(len as u32);
        for code in 0..total {
            let mut c = code;
            let mut arr = Vec::new();
            for _ in 0..len {
                arr.push(values[c % values.len()]);
                c /= values.len();
            }
            check_against_brute_force(&arr);
        }
    }
}

#[test]
fn matches_brute_force_on_pseudo_random_sequences() {
    let mut state: u64 = 0x2545_f491_4f6c_dd1d;
    for len in 1..=20usize {
        for _ in 0..50 {
            let mut arr = Vec::new();
            for _ in 0..len {
                state ^= state << 13;
                state ^= state >> 7;
                state ^= state << 17;
                arr.push((state % 61) as i32 - 30);
            }
            check_against_brute_force(&arr);
        }
    }
}

#[test]
fn single_positive_element() {
    assert_eq!(solve_all(&[5]), (0, 0, 5));
}

#[test]
fn single_negative_element() {
    assert_eq!(solve_all(&[-5]), (0, 0, -5));
}

#[test]
fn all_negative_picks_least_negative() {
    assert_eq!(solve_all(&[-2, -3, -1, -4]), (2, 2, -1));
}

#[test]
fn known_example() {
    let arr = [13, -3, -25, 20, -3, -16, -23, 18, 20, -7, 12, -5, -22, 15, -4, 7];
    assert_eq!(solve_all(&arr), (7, 10, 43));
}

#[test]
fn repeated_calls_agree() {
    let arr = [1, -1, 1, -1, 1, -1, 1, -1];
    let first = find_max_subarray(&arr, 0, 7);
    for _ in 0..10 {
        assert_eq!(find_max_subarray(&arr, 0, 7), first);
    }
    assert_eq!(first, (0, 0, 1));
}

#[test]
fn tie_of_all_three_goes_to_left_half() {
    // left half best 1 at (0, 0), right half best 1 at (2, 2), crossing best 1 at (0, 2)
    let arr = [1, -1, 1, -1];
    assert_eq!(find_max_subarray(&arr, 0, 1), (0, 0, 1));
    assert_eq!(find_max_subarray(&arr, 2, 3), (2, 2, 1));
    assert_eq!(find_max_crossing_subarray(&arr, 0, 1, 3), (0, 2, 1));
    assert_eq!(solve_all(&arr), (0, 0, 1));
}

#[test]
fn left_half_wins_over_weaker_crossing() {
    let arr = [3, -10, -10, 3];
    assert_eq!(find_max_crossing_subarray(&arr, 0, 1, 3), (0, 3, -14));
    assert_eq!(solve_all(&arr), (0, 0, 3));
}

#[test]
fn tie_of_right_and_crossing_goes_to_right_half() {
    // left half best 0, right half best 4 at (2, 2), crossing best 4 at (1, 2)
    let arr = [-1, 0, 4, -9];
    assert_eq!(find_max_subarray(&arr, 0, 1), (1, 1, 0));
    assert_eq!(find_max_crossing_subarray(&arr, 0, 1, 3), (1, 2, 4));
    assert_eq!(solve_all(&arr), (2, 2, 4));
}

#[test]
fn crossing_wins_when_strictly_greater() {
    let arr = [-1, 2, 1, -3];
    assert_eq!(solve_all(&arr), (1, 2, 3));
    let arr = [2, 0, 0, 2];
    assert_eq!(find_max_subarray(&arr, 0, 1), (0, 0, 2));
    assert_eq!(find_max_subarray(&arr, 2, 3), (3, 3, 2));
    assert_eq!(solve_all(&arr), (0, 3, 4));
}

#[test]
fn crossing_keeps_nearest_on_equal_sums() {
    // suffix sums from mid=2: [0]=0, [-1,0]... nearest maximal start is kept
    let arr = [5, -5, 0, 0, 3, -3];
    assert_eq!(find_max_crossing_subarray(&arr, 0, 2, 5), (2, 4, 3));
}

#[test]
fn crossing_with_all_negative_halves() {
    let arr = [-4, -1, -2, -6];
    assert_eq!(find_max_crossing_subarray(&arr, 0, 1, 3), (1, 2, -3));
}

#[test]
fn sub_range_search_stays_inside_bounds() {
    let arr = [100, -1, 2, -1, 100];
    assert_eq!(find_max_subarray(&arr, 1, 3), (2, 2, 2));
}

#[test]
fn sums_do_not_wrap() {
    let arr = [i32::MAX, i32::MAX, i32::MAX];
    assert_eq!(solve_all(&arr), (0, 2, 3 * i32::MAX as i64));
    let arr = [i32::MIN, i32::MIN];
    assert_eq!(solve_all(&arr), (0, 0, i32::MIN as i64));
}
