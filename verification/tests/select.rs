use liarslie::select::{select, Ratio};
use liarslie::tally::Tally;

fn tally_of(pairs: &[(u16, usize)]) -> Tally {
    let mut t = Tally::new();
    for &(v, n) in pairs {
        for _ in 0..n {
            t.increment(v);
        }
    }
    t
}

#[test]
fn deviation_tie_goes_to_smallest_value() {
    // tally {3: 7, 5: 3}, total 10, liar ratio 0.5, nothing tried yet:
    // both scores are |0.5 - 0.7| = |0.5 - 0.3| = 0.2, so the tie-break
    // picks 3.
    let t = tally_of(&[(3, 7), (5, 3)]);
    assert_eq!(t.total, 10);
    let ratio = Ratio { num: 1, den: 2 };
    let tried: Vec<u16> = Vec::new();
    assert_eq!(select(&t, t.total, &ratio, &tried), Some(3));

    // the same ratio written as 5/10 behaves identically
    let ratio = Ratio { num: 5, den: 10 };
    assert_eq!(select(&t, t.total, &ratio, &tried), Some(3));
}

#[test]
fn closest_frequency_wins() {
    // liar ratio 0.25: the truthful fraction is 0.75; 5 was reported with
    // frequency 0.75 and 3 with 0.25, so 5 wins outright.
    let t = tally_of(&[(5, 3), (3, 1)]);
    let ratio = Ratio { num: 1, den: 4 };
    let tried: Vec<u16> = Vec::new();
    assert_eq!(select(&t, t.total, &ratio, &tried), Some(5));
}

#[test]
fn tried_values_are_excluded() {
    let t = tally_of(&[(3, 7), (5, 3)]);
    let ratio = Ratio { num: 1, den: 2 };
    let tried: Vec<u16> = vec![3];
    assert_eq!(select(&t, t.total, &ratio, &tried), Some(5));
}

#[test]
fn no_untried_candidate_is_signalled() {
    let t = tally_of(&[(3, 7), (5, 3)]);
    let ratio = Ratio { num: 1, den: 2 };
    let tried: Vec<u16> = vec![3, 5];
    assert_eq!(select(&t, t.total, &ratio, &tried), None);

    let empty = Tally::new();
    let none_tried: Vec<u16> = Vec::new();
    assert_eq!(select(&empty, 0, &ratio, &none_tried), None);
}

#[test]
fn exact_tie_on_equal_counts() {
    // equal counts, equal scores: the numerically smallest candidate wins
    let t = tally_of(&[(7, 5), (2, 5)]);
    let ratio = Ratio { num: 1, den: 2 };
    let tried: Vec<u16> = Vec::new();
    assert_eq!(select(&t, t.total, &ratio, &tried), Some(2));
}
