use dipbot::order::cmp_i64;
use dipbot::ranking::{rank_in, sort_by_messages, sum_counts, user_positions, MemberStat};
use std::cmp::Ordering;

fn stat(id: &str, count: i64) -> MemberStat {
    MemberStat { user_id: id.to_string(), message_count: count }
}

fn ids(v: &[MemberStat]) -> Vec<&str> {
    v.iter().map(|m| m.user_id.as_str()).collect()
}

#[test]
fn cmp_i64_orders_ascending() {
    assert_eq!(cmp_i64(&1, &2), Ordering::Less);
    assert_eq!(cmp_i64(&2, &1), Ordering::Greater);
    assert_eq!(cmp_i64(&-5, &-5), Ordering::Equal);
    assert_eq!(cmp_i64(&i64::MIN, &i64::MAX), Ordering::Less);
}

#[test]
fn cmp_i64_flipped_is_reverse() {
    for (a, b) in [(1, 2), (3, 3), (-7, 4), (i64::MAX, 0)] {
        assert_eq!(cmp_i64(&b, &a), cmp_i64(&a, &b).reverse());
    }
}

#[test]
fn message_sort_is_descending_and_stable() {
    let by_voice = vec![stat("a", 5), stat("b", 9), stat("c", 5), stat("d", 0), stat("e", 9)];
    let sorted = sort_by_messages(&by_voice);
    assert_eq!(ids(&sorted), vec!["b", "e", "a", "c", "d"]);
}

#[test]
fn message_sort_matches_std_sort_by() {
    let by_voice = vec![stat("x", 3), stat("y", 1), stat("z", 3), stat("w", 2), stat("v", 1)];
    let mut expected: Vec<(String, i64)> =
        by_voice.iter().map(|m| (m.user_id.clone(), m.message_count)).collect();
    expected.sort_by(|a, b| cmp_i64(&b.1, &a.1));
    let sorted = sort_by_messages(&by_voice);
    let got: Vec<(String, i64)> =
        sorted.iter().map(|m| (m.user_id.clone(), m.message_count)).collect();
    assert_eq!(got, expected);
}

#[test]
fn positions_of_a_server() {
    let by_total = vec!["a".to_string(), "b".to_string(), "c".to_string()];
    let by_voice = vec![stat("c", 1), stat("a", 10), stat("b", 10)];
    let p = user_positions(by_total, &by_voice);
    assert_eq!(p.total, vec!["a", "b", "c"]);
    assert_eq!(p.voice, vec!["c", "a", "b"]);
    assert_eq!(p.message, vec!["a", "b", "c"]);
}

#[test]
fn empty_server_has_empty_positions() {
    let p = user_positions(Vec::new(), &Vec::new());
    assert!(p.total.is_empty() && p.voice.is_empty() && p.message.is_empty());
}

#[test]
fn rank_is_first_place_from_one() {
    let board = vec!["x".to_string(), "y".to_string(), "y".to_string()];
    assert_eq!(rank_in(&board, &"x".to_string()), 1);
    assert_eq!(rank_in(&board, &"y".to_string()), 2);
}

#[test]
fn sums_of_counts() {
    assert_eq!(sum_counts(&vec![]), 0);
    assert_eq!(sum_counts(&vec![3, 4, 5]), 12);
    assert_eq!(sum_counts(&vec![i64::MAX, -1, 1]), i64::MAX);
}
