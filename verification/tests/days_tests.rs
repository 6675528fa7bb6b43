use dipbot::days::{add_missing_days, find_day, get_or_insert_day, pick_day, pick_days, sort_days};

#[test]
fn get_or_insert_finds_or_appends() {
    let mut table: Vec<(i32, u32)> = vec![(10, 1), (12, 2)];
    assert_eq!(get_or_insert_day(&mut table, 12, 0), 1);
    assert_eq!(table, vec![(10, 1), (12, 2)]);
    assert_eq!(get_or_insert_day(&mut table, 11, 0), 2);
    assert_eq!(table, vec![(10, 1), (12, 2), (11, 0)]);
}

#[test]
fn get_or_insert_twice_is_once() {
    let mut table: Vec<(i32, u32)> = Vec::new();
    let first = get_or_insert_day(&mut table, 5, 7);
    let again = get_or_insert_day(&mut table, 5, 9);
    assert_eq!(first, again);
    assert_eq!(table, vec![(5, 7)]);
}

#[test]
fn find_day_gives_first_entry() {
    let table: Vec<(i32, char)> = vec![(3, 'a'), (4, 'b'), (3, 'c')];
    assert_eq!(find_day(&table, 3), Some(0));
    assert_eq!(find_day(&table, 4), Some(1));
    assert_eq!(find_day(&table, 5), None);
}

#[test]
fn missing_days_are_added_in_order() {
    let mut table: Vec<(i32, u32)> = vec![(738886, 4)];
    add_missing_days(&mut table, &vec![738884, 738885, 738886], 0);
    assert_eq!(table, vec![(738886, 4), (738884, 0), (738885, 0)]);
}

#[test]
fn days_are_sorted_stably() {
    let table: Vec<(i32, char)> = vec![(3, 'a'), (1, 'b'), (3, 'c'), (2, 'd')];
    assert_eq!(sort_days(table), vec![(1, 'b'), (2, 'd'), (3, 'a'), (3, 'c')]);
}

#[test]
fn week_values_default_to_fresh() {
    let table: Vec<(i32, u32)> = vec![(1, 10), (3, 30)];
    assert_eq!(pick_days(&table, &vec![1, 2, 3, 4], 0), vec![10, 0, 30, 0]);
    assert_eq!(pick_day(&table, 3, 0), 30);
    assert_eq!(pick_day(&table, 9, 0), 0);
}

#[test]
fn history_of_a_user() {
    // Two message days and a game day, then the window of days, then sorting: the table
    // the user card draws its chart from.
    let mut table: Vec<(i32, (i64, u32))> = Vec::new();
    for (day, messages) in [(738886, 5i64), (738884, 2)] {
        let i = get_or_insert_day(&mut table, day, (0, 0));
        table[i].1 .0 += messages;
    }
    let i = get_or_insert_day(&mut table, 738886, (0, 0));
    table[i].1 .1 += 60;
    add_missing_days(&mut table, &vec![738883, 738884, 738885, 738886], (0, 0));
    let table = sort_days(table);
    assert_eq!(
        table,
        vec![(738883, (0, 0)), (738884, (2, 0)), (738885, (0, 0)), (738886, (5, 60))]
    );
    assert_eq!(pick_day(&table, 738886, (0, 0)), (5, 60));
}

#[test]
fn sorting_and_filling_keep_each_days_value() {
    let table: Vec<(i32, u32)> = vec![(7, 70), (2, 20), (7, 71), (5, 50)];
    let days = vec![1, 2, 3, 5, 7, 8];
    let before = pick_days(&table, &days, 0);
    let mut filled = table.clone();
    add_missing_days(&mut filled, &vec![1, 3, 8], 0);
    assert_eq!(pick_days(&filled, &days, 0), before);
    let sorted = sort_days(filled);
    assert_eq!(pick_days(&sorted, &days, 0), before);
    assert_eq!(before, vec![0, 20, 0, 50, 70, 0]);
}

#[test]
fn missing_days_are_added_once_each() {
    let mut table: Vec<(i32, u32)> = vec![(5, 50), (5, 51)];
    add_missing_days(&mut table, &vec![3, 5, 3, 1], 0);
    assert_eq!(table, vec![(5, 50), (5, 51), (3, 0), (1, 0)]);
}
