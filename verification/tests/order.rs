use manifold_core::order::{holds_position, sort_positions, take_in_order};
use manifold_core::text::chars_of;

fn keys(list: &[&str]) -> Vec<Vec<char>> {
    list.iter().map(|k| chars_of(k)).collect()
}

#[test]
fn sorts_positions_by_key_rising() {
    let k = keys(&["pear", "apple", "fig", "apple", ""]);
    assert_eq!(sort_positions(&vec![0, 1, 2, 3, 4], &k, false), vec![4, 1, 3, 2, 0]);
    assert_eq!(sort_positions(&vec![3, 1], &k, false), vec![3, 1]);
    assert_eq!(sort_positions(&Vec::new(), &k, false), Vec::<usize>::new());
}

#[test]
fn sorts_positions_by_key_falling() {
    let k = keys(&["pear", "apple", "fig", "apple", ""]);
    assert_eq!(sort_positions(&vec![0, 1, 2, 3, 4], &k, true), vec![0, 2, 1, 3, 4]);
}

#[test]
fn sorting_agrees_with_a_stable_std_sort() {
    let words = ["delta", "Alpha", "charlie", "alpha", "bravo", "Alpha", "", "echo", "bravo"];
    let k = keys(&words);
    let all: Vec<usize> = (0..words.len()).collect();
    let mut rising = all.clone();
    rising.sort_by(|a, b| words[*a].cmp(words[*b]));
    assert_eq!(sort_positions(&all, &k, false), rising);
    let mut falling = all.clone();
    falling.sort_by(|a, b| words[*b].cmp(words[*a]));
    assert_eq!(sort_positions(&all, &k, true), falling);
}

#[test]
fn takes_items_in_the_order_of_the_positions() {
    let items = vec!["a".to_string(), "b".to_string(), "c".to_string()];
    assert_eq!(take_in_order(items.clone(), &vec![2, 0]), vec!["c", "a"]);
    assert_eq!(take_in_order(items.clone(), &vec![1, 2, 0]), vec!["b", "c", "a"]);
    assert_eq!(take_in_order(items, &Vec::new()), Vec::<String>::new());
}

#[test]
fn finds_a_position_in_a_list() {
    assert!(holds_position(&vec![4, 2], 2));
    assert!(!holds_position(&vec![4, 2], 3));
    assert!(!holds_position(&Vec::new(), 0));
}
