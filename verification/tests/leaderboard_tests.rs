use school_sanctioned_gambling::leaderboard::{
    add_leaderboard_data, add_score, leaderboard_line, parse_leaderboard_line, reverse_entries, sort_entries,
    LeaderboardEntry,
};

fn entry(name: &str, score: u32) -> LeaderboardEntry {
    LeaderboardEntry::new(name.to_string(), score)
}

fn pairs(v: &Vec<LeaderboardEntry>) -> Vec<(String, u32)> {
    v.iter().map(|e| (e.name.clone(), e.score)).collect()
}

#[test]
fn lines_are_read() {
    let e = parse_leaderboard_line(" ann , 42 ");
    assert_eq!((e.name.as_str(), e.score), ("ann", 42));
    let e = parse_leaderboard_line("bob,x");
    assert_eq!((e.name.as_str(), e.score), ("bob", 0));
    let e = parse_leaderboard_line("cy,7,extra");
    assert_eq!(e.score, 7);
    let e = parse_leaderboard_line("dee,99999999999");
    assert_eq!(e.score, 0);
    let e = parse_leaderboard_line("eve,+5");
    assert_eq!(e.score, 5);
}

#[test]
fn sorting_is_by_score_and_stable() {
    let sorted = sort_entries(vec![entry("a", 5), entry("b", 1), entry("c", 5), entry("d", 3)]);
    assert_eq!(pairs(&sorted), vec![("b".to_string(), 1), ("d".to_string(), 3), ("a".to_string(), 5), ("c".to_string(), 5)]);
    let rev = reverse_entries(sorted);
    assert_eq!(rev[0].name, "c");
}

#[test]
fn scores_add_up_or_a_player_joins() {
    let mut board = vec![entry("a", 5), entry("b", 1)];
    add_score(&mut board, "b", 10);
    assert_eq!(pairs(&board), vec![("a".to_string(), 5), ("b".to_string(), 11)]);
    add_score(&mut board, "z", 2);
    assert_eq!(board.len(), 3);
    assert_eq!((board[2].name.as_str(), board[2].score), ("z", 2));
}

#[test]
fn lines_are_written() {
    assert_eq!(leaderboard_line(&entry("ann", 42)), "ann,42");
}

#[test]
fn the_board_is_rewritten_highest_first() {
    let lines = vec!["ann,5".to_string(), "bob,9".to_string(), "cy,1".to_string()];
    let out = add_leaderboard_data(&lines, "ann", 10);
    assert_eq!(out, vec!["bob,9".to_string(), "ann,15".to_string(), "cy,1".to_string()]);
    let out = add_leaderboard_data(&lines, "dan", 3);
    assert_eq!(out, vec!["bob,9".to_string(), "ann,5".to_string(), "cy,1".to_string(), "dan,3".to_string()]);
    assert_eq!(add_leaderboard_data(&Vec::new(), "x", 1), vec!["x,1".to_string()]);
}
