use rustscripts::engine::{
    answer_of, depth_limit, go_command, handshake_command, is_handshake_ack, is_search_end, option_command,
    position_command, Engine, Query,
};
use std::collections::HashMap;

#[test]
fn engine_from_path() {
    let mut options = HashMap::new();
    options.insert("Threads".to_string(), "1".to_string());
    let e = Engine::from_path("/usr/bin/stockfish", options.clone());
    assert_eq!(e.path, "/usr/bin/stockfish");
    assert_eq!(e.uci_options, options);
}

#[test]
fn protocol_commands() {
    assert_eq!(handshake_command(), "uci");
    assert_eq!(option_command("Hash", "16"), "setoption name Hash value 16");
    assert_eq!(position_command("8/8/8/8/8/8/8/8 w - - 0 1"), "position fen 8/8/8/8/8/8/8/8 w - - 0 1");
    assert_eq!(go_command("depth 6"), "go depth 6");
    assert_eq!(depth_limit(6), "depth 6");
    assert_eq!(depth_limit(0), "depth 0");
    assert_eq!(depth_limit(1234), "depth 1234");
    assert_eq!(depth_limit(u32::MAX), "depth 4294967295");
}

#[test]
fn reply_recognition() {
    assert!(is_handshake_ack("uciok\n"));
    assert!(!is_handshake_ack("id name Engine\n"));
    assert!(is_search_end("bestmove e2e4 ponder e7e5\n"));
    assert!(!is_search_end("info depth 1 score cp 3 pv e2e4\n"));
}

#[test]
fn query_keeps_the_line_before_the_end() {
    let mut q = Query::new();
    assert_eq!(q.feed("info depth 1 score cp 3 pv e2e4\n".to_string()), None);
    assert_eq!(q.feed("info depth 2 score cp 9 pv d2d4 d7d5\n".to_string()), None);
    assert_eq!(
        q.feed("bestmove d2d4\n".to_string()),
        Some("info depth 2 score cp 9 pv d2d4 d7d5\n".to_string())
    );
    let mut empty = Query::new();
    assert_eq!(empty.feed("bestmove e2e4".to_string()), Some(String::new()));
}

fn lines(v: &[&str]) -> Vec<String> {
    v.iter().map(|s| s.to_string()).collect()
}

#[test]
fn answer_of_replies() {
    let replies = lines(&[
        "info depth 1 score cp 3 pv e2e4",
        "info depth 2 score cp 9 pv d2d4 d7d5",
        "bestmove d2d4 ponder d7d5",
        "info depth 9 stale",
    ]);
    assert_eq!(answer_of(&replies), Some("info depth 2 score cp 9 pv d2d4 d7d5".to_string()));
    assert_eq!(answer_of(&lines(&["bestmove e2e4"])), Some(String::new()));
    assert_eq!(answer_of(&lines(&["info depth 1", "info depth 2"])), None);
    assert_eq!(answer_of(&Vec::new()), None);
}
