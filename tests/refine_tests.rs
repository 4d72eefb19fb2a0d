use rustscripts::engine::answer_of;
use rustscripts::analysis::{parse_analysis, parse_i32, Analysis};
use rustscripts::record::{format_record, parse_record, RefinedRecord, WorkItem};
use rustscripts::refine::{refine, replay_pv};

const START: &str = "rnbqkbnr/pppppppp/8/8/8/8/PPPPPPPP/RNBQKBNR w KQkq - 0 1";
const AFTER_E4_E5: &str = "rnbqkbnr/pppp1ppp/8/4p3/4P3/8/PPPP1PPP/RNBQKBNR w KQkq - 0 2";

fn chars(s: &str) -> Vec<char> {
    s.chars().collect()
}

fn start_item() -> WorkItem {
    parse_record(&format!("{} [0.5]", START)).unwrap()
}

#[test]
fn scenario_kept_record() {
    let item = start_item();
    let line = "info depth 6 seldepth 8 multipv 1 score cp 20 nodes 1234 pv e2e4 e7e5\n";
    let rec = refine(&item, line, 1000).unwrap();
    assert_eq!(rec.fen, AFTER_E4_E5);
    assert_eq!(rec.label, "0.5");
    assert_eq!(format_record(&rec), format!("{} [0.5]", AFTER_E4_E5));
}

#[test]
fn scenario_filtered_out() {
    let item = start_item();
    let line = "info depth 6 score cp 1500 nodes 10 pv e2e4 e7e5";
    assert!(refine(&item, line, 1000).is_none());
    let line = "info depth 6 score cp -1500 nodes 10 pv e2e4 e7e5";
    assert!(refine(&item, line, 1000).is_none());
}

#[test]
fn filter_limit_is_inclusive() {
    let item = start_item();
    assert!(refine(&item, "info score cp 1000 pv e2e4", 1000).is_some());
    assert!(refine(&item, "info score cp -1000 pv e2e4", 1000).is_some());
    assert!(refine(&item, "info score cp 1001 pv e2e4", 1000).is_none());
}

#[test]
fn scenario_mate_discarded() {
    let item = start_item();
    let line = "info depth 6 score mate 3 nodes 10 pv e2e4 e7e5";
    assert!(refine(&item, line, 1000).is_none());
    assert!(refine(&item, line, i32::MAX).is_none());
}

#[test]
fn discards_repeat_on_every_run() {
    let item = start_item();
    let mate = "info depth 6 score mate -2 pv e2e4";
    let bad_pv = "info depth 6 score cp 10 pv e2e5";
    for _ in 0..3 {
        assert!(refine(&item, mate, 1000).is_none());
        assert!(refine(&item, bad_pv, 1000).is_none());
    }
}

#[test]
fn unscored_and_unreadable_lines_are_discarded() {
    let item = start_item();
    assert!(refine(&item, "info depth 6 nodes 10 pv e2e4", 1000).is_none());
    assert!(refine(&item, "info depth 6 score cp abc pv e2e4", 1000).is_none());
    assert!(refine(&item, "info depth 6 score lowerbound pv e2e4", 1000).is_none());
    assert!(refine(&item, "", 1000).is_none());
}

#[test]
fn illegal_or_missing_pv_is_discarded() {
    let item = start_item();
    assert!(refine(&item, "info score cp 5 pv e2e4 e2e4", 1000).is_none());
    assert!(refine(&item, "info score cp 5 pv zz99", 1000).is_none());
    assert!(refine(&item, "info score cp 5 pv ", 1000).is_none());
}

#[test]
fn bad_fen_is_discarded() {
    let item = WorkItem { fen: "not a fen".to_string(), label: "1.0".to_string() };
    assert!(refine(&item, "info score cp 5 pv e2e4", 1000).is_none());
}

#[test]
fn replay_is_deterministic() {
    let pv = vec!["e2e4".to_string(), "e7e5".to_string(), "g1f3".to_string()];
    let a = replay_pv(START, &pv);
    let b = replay_pv(START, &pv);
    assert_eq!(a, b);
    assert_eq!(
        a.unwrap(),
        "rnbqkbnr/pppp1ppp/8/4p3/4P3/5N2/PPPP1PPP/RNBQKB1R b KQkq - 1 2"
    );
}

#[test]
fn replay_of_nothing_keeps_the_position() {
    assert_eq!(replay_pv(START, &Vec::new()).unwrap(), START);
    assert!(replay_pv(START, &vec!["e2e5".to_string()]).is_none());
}

#[test]
fn parse_record_splits_fen_and_label() {
    let item = parse_record(&format!("{}   [0.5]", START)).unwrap();
    assert_eq!(item.fen, START);
    assert_eq!(item.label, "0.5");
    let item = parse_record("8/8/8 w - - 0 1 [1.0] [x]").unwrap();
    assert_eq!(item.fen, "8/8/8 w - - 0 1");
    assert_eq!(item.label, "1.0 ");
    assert!(parse_record("8/8/8 w - - 0 1 1.0").is_none());
    assert!(parse_record("").is_none());
}

#[test]
fn record_round_trip() {
    let rec = RefinedRecord { fen: AFTER_E4_E5.to_string(), label: "0.0".to_string() };
    let line = format_record(&rec);
    assert_eq!(line, format!("{} [0.0]", AFTER_E4_E5));
    let back = parse_record(&line).unwrap();
    assert_eq!(back.fen, rec.fen);
    assert_eq!(back.label, rec.label);
}

#[test]
fn analysis_variants() {
    assert!(matches!(parse_analysis("info score mate 1 pv a2a3"), Analysis::Mate));
    assert!(matches!(parse_analysis("info depth 1 pv a2a3"), Analysis::NoScore));
    assert!(matches!(parse_analysis("info score cp x pv a2a3"), Analysis::BadScore));
    match parse_analysis("info multipv 1 score cp -37 nodes 5 pv a2a3 b7b6  \r\n") {
        Analysis::Scored { score, pv } => {
            assert_eq!(score, -37);
            assert_eq!(pv, vec!["a2a3".to_string(), "b7b6".to_string()]);
        }
        _ => panic!("expected a scored line"),
    }
}

#[test]
fn integer_reading() {
    assert_eq!(parse_i32(&chars("20")), Some(20));
    assert_eq!(parse_i32(&chars("-1500")), Some(-1500));
    assert_eq!(parse_i32(&chars("+7")), Some(7));
    assert_eq!(parse_i32(&chars("2147483647")), Some(i32::MAX));
    assert_eq!(parse_i32(&chars("-2147483648")), Some(i32::MIN));
    assert_eq!(parse_i32(&chars("2147483648")), None);
    assert_eq!(parse_i32(&chars("99999999999")), None);
    assert_eq!(parse_i32(&chars("")), None);
    assert_eq!(parse_i32(&chars("-")), None);
    assert_eq!(parse_i32(&chars("1a")), None);
}

fn stub_engine(score: &str) -> Vec<String> {
    vec![
        "info depth 1 score cp 5 pv d2d4".to_string(),
        format!("info depth 6 {} nodes 900 pv e2e4 e7e5", score),
        "bestmove e2e4 ponder e7e5".to_string(),
    ]
}

fn pipeline(score: &str, filter_limit: i32) -> Option<String> {
    let item = start_item();
    let answer = answer_of(&stub_engine(score)).unwrap();
    refine(&item, &answer, filter_limit).map(|rec| format_record(&rec))
}

#[test]
fn stub_pipeline_scenarios() {
    assert_eq!(pipeline("score cp 20", 1000), Some(format!("{} [0.5]", AFTER_E4_E5)));
    assert_eq!(pipeline("score cp 1500", 1000), None);
    assert_eq!(pipeline("score mate 4", 1000), None);
    assert_eq!(pipeline("score mate 4", i32::MAX), None);
}
