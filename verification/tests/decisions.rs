use super_duper_dragon::data_loader::DataLoader;
use super_duper_dragon::player::choose_move;
use super_duper_dragon::player::move_labels;
use super_duper_dragon::player::select_best_index;
use super_duper_dragon::player::CandidateMove;
use super_duper_dragon::progressbar::ProgressBar;
use super_duper_dragon::progressbar::ProgressState;
use super_duper_dragon::state::PieceType;
use super_duper_dragon::state::Position;

fn sq(file: u8, rank: u8) -> Position {
    Position::new(rank, file)
}

fn cand(from: Option<Position>, to: Position, piece: PieceType, promoted: bool) -> CandidateMove {
    CandidateMove { from, to, piece, promoted }
}

#[test]
fn test_select_best_index_breaks_ties_late() {
    assert_eq!(select_best_index(&vec![]), None);
    assert_eq!(select_best_index(&vec![5]), Some(0));
    assert_eq!(select_best_index(&vec![1, 7, 3]), Some(1));
    // equal scores: the later candidate wins, as a stable ascending
    // sort followed by taking the last element would decide
    assert_eq!(select_best_index(&vec![7, 2, 7]), Some(2));
}

#[test]
fn test_move_labels() {
    let cands = vec![
        cand(Some(sq(7, 7)), sq(7, 6), PieceType::Pawn, false),
        cand(None, sq(2, 4), PieceType::Knight, false),
    ];
    let labels = move_labels(&cands).unwrap();
    assert_eq!(labels, vec![47, 81 * 22 + 34]);
    // a null displacement is not encodable
    let bad = vec![cand(Some(sq(5, 5)), sq(5, 5), PieceType::Gold, false)];
    assert!(move_labels(&bad).is_none());
}

#[test]
fn test_choose_move_rotates_back_for_white() {
    let cands = vec![
        cand(Some(sq(7, 7)), sq(7, 6), PieceType::Pawn, false),
        cand(Some(sq(3, 7)), sq(3, 6), PieceType::Pawn, false),
    ];
    let scores = vec![10, 20];
    // Black keeps the winning candidate as it stands
    let best = choose_move(&cands, &scores, 0).unwrap();
    assert_eq!(best.from, Some(sq(3, 7)));
    assert_eq!(best.to, sq(3, 6));
    // White gets it rotated back to the board frame
    let best = choose_move(&cands, &scores, 1).unwrap();
    assert_eq!(best.from, Some(sq(7, 3)));
    assert_eq!(best.to, sq(7, 4));
    assert!(choose_move(&vec![], &vec![], 0).is_none());
}

#[test]
fn test_progress_state_arithmetic() {
    let st = ProgressState { remain: 30, finished: 10, elapsed_nanos: 5_000_000_000 };
    assert_eq!(st.estimated_remain_duration(), Some(15_000_000_000));
    assert_eq!(st.speed(), Some(500_000_000));
    let st = ProgressState { remain: 30, finished: 0, elapsed_nanos: 5 };
    assert_eq!(st.estimated_remain_duration(), None);
    assert_eq!(st.speed(), None);
}

#[test]
fn test_progress_bar_reports_once_per_span() {
    let mut bar = ProgressBar::new(1_000);
    // well within the span: no report
    assert_eq!(bar.on_item(500_000_000, 99), None);
    // past one second since the last report
    let report = bar.on_item(1_600_000_000, 98).unwrap();
    assert_eq!(report.finished, 1);
    assert_eq!(report.remain, 98);
    assert_eq!(report.elapsed_nanos, 1_599_999_000);
    // the clock restarts from the report
    assert_eq!(bar.on_item(2_000_000_000, 97), None);
}

#[test]
fn test_data_loader_ranges() {
    let mut loader = DataLoader::new(10, 3);
    assert_eq!(loader.size_hint(), (3, Some(3)));
    assert_eq!(loader.next_range(), Some((0, 3)));
    assert_eq!(loader.next_range(), Some((3, 6)));
    assert_eq!(loader.size_hint(), (1, Some(1)));
    assert_eq!(loader.next_range(), Some((6, 9)));
    // the trailing partial batch is never dealt
    assert_eq!(loader.next_range(), None);
    let mut empty = DataLoader::new(2, 3);
    assert_eq!(empty.next_range(), None);
}
