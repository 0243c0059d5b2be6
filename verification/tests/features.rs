use super_duper_dragon::bitboard::FULL_BOARD;
use super_duper_dragon::encoder::make_input_feature_from_board;
use super_duper_dragon::encoder::BoardPacker;
use super_duper_dragon::state::GameState;
use super_duper_dragon::state::PieceType;
use super_duper_dragon::state::Position;

fn sq(file: u8, rank: u8) -> Position {
    Position::new(rank, file)
}

#[test]
fn test_encode_is_pure() {
    let board = GameState::new();
    assert_eq!(board.encode(), board.encode());
}

#[test]
fn test_plane_count() {
    let board = GameState::new();
    assert_eq!(board.encode().len(), 104);
    assert_eq!(make_input_feature_from_board(&board, 1).len(), 104);
}

#[test]
fn test_rotation_symmetry() {
    // encoding for White equals rotating the board and encoding for Black
    let mut board = GameState::new();
    board.make_move(sq(7, 7), sq(7, 6), PieceType::Pawn).unwrap();
    let as_white = make_input_feature_from_board(&board, 1);
    let as_black_rotated = make_input_feature_from_board(&board.rotate180(), 0);
    assert_eq!(as_white, as_black_rotated);
}

#[test]
fn test_initial_rotation_symmetry() {
    let board = GameState::new();
    let as_white = make_input_feature_from_board(&board, 1);
    let as_black_rotated = make_input_feature_from_board(&board.rotate180(), 0);
    assert_eq!(as_white, as_black_rotated);
    // the initial position is symmetric, so both viewpoints agree
    assert_eq!(as_white, make_input_feature_from_board(&board, 0));
}

#[test]
fn test_hand_planes_unary() {
    let mut board = GameState::new();
    board.make_move(sq(7, 7), sq(7, 6), PieceType::Pawn).unwrap();
    board.make_move(sq(3, 3), sq(3, 4), PieceType::Pawn).unwrap();
    board.make_move(sq(8, 8), sq(2, 2), PieceType::PromBishop).unwrap();
    let planes = board.encode();
    // Black holds one bishop: the first bishop hand plane is full, the
    // second is empty; bishop planes sit at offset 34 of the hand block
    assert_eq!(planes[14 + 34], FULL_BOARD);
    assert_eq!(planes[14 + 35], 0);
    // White's hand block is still empty
    for i in 0..38 {
        assert_eq!(planes[52 + 14 + i], 0);
    }
}
