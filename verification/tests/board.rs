use super_duper_dragon::bitboard::FULL_BOARD;
use super_duper_dragon::encoder::BoardPacker;
use super_duper_dragon::state::GameState;
use super_duper_dragon::state::MoveError;
use super_duper_dragon::state::PieceType;
use super_duper_dragon::state::Position;

fn sq(file: u8, rank: u8) -> Position {
    Position::new(rank, file)
}

fn hand() -> Position {
    Position::new(0, 0)
}

fn bit(rank: u8, file: u8) -> u128 {
    1u128 << ((rank - 1) * 9 + 9 - file)
}

fn total_pieces(state: &GameState) -> u64 {
    let on_board =
        state.occupied[0].count() as u64 + state.occupied[1].count() as u64;
    let in_hand: u64 = state.pieces_in_hand.iter().sum();
    on_board + in_hand
}

#[test]
fn test_initial_position_planes() {
    let board = GameState::new();
    let planes = board.encode();
    assert_eq!(planes.len(), 104);
    // Black pawns stand on rank 7 only
    let rank7: u128 = (1..=9u8).map(|f| bit(7, f)).sum();
    assert_eq!(planes[0], rank7);
    // the Black king stands alone on rank 9 file 5
    assert_eq!(planes[7], bit(9, 5));
    // Black holds nothing in hand: the first hand plane is empty
    assert_eq!(planes[14], 0);
}

#[test]
fn test_initial_counts() {
    let board = GameState::new();
    assert_eq!(board.occupied[0].count(), 20);
    assert_eq!(board.occupied[1].count(), 20);
    assert_eq!(total_pieces(&board), 40);
}

#[test]
fn test_pawn_push() {
    let mut board = GameState::new();
    let before_pawns = board.piece_bb[1];
    let outcome = board.make_move(sq(7, 7), sq(7, 6), PieceType::Pawn).unwrap();
    assert!(!outcome.promoted);
    assert_eq!(board.turn, 1);
    // the pawn bit moved from rank 7 to rank 6
    let expect = (before_pawns.raw() & !bit(7, 7)) | bit(6, 7);
    assert_eq!(board.piece_bb[1].raw(), expect);
    // no capture: hands stay empty and counts stay put
    assert!(board.pieces_in_hand.iter().all(|&h| h == 0));
    assert_eq!(total_pieces(&board), 40);
}

#[test]
fn test_capture_and_conservation() {
    let mut board = GameState::new();
    board.make_move(sq(7, 7), sq(7, 6), PieceType::Pawn).unwrap();
    board.make_move(sq(3, 3), sq(3, 4), PieceType::Pawn).unwrap();
    // the Black bishop takes the White bishop on rank 2 file 2, promoting
    let outcome = board
        .make_move(sq(8, 8), sq(2, 2), PieceType::PromBishop)
        .unwrap();
    assert!(outcome.promoted);
    // the captured bishop sits in Black's hand in its basic form
    assert_eq!(board.pieces_in_hand[6], 1);
    assert_eq!(board.occupied[0].count(), 20);
    assert_eq!(board.occupied[1].count(), 19);
    assert_eq!(total_pieces(&board), 40);
    // the promoted bishop stands on the captured square
    assert_eq!(board.piece_bb[13].raw(), bit(2, 2));
}

#[test]
fn test_move_errors() {
    let mut board = GameState::new();
    // empty origin
    assert_eq!(
        board.make_move(sq(5, 5), sq(5, 4), PieceType::Pawn),
        Err(MoveError::EmptyOrigin)
    );
    // claimed piece differs from the one on the square
    assert_eq!(
        board.make_move(sq(7, 7), sq(7, 6), PieceType::Gold),
        Err(MoveError::PieceMismatch)
    );
    // destination holds a friendly piece
    assert_eq!(
        board.make_move(sq(1, 9), sq(1, 7), PieceType::Lance),
        Err(MoveError::FriendlyCollision)
    );
    // dropping from an empty hand
    assert_eq!(
        board.make_move(hand(), sq(5, 5), PieceType::Pawn),
        Err(MoveError::EmptyHand)
    );
    // a rejected move leaves the state untouched
    assert_eq!(board.turn, 0);
    assert_eq!(total_pieces(&board), 40);
}

#[test]
fn test_drop_after_capture() {
    let mut board = GameState::new();
    board.make_move(sq(7, 7), sq(7, 6), PieceType::Pawn).unwrap();
    board.make_move(sq(3, 3), sq(3, 4), PieceType::Pawn).unwrap();
    board.make_move(sq(8, 8), sq(2, 2), PieceType::PromBishop).unwrap();
    board.make_move(sq(3, 1), sq(2, 2), PieceType::Silver).unwrap();
    // Black drops the captured bishop back onto an empty square
    let outcome = board.make_move(hand(), sq(5, 5), PieceType::Bishop).unwrap();
    assert!(!outcome.promoted);
    assert_eq!(board.pieces_in_hand[6], 0);
    assert_eq!(board.piece_bb[6].raw() & bit(5, 5), bit(5, 5));
    assert_eq!(total_pieces(&board), 40);
}

#[test]
fn test_rotate180_round_trip() {
    let mut board = GameState::new();
    board.make_move(sq(7, 7), sq(7, 6), PieceType::Pawn).unwrap();
    let rotated = board.rotate180();
    assert_eq!(rotated.turn, 0);
    // rotating twice gives the original masks back
    let back = rotated.rotate180();
    for k in 0..15 {
        assert_eq!(back.piece_bb[k].raw(), board.piece_bb[k].raw());
    }
    assert_eq!(back.occupied[0].raw(), board.occupied[0].raw());
    assert_eq!(back.occupied[1].raw(), board.occupied[1].raw());
    assert_eq!(back.pieces_in_hand, board.pieces_in_hand);
    // the rotated White pawn mask mirrors Black's moved pawn
    assert_eq!(
        rotated.piece_bb[1].raw() & rotated.occupied[1].raw(),
        (1..=9u8).map(|f| bit(3, f)).sum::<u128>() & !bit(3, 3) | bit(4, 3)
    );
}

#[test]
fn test_full_board_constant() {
    assert_eq!(FULL_BOARD, (1u128 << 81) - 1);
}
