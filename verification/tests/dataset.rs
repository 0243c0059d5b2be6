use super_duper_dragon::dataset::build_samples;
use super_duper_dragon::dataset::decode_samples;
use super_duper_dragon::dataset::encode_samples;
use super_duper_dragon::dataset::DataError;
use super_duper_dragon::dataset::MoveRecord;
use super_duper_dragon::encoder::make_input_feature_from_board;
use super_duper_dragon::label::make_output_label;
use super_duper_dragon::state::GameState;
use super_duper_dragon::state::MoveError;
use super_duper_dragon::state::PieceType;
use super_duper_dragon::state::Position;

fn sq(file: u8, rank: u8) -> Position {
    Position::new(rank, file)
}

fn mv(side: usize, from: Position, to: Position, piece: PieceType) -> MoveRecord {
    MoveRecord { side, from: Some(from), to, piece }
}

fn three_moves() -> Vec<MoveRecord> {
    vec![
        mv(0, sq(7, 7), sq(7, 6), PieceType::Pawn),
        mv(1, sq(3, 3), sq(3, 4), PieceType::Pawn),
        mv(0, sq(8, 8), sq(2, 2), PieceType::PromBishop),
    ]
}

#[test]
fn test_build_samples_labels_and_winner() {
    let rows = build_samples(&three_moves(), 0).unwrap();
    assert_eq!(rows.len(), 3);
    // ply 1: Black pawn 7g to 7f
    let expected = make_output_label(&Some(sq(7, 7)), &sq(7, 6), PieceType::Pawn, false);
    assert_eq!(rows[0].move_label, expected as u16);
    assert!(rows[0].is_winner_turn);
    // ply 2 is White's move, encoded in the rotated frame
    let expected = make_output_label(&Some(sq(7, 7)), &sq(7, 6), PieceType::Pawn, false);
    assert_eq!(rows[1].move_label, expected as u16);
    assert!(!rows[1].is_winner_turn);
    // ply 3 promotes: the bishop capture takes a promoting diagonal code
    let expected = make_output_label(&Some(sq(8, 8)), &sq(2, 2), PieceType::PromBishop, true);
    assert_eq!(rows[2].move_label, expected as u16);
    assert!(rows[2].is_winner_turn);
}

#[test]
fn test_build_samples_features_match_board() {
    let rows = build_samples(&three_moves(), 1).unwrap();
    let board = GameState::new();
    assert_eq!(rows[0].features, make_input_feature_from_board(&board, 0));
    let mut board = GameState::new();
    board.make_move(sq(7, 7), sq(7, 6), PieceType::Pawn).unwrap();
    assert_eq!(rows[1].features, make_input_feature_from_board(&board, 1));
}

#[test]
fn test_build_samples_rejects_bad_records() {
    // a move by the side not on turn
    let moves = vec![mv(1, sq(3, 3), sq(3, 4), PieceType::Pawn)];
    assert!(matches!(build_samples(&moves, 0), Err(DataError::InvalidRecord)));
    // a move from an empty square
    let moves = vec![mv(0, sq(5, 5), sq(5, 4), PieceType::Pawn)];
    assert!(matches!(
        build_samples(&moves, 0),
        Err(DataError::IllegalMove(MoveError::EmptyOrigin))
    ));
    // an unreachable displacement
    let moves = vec![mv(0, sq(7, 7), sq(5, 4), PieceType::Pawn)];
    assert!(matches!(
        build_samples(&moves, 0),
        Err(DataError::EncodingAssertionFailure)
    ));
}

#[test]
fn test_dataset_round_trip() {
    let rows = build_samples(&three_moves(), 0).unwrap();
    let bytes = encode_samples(&rows);
    // one fixed-size record is 104 * 16 + 2 + 1 bytes after the count
    assert_eq!(bytes.len(), 8 + 3 * 1667);
    let back = decode_samples(&bytes).unwrap();
    assert_eq!(back.len(), rows.len());
    for (a, b) in rows.iter().zip(back.iter()) {
        assert_eq!(a.features, b.features);
        assert_eq!(a.move_label, b.move_label);
        assert_eq!(a.is_winner_turn, b.is_winner_turn);
    }
}

#[test]
fn test_dataset_layout() {
    let rows = build_samples(&three_moves(), 0).unwrap();
    let bytes = encode_samples(&rows);
    // little-endian record count up front
    assert_eq!(&bytes[0..8], &[3, 0, 0, 0, 0, 0, 0, 0]);
    // the label of the first record sits after its 1664 feature bytes
    let label = u16::from_le_bytes([bytes[8 + 1664], bytes[8 + 1665]]);
    assert_eq!(label, rows[0].move_label);
    assert_eq!(bytes[8 + 1666], 1);
}

#[test]
fn test_decode_rejects_malformed_bytes() {
    assert!(matches!(
        decode_samples(&vec![1, 2, 3]),
        Err(DataError::FormatError)
    ));
    // a count that promises more records than the bytes hold
    let mut bytes = vec![0u8; 8];
    bytes[0] = 200;
    assert!(matches!(decode_samples(&bytes), Err(DataError::FormatError)));
    // trailing garbage after the promised records
    let rows = build_samples(&three_moves(), 0).unwrap();
    let mut bytes = encode_samples(&rows);
    bytes.push(0);
    assert!(matches!(decode_samples(&bytes), Err(DataError::FormatError)));
}
