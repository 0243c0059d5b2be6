use super_duper_dragon::label::encode_move_label;
use super_duper_dragon::label::make_output_label;
use super_duper_dragon::state::PieceType;
use super_duper_dragon::state::Position;

fn sq(file: u8, rank: u8) -> Position {
    Position::new(rank, file)
}

#[test]
fn test_make_output_label() {
    let label = make_output_label(&Some(sq(1, 2)), &sq(3, 4), PieceType::Bishop, true);
    assert_eq!(9 * 9 * 16 + 33, label);

    let label = make_output_label(&Some(sq(6, 7)), &sq(6, 6), PieceType::Pawn, false);
    assert_eq!(48, label);

    let label = make_output_label(&None, &sq(2, 4), PieceType::Knight, false);
    assert_eq!(9 * 9 * 22 + 34, label);
}

#[test]
fn test_knight_jump_codes() {
    // the two knight displacements take the two knight codes
    let label = make_output_label(&Some(sq(2, 3)), &sq(3, 1), PieceType::Knight, false);
    assert_eq!(label / 81, 8); // Up2Left
    let label = make_output_label(&Some(sq(2, 3)), &sq(1, 1), PieceType::Knight, false);
    assert_eq!(label / 81, 9); // Up2Right
    let label = make_output_label(&Some(sq(2, 3)), &sq(3, 1), PieceType::Knight, true);
    assert_eq!(label / 81, 18); // Up2Left promoting
    let label = make_output_label(&Some(sq(2, 3)), &sq(1, 1), PieceType::Knight, true);
    assert_eq!(label / 81, 19); // Up2Right promoting
    // a long diagonal slide clamps to a unit direction, never a knight code
    let label = make_output_label(&Some(sq(8, 8)), &sq(2, 2), PieceType::Bishop, false);
    assert_eq!(label / 81, 5); // UpRight
}

#[test]
fn test_drop_codes() {
    // the seven hand-eligible kinds map onto exactly the codes 20..=26
    let kinds = [
        PieceType::Pawn,
        PieceType::Lance,
        PieceType::Knight,
        PieceType::Silver,
        PieceType::Gold,
        PieceType::Bishop,
        PieceType::Rook,
    ];
    for (i, piece) in kinds.iter().enumerate() {
        let label = make_output_label(&None, &sq(5, 5), *piece, false);
        assert_eq!(label / 81, 20 + i as i16);
    }
}

#[test]
fn test_label_range() {
    let label = make_output_label(&Some(sq(1, 9)), &sq(1, 8), PieceType::PromRook, false);
    assert!((0..2187).contains(&label));
    let label = make_output_label(&None, &sq(1, 9), PieceType::Rook, false);
    assert_eq!(label, 81 * 26 + 80);
}

#[test]
fn test_encode_move_label_rotation() {
    // White encodes a move exactly as Black encodes the rotated move
    let from = Some(sq(6, 3));
    let to = sq(6, 4);
    let white = encode_move_label(&from, &to, PieceType::Pawn, false, 1);
    let rot_from = Some(sq(4, 7));
    let rot_to = sq(4, 6);
    let black = encode_move_label(&rot_from, &rot_to, PieceType::Pawn, false, 0);
    assert_eq!(white, black);
    // a White pawn push is forward from White's viewpoint
    assert_eq!(white / 81, 0); // Up
}

#[test]
fn test_label_search_recovers_legal_move() {
    // all thirty legal moves of the initial position, as (from, to)
    let mut legal: Vec<(Position, Position, PieceType)> = Vec::new();
    for f in 1..=9u8 {
        legal.push((sq(f, 7), sq(f, 6), PieceType::Pawn));
    }
    legal.push((sq(1, 9), sq(1, 8), PieceType::Lance));
    legal.push((sq(9, 9), sq(9, 8), PieceType::Lance));
    legal.push((sq(3, 9), sq(3, 8), PieceType::Silver));
    legal.push((sq(3, 9), sq(4, 8), PieceType::Silver));
    legal.push((sq(7, 9), sq(7, 8), PieceType::Silver));
    legal.push((sq(7, 9), sq(6, 8), PieceType::Silver));
    legal.push((sq(4, 9), sq(4, 8), PieceType::Gold));
    legal.push((sq(4, 9), sq(3, 8), PieceType::Gold));
    legal.push((sq(4, 9), sq(5, 8), PieceType::Gold));
    legal.push((sq(6, 9), sq(6, 8), PieceType::Gold));
    legal.push((sq(6, 9), sq(5, 8), PieceType::Gold));
    legal.push((sq(6, 9), sq(7, 8), PieceType::Gold));
    legal.push((sq(5, 9), sq(4, 8), PieceType::King));
    legal.push((sq(5, 9), sq(5, 8), PieceType::King));
    legal.push((sq(5, 9), sq(6, 8), PieceType::King));
    for f in [1u8, 3, 4, 5, 6, 7] {
        legal.push((sq(2, 8), sq(f, 8), PieceType::Rook));
    }
    assert_eq!(legal.len(), 30);
    // every label is in range, and searching the legal moves for a
    // matching label recovers each move uniquely
    let labels: Vec<i16> = legal
        .iter()
        .map(|(from, to, piece)| make_output_label(&Some(*from), to, *piece, false))
        .collect();
    for (i, label) in labels.iter().enumerate() {
        assert!((0..2187).contains(label));
        let hits: Vec<usize> =
            (0..labels.len()).filter(|&j| labels[j] == *label).collect();
        assert_eq!(hits, vec![i]);
    }
}
