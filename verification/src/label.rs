//! The move-to-label encoder: a move becomes one integer in `[0, 2187)`,
//! built from a direction code in `[0, 27)` and a destination square in
//! `[0, 81)`.

use crate::model::direction_byte;
use crate::model::MoveDirection;
use crate::state::piece_idx;
use crate::state::PieceType;
use crate::state::Position;
use vstd::prelude::*;

verus! {

/// Rank displacement of a board move, negative toward Black's far side.
pub open spec fn dy_of(from: Position, to: Position) -> int {
    to.rank - from.rank
}

/// Mirrored file displacement of a board move.
pub open spec fn dx_of(from: Position, to: Position) -> int {
    from.file - to.file
}

/// The two knight jumps are the only non-sliding displacements.
pub open spec fn knight_jump(dy: int, dx: int) -> bool {
    dy == -2 && (dx == 1 || dx == -1)
}

/// A sliding displacement: along a rank, a file or a diagonal, and not
/// the null move.
pub open spec fn slide_ok(dy: int, dx: int) -> bool {
    (dx == dy || dx == -dy || dx == 0 || dy == 0) && !(dx == 0 && dy == 0)
}

/// The displacements a board move may encode.
pub open spec fn valid_geometry(from: Position, to: Position) -> bool {
    knight_jump(dy_of(from, to), dx_of(from, to)) || slide_ok(dy_of(from, to), dx_of(from, to))
}

/// Clamp a displacement to a unit step.
pub open spec fn clamp1(v: int) -> int {
    if v < -1 {
        -1
    } else if v > 1 {
        1
    } else {
        v
    }
}

/// The plain direction code of a board displacement: the knight jumps
/// first, then the three-by-three table over the clamped displacement.
pub open spec fn base_dir_code(dy: int, dx: int) -> int {
    if knight_jump(dy, dx) {
        if dx == 1 {
            9
        } else {
            8
        }
    } else {
        let cy = clamp1(dy);
        let cx = clamp1(dx);
        if cy == -1 {
            if cx == -1 {
                4
            } else if cx == 0 {
                0
            } else {
                5
            }
        } else if cy == 0 {
            if cx == -1 {
                2
            } else {
                3
            }
        } else {
            if cx == -1 {
                6
            } else if cx == 0 {
                1
            } else {
                7
            }
        }
    }
}

/// The direction code of a move: a board move takes its displacement
/// code, ten higher when promoting; a drop takes one of the seven drop
/// codes `20` through `26` by piece kind.
pub open spec fn dir_code_spec(
    from: Option<Position>,
    to: Position,
    piece: PieceType,
    promoted: bool,
) -> int {
    match from {
        Some(f) => base_dir_code(dy_of(f, to), dx_of(f, to)) + if promoted {
            10int
        } else {
            0int
        },
        None => 19 + piece_idx(piece),
    }
}

/// The label of a move: eighty-one times the direction code plus the
/// destination square index.
pub open spec fn label_spec(
    from: Option<Position>,
    to: Position,
    piece: PieceType,
    promoted: bool,
) -> int {
    81 * dir_code_spec(from, to, piece, promoted) + to.pos_spec()
}

/// The inputs the label encoder accepts: a board move with a reachable
/// displacement, or a drop of a hand-eligible basic piece kind.
pub open spec fn label_input_ok(from: Option<Position>, to: Position, piece: PieceType) -> bool {
    match from {
        Some(f) => f.valid() && to.valid() && valid_geometry(f, to),
        None => to.valid() && 1 <= piece_idx(piece) <= 7,
    }
}

/// The unit-direction tag of a clamped sliding displacement.
fn direction_for(dy: i16, dx: i16) -> (r: MoveDirection)
    requires
        slide_ok(dy as int, dx as int),
        -8 <= dy <= 8,
        -8 <= dx <= 8,
    ensures
        direction_byte(r) == base_dir_code(dy as int, dx as int),
        direction_byte(r) < 8,
{
    let cy: i16 = if dy < -1 {
        -1
    } else if dy > 1 {
        1
    } else {
        dy
    };
    let cx: i16 = if dx < -1 {
        -1
    } else if dx > 1 {
        1
    } else {
        dx
    };
    if cy == -1 {
        if cx == -1 {
            MoveDirection::UpLeft
        } else if cx == 0 {
            MoveDirection::Up
        } else {
            MoveDirection::UpRight
        }
    } else if cy == 0 {
        if cx == -1 {
            MoveDirection::Left
        } else {
            MoveDirection::Right
        }
    } else {
        if cx == -1 {
            MoveDirection::DownLeft
        } else if cx == 0 {
            MoveDirection::Down
        } else {
            MoveDirection::DownRight
        }
    }
}

/// Encode a move as its categorical label.
pub fn make_output_label(
    from: &Option<Position>,
    to: &Position,
    piece: PieceType,
    promoted: bool,
) -> (r: i16)
    requires
        label_input_ok(*from, *to, piece),
    ensures
        r as int == label_spec(*from, *to, piece, promoted),
        0 <= r < 2187,
{
    let direction: i16 = match from {
        Some(f) => {
            let dy = to.rank as i16 - f.rank as i16;
            let dx = f.file as i16 - to.file as i16;
            let dir = if dy == -2 && dx == 1 {
                MoveDirection::Up2Right
            } else if dy == -2 && dx == -1 {
                MoveDirection::Up2Left
            } else {
                direction_for(dy, dx)
            };
            if promoted {
                dir.promote().to_byte() as i16
            } else {
                dir.to_byte() as i16
            }
        },
        None => {
            let drop_id = piece.to_usize() - 1;
            20 + drop_id as i16
        },
    };
    let move_to = to.to_pos() as i16;
    81 * direction + move_to
}

/// The knight-jump codes appear exactly for the two knight
/// displacements.
///
/// Law: a board move encodes to one of the `Up2Left`/`Up2Right` codes,
/// plain or promoting, exactly when its displacement is one of the two
/// knight jumps; no other displacement ever selects them.
pub proof fn lemma_knight_codes(from: Position, to: Position, piece: PieceType, promoted: bool)
    requires
        from.valid(),
        to.valid(),
        valid_geometry(from, to),
    ensures
        ({
            let d = dir_code_spec(Some(from), to, piece, promoted);
            (d == 8 || d == 9 || d == 18 || d == 19) <==> knight_jump(
                dy_of(from, to),
                dx_of(from, to),
            )
        }),
{
}

/// The center cell of the direction table is unreachable.
///
/// Law: every displacement the encoder accepts has a nonzero rank or
/// file component, so the null displacement never reaches the table.
pub proof fn lemma_center_unreachable(from: Position, to: Position)
    requires
        valid_geometry(from, to),
    ensures
        dy_of(from, to) != 0 || dx_of(from, to) != 0,
{
}

/// The drop codes are exactly the seven values from Pawn to Rook.
///
/// Law: a drop of piece kind `k` encodes direction `19 + k`, so the
/// seven hand-eligible kinds map onto exactly the codes 20 through 26.
pub proof fn lemma_drop_codes(to: Position, piece: PieceType, promoted: bool)
    requires
        1 <= piece_idx(piece) <= 7,
    ensures
        dir_code_spec(None, to, piece, promoted) == 19 + piece_idx(piece),
        20 <= dir_code_spec(None, to, piece, promoted) <= 26,
{
}

/// A position reflected through the board center, at the specification
/// level.
pub open spec fn rot_pos_spec(p: Position) -> Position {
    Position { rank: (10 - p.rank) as u8, file: (10 - p.file) as u8 }
}

/// A move origin reflected through the board center; the hand sentinel
/// stays put.
pub open spec fn rot_from_spec(from: Option<Position>) -> Option<Position> {
    match from {
        Some(f) => Some(rot_pos_spec(f)),
        None => None,
    }
}

/// The label of a move as the side to move sees it: Black encodes the
/// move as given; White encodes the whole move rotated by 180 degrees.
pub open spec fn oriented_label_spec(
    from: Option<Position>,
    to: Position,
    piece: PieceType,
    promoted: bool,
    side: int,
) -> int {
    if side == 0 {
        label_spec(from, to, piece, promoted)
    } else {
        label_spec(rot_from_spec(from), rot_pos_spec(to), piece, promoted)
    }
}

/// Encode a move as the given side sees it.
pub fn encode_move_label(
    from: &Option<Position>,
    to: &Position,
    piece: PieceType,
    promoted: bool,
    side: usize,
) -> (r: i16)
    requires
        side < 2,
        side == 0 ==> label_input_ok(*from, *to, piece),
        side == 1 ==> label_input_ok(rot_from_spec(*from), rot_pos_spec(*to), piece),
        side == 1 ==> to.valid() && (*from matches Some(f) ==> f.valid()),
    ensures
        r as int == oriented_label_spec(*from, *to, piece, promoted, side as int),
        0 <= r < 2187,
{
    if side == 0 {
        make_output_label(from, to, piece, promoted)
    } else {
        let rf: Option<Position> = match from {
            Some(f) => {
                proof {
                    assert(f.valid());
                }
                Some(f.rotate())
            },
            None => None,
        };
        let rt = to.rotate();
        make_output_label(&rf, &rt, piece, promoted)
    }
}

/// Label encoding commutes with rotating the move and swapping the side.
///
/// Law: the label White assigns to a move equals the label Black assigns
/// to the same move rotated by 180 degrees.
pub proof fn lemma_label_rotation_symmetry(
    from: Option<Position>,
    to: Position,
    piece: PieceType,
    promoted: bool,
)
    ensures
        oriented_label_spec(from, to, piece, promoted, 1) == oriented_label_spec(
            rot_from_spec(from),
            rot_pos_spec(to),
            piece,
            promoted,
            0,
        ),
{
}


/// A label pins the move down to its origin: two accepted moves with
/// the same label share the destination square, agree on whether they
/// are drops, drop the same kind, and on board moves agree on promotion
/// and on the encoded direction.
///
/// Law: searching the legal moves for one with a matching label can
/// only be ambiguous between board moves of the same direction toward
/// the same square, and at most one legal move approaches a square from
/// a given direction along a clear line.
pub proof fn lemma_label_determines_move(
    from1: Option<Position>,
    to1: Position,
    piece1: PieceType,
    promoted1: bool,
    from2: Option<Position>,
    to2: Position,
    piece2: PieceType,
    promoted2: bool,
)
    requires
        label_input_ok(from1, to1, piece1),
        label_input_ok(from2, to2, piece2),
        label_spec(from1, to1, piece1, promoted1) == label_spec(from2, to2, piece2, promoted2),
    ensures
        to1 == to2,
        from1 is None <==> from2 is None,
        from1 is None ==> piece_idx(piece1) == piece_idx(piece2),
        from1 matches Some(f1) ==> (from2 matches Some(f2) ==> promoted1 == promoted2
            && base_dir_code(dy_of(f1, to1), dx_of(f1, to1)) == base_dir_code(
            dy_of(f2, to2),
            dx_of(f2, to2),
        )),
{
    let d1 = dir_code_spec(from1, to1, piece1, promoted1);
    let d2 = dir_code_spec(from2, to2, piece2, promoted2);
    assert(0 <= to1.pos_spec() < 81);
    assert(0 <= to2.pos_spec() < 81);
    assert(0 <= d1 < 27 && 0 <= d2 < 27) by {
        match from1 {
            Some(f) => {
                assert(base_dir_code(dy_of(f, to1), dx_of(f, to1)) < 10);
            },
            None => {},
        }
        match from2 {
            Some(f) => {
                assert(base_dir_code(dy_of(f, to2), dx_of(f, to2)) < 10);
            },
            None => {},
        }
    }
    assert(d1 == d2 && to1.pos_spec() == to2.pos_spec());
    assert(to1.rank == to2.rank && to1.file == to2.file);
    match (from1, from2) {
        (Some(f1), Some(f2)) => {
            assert(base_dir_code(dy_of(f1, to1), dx_of(f1, to1)) < 10);
            assert(base_dir_code(dy_of(f2, to2), dx_of(f2, to2)) < 10);
        },
        (None, Some(f2)) => {
            assert(d1 >= 20);
            assert(base_dir_code(dy_of(f2, to2), dx_of(f2, to2)) < 10);
            assert(d2 < 20);
        },
        (Some(f1), None) => {
            assert(d2 >= 20);
            assert(base_dir_code(dy_of(f1, to1), dx_of(f1, to1)) < 10);
            assert(d1 < 20);
        },
        (None, None) => {},
    }
}

} // verus!
