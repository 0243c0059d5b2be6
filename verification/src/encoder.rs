//! The position-to-feature encoder: a game state becomes 104 packed
//! 128-bit words, always from the side to move's viewpoint.
//!
//! For each side in turn come 14 piece planes, the occupancy of each
//! piece tag restricted to that side, then 38 unary hand planes: one
//! all-or-nothing plane per possible copy of each hand-eligible kind.

use crate::bitboard::rev81;
use crate::bitboard::Bitboard;
use crate::bitboard::FULL_BOARD;
use crate::state::max_in_hand_spec;
use crate::state::GameState;
use crate::state::PieceType;
use vstd::prelude::*;

verus! {

/// The piece tag whose unary hand planes cover offset `hp` of the 38
/// hand planes of one side.
pub open spec fn hand_plane_piece(hp: int) -> int {
    if hp < 18 {
        1
    } else if hp < 22 {
        2
    } else if hp < 26 {
        3
    } else if hp < 30 {
        4
    } else if hp < 34 {
        5
    } else if hp < 36 {
        6
    } else {
        7
    }
}

/// Where the unary hand planes of piece tag `k` begin among the 38 hand
/// planes of one side; past the last kind the offset is the full 38.
pub open spec fn hand_plane_offset(k: int) -> int {
    if k == 1 {
        0
    } else if k == 2 {
        18
    } else if k == 3 {
        22
    } else if k == 4 {
        26
    } else if k == 5 {
        30
    } else if k == 6 {
        34
    } else if k == 7 {
        36
    } else {
        38
    }
}

/// The word of feature plane `i` for the given masks and hands: piece
/// planes are the raw intersection words, hand planes are all-ones
/// exactly when the hand holds more copies than the plane's threshold.
pub open spec fn plane_at(bbs: Seq<Bitboard>, occ: Seq<Bitboard>, hands: Seq<u64>, i: int) -> u128 {
    let s = if i < 52 {
        0int
    } else {
        1int
    };
    let j = i - 52 * s;
    if j < 14 {
        bbs[j + 1].bits & occ[s].bits
    } else {
        let hp = j - 14;
        let k = hand_plane_piece(hp);
        let t = hp - hand_plane_offset(k);
        if hands[s * 15 + k] > t {
            FULL_BOARD
        } else {
            0
        }
    }
}

/// All 104 feature words for the given masks and hands.
pub open spec fn feature_words(bbs: Seq<Bitboard>, occ: Seq<Bitboard>, hands: Seq<u64>) -> Seq<
    u128,
> {
    Seq::new(104, |i: int| plane_at(bbs, occ, hands, i))
}

/// The feature words of a state as it stands.
pub open spec fn feature_spec(b: GameState) -> Seq<u128> {
    feature_words(b.piece_bb@, b.occupied@, b.pieces_in_hand@)
}

/// The feature words of a state rotated by 180 degrees: every mask
/// reversed and the sides swapped.
pub open spec fn rotated_feature_spec(b: GameState) -> Seq<u128> {
    feature_words(
        Seq::new(15, |k: int| Bitboard { bits: rev81(b.piece_bb@[k].bits) }),
        Seq::new(2, |s: int| Bitboard { bits: rev81(b.occupied@[1 - s].bits) }),
        Seq::new(
            30,
            |h: int|
                if h < 15 {
                    b.pieces_in_hand@[h + 15]
                } else {
                    b.pieces_in_hand@[h - 15]
                },
        ),
    )
}

/// The feature words of a state from the viewpoint of the side to move:
/// Black sees the board as it stands, White sees it rotated.
pub open spec fn oriented_feature_spec(b: GameState, side: int) -> Seq<u128> {
    if side == 0 {
        feature_spec(b)
    } else {
        rotated_feature_spec(b)
    }
}

/// Pack a position into feature words.
pub fn make_input_feature(
    piece_bb: &Vec<Bitboard>,
    occupied: &Vec<Bitboard>,
    pieces_in_hand: &Vec<u64>,
) -> (r: Vec<u128>)
    requires
        piece_bb@.len() == 15,
        occupied@.len() == 2,
        pieces_in_hand@.len() == 30,
    ensures
        r@ == feature_words(piece_bb@, occupied@, pieces_in_hand@),
        r@.len() == 104,
{
    let mut features: Vec<u128> = Vec::new();
    let mut color: usize = 0;
    while color < 2
        invariant
            piece_bb@.len() == 15,
            occupied@.len() == 2,
            pieces_in_hand@.len() == 30,
            color <= 2,
            features@.len() == color * 52,
            forall|i: int|
                0 <= i < features@.len() ==> #[trigger] features@[i] == plane_at(
                    piece_bb@,
                    occupied@,
                    pieces_in_hand@,
                    i,
                ),
        decreases 2 - color,
    {
        let mut piece: usize = 1;
        while piece < 15
            invariant
                piece_bb@.len() == 15,
                occupied@.len() == 2,
                pieces_in_hand@.len() == 30,
                color < 2,
                1 <= piece <= 15,
                features@.len() == color * 52 + piece - 1,
                forall|i: int|
                    0 <= i < features@.len() ==> #[trigger] features@[i] == plane_at(
                        piece_bb@,
                        occupied@,
                        pieces_in_hand@,
                        i,
                    ),
            decreases 15 - piece,
        {
            features.push(piece_bb[piece].raw() & occupied[color].raw());
            piece = piece + 1;
        }
        let mut hp_kind: usize = 1;
        while hp_kind < 8
            invariant
                piece_bb@.len() == 15,
                occupied@.len() == 2,
                pieces_in_hand@.len() == 30,
                color < 2,
                1 <= hp_kind <= 8,
                features@.len() == color * 52 + 14 + hand_plane_offset(hp_kind as int),
                forall|i: int|
                    0 <= i < features@.len() ==> #[trigger] features@[i] == plane_at(
                        piece_bb@,
                        occupied@,
                        pieces_in_hand@,
                        i,
                    ),
            decreases 8 - hp_kind,
        {
            let kind = PieceType::from_index(hp_kind);
            let max = kind.max_piece_in_hand();
            let held = pieces_in_hand[color * 15 + hp_kind];
            let mut i: usize = 0;
            while i < max
                invariant
                    piece_bb@.len() == 15,
                    occupied@.len() == 2,
                    pieces_in_hand@.len() == 30,
                    color < 2,
                    1 <= hp_kind < 8,
                    max as int == max_in_hand_spec(hp_kind as int),
                    held == pieces_in_hand@[color * 15 + hp_kind],
                    i <= max,
                    features@.len() == color * 52 + 14 + hand_plane_offset(hp_kind as int)
                        + i,
                    forall|j: int|
                        0 <= j < features@.len() ==> #[trigger] features@[j] == plane_at(
                            piece_bb@,
                            occupied@,
                            pieces_in_hand@,
                            j,
                        ),
                decreases max - i,
            {
                proof {
                    let idx = color * 52 + 14 + hand_plane_offset(hp_kind as int) + i;
                    assert(hand_plane_piece(idx - 52 * (color as int) - 14) == hp_kind as int);
                }
                if held > i as u64 {
                    features.push(FULL_BOARD);
                } else {
                    features.push(0);
                }
                i = i + 1;
            }
            hp_kind = hp_kind + 1;
        }
        color = color + 1;
    }
    proof {
        assert(features@ =~= feature_words(piece_bb@, occupied@, pieces_in_hand@));
    }
    features
}

/// Anything that can pack itself into the 104 feature words.
pub trait BoardPacker {
    /// The states the packer accepts.
    spec fn packable(&self) -> bool;

    /// The words the packer emits.
    spec fn feature_view(&self) -> Seq<u128>;

    /// Pack into exactly 104 feature words.
    fn encode(&self) -> (r: Vec<u128>)
        requires
            self.packable(),
        ensures
            r@ == self.feature_view(),
            r@.len() == 104,
    ;
}

impl BoardPacker for GameState {
    open spec fn packable(&self) -> bool {
        self.wf()
    }

    open spec fn feature_view(&self) -> Seq<u128> {
        feature_spec(*self)
    }

    fn encode(&self) -> (r: Vec<u128>) {
        make_input_feature(&self.piece_bb, &self.occupied, &self.pieces_in_hand)
    }
}

/// Pack a position from the viewpoint of the side to move: White's
/// positions are rotated by 180 degrees before packing.
pub fn make_input_feature_from_board(board: &GameState, turn: usize) -> (r: Vec<u128>)
    requires
        board.wf(),
        turn < 2,
    ensures
        r@ == oriented_feature_spec(*board, turn as int),
        r@.len() == 104,
{
    if turn == 0 {
        make_input_feature(&board.piece_bb, &board.occupied, &board.pieces_in_hand)
    } else {
        let rb = board.rotate180();
        let r = make_input_feature(&rb.piece_bb, &rb.occupied, &rb.pieces_in_hand);
        proof {
            lemma_rotation_fields(*board, rb);
        }
        r
    }
}

/// A rotated state's fields are exactly the rotated field sequences.
proof fn lemma_rotation_fields(b: GameState, br: GameState)
    requires
        GameState::is_rotation_of(br, b),
    ensures
        br.piece_bb@ == Seq::new(15, |k: int| Bitboard { bits: rev81(b.piece_bb@[k].bits) }),
        br.occupied@ == Seq::new(2, |s: int| Bitboard { bits: rev81(b.occupied@[1 - s].bits) }),
        br.pieces_in_hand@ == Seq::new(
            30,
            |h: int|
                if h < 15 {
                    b.pieces_in_hand@[h + 15]
                } else {
                    b.pieces_in_hand@[h - 15]
                },
        ),
{
    assert forall|k: int| 0 <= k < 15 implies #[trigger] br.piece_bb@[k] == (Bitboard {
        bits: rev81(b.piece_bb@[k].bits),
    }) by {
        assert(br.piece_bb@[k].bits == rev81(b.piece_bb@[k].bits));
    }
    assert(br.piece_bb@ =~= Seq::new(15, |k: int| Bitboard { bits: rev81(b.piece_bb@[k].bits) }));
    assert(br.occupied@[0] == (Bitboard { bits: rev81(b.occupied@[1].bits) }));
    assert(br.occupied@[1] == (Bitboard { bits: rev81(b.occupied@[0].bits) }));
    assert(br.occupied@ =~= Seq::new(2, |s: int| Bitboard { bits: rev81(b.occupied@[1 - s].bits) }));
    assert forall|h: int| 0 <= h < 30 implies #[trigger] br.pieces_in_hand@[h] == (if h < 15 {
        b.pieces_in_hand@[h + 15]
    } else {
        b.pieces_in_hand@[h - 15]
    }) by {}
    assert(br.pieces_in_hand@ =~= Seq::new(
        30,
        |h: int|
            if h < 15 {
                b.pieces_in_hand@[h + 15]
            } else {
                b.pieces_in_hand@[h - 15]
            },
    ));
}

/// Packing is a pure function of the position.
///
/// Law: two packings of the same state give bit-identical words.
pub proof fn lemma_encode_deterministic(b: GameState, r1: Seq<u128>, r2: Seq<u128>)
    requires
        r1 == feature_spec(b),
        r2 == feature_spec(b),
    ensures
        r1 == r2,
{
}

/// Packing commutes with rotation and side swap.
///
/// Law: the words White sees in a position are exactly the words Black
/// sees in the position rotated by 180 degrees.
pub proof fn lemma_feature_rotation_symmetry(b: GameState, br: GameState)
    requires
        GameState::is_rotation_of(br, b),
    ensures
        oriented_feature_spec(b, 1) == oriented_feature_spec(br, 0),
{
    lemma_rotation_fields(b, br);
}

} // verus!
