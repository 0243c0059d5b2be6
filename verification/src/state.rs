//! The full game state: one bitboard per piece tag, one per side, hand
//! counts, and the side to move; with verified move application.

use crate::bitboard::bits_set;
use crate::bitboard::Bitboard;
use vstd::prelude::*;

verus! {

/// A board coordinate: rank and file each in `1..=9`. The pair `(0, 0)`
/// stands for "in hand" and marks a drop move's origin.
#[derive(Clone, Copy, Debug, PartialEq, Eq, Structural)]
pub struct Position {
    pub rank: u8,
    pub file: u8,
}

impl Position {
    /// A real square on the board.
    pub open spec fn valid(self) -> bool {
        1 <= self.rank <= 9 && 1 <= self.file <= 9
    }

    /// The drop-origin sentinel.
    pub open spec fn is_hand(self) -> bool {
        self.rank == 0 && self.file == 0
    }

    /// The canonical bit index of this square.
    pub open spec fn pos_spec(self) -> int {
        (self.rank - 1) * 9 + 9 - self.file
    }

    pub fn new(rank: u8, file: u8) -> (r: Position)
        ensures
            r.rank == rank,
            r.file == file,
    {
        Position { file, rank }
    }

    /// The bit index of this square: rank 1 file 9 is 0, rank 9 file 1 is 80.
    pub fn to_pos(&self) -> (r: u8)
        requires
            self.valid(),
        ensures
            r as int == self.pos_spec(),
            r < 81,
    {
        (self.rank - 1) * 9 + 9 - self.file
    }

    /// The single-bit word of this square.
    pub fn to_bit(&self) -> (r: u128)
        requires
            self.valid(),
        ensures
            r == 1u128 << (self.pos_spec() as u128),
    {
        1u128 << (self.to_pos() as u128)
    }

    /// The same square seen from the other side: 180-degree rotation.
    pub fn rotate(&self) -> (r: Position)
        requires
            self.valid(),
        ensures
            r.rank == 10 - self.rank,
            r.file == 10 - self.file,
            r.valid(),
            r.pos_spec() == 80 - self.pos_spec(),
    {
        Position { rank: 10 - self.rank, file: 10 - self.file }
    }
}

/// The fifteen piece tags: the vacant tag, the eight basic kinds, and
/// the six promoted kinds.
#[derive(Clone, Copy, Debug, PartialEq, Eq, Structural)]
pub enum PieceType {
    Empty,
    Pawn,
    Lance,
    Knight,
    Silver,
    Gold,
    Bishop,
    Rook,
    King,
    PromPawn,
    PromLance,
    PromKnight,
    PromSilver,
    PromBishop,
    PromRook,
}

/// The numeric tag of each piece kind, `0` for `None` through `14` for
/// `PromRook`.
pub open spec fn piece_idx(p: PieceType) -> int {
    match p {
        PieceType::Empty => 0,
        PieceType::Pawn => 1,
        PieceType::Lance => 2,
        PieceType::Knight => 3,
        PieceType::Silver => 4,
        PieceType::Gold => 5,
        PieceType::Bishop => 6,
        PieceType::Rook => 7,
        PieceType::King => 8,
        PieceType::PromPawn => 9,
        PieceType::PromLance => 10,
        PieceType::PromKnight => 11,
        PieceType::PromSilver => 12,
        PieceType::PromBishop => 13,
        PieceType::PromRook => 14,
    }
}

/// The unpromoted root of a numeric piece tag; the basic kinds map to
/// themselves.
pub open spec fn primitive_idx(k: int) -> int {
    if k == 9 {
        1
    } else if k == 10 {
        2
    } else if k == 11 {
        3
    } else if k == 12 {
        4
    } else if k == 13 {
        6
    } else if k == 14 {
        7
    } else {
        k
    }
}

/// A claimed piece tag is consistent with the tag found on the origin
/// square when they agree, or when the claim is the promoted form of it.
pub open spec fn claim_ok(found: int, claimed: int) -> bool {
    claimed == found || (claimed >= 9 && primitive_idx(claimed) == found)
}

impl PieceType {
    /// The numeric tag of this piece kind.
    pub fn to_usize(&self) -> (r: usize)
        ensures
            r as int == piece_idx(*self),
            r < 15,
    {
        match self {
            PieceType::Empty => 0,
            PieceType::Pawn => 1,
            PieceType::Lance => 2,
            PieceType::Knight => 3,
            PieceType::Silver => 4,
            PieceType::Gold => 5,
            PieceType::Bishop => 6,
            PieceType::Rook => 7,
            PieceType::King => 8,
            PieceType::PromPawn => 9,
            PieceType::PromLance => 10,
            PieceType::PromKnight => 11,
            PieceType::PromSilver => 12,
            PieceType::PromBishop => 13,
            PieceType::PromRook => 14,
        }
    }

    /// The unpromoted root of this piece kind.
    pub fn primitive_piece(&self) -> (r: PieceType)
        ensures
            piece_idx(r) == primitive_idx(piece_idx(*self)),
    {
        match self {
            PieceType::Empty => PieceType::Empty,
            PieceType::Pawn => PieceType::Pawn,
            PieceType::Lance => PieceType::Lance,
            PieceType::Knight => PieceType::Knight,
            PieceType::Silver => PieceType::Silver,
            PieceType::Gold => PieceType::Gold,
            PieceType::Bishop => PieceType::Bishop,
            PieceType::Rook => PieceType::Rook,
            PieceType::King => PieceType::King,
            PieceType::PromPawn => PieceType::Pawn,
            PieceType::PromLance => PieceType::Lance,
            PieceType::PromKnight => PieceType::Knight,
            PieceType::PromSilver => PieceType::Silver,
            PieceType::PromBishop => PieceType::Bishop,
            PieceType::PromRook => PieceType::Rook,
        }
    }

    /// The piece kind with the given numeric tag.
    pub fn from_index(i: usize) -> (r: PieceType)
        requires
            i < 15,
        ensures
            piece_idx(r) == i as int,
    {
        if i == 0 {
            PieceType::Empty
        } else if i == 1 {
            PieceType::Pawn
        } else if i == 2 {
            PieceType::Lance
        } else if i == 3 {
            PieceType::Knight
        } else if i == 4 {
            PieceType::Silver
        } else if i == 5 {
            PieceType::Gold
        } else if i == 6 {
            PieceType::Bishop
        } else if i == 7 {
            PieceType::Rook
        } else if i == 8 {
            PieceType::King
        } else if i == 9 {
            PieceType::PromPawn
        } else if i == 10 {
            PieceType::PromLance
        } else if i == 11 {
            PieceType::PromKnight
        } else if i == 12 {
            PieceType::PromSilver
        } else if i == 13 {
            PieceType::PromBishop
        } else {
            PieceType::PromRook
        }
    }
}

/// The move application errors, one per rejected move shape.
#[derive(Clone, Copy, Debug, PartialEq, Eq, Structural)]
pub enum MoveError {
    /// A board move whose origin square holds no piece of the mover.
    EmptyOrigin,
    /// The claimed piece is neither the piece on the origin square nor its
    /// promoted form.
    PieceMismatch,
    /// The destination square already holds a piece of the mover.
    FriendlyCollision,
    /// A drop of a piece kind of which the mover holds none.
    EmptyHand,
}

/// What a successful move application reports.
#[derive(Clone, Copy, Debug, PartialEq, Eq, Structural)]
pub struct MoveOutcome {
    /// Whether the move replaced the piece by its promoted form.
    pub promoted: bool,
}

/// Black moves first and is side `0`.
pub const BLACK: usize = 0;

/// White is side `1`.
pub const WHITE: usize = 1;

/// The sum of the hand counts `h[lo..hi]`.
pub open spec fn sum_range(h: Seq<u64>, lo: int, hi: int) -> int
    decreases hi - lo,
{
    if hi <= lo {
        0
    } else {
        sum_range(h, lo, hi - 1) + h[hi - 1]
    }
}

/// The union of the square sets of `bbs[1..n]`; index 0 is the unused
/// `None` tag and never contributes.
pub open spec fn union_pieces(bbs: Seq<Bitboard>, n: int) -> Set<int>
    decreases n,
{
    if n <= 1 {
        Set::empty()
    } else {
        union_pieces(bbs, n - 1) + bbs[n - 1]@
    }
}

/// A square is in the union of the piece boards exactly when some piece
/// board holds it.
pub proof fn lemma_union_contains(bbs: Seq<Bitboard>, n: int, x: int)
    ensures
        union_pieces(bbs, n).contains(x) <==> exists|k: int|
            1 <= k < n && (#[trigger] bbs[k]@).contains(x),
    decreases n,
{
    if n > 1 {
        lemma_union_contains(bbs, n - 1, x);
    }
}

/// A range sum over unsigned counts is nonnegative.
pub proof fn lemma_sum_nonneg(h: Seq<u64>, lo: int, hi: int)
    ensures
        sum_range(h, lo, hi) >= 0,
    decreases hi - lo,
{
    if hi > lo {
        lemma_sum_nonneg(h, lo, hi - 1);
    }
}

/// Sums agree on ranges where the sequences agree pointwise.
pub proof fn lemma_sum_same(h1: Seq<u64>, h2: Seq<u64>, lo: int, hi: int)
    requires
        forall|j: int| lo <= j < hi ==> h1[j] == h2[j],
    ensures
        sum_range(h1, lo, hi) == sum_range(h2, lo, hi),
    decreases hi - lo,
{
    if hi > lo {
        lemma_sum_same(h1, h2, lo, hi - 1);
    }
}

/// Changing one entry changes the sum by the difference at that entry.
pub proof fn lemma_sum_update(h1: Seq<u64>, h2: Seq<u64>, lo: int, hi: int, k: int)
    requires
        lo <= k < hi,
        forall|j: int| lo <= j < hi && j != k ==> h1[j] == h2[j],
    ensures
        sum_range(h2, lo, hi) == sum_range(h1, lo, hi) + h2[k] - h1[k],
    decreases hi - lo,
{
    if hi - 1 == k {
        lemma_sum_same(h1, h2, lo, hi - 1);
    } else {
        lemma_sum_update(h1, h2, lo, hi - 1, k);
    }
}

/// Each entry is at most the sum of its range.
pub proof fn lemma_sum_member_le(h: Seq<u64>, lo: int, hi: int, k: int)
    requires
        lo <= k < hi,
    ensures
        h[k] <= sum_range(h, lo, hi),
    decreases hi - lo,
{
    if hi - 1 == k {
        lemma_sum_nonneg(h, lo, hi - 1);
    } else {
        lemma_sum_member_le(h, lo, hi - 1, k);
    }
}

/// A range of zero entries sums to zero.
pub proof fn lemma_sum_zero(h: Seq<u64>, lo: int, hi: int)
    requires
        forall|j: int| lo <= j < hi ==> h[j] == 0,
    ensures
        sum_range(h, lo, hi) == 0,
    decreases hi - lo,
{
    if hi > lo {
        lemma_sum_zero(h, lo, hi - 1);
    }
}

/// The complete game state.
pub struct GameState {
    /// One occupancy mask per piece tag; index 0 is unused and empty.
    pub piece_bb: Vec<Bitboard>,
    /// One occupancy mask per side.
    pub occupied: Vec<Bitboard>,
    /// Hand counts, indexed by `side * 15 + piece tag`.
    pub pieces_in_hand: Vec<u64>,
    /// The side to move.
    pub turn: usize,
}

impl GameState {
    /// The squares that side `s` occupies.
    pub open spec fn occ(self, s: int) -> Set<int> {
        self.occupied@[s]@
    }

    /// The squares that hold a piece with tag `k`.
    pub open spec fn pieces(self, k: int) -> Set<int> {
        self.piece_bb@[k]@
    }

    /// The number of pieces with tag `k` that side `s` holds in hand.
    pub open spec fn hand(self, s: int, k: int) -> int {
        self.pieces_in_hand@[s * 15 + k] as int
    }

    /// The count of pieces on the board and in the hands together.
    pub open spec fn total_pieces(self) -> int {
        self.occ(0).len() + self.occ(1).len() + sum_range(self.pieces_in_hand@, 0, 30)
    }

    /// The piece tag found on square `p`; meaningful when some piece board
    /// holds `p`, which well-formedness makes unique.
    pub open spec fn piece_at(self, p: int) -> int {
        choose|k: int| 1 <= k < 15 && self.pieces(k).contains(p)
    }

    /// The structural invariant of a game state: every occupied square is
    /// covered by exactly one piece tag and one side, hands hold only
    /// basic hand-eligible kinds, and the piece count is the full set of
    /// forty.
    pub open spec fn wf(self) -> bool {
        &&& self.piece_bb@.len() == 15
        &&& self.occupied@.len() == 2
        &&& self.pieces_in_hand@.len() == 30
        &&& (forall|k: int| 0 <= k < 15 ==> (#[trigger] self.piece_bb@[k]).wf())
        &&& self.occupied@[0].wf()
        &&& self.occupied@[1].wf()
        &&& self.pieces(0) == Set::<int>::empty()
        &&& self.occ(0).disjoint(self.occ(1))
        &&& (forall|i: int, j: int|
            #![trigger self.pieces(i), self.pieces(j)]
            1 <= i < j < 15 ==> self.pieces(i).disjoint(self.pieces(j)))
        &&& union_pieces(self.piece_bb@, 15) == self.occ(0) + self.occ(1)
        &&& (forall|s: int, k: int|
            0 <= s < 2 && 0 <= k < 15 && (k == 0 || k >= 8) ==> #[trigger] self.hand(s, k) == 0)
        &&& self.total_pieces() == 40
        &&& self.turn < 2
    }
}

/// Initial pawn squares: every square of ranks 3 and 7.
pub const INIT_PAWN: u128 = 0x7FC0_0000_07FC_0000;

/// Initial lance squares: the four corners.
pub const INIT_LANCE: u128 = 0x1_0100_0000_0000_0000_0101;

/// Initial knight squares.
pub const INIT_KNIGHT: u128 = 0x8200_0000_0000_0000_0082;

/// Initial silver squares.
pub const INIT_SILVER: u128 = 0x4400_0000_0000_0000_0044;

/// Initial gold squares.
pub const INIT_GOLD: u128 = 0x2800_0000_0000_0000_0028;

/// Initial bishop squares: rank 2 file 2 and rank 8 file 8.
pub const INIT_BISHOP: u128 = 0x1_0000_0000_0001_0000;

/// Initial rook squares: rank 2 file 8 and rank 8 file 2.
pub const INIT_ROOK: u128 = 0x40_0000_0000_0000_0400;

/// Initial king squares: rank 1 file 5 and rank 9 file 5.
pub const INIT_KING: u128 = 0x1000_0000_0000_0000_0010;

/// Squares Black occupies initially: ranks 7 and 9 plus the rook and
/// bishop on rank 8.
pub const INIT_BLACK: u128 = 0x1_FF41_7FC0_0000_0000_0000;

/// Squares White occupies initially: ranks 1 and 3 plus the rook and
/// bishop on rank 2.
pub const INIT_WHITE: u128 = 0x7FD_05FF;


/// The squares of the initial pawn mask, element by element.
pub proof fn lemma_init_pawn_squares()
    ensures
        forall|x: int| bits_set(INIT_PAWN).contains(x) <==> ((18 <= x && x <= 26) || (54 <= x && x <= 62)),
{
    assert(forall|i: u128| i < 128 ==> (((0x7FC0_0000_07FC_0000u128) >> i) & 1 == 1 <==> ((18 <= i && i <= 26) || (54 <= i && i <= 62)))) by (bit_vector);
    assert forall|x: int| bits_set(INIT_PAWN).contains(x) <==> ((18 <= x && x <= 26) || (54 <= x && x <= 62)) by {
        if 0 <= x < 81 {
            let i = x as u128;
            assert(i < 128 && x == i as int);
            assert(crate::bitboard::bit_at(INIT_PAWN, x) == (((0x7FC0_0000_07FC_0000u128) >> i) & 1 == 1));
        }
    }
}

/// The squares of the initial lance mask, element by element.
pub proof fn lemma_init_lance_squares()
    ensures
        forall|x: int| bits_set(INIT_LANCE).contains(x) <==> (x == 0 || x == 8 || x == 72 || x == 80),
{
    assert(forall|i: u128| i < 128 ==> (((0x1_0100_0000_0000_0000_0101u128) >> i) & 1 == 1 <==> (i == 0 || i == 8 || i == 72 || i == 80))) by (bit_vector);
    assert forall|x: int| bits_set(INIT_LANCE).contains(x) <==> (x == 0 || x == 8 || x == 72 || x == 80) by {
        if 0 <= x < 81 {
            let i = x as u128;
            assert(i < 128 && x == i as int);
            assert(crate::bitboard::bit_at(INIT_LANCE, x) == (((0x1_0100_0000_0000_0000_0101u128) >> i) & 1 == 1));
        }
    }
}

/// The squares of the initial knight mask, element by element.
pub proof fn lemma_init_knight_squares()
    ensures
        forall|x: int| bits_set(INIT_KNIGHT).contains(x) <==> (x == 1 || x == 7 || x == 73 || x == 79),
{
    assert(forall|i: u128| i < 128 ==> (((0x8200_0000_0000_0000_0082u128) >> i) & 1 == 1 <==> (i == 1 || i == 7 || i == 73 || i == 79))) by (bit_vector);
    assert forall|x: int| bits_set(INIT_KNIGHT).contains(x) <==> (x == 1 || x == 7 || x == 73 || x == 79) by {
        if 0 <= x < 81 {
            let i = x as u128;
            assert(i < 128 && x == i as int);
            assert(crate::bitboard::bit_at(INIT_KNIGHT, x) == (((0x8200_0000_0000_0000_0082u128) >> i) & 1 == 1));
        }
    }
}

/// The squares of the initial silver mask, element by element.
pub proof fn lemma_init_silver_squares()
    ensures
        forall|x: int| bits_set(INIT_SILVER).contains(x) <==> (x == 2 || x == 6 || x == 74 || x == 78),
{
    assert(forall|i: u128| i < 128 ==> (((0x4400_0000_0000_0000_0044u128) >> i) & 1 == 1 <==> (i == 2 || i == 6 || i == 74 || i == 78))) by (bit_vector);
    assert forall|x: int| bits_set(INIT_SILVER).contains(x) <==> (x == 2 || x == 6 || x == 74 || x == 78) by {
        if 0 <= x < 81 {
            let i = x as u128;
            assert(i < 128 && x == i as int);
            assert(crate::bitboard::bit_at(INIT_SILVER, x) == (((0x4400_0000_0000_0000_0044u128) >> i) & 1 == 1));
        }
    }
}

/// The squares of the initial gold mask, element by element.
pub proof fn lemma_init_gold_squares()
    ensures
        forall|x: int| bits_set(INIT_GOLD).contains(x) <==> (x == 3 || x == 5 || x == 75 || x == 77),
{
    assert(forall|i: u128| i < 128 ==> (((0x2800_0000_0000_0000_0028u128) >> i) & 1 == 1 <==> (i == 3 || i == 5 || i == 75 || i == 77))) by (bit_vector);
    assert forall|x: int| bits_set(INIT_GOLD).contains(x) <==> (x == 3 || x == 5 || x == 75 || x == 77) by {
        if 0 <= x < 81 {
            let i = x as u128;
            assert(i < 128 && x == i as int);
            assert(crate::bitboard::bit_at(INIT_GOLD, x) == (((0x2800_0000_0000_0000_0028u128) >> i) & 1 == 1));
        }
    }
}

/// The squares of the initial bishop mask, element by element.
pub proof fn lemma_init_bishop_squares()
    ensures
        forall|x: int| bits_set(INIT_BISHOP).contains(x) <==> (x == 16 || x == 64),
{
    assert(forall|i: u128| i < 128 ==> (((0x1_0000_0000_0001_0000u128) >> i) & 1 == 1 <==> (i == 16 || i == 64))) by (bit_vector);
    assert forall|x: int| bits_set(INIT_BISHOP).contains(x) <==> (x == 16 || x == 64) by {
        if 0 <= x < 81 {
            let i = x as u128;
            assert(i < 128 && x == i as int);
            assert(crate::bitboard::bit_at(INIT_BISHOP, x) == (((0x1_0000_0000_0001_0000u128) >> i) & 1 == 1));
        }
    }
}

/// The squares of the initial rook mask, element by element.
pub proof fn lemma_init_rook_squares()
    ensures
        forall|x: int| bits_set(INIT_ROOK).contains(x) <==> (x == 10 || x == 70),
{
    assert(forall|i: u128| i < 128 ==> (((0x40_0000_0000_0000_0400u128) >> i) & 1 == 1 <==> (i == 10 || i == 70))) by (bit_vector);
    assert forall|x: int| bits_set(INIT_ROOK).contains(x) <==> (x == 10 || x == 70) by {
        if 0 <= x < 81 {
            let i = x as u128;
            assert(i < 128 && x == i as int);
            assert(crate::bitboard::bit_at(INIT_ROOK, x) == (((0x40_0000_0000_0000_0400u128) >> i) & 1 == 1));
        }
    }
}

/// The squares of the initial king mask, element by element.
pub proof fn lemma_init_king_squares()
    ensures
        forall|x: int| bits_set(INIT_KING).contains(x) <==> (x == 4 || x == 76),
{
    assert(forall|i: u128| i < 128 ==> (((0x1000_0000_0000_0000_0010u128) >> i) & 1 == 1 <==> (i == 4 || i == 76))) by (bit_vector);
    assert forall|x: int| bits_set(INIT_KING).contains(x) <==> (x == 4 || x == 76) by {
        if 0 <= x < 81 {
            let i = x as u128;
            assert(i < 128 && x == i as int);
            assert(crate::bitboard::bit_at(INIT_KING, x) == (((0x1000_0000_0000_0000_0010u128) >> i) & 1 == 1));
        }
    }
}

/// The squares of the initial black mask, element by element.
pub proof fn lemma_init_black_squares()
    ensures
        forall|x: int| bits_set(INIT_BLACK).contains(x) <==> ((54 <= x && x <= 62) || x == 64 || x == 70 || (72 <= x && x <= 80)),
{
    assert(forall|i: u128| i < 128 ==> (((0x1_FF41_7FC0_0000_0000_0000u128) >> i) & 1 == 1 <==> ((54 <= i && i <= 62) || i == 64 || i == 70 || (72 <= i && i <= 80)))) by (bit_vector);
    assert forall|x: int| bits_set(INIT_BLACK).contains(x) <==> ((54 <= x && x <= 62) || x == 64 || x == 70 || (72 <= x && x <= 80)) by {
        if 0 <= x < 81 {
            let i = x as u128;
            assert(i < 128 && x == i as int);
            assert(crate::bitboard::bit_at(INIT_BLACK, x) == (((0x1_FF41_7FC0_0000_0000_0000u128) >> i) & 1 == 1));
        }
    }
}

/// The squares of the initial white mask, element by element.
pub proof fn lemma_init_white_squares()
    ensures
        forall|x: int| bits_set(INIT_WHITE).contains(x) <==> ((0 <= x && x <= 8) || x == 10 || x == 16 || (18 <= x && x <= 26)),
{
    assert(forall|i: u128| i < 128 ==> (((0x7FD_05FFu128) >> i) & 1 == 1 <==> ((0 <= i && i <= 8) || i == 10 || i == 16 || (18 <= i && i <= 26)))) by (bit_vector);
    assert forall|x: int| bits_set(INIT_WHITE).contains(x) <==> ((0 <= x && x <= 8) || x == 10 || x == 16 || (18 <= x && x <= 26)) by {
        if 0 <= x < 81 {
            let i = x as u128;
            assert(i < 128 && x == i as int);
            assert(crate::bitboard::bit_at(INIT_WHITE, x) == (((0x7FD_05FFu128) >> i) & 1 == 1));
        }
    }
}


/// The two sides start with twenty pieces each on the board.
proof fn lemma_init_counts()
    ensures
        bits_set(INIT_BLACK).finite(),
        bits_set(INIT_WHITE).finite(),
        bits_set(INIT_BLACK).len() == 20,
        bits_set(INIT_WHITE).len() == 20,
{
    broadcast use vstd::set_lib::group_set_properties;

    lemma_init_black_squares();
    lemma_init_white_squares();
    vstd::set_lib::lemma_int_range(54, 63);
    vstd::set_lib::lemma_int_range(72, 81);
    vstd::set_lib::lemma_int_range(0, 9);
    vstd::set_lib::lemma_int_range(18, 27);
    let mid_b: Set<int> = set![64, 70];
    let mid_w: Set<int> = set![10, 16];
    assert(mid_b.len() == 2 && mid_b.finite());
    assert(mid_w.len() == 2 && mid_w.finite());
    let b_sets = vstd::set_lib::set_int_range(54, 63) + mid_b + vstd::set_lib::set_int_range(
        72,
        81,
    );
    let w_sets = vstd::set_lib::set_int_range(0, 9) + mid_w + vstd::set_lib::set_int_range(18, 27);
    assert((vstd::set_lib::set_int_range(54, 63) + mid_b).len() == 11);
    assert(b_sets.len() == 20);
    assert((vstd::set_lib::set_int_range(0, 9) + mid_w).len() == 11);
    assert(w_sets.len() == 20);
    assert(bits_set(INIT_BLACK) =~= b_sets);
    assert(bits_set(INIT_WHITE) =~= w_sets);
}

impl GameState {
    /// The standard initial position, Black to move: pawns on ranks 3 and
    /// 7, the back ranks in lance-knight-silver-gold-king order from each
    /// edge, and the bishop-rook pair on each side's second rank.
    pub fn new() -> (r: GameState)
        ensures
            r.wf(),
            r.is_initial(),
            r.turn == BLACK,
            r.piece_bb@[0].bits == 0,
            r.piece_bb@[1].bits == INIT_PAWN,
            r.piece_bb@[2].bits == INIT_LANCE,
            r.piece_bb@[3].bits == INIT_KNIGHT,
            r.piece_bb@[4].bits == INIT_SILVER,
            r.piece_bb@[5].bits == INIT_GOLD,
            r.piece_bb@[6].bits == INIT_BISHOP,
            r.piece_bb@[7].bits == INIT_ROOK,
            r.piece_bb@[8].bits == INIT_KING,
            forall|k: int| 9 <= k < 15 ==> r.piece_bb@[k].bits == 0,
            r.occupied@[0].bits == INIT_BLACK,
            r.occupied@[1].bits == INIT_WHITE,
            forall|h: int| 0 <= h < 30 ==> r.pieces_in_hand@[h] == 0,
    {
        let mut piece_bb: Vec<Bitboard> = Vec::new();
        piece_bb.push(Bitboard::from_raw(0));
        piece_bb.push(Bitboard::from_raw(INIT_PAWN));
        piece_bb.push(Bitboard::from_raw(INIT_LANCE));
        piece_bb.push(Bitboard::from_raw(INIT_KNIGHT));
        piece_bb.push(Bitboard::from_raw(INIT_SILVER));
        piece_bb.push(Bitboard::from_raw(INIT_GOLD));
        piece_bb.push(Bitboard::from_raw(INIT_BISHOP));
        piece_bb.push(Bitboard::from_raw(INIT_ROOK));
        piece_bb.push(Bitboard::from_raw(INIT_KING));
        let mut k: usize = 9;
        while k < 15
            invariant
                9 <= k <= 15,
                piece_bb@.len() == k,
                piece_bb@[0].bits == 0,
                piece_bb@[1].bits == INIT_PAWN,
                piece_bb@[2].bits == INIT_LANCE,
                piece_bb@[3].bits == INIT_KNIGHT,
                piece_bb@[4].bits == INIT_SILVER,
                piece_bb@[5].bits == INIT_GOLD,
                piece_bb@[6].bits == INIT_BISHOP,
                piece_bb@[7].bits == INIT_ROOK,
                piece_bb@[8].bits == INIT_KING,
                forall|j: int| 9 <= j < k ==> piece_bb@[j].bits == 0,
            decreases 15 - k,
        {
            piece_bb.push(Bitboard::from_raw(0));
            k = k + 1;
        }
        let mut occupied: Vec<Bitboard> = Vec::new();
        occupied.push(Bitboard::from_raw(INIT_BLACK));
        occupied.push(Bitboard::from_raw(INIT_WHITE));
        let mut pieces_in_hand: Vec<u64> = Vec::new();
        let mut h: usize = 0;
        while h < 30
            invariant
                h <= 30,
                pieces_in_hand@.len() == h,
                forall|j: int| 0 <= j < h ==> pieces_in_hand@[j] == 0,
            decreases 30 - h,
        {
            pieces_in_hand.push(0);
            h = h + 1;
        }
        let r = GameState { piece_bb, occupied, pieces_in_hand, turn: BLACK };
        proof {
            lemma_initial_wf(r);
        }
        r
    }
}

/// The concrete initial layout satisfies the structural invariant.
proof fn lemma_initial_wf(r: GameState)
    requires
        r.piece_bb@.len() == 15,
        r.occupied@.len() == 2,
        r.pieces_in_hand@.len() == 30,
        r.piece_bb@[0].bits == 0,
        r.piece_bb@[1].bits == INIT_PAWN,
        r.piece_bb@[2].bits == INIT_LANCE,
        r.piece_bb@[3].bits == INIT_KNIGHT,
        r.piece_bb@[4].bits == INIT_SILVER,
        r.piece_bb@[5].bits == INIT_GOLD,
        r.piece_bb@[6].bits == INIT_BISHOP,
        r.piece_bb@[7].bits == INIT_ROOK,
        r.piece_bb@[8].bits == INIT_KING,
        forall|k: int| 9 <= k < 15 ==> r.piece_bb@[k].bits == 0,
        r.occupied@[0].bits == INIT_BLACK,
        r.occupied@[1].bits == INIT_WHITE,
        forall|h: int| 0 <= h < 30 ==> r.pieces_in_hand@[h] == 0,
        r.turn == 0,
    ensures
        r.wf(),
{
    lemma_init_pawn_squares();
    lemma_init_lance_squares();
    lemma_init_knight_squares();
    lemma_init_silver_squares();
    lemma_init_gold_squares();
    lemma_init_bishop_squares();
    lemma_init_rook_squares();
    lemma_init_king_squares();
    lemma_init_black_squares();
    lemma_init_white_squares();
    crate::bitboard::lemma_zero_view();
    // every mask is in range
    assert forall|k: int| 0 <= k < 15 implies (#[trigger] r.piece_bb@[k]).wf() by {
        assert(r.piece_bb@[k].bits == 0 || r.piece_bb@[k].bits == INIT_PAWN || r.piece_bb@[k].bits
            == INIT_LANCE || r.piece_bb@[k].bits == INIT_KNIGHT || r.piece_bb@[k].bits
            == INIT_SILVER || r.piece_bb@[k].bits == INIT_GOLD || r.piece_bb@[k].bits
            == INIT_BISHOP || r.piece_bb@[k].bits == INIT_ROOK || r.piece_bb@[k].bits
            == INIT_KING);
    }
    assert(r.pieces(0) =~= Set::<int>::empty());
    // the two sides share no square
    assert forall|x: int| !(r.occ(0).contains(x) && r.occ(1).contains(x)) by {}
    assert(r.occ(0).disjoint(r.occ(1)));
    // distinct piece tags share no square
    assert forall|i: int, j: int|
        #![trigger r.pieces(i), r.pieces(j)]
        1 <= i < j < 15 implies r.pieces(i).disjoint(r.pieces(j)) by {
        assert forall|x: int| !(r.pieces(i).contains(x) && r.pieces(j).contains(x)) by {}
    }
    // the piece masks together cover exactly the occupied squares
    assert(union_pieces(r.piece_bb@, 15) =~= r.occ(0) + r.occ(1)) by {
        assert forall|x: int|
            union_pieces(r.piece_bb@, 15).contains(x) <==> (r.occ(0) + r.occ(1)).contains(x) by {
            lemma_union_contains(r.piece_bb@, 15, x);
            if (r.occ(0) + r.occ(1)).contains(x) {
                if bits_set(INIT_PAWN).contains(x) {
                    assert(r.piece_bb@[1]@.contains(x));
                } else if bits_set(INIT_LANCE).contains(x) {
                    assert(r.piece_bb@[2]@.contains(x));
                } else if bits_set(INIT_KNIGHT).contains(x) {
                    assert(r.piece_bb@[3]@.contains(x));
                } else if bits_set(INIT_SILVER).contains(x) {
                    assert(r.piece_bb@[4]@.contains(x));
                } else if bits_set(INIT_GOLD).contains(x) {
                    assert(r.piece_bb@[5]@.contains(x));
                } else if bits_set(INIT_BISHOP).contains(x) {
                    assert(r.piece_bb@[6]@.contains(x));
                } else if bits_set(INIT_ROOK).contains(x) {
                    assert(r.piece_bb@[7]@.contains(x));
                } else {
                    assert(bits_set(INIT_KING).contains(x));
                    assert(r.piece_bb@[8]@.contains(x));
                }
            }
        }
    }
    // hands are empty
    assert forall|s: int, k: int|
        0 <= s < 2 && 0 <= k < 15 && (k == 0 || k >= 8) implies #[trigger] r.hand(s, k) == 0 by {
        assert(r.pieces_in_hand@[s * 15 + k] == 0);
    }
    // forty pieces in all
    lemma_init_counts();
    lemma_sum_zero(r.pieces_in_hand@, 0, 30);
    assert(r.total_pieces() == 40);
}


impl GameState {
    /// Whether a move whose claimed tag is `claimed` would be rejected,
    /// and with which error; `None` means the move applies.
    pub open spec fn move_error_spec(self, from: Position, to: Position, claimed: int) -> Option<
        MoveError,
    > {
        let my = self.turn as int;
        if from.is_hand() {
            if self.hand(my, claimed) == 0 {
                Some(MoveError::EmptyHand)
            } else if self.occ(my).contains(to.pos_spec()) {
                Some(MoveError::FriendlyCollision)
            } else {
                None
            }
        } else {
            if !self.occ(my).contains(from.pos_spec()) {
                Some(MoveError::EmptyOrigin)
            } else if !claim_ok(self.piece_at(from.pos_spec()), claimed) {
                Some(MoveError::PieceMismatch)
            } else if self.occ(my).contains(to.pos_spec()) {
                Some(MoveError::FriendlyCollision)
            } else {
                None
            }
        }
    }

    /// Whether the destination square holds the opposing king.
    pub open spec fn captures_king_spec(self, to: Position) -> bool {
        self.occ(1 - self.turn as int).contains(to.pos_spec()) && self.piece_at(to.pos_spec())
            == 8
    }

    /// The square set of piece tag `k` after a successful move: the origin
    /// square leaves the moved tag, a captured piece leaves its tag, and
    /// the destination square joins the claimed tag.
    pub open spec fn piece_set_after(pre: GameState, from: Position, to: Position, claimed: int, k: int) -> Set<
        int,
    > {
        let my = pre.turn as int;
        let opp = 1 - my;
        let pt = to.pos_spec();
        let captured = pre.occ(opp).contains(pt);
        let base = pre.pieces(k);
        let b1 = if !from.is_hand() && k == pre.piece_at(from.pos_spec()) {
            base.remove(from.pos_spec())
        } else {
            base
        };
        let b2 = if captured && k == pre.piece_at(pt) {
            b1.remove(pt)
        } else {
            b1
        };
        if k == claimed {
            b2.insert(pt)
        } else {
            b2
        }
    }

    /// The hand count of side `s` and tag `k` after a successful move: a
    /// drop consumes one piece, a capture adds the captured piece's
    /// primitive form to the mover's hand.
    pub open spec fn hand_after(pre: GameState, from: Position, to: Position, claimed: int, s: int, k: int) -> int {
        let my = pre.turn as int;
        let opp = 1 - my;
        let pt = to.pos_spec();
        let captured = pre.occ(opp).contains(pt);
        let cap_prim = primitive_idx(pre.piece_at(pt));
        pre.hand(s, k) - (if from.is_hand() && s == my && k == claimed {
            1int
        } else {
            0int
        }) + (if captured && s == my && k == cap_prim {
            1int
        } else {
            0int
        })
    }

    /// The complete relation between the state before and after a
    /// successful move application.
    pub open spec fn move_applied(pre: GameState, post: GameState, from: Position, to: Position, claimed: int) -> bool {
        let my = pre.turn as int;
        let opp = 1 - my;
        let pt = to.pos_spec();
        let captured = pre.occ(opp).contains(pt);
        &&& post.piece_bb@.len() == 15
        &&& post.occupied@.len() == 2
        &&& post.pieces_in_hand@.len() == 30
        &&& post.turn as int == opp
        &&& post.occ(my) == (if from.is_hand() {
            pre.occ(my).insert(pt)
        } else {
            pre.occ(my).remove(from.pos_spec()).insert(pt)
        })
        &&& post.occ(opp) == (if captured {
            pre.occ(opp).remove(pt)
        } else {
            pre.occ(opp)
        })
        &&& (forall|k: int|
            0 <= k < 15 ==> #[trigger] post.pieces(k) == GameState::piece_set_after(
                pre,
                from,
                to,
                claimed,
                k,
            ))
        &&& (forall|s: int, k: int|
            0 <= s < 2 && 0 <= k < 15 ==> #[trigger] post.hand(s, k) == GameState::hand_after(
                pre,
                from,
                to,
                claimed,
                s,
                k,
            ))
    }

    /// The piece tag on a covered square is unique.
    pub proof fn lemma_piece_at_unique(self, p: int, k: int)
        requires
            self.wf(),
            1 <= k < 15,
            self.pieces(k).contains(p),
        ensures
            self.piece_at(p) == k,
    {
        let c = self.piece_at(p);
        assert(1 <= c < 15 && self.pieces(c).contains(p));
        if c != k {
            if c < k {
                assert(self.pieces(c).disjoint(self.pieces(k)));
            } else {
                assert(self.pieces(k).disjoint(self.pieces(c)));
            }
            assert(false);
        }
    }

    /// Every square a side occupies is covered by some piece tag.
    pub proof fn lemma_occ_in_union(self, p: int)
        requires
            self.wf(),
            self.occ(0).contains(p) || self.occ(1).contains(p),
        ensures
            1 <= self.piece_at(p) < 15,
            self.pieces(self.piece_at(p)).contains(p),
    {
        lemma_union_contains(self.piece_bb@, 15, p);
        assert(union_pieces(self.piece_bb@, 15).contains(p));
        let k = choose|k: int| 1 <= k < 15 && (#[trigger] self.piece_bb@[k]@).contains(p);
        assert(self.pieces(k).contains(p));
        self.lemma_piece_at_unique(p, k);
    }

    /// Find the piece tag on square `p`.
    fn find_piece_at(&self, p: u8) -> (k: usize)
        requires
            self.wf(),
            p < 81,
            self.occ(0).contains(p as int) || self.occ(1).contains(p as int),
        ensures
            1 <= k < 15,
            self.pieces(k as int).contains(p as int),
            k as int == self.piece_at(p as int),
    {
        let mut j: usize = 1;
        let mut found: usize = 0;
        while j < 15
            invariant
                self.wf(),
                p < 81,
                1 <= j <= 15,
                found == 0 ==> forall|i: int|
                    1 <= i < j ==> !(#[trigger] self.pieces(i)).contains(p as int),
                found != 0 ==> 1 <= found < 15 && self.pieces(found as int).contains(p as int),
            decreases 15 - j,
        {
            if self.piece_bb[j].contains_pos(p) {
                found = j;
            }
            j = j + 1;
        }
        proof {
            if found == 0 {
                self.lemma_occ_in_union(p as int);
                assert(false);
            }
            self.lemma_piece_at_unique(p as int, found as int);
        }
        found
    }

    /// Whether the opposing king stands on the destination square. Such a
    /// move ends the game in the record and is never applied here.
    pub fn captures_king(&self, to: Position) -> (r: bool)
        requires
            self.wf(),
            to.valid(),
        ensures
            r == self.captures_king_spec(to),
    {
        let p = to.to_pos();
        let opp = 1 - self.turn;
        if self.occupied[opp].contains_pos(p) {
            let k = self.find_piece_at(p);
            k == 8
        } else {
            false
        }
    }
}


impl GameState {
    /// A successful application preserves the structural invariant; in
    /// particular the piece count is conserved.
    proof fn lemma_apply_preserves_wf(pre: GameState, post: GameState, from: Position, to: Position, claimed: int)
        requires
            pre.wf(),
            to.valid(),
            from.is_hand() || from.valid(),
            pre.move_error_spec(from, to, claimed) is None,
            !pre.captures_king_spec(to),
            0 <= claimed < 15,
            forall|k: int| 0 <= k < 15 ==> (#[trigger] post.piece_bb@[k]).wf(),
            post.occupied@[0].wf(),
            post.occupied@[1].wf(),
            post.turn < 2,
            GameState::move_applied(pre, post, from, to, claimed),
        ensures
            post.wf(),
    {
        broadcast use vstd::set_lib::group_set_properties;

        let my = pre.turn as int;
        let opp = 1 - my;
        let pt = to.pos_spec();
        let captured = pre.occ(opp).contains(pt);
        let is_drop = from.is_hand();
        let fp = from.pos_spec();

        // the claimed tag is a real piece tag
        if is_drop {
            assert(pre.hand(my, claimed) != 0);
            assert(1 <= claimed <= 7) by {
                if claimed == 0 || claimed >= 8 {
                    assert(pre.hand(my, claimed) == 0);
                }
            }
        } else {
            pre.lemma_occ_in_union(fp);
            assert(claim_ok(pre.piece_at(fp), claimed));
            assert(1 <= claimed < 15);
        }
        let src = pre.piece_at(fp);
        let ct = pre.piece_at(pt);
        if captured {
            pre.lemma_occ_in_union(pt);
            assert(ct != 8);
            assert(1 <= primitive_idx(ct) <= 7);
        }
        assert(!pre.occ(my).contains(pt));

        // membership in the pre-state piece masks is unique per square
        assert forall|k: int| 1 <= k < 15 && (#[trigger] pre.pieces(k)).contains(pt) implies captured
            && k == ct by {
            pre.lemma_piece_at_unique(pt, k);
            lemma_union_contains(pre.piece_bb@, 15, pt);
            assert((pre.occ(0) + pre.occ(1)).contains(pt));
            if !captured {
                assert(!pre.occ(opp).contains(pt));
                assert(pre.occ(my).contains(pt));
                assert(false);
            }
        }
        if !is_drop {
            assert forall|k: int| 1 <= k < 15 && (#[trigger] pre.pieces(k)).contains(fp) implies k
                == src by {
                pre.lemma_piece_at_unique(fp, k);
            }
            assert(pre.pieces(src).contains(fp));
            assert(fp != pt);
        }

        // every set in sight is finite
        assert forall|k: int| 0 <= k < 15 implies (#[trigger] pre.pieces(k)).finite() by {
            crate::bitboard::lemma_view_finite(pre.piece_bb@[k].bits);
        }
        assert forall|k: int| 0 <= k < 15 implies (#[trigger] post.pieces(k)).finite() by {
            crate::bitboard::lemma_view_finite(post.piece_bb@[k].bits);
        }
        crate::bitboard::lemma_view_finite(pre.occupied@[0].bits);
        crate::bitboard::lemma_view_finite(pre.occupied@[1].bits);
        crate::bitboard::lemma_view_finite(post.occupied@[0].bits);
        crate::bitboard::lemma_view_finite(post.occupied@[1].bits);

        // the vacant tag stays empty
        assert(post.pieces(0) == GameState::piece_set_after(pre, from, to, claimed, 0));
        assert(post.pieces(0) =~= Set::<int>::empty());

        // the sides stay disjoint
        assert forall|x: int| !(post.occ(my).contains(x) && post.occ(opp).contains(x)) by {
            if x == pt {
                assert(!post.occ(opp).contains(x));
            }
        }
        assert(post.occ(0).disjoint(post.occ(1))) by {
            assert forall|x: int| post.occ(0).contains(x) implies !post.occ(1).contains(x) by {
                if my == 0 {
                    assert(!(post.occ(my).contains(x) && post.occ(opp).contains(x)));
                } else {
                    assert(!(post.occ(my).contains(x) && post.occ(opp).contains(x)));
                }
            }
        }

        // distinct piece tags stay disjoint
        assert forall|i: int, j: int|
            #![trigger post.pieces(i), post.pieces(j)]
            1 <= i < j < 15 implies post.pieces(i).disjoint(post.pieces(j)) by {
            assert(post.pieces(i) == GameState::piece_set_after(pre, from, to, claimed, i));
            assert(post.pieces(j) == GameState::piece_set_after(pre, from, to, claimed, j));
            assert forall|x: int|
                !(post.pieces(i).contains(x) && post.pieces(j).contains(x)) by {
                if post.pieces(i).contains(x) && post.pieces(j).contains(x) {
                    assert(pre.pieces(i).disjoint(pre.pieces(j)));
                    if x == pt {
                        if i != claimed {
                            assert(pre.pieces(i).contains(pt));
                            assert(captured && i == ct);
                            assert(false);
                        }
                        if j != claimed {
                            assert(pre.pieces(j).contains(pt));
                            assert(captured && j == ct);
                            assert(false);
                        }
                        assert(false);
                    } else {
                        assert(pre.pieces(i).contains(x));
                        assert(pre.pieces(j).contains(x));
                        assert(false);
                    }
                }
            }
        }

        // the piece masks still cover exactly the occupied squares
        assert(union_pieces(post.piece_bb@, 15) =~= post.occ(0) + post.occ(1)) by {
            assert forall|x: int|
                union_pieces(post.piece_bb@, 15).contains(x) <==> (post.occ(0) + post.occ(
                    1,
                )).contains(x) by {
                lemma_union_contains(post.piece_bb@, 15, x);
                lemma_union_contains(pre.piece_bb@, 15, x);
                if x == pt {
                    assert(post.pieces(claimed).contains(pt));
                    assert(post.occ(my).contains(pt));
                } else {
                    if union_pieces(post.piece_bb@, 15).contains(x) {
                        let k = choose|k: int|
                            1 <= k < 15 && (#[trigger] post.piece_bb@[k]@).contains(x);
                        assert(post.pieces(k).contains(x));
                        assert(pre.pieces(k).contains(x));
                        assert(union_pieces(pre.piece_bb@, 15).contains(x));
                        assert((pre.occ(0) + pre.occ(1)).contains(x));
                        if pre.occ(my).contains(x) {
                            if !is_drop && x == fp {
                                assert(k == src);
                                assert(!post.pieces(k).contains(x));
                                assert(false);
                            }
                            assert(post.occ(my).contains(x));
                        } else {
                            assert(pre.occ(opp).contains(x));
                            assert(post.occ(opp).contains(x));
                        }
                    }
                    if (post.occ(0) + post.occ(1)).contains(x) {
                        if post.occ(my).contains(x) {
                            assert(pre.occ(my).contains(x) && (is_drop || x != fp));
                            assert((pre.occ(0) + pre.occ(1)).contains(x));
                            let k = choose|k: int|
                                1 <= k < 15 && (#[trigger] pre.piece_bb@[k]@).contains(x);
                            assert(pre.pieces(k).contains(x));
                            assert(post.pieces(k).contains(x));
                        } else {
                            assert(post.occ(opp).contains(x));
                            assert(pre.occ(opp).contains(x));
                            let k = choose|k: int|
                                1 <= k < 15 && (#[trigger] pre.piece_bb@[k]@).contains(x);
                            assert(pre.pieces(k).contains(x));
                            assert(post.pieces(k).contains(x));
                        }
                    }
                }
            }
        }

        // hands hold only basic hand-eligible kinds
        assert forall|s: int, k: int|
            0 <= s < 2 && 0 <= k < 15 && (k == 0 || k >= 8) implies #[trigger] post.hand(s, k)
            == 0 by {
            assert(post.hand(s, k) == GameState::hand_after(pre, from, to, claimed, s, k));
            assert(pre.hand(s, k) == 0);
        }

        // the forty pieces are conserved
        let h1 = pre.pieces_in_hand@;
        let h2 = post.pieces_in_hand@;
        let didx = my * 15 + claimed;
        let cidx = my * 15 + primitive_idx(ct);
        assert forall|idx: int| 0 <= idx < 30 implies h2[idx] as int == h1[idx] as int + (
        if captured && idx == cidx {
            1int
        } else {
            0int
        }) - (if is_drop && idx == didx {
            1int
        } else {
            0int
        }) by {
            let s = idx / 15;
            let k = idx % 15;
            assert(s * 15 + k == idx);
            assert(0 <= s < 2 && 0 <= k < 15);
            assert(post.hand(s, k) == GameState::hand_after(pre, from, to, claimed, s, k));
            if is_drop {
                assert(idx == didx <==> (s == my && k == claimed));
            }
            if captured {
                assert(1 <= primitive_idx(ct) <= 7);
                assert(idx == cidx <==> (s == my && k == primitive_idx(ct)));
            }
        }
        let drop_delta: int = if is_drop { 1 } else { 0 };
        let cap_delta: int = if captured { 1 } else { 0 };
        assert(sum_range(h2, 0, 30) == sum_range(h1, 0, 30) + cap_delta - drop_delta) by {
            if is_drop && captured && didx != cidx {
                let m = h1.update(didx, (h1[didx] - 1) as u64);
                assert(h1[didx] >= 1) by {
                    assert(pre.hand(my, claimed) != 0);
                }
                lemma_sum_update(h1, m, 0, 30, didx);
                lemma_sum_update(m, h2, 0, 30, cidx);
            } else if is_drop && captured {
                assert(didx == cidx);
                lemma_sum_same(h1, h2, 0, 30);
            } else if is_drop {
                lemma_sum_update(h1, h2, 0, 30, didx);
            } else if captured {
                lemma_sum_update(h1, h2, 0, 30, cidx);
            } else {
                lemma_sum_same(h1, h2, 0, 30);
            }
        }
        assert(post.occ(my).len() == pre.occ(my).len() + drop_delta) by {
            if is_drop {
                assert(post.occ(my) == pre.occ(my).insert(pt));
            } else {
                assert(pre.occ(my).contains(fp));
                assert(!pre.occ(my).remove(fp).contains(pt));
                assert(post.occ(my) == pre.occ(my).remove(fp).insert(pt));
            }
        }
        assert(post.occ(opp).len() == pre.occ(opp).len() - cap_delta);
        assert(post.occ(0).len() + post.occ(1).len() == pre.occ(0).len() + pre.occ(1).len()
            + drop_delta - cap_delta) by {
            if my == 0 {
            } else {
            }
        }
        assert(post.total_pieces() == 40);
    }

    /// Apply one move for the side to move: a drop from the hand when
    /// `from` is the hand sentinel, otherwise a board move, capturing and
    /// promoting as the move dictates, and give the turn to the other
    /// side. A rejected move leaves the state untouched and reports which
    /// rule failed. A move onto the opposing king would end the game and
    /// is excluded by precondition.
    pub fn make_move(&mut self, from: Position, to: Position, piece: PieceType) -> (r: Result<
        MoveOutcome,
        MoveError,
    >)
        requires
            old(self).wf(),
            to.valid(),
            from.is_hand() || from.valid(),
            old(self).move_error_spec(from, to, piece_idx(piece)) is Some || !old(
                self,
            ).captures_king_spec(to),
        ensures
            final(self).wf(),
            match r {
                Ok(o) => {
                    &&& old(self).move_error_spec(from, to, piece_idx(piece)) is None
                    &&& GameState::move_applied(
                        *old(self),
                        *final(self),
                        from,
                        to,
                        piece_idx(piece),
                    )
                    &&& o.promoted == (!from.is_hand() && piece_idx(piece) != old(self).piece_at(
                        from.pos_spec(),
                    ))
                },
                Err(e) => {
                    &&& *final(self) == *old(self)
                    &&& old(self).move_error_spec(from, to, piece_idx(piece)) == Some(e)
                },
            },
    {
        let ghost pre = *self;
        let my = self.turn;
        let opp = 1 - my;
        let pt = to.to_pos();
        let claimed = piece.to_usize();
        if from.rank == 0 && from.file == 0 {
            // drop from the hand
            let hidx = my * 15 + claimed;
            if self.pieces_in_hand[hidx] == 0 {
                return Err(MoveError::EmptyHand);
            }
            if self.occupied[my].contains_pos(pt) {
                return Err(MoveError::FriendlyCollision);
            }
            proof {
                assert(1 <= claimed <= 7) by {
                    if claimed == 0 || claimed >= 8 {
                        assert(pre.hand(my as int, claimed as int) == 0);
                    }
                }
            }
            let captured = self.occupied[opp].contains_pos(pt);
            let mut cap_tag: usize = 0;
            if captured {
                cap_tag = self.find_piece_at(pt);
            }
            let cap_prim: usize = if captured {
                PieceType::from_index(cap_tag).primitive_piece().to_usize()
            } else {
                0
            };
            let nh = self.pieces_in_hand[hidx] - 1;
            self.pieces_in_hand[hidx] = nh;
            if captured {
                let oc = self.occupied[opp].clear_pos(pt);
                self.occupied[opp] = oc;
                let pc = self.piece_bb[cap_tag].clear_pos(pt);
                self.piece_bb[cap_tag] = pc;
                let cdx = my * 15 + cap_prim;
                proof {
                    lemma_sum_member_le(pre.pieces_in_hand@, 0, 30, cdx as int);
                    lemma_sum_nonneg(pre.pieces_in_hand@, 0, 30);
                    crate::bitboard::lemma_view_finite(pre.occupied@[0].bits);
                    crate::bitboard::lemma_view_finite(pre.occupied@[1].bits);
                    assert(self.pieces_in_hand@[cdx as int] < 41);
                }
                let nc = self.pieces_in_hand[cdx] + 1;
                self.pieces_in_hand[cdx] = nc;
            }
            let om = self.occupied[my].set_pos(pt);
            self.occupied[my] = om;
            let pm = self.piece_bb[claimed].set_pos(pt);
            self.piece_bb[claimed] = pm;
            self.turn = opp;
            proof {
                if captured {
                    pre.lemma_piece_at_unique(pt as int, cap_tag as int);
                }
                assert(GameState::move_applied(pre, *self, from, to, claimed as int));
                GameState::lemma_apply_preserves_wf(pre, *self, from, to, claimed as int);
            }
            Ok(MoveOutcome { promoted: false })
        } else {
            // board move
            let fp = from.to_pos();
            if !self.occupied[my].contains_pos(fp) {
                return Err(MoveError::EmptyOrigin);
            }
            let src = self.find_piece_at(fp);
            let claim_fits = claimed == src || (claimed >= 9 && PieceType::from_index(
                claimed,
            ).primitive_piece().to_usize() == src);
            if !claim_fits {
                return Err(MoveError::PieceMismatch);
            }
            if self.occupied[my].contains_pos(pt) {
                return Err(MoveError::FriendlyCollision);
            }
            let captured = self.occupied[opp].contains_pos(pt);
            let mut cap_tag: usize = 0;
            if captured {
                cap_tag = self.find_piece_at(pt);
            }
            let cap_prim: usize = if captured {
                PieceType::from_index(cap_tag).primitive_piece().to_usize()
            } else {
                0
            };
            let ob = self.occupied[my].clear_pos(fp);
            self.occupied[my] = ob;
            let pb = self.piece_bb[src].clear_pos(fp);
            self.piece_bb[src] = pb;
            if captured {
                let oc = self.occupied[opp].clear_pos(pt);
                self.occupied[opp] = oc;
                let pc = self.piece_bb[cap_tag].clear_pos(pt);
                self.piece_bb[cap_tag] = pc;
                let cdx = my * 15 + cap_prim;
                proof {
                    lemma_sum_member_le(pre.pieces_in_hand@, 0, 30, cdx as int);
                    lemma_sum_nonneg(pre.pieces_in_hand@, 0, 30);
                    crate::bitboard::lemma_view_finite(pre.occupied@[0].bits);
                    crate::bitboard::lemma_view_finite(pre.occupied@[1].bits);
                    assert(self.pieces_in_hand@[cdx as int] < 41);
                }
                let nc = self.pieces_in_hand[cdx] + 1;
                self.pieces_in_hand[cdx] = nc;
            }
            let om = self.occupied[my].set_pos(pt);
            self.occupied[my] = om;
            let pm = self.piece_bb[claimed].set_pos(pt);
            self.piece_bb[claimed] = pm;
            self.turn = opp;
            proof {
                if captured {
                    pre.lemma_piece_at_unique(pt as int, cap_tag as int);
                }
                assert(GameState::move_applied(pre, *self, from, to, claimed as int));
                GameState::lemma_apply_preserves_wf(pre, *self, from, to, claimed as int);
            }
            Ok(MoveOutcome { promoted: claimed != src })
        }
    }
}


/// The sum of `sum_range` over two adjacent ranges.
pub proof fn lemma_sum_split(h: Seq<u64>, lo: int, mid: int, hi: int)
    requires
        lo <= mid <= hi,
    ensures
        sum_range(h, lo, hi) == sum_range(h, lo, mid) + sum_range(h, mid, hi),
    decreases hi - mid,
{
    if hi > mid {
        lemma_sum_split(h, lo, mid, hi - 1);
    }
}

/// Sums agree between ranges whose entries agree at a fixed offset.
pub proof fn lemma_sum_offset(h1: Seq<u64>, h2: Seq<u64>, lo1: int, lo2: int, n: int)
    requires
        0 <= n,
        forall|j: int| 0 <= j < n ==> #[trigger] h2[lo2 + j] == h1[lo1 + j],
    ensures
        sum_range(h2, lo2, lo2 + n) == sum_range(h1, lo1, lo1 + n),
    decreases n,
{
    if n > 0 {
        lemma_sum_offset(h1, h2, lo1, lo2, n - 1);
        assert(h2[lo2 + (n - 1)] == h1[lo1 + (n - 1)]);
    }
}

/// The sum of the piece-mask sizes of `bbs[1..n]`.
pub open spec fn sum_bb_counts(bbs: Seq<Bitboard>, n: int) -> int
    decreases n,
{
    if n <= 1 {
        0
    } else {
        sum_bb_counts(bbs, n - 1) + bbs[n - 1]@.len()
    }
}

/// For pairwise-disjoint piece masks the size of the union is the sum of
/// the sizes.
pub proof fn lemma_union_len(bbs: Seq<Bitboard>, n: int)
    requires
        n <= 15,
        forall|i: int, j: int|
            #![trigger bbs[i]@, bbs[j]@]
            1 <= i < j < 15 ==> bbs[i]@.disjoint(bbs[j]@),
    ensures
        union_pieces(bbs, n).finite(),
        union_pieces(bbs, n).len() == sum_bb_counts(bbs, n),
    decreases n,
{
    broadcast use vstd::set_lib::group_set_properties;

    if n <= 1 {
    } else {
        lemma_union_len(bbs, n - 1);
        crate::bitboard::lemma_view_finite(bbs[n - 1].bits);
        assert(union_pieces(bbs, n - 1).disjoint(bbs[n - 1]@)) by {
            assert forall|x: int| #[trigger] union_pieces(bbs, n - 1).contains(x) implies !bbs[n
                - 1]@.contains(x) by {
                lemma_union_contains(bbs, n - 1, x);
                let k = choose|k: int| 1 <= k < n - 1 && (#[trigger] bbs[k]@).contains(x);
                assert(bbs[k]@.disjoint(bbs[n - 1]@));
            }
        }
    }
}

impl GameState {
    /// The two sides never share a square.
    ///
    /// Law: for every well-formed state, the occupied sets of Black and
    /// White have an empty intersection.
    pub proof fn lemma_sides_disjoint(self)
        requires
            self.wf(),
        ensures
            self.occ(0).intersect(self.occ(1)) == Set::<int>::empty(),
    {
        assert(self.occ(0).intersect(self.occ(1)) =~= Set::<int>::empty());
    }

    /// The per-tag piece counts add up to the occupancy counts.
    ///
    /// Law: the sum over all piece tags of the size of that tag's square
    /// set equals the size of Black's occupied set plus the size of
    /// White's.
    pub proof fn lemma_piece_counts_cover(self)
        requires
            self.wf(),
        ensures
            sum_bb_counts(self.piece_bb@, 15) == self.occ(0).len() + self.occ(1).len(),
    {
        broadcast use vstd::set_lib::group_set_properties;

        assert forall|i: int, j: int|
            #![trigger self.piece_bb@[i]@, self.piece_bb@[j]@]
            1 <= i < j < 15 implies self.piece_bb@[i]@.disjoint(self.piece_bb@[j]@) by {
            assert(self.pieces(i).disjoint(self.pieces(j)));
        }
        lemma_union_len(self.piece_bb@, 15);
        crate::bitboard::lemma_view_finite(self.occupied@[0].bits);
        crate::bitboard::lemma_view_finite(self.occupied@[1].bits);
        assert(union_pieces(self.piece_bb@, 15) == self.occ(0) + self.occ(1));
    }

    /// The full set of forty pieces is conserved.
    ///
    /// Law: every well-formed state carries exactly forty pieces between
    /// the board and the two hands, so the count before and after any
    /// sequence of applied moves is the same.
    pub proof fn lemma_total_conserved(pre: GameState, post: GameState)
        requires
            pre.wf(),
            post.wf(),
        ensures
            post.total_pieces() == pre.total_pieces(),
            pre.total_pieces() == 40,
    {
    }

    /// What the 180-degree rotation of a state looks like: every mask is
    /// reversed, the sides swap their occupancy and hands, and the turn
    /// flips.
    pub open spec fn is_rotation_of(post: GameState, pre: GameState) -> bool {
        &&& post.piece_bb@.len() == 15
        &&& post.occupied@.len() == 2
        &&& post.pieces_in_hand@.len() == 30
        &&& (forall|k: int|
            0 <= k < 15 ==> #[trigger] post.piece_bb@[k].bits == crate::bitboard::rev81(
                pre.piece_bb@[k].bits,
            ))
        &&& (forall|k: int|
            0 <= k < 15 ==> (#[trigger] post.piece_bb@[k]@) == crate::bitboard::rot_view(
                pre.pieces(k),
            ))
        &&& post.occupied@[0].bits == crate::bitboard::rev81(pre.occupied@[1].bits)
        &&& post.occupied@[1].bits == crate::bitboard::rev81(pre.occupied@[0].bits)
        &&& post.occ(0) == crate::bitboard::rot_view(pre.occ(1))
        &&& post.occ(1) == crate::bitboard::rot_view(pre.occ(0))
        &&& (forall|h: int|
            0 <= h < 15 ==> #[trigger] post.pieces_in_hand@[h] == pre.pieces_in_hand@[h + 15])
        &&& (forall|h: int|
            15 <= h < 30 ==> #[trigger] post.pieces_in_hand@[h] == pre.pieces_in_hand@[h - 15])
        &&& post.turn as int == 1 - pre.turn as int
    }

    /// Rotation preserves the structural invariant.
    proof fn lemma_rotation_preserves_wf(pre: GameState, post: GameState)
        requires
            pre.wf(),
            GameState::is_rotation_of(post, pre),
            forall|k: int| 0 <= k < 15 ==> (#[trigger] post.piece_bb@[k]).wf(),
            post.occupied@[0].wf(),
            post.occupied@[1].wf(),
        ensures
            post.wf(),
    {
        broadcast use vstd::set_lib::group_set_properties;

        // the vacant tag stays empty
        assert(post.pieces(0) =~= Set::<int>::empty());
        // sides stay disjoint
        assert(pre.occ(1).disjoint(pre.occ(0))) by {
            assert forall|x: int| pre.occ(1).contains(x) implies !pre.occ(0).contains(x) by {}
        }
        crate::bitboard::lemma_rot_view_ops(pre.occ(1), pre.occ(0));
        // piece tags stay disjoint
        assert forall|i: int, j: int|
            #![trigger post.pieces(i), post.pieces(j)]
            1 <= i < j < 15 implies post.pieces(i).disjoint(post.pieces(j)) by {
            crate::bitboard::lemma_rot_view_ops(pre.pieces(i), pre.pieces(j));
        }
        // the union rotates along
        assert(union_pieces(post.piece_bb@, 15) =~= post.occ(0) + post.occ(1)) by {
            assert forall|x: int|
                union_pieces(post.piece_bb@, 15).contains(x) <==> (post.occ(0) + post.occ(
                    1,
                )).contains(x) by {
                lemma_union_contains(post.piece_bb@, 15, x);
                lemma_union_contains(pre.piece_bb@, 15, x);
                if 0 <= x < 81 {
                    lemma_union_contains(pre.piece_bb@, 15, 80 - x);
                    if union_pieces(post.piece_bb@, 15).contains(x) {
                        let k = choose|k: int|
                            1 <= k < 15 && (#[trigger] post.piece_bb@[k]@).contains(x);
                        assert(pre.pieces(k).contains(80 - x));
                        assert((pre.occ(0) + pre.occ(1)).contains(80 - x));
                    }
                    if (post.occ(0) + post.occ(1)).contains(x) {
                        assert((pre.occ(0) + pre.occ(1)).contains(80 - x));
                        let k = choose|k: int|
                            1 <= k < 15 && (#[trigger] pre.piece_bb@[k]@).contains(80 - x);
                        assert(post.pieces(k).contains(x));
                    }
                } else {
                    if union_pieces(post.piece_bb@, 15).contains(x) {
                        let k = choose|k: int|
                            1 <= k < 15 && (#[trigger] post.piece_bb@[k]@).contains(x);
                    }
                }
            }
        }
        // hands still hold only basic kinds
        assert forall|s: int, k: int|
            0 <= s < 2 && 0 <= k < 15 && (k == 0 || k >= 8) implies #[trigger] post.hand(s, k)
            == 0 by {
            assert(pre.hand(1 - s, k) == 0);
            if s == 0 {
                assert(post.pieces_in_hand@[s * 15 + k] == pre.pieces_in_hand@[s * 15 + k + 15]);
            } else {
                assert(post.pieces_in_hand@[s * 15 + k] == pre.pieces_in_hand@[s * 15 + k - 15]);
            }
        }
        // the forty pieces are conserved
        assert forall|k: int| 0 <= k < 15 implies (#[trigger] pre.pieces(k)).finite() by {
            crate::bitboard::lemma_view_finite(pre.piece_bb@[k].bits);
        }
        crate::bitboard::lemma_view_finite(pre.occupied@[0].bits);
        crate::bitboard::lemma_view_finite(pre.occupied@[1].bits);
        assert forall|x: int| pre.occ(0).contains(x) implies 0 <= x < 81 by {}
        assert forall|x: int| pre.occ(1).contains(x) implies 0 <= x < 81 by {}
        crate::bitboard::lemma_rot_view_len(pre.occ(0));
        crate::bitboard::lemma_rot_view_len(pre.occ(1));
        lemma_sum_split(pre.pieces_in_hand@, 0, 15, 30);
        lemma_sum_split(post.pieces_in_hand@, 0, 15, 30);
        assert(sum_range(post.pieces_in_hand@, 0, 15) == sum_range(pre.pieces_in_hand@, 15, 30))
            by {
            assert forall|j: int| 0 <= j < 15 implies #[trigger] post.pieces_in_hand@[0 + j]
                == pre.pieces_in_hand@[15 + j] by {}
            lemma_sum_offset(pre.pieces_in_hand@, post.pieces_in_hand@, 15, 0, 15);
        }
        assert(sum_range(post.pieces_in_hand@, 15, 30) == sum_range(pre.pieces_in_hand@, 0, 15))
            by {
            assert forall|j: int| 0 <= j < 15 implies #[trigger] post.pieces_in_hand@[15 + j]
                == pre.pieces_in_hand@[0 + j] by {}
            lemma_sum_offset(pre.pieces_in_hand@, post.pieces_in_hand@, 0, 15, 15);
        }
        assert(post.total_pieces() == 40);
    }

    /// The same position seen from the other side: every mask rotated by
    /// 180 degrees, occupancy and hands swapped between the sides, and
    /// the turn flipped.
    pub fn rotate180(&self) -> (r: GameState)
        requires
            self.wf(),
        ensures
            r.wf(),
            GameState::is_rotation_of(r, *self),
    {
        let mut piece_bb: Vec<Bitboard> = Vec::new();
        let mut k: usize = 0;
        while k < 15
            invariant
                self.wf(),
                k <= 15,
                piece_bb@.len() == k,
                forall|j: int|
                    0 <= j < k ==> #[trigger] piece_bb@[j].bits == crate::bitboard::rev81(
                        self.piece_bb@[j].bits,
                    ),
                forall|j: int|
                    0 <= j < k ==> (#[trigger] piece_bb@[j]@) == crate::bitboard::rot_view(
                        self.pieces(j),
                    ),
                forall|j: int| 0 <= j < k ==> (#[trigger] piece_bb@[j]).wf(),
            decreases 15 - k,
        {
            piece_bb.push(self.piece_bb[k].rotate180());
            k = k + 1;
        }
        let mut occupied: Vec<Bitboard> = Vec::new();
        occupied.push(self.occupied[1].rotate180());
        occupied.push(self.occupied[0].rotate180());
        let mut pieces_in_hand: Vec<u64> = Vec::new();
        let mut h: usize = 0;
        while h < 30
            invariant
                self.wf(),
                h <= 30,
                pieces_in_hand@.len() == h,
                forall|j: int|
                    0 <= j < h && j < 15 ==> #[trigger] pieces_in_hand@[j]
                        == self.pieces_in_hand@[j + 15],
                forall|j: int|
                    15 <= j < h ==> #[trigger] pieces_in_hand@[j] == self.pieces_in_hand@[j - 15],
            decreases 30 - h,
        {
            if h < 15 {
                pieces_in_hand.push(self.pieces_in_hand[h + 15]);
            } else {
                pieces_in_hand.push(self.pieces_in_hand[h - 15]);
            }
            h = h + 1;
        }
        let r = GameState { piece_bb, occupied, pieces_in_hand, turn: 1 - self.turn };
        proof {
            GameState::lemma_rotation_preserves_wf(*self, r);
        }
        r
    }
}


/// How many pieces of a basic kind one hand can hold: all eighteen
/// pawns, four of each middle kind, two bishops or rooks, and never a
/// king or a promoted piece.
pub open spec fn max_in_hand_spec(k: int) -> int {
    if k == 1 {
        18
    } else if 2 <= k <= 5 {
        4
    } else if k == 6 || k == 7 {
        2
    } else {
        0
    }
}

impl PieceType {
    /// How many pieces of this kind one hand can hold.
    pub fn max_piece_in_hand(&self) -> (r: usize)
        ensures
            r as int == max_in_hand_spec(piece_idx(*self)),
    {
        match self {
            PieceType::Pawn => 18,
            PieceType::Lance => 4,
            PieceType::Knight => 4,
            PieceType::Silver => 4,
            PieceType::Gold => 4,
            PieceType::Bishop => 2,
            PieceType::Rook => 2,
            _ => 0,
        }
    }
}


impl GameState {
    /// The standard initial position, as field values.
    pub open spec fn is_initial(self) -> bool {
        &&& self.piece_bb@.len() == 15
        &&& self.occupied@.len() == 2
        &&& self.pieces_in_hand@.len() == 30
        &&& self.piece_bb@[0].bits == 0
        &&& self.piece_bb@[1].bits == INIT_PAWN
        &&& self.piece_bb@[2].bits == INIT_LANCE
        &&& self.piece_bb@[3].bits == INIT_KNIGHT
        &&& self.piece_bb@[4].bits == INIT_SILVER
        &&& self.piece_bb@[5].bits == INIT_GOLD
        &&& self.piece_bb@[6].bits == INIT_BISHOP
        &&& self.piece_bb@[7].bits == INIT_ROOK
        &&& self.piece_bb@[8].bits == INIT_KING
        &&& (forall|k: int| 9 <= k < 15 ==> #[trigger] self.piece_bb@[k].bits == 0)
        &&& self.occupied@[0].bits == INIT_BLACK
        &&& self.occupied@[1].bits == INIT_WHITE
        &&& (forall|h: int| 0 <= h < 30 ==> #[trigger] self.pieces_in_hand@[h] == 0)
        &&& self.turn == 0
    }
}


impl GameState {
    /// The move relation is deterministic: two well-formed states
    /// reached from `pre` by the same move agree on every mask, every
    /// hand count and the turn, so a record replays to exactly one
    /// sequence of observable states.
    pub proof fn lemma_move_applied_deterministic(
        pre: GameState,
        post1: GameState,
        post2: GameState,
        from: Position,
        to: Position,
        claimed: int,
    )
        requires
            pre.wf(),
            post1.wf(),
            post2.wf(),
            GameState::move_applied(pre, post1, from, to, claimed),
            GameState::move_applied(pre, post2, from, to, claimed),
        ensures
            post1.piece_bb@ == post2.piece_bb@,
            post1.occupied@ == post2.occupied@,
            post1.pieces_in_hand@ == post2.pieces_in_hand@,
            post1.turn == post2.turn,
    {
        assert forall|k: int| 0 <= k < 15 implies post1.piece_bb@[k] == post2.piece_bb@[k] by {
            assert(post1.pieces(k) == GameState::piece_set_after(pre, from, to, claimed, k));
            assert(post2.pieces(k) == GameState::piece_set_after(pre, from, to, claimed, k));
            crate::bitboard::lemma_view_determines_bits(
                post1.piece_bb@[k].bits,
                post2.piece_bb@[k].bits,
            );
        }
        assert(post1.piece_bb@ =~= post2.piece_bb@);
        let my = pre.turn as int;
        let opp = 1 - my;
        assert(post1.occ(my) == post2.occ(my) && post1.occ(opp) == post2.occ(opp));
        assert(post1.occ(0) == post2.occ(0) && post1.occ(1) == post2.occ(1));
        crate::bitboard::lemma_view_determines_bits(
            post1.occupied@[0].bits,
            post2.occupied@[0].bits,
        );
        crate::bitboard::lemma_view_determines_bits(
            post1.occupied@[1].bits,
            post2.occupied@[1].bits,
        );
        assert(post1.occupied@ =~= post2.occupied@);
        assert forall|h: int| 0 <= h < 30 implies post1.pieces_in_hand@[h]
            == post2.pieces_in_hand@[h] by {
            let s = h / 15;
            let k = h % 15;
            assert(s * 15 + k == h);
            assert(0 <= s < 2 && 0 <= k < 15);
            assert(post1.hand(s, k) == GameState::hand_after(pre, from, to, claimed, s, k));
            assert(post2.hand(s, k) == GameState::hand_after(pre, from, to, claimed, s, k));
        }
        assert(post1.pieces_in_hand@ =~= post2.pieces_in_hand@);
    }
}

} // verus!
