//! The dataset builder: drive a board through one record's moves and
//! emit a training sample per ply, features from the position before the
//! move and the label of the move itself, both oriented to the mover.

use crate::encoder::make_input_feature_from_board;
use crate::encoder::oriented_feature_spec;
use crate::label::encode_move_label;
use crate::label::label_input_ok;
use crate::label::oriented_label_spec;
use crate::label::rot_from_spec;
use crate::label::rot_pos_spec;
use crate::model::DataRow;
use crate::state::piece_idx;
use crate::state::GameState;
use crate::state::MoveError;
use crate::state::PieceType;
use crate::state::Position;
use vstd::prelude::*;

verus! {

/// The failures of the dataset pipeline.
#[derive(Clone, Copy, Debug, PartialEq, Eq, Structural)]
pub enum DataError {
    /// A record whose moves are malformed: a side out of order, a
    /// coordinate off the board, or a move onto a king.
    InvalidRecord,
    /// A move the rule engine rejects.
    IllegalMove(MoveError),
    /// A move whose displacement the label encoder cannot encode.
    EncodingAssertionFailure,
    /// Dataset bytes that do not parse back into samples.
    FormatError,
}

/// One move of a parsed game record.
#[derive(Clone, Copy, Debug)]
pub struct MoveRecord {
    /// The side that played the move.
    pub side: usize,
    /// The origin square, or the hand for a drop.
    pub from: Option<Position>,
    /// The destination square.
    pub to: Position,
    /// The piece as it stands after the move.
    pub piece: PieceType,
}

impl MoveRecord {
    /// The origin as the rule engine sees it: the hand sentinel for a
    /// drop.
    pub open spec fn from_sentinel(self) -> Position {
        match self.from {
            Some(f) => f,
            None => Position { rank: 0, file: 0 },
        }
    }
}

/// Whether applying this record's move to `b` promotes the moved piece.
pub open spec fn promoted_in(b: GameState, m: MoveRecord) -> bool {
    !m.from_sentinel().is_hand() && piece_idx(m.piece) != b.piece_at(m.from_sentinel().pos_spec())
}

/// Why the builder rejects move `m` played from state `b`, if it does:
/// a malformed move or a move onto a king spoils the record, an
/// unencodable displacement fails the label assertion, and a move the
/// engine rejects carries the engine's error.
pub open spec fn step_fails(b: GameState, m: MoveRecord) -> Option<DataError> {
    if m.side > 1 {
        Some(DataError::InvalidRecord)
    } else if m.side as int != b.turn as int {
        Some(DataError::InvalidRecord)
    } else if !m.to.valid() {
        Some(DataError::InvalidRecord)
    } else if (match m.from {
        Some(f) => !f.valid(),
        None => false,
    }) {
        Some(DataError::InvalidRecord)
    } else if b.captures_king_spec(m.to) {
        Some(DataError::InvalidRecord)
    } else if m.side == 0 && !label_input_ok(m.from, m.to, m.piece) {
        Some(DataError::EncodingAssertionFailure)
    } else if m.side == 1 && !label_input_ok(rot_from_spec(m.from), rot_pos_spec(m.to), m.piece) {
        Some(DataError::EncodingAssertionFailure)
    } else {
        match b.move_error_spec(m.from_sentinel(), m.to, piece_idx(m.piece)) {
            Some(e) => Some(DataError::IllegalMove(e)),
            None => None,
        }
    }
}

/// The moves of a record, the board states they pass through, and the
/// samples they emit, all in step: state `i` is the position before move
/// `i`, each sample packs that position for the mover and labels the
/// move, no move fails a builder check, and each move applies by the
/// engine's rules.
pub open spec fn build_trace_ok(
    states: Seq<GameState>,
    moves: Seq<MoveRecord>,
    rows: Seq<DataRow>,
    winner: int,
) -> bool {
    &&& states.len() == moves.len() + 1
    &&& rows.len() == moves.len()
    &&& states[0].is_initial()
    &&& (forall|i: int|
        0 <= i < moves.len() ==> {
            let m = #[trigger] moves[i];
            let b = states[i];
            &&& b.wf()
            &&& m.side as int == b.turn as int
            &&& rows[i].features@ == oriented_feature_spec(b, m.side as int)
            &&& rows[i].move_label as int == oriented_label_spec(
                m.from,
                m.to,
                m.piece,
                promoted_in(b, m),
                m.side as int,
            )
            &&& rows[i].is_winner_turn == (m.side as int == winner)
            &&& step_fails(b, m) is None
            &&& GameState::move_applied(
                b,
                states[i + 1],
                m.from_sentinel(),
                m.to,
                piece_idx(m.piece),
            )
        })
}

/// Whether the oriented move of a record is one the label encoder
/// accepts from the side that plays it.
fn label_geometry_ok(m: &MoveRecord) -> (r: bool)
    requires
        m.side < 2,
        m.from matches Some(f) ==> f.valid(),
        m.to.valid(),
    ensures
        m.side == 0 ==> r == label_input_ok(m.from, m.to, m.piece),
        m.side == 1 ==> r == label_input_ok(rot_from_spec(m.from), rot_pos_spec(m.to), m.piece),
{
    match &m.from {
        Some(f) => {
            let dy = m.to.rank as i16 - f.rank as i16;
            let dx = f.file as i16 - m.to.file as i16;
            let (dy, dx) = if m.side == 0 {
                (dy, dx)
            } else {
                (0 - dy, 0 - dx)
            };
            let knight = dy == -2 && (dx == 1 || dx == -1);
            let slide = (dx == dy || dx == 0 - dy || dx == 0 || dy == 0) && !(dx == 0 && dy == 0);
            knight || slide
        },
        None => {
            let k = m.piece.to_usize();
            1 <= k && k <= 7
        },
    }
}

/// Build the samples of one record: start from the initial position,
/// and for each move emit the packed position seen by the mover, the
/// move's label, and whether the mover is the record's winner, then
/// apply the move. A record whose moves do not replay cleanly yields the
/// error of its first bad move.
pub fn build_samples(moves: &Vec<MoveRecord>, winner: usize) -> (r: Result<Vec<DataRow>, DataError>)
    requires
        winner < 2,
    ensures
        r matches Ok(rows) ==> {
            &&& exists|states: Seq<GameState>|
                build_trace_ok(states, moves@, rows@, winner as int)
            &&& rows@.len() == moves@.len()
            &&& forall|i: int| 0 <= i < rows@.len() ==> (#[trigger] rows@[i]).wf()
        },
        r matches Err(e) ==> exists|states: Seq<GameState>, rows: Seq<DataRow>, k: int|
            {
                &&& 0 <= k < moves@.len()
                &&& #[trigger] build_trace_ok(states, moves@.subrange(0, k), rows, winner as int)
                &&& step_fails(states[k], moves@[k]) == Some(e)
            },
{
    let mut board = GameState::new();
    let mut rows: Vec<DataRow> = Vec::new();
    let ghost mut states: Seq<GameState> = seq![board];
    let mut i: usize = 0;
    while i < moves.len()
        invariant
            winner < 2,
            i <= moves@.len(),
            rows@.len() == i,
            states.len() == i + 1,
            states[i as int] == board,
            board.wf(),
            build_trace_ok(states, moves@.subrange(0, i as int), rows@, winner as int),
            forall|j: int| 0 <= j < rows@.len() ==> (#[trigger] rows@[j]).wf(),
        decreases moves@.len() - i,
    {
        let m = moves[i];
        if m.side > 1 {
            proof {
                assert(step_fails(states[i as int], moves@[i as int]) == Some(
                    DataError::InvalidRecord,
                ));
            }
            return Err(DataError::InvalidRecord);
        }
        if m.side != board.turn {
            proof {
                assert(step_fails(states[i as int], moves@[i as int]) == Some(
                    DataError::InvalidRecord,
                ));
            }
            return Err(DataError::InvalidRecord);
        }
        if !(1 <= m.to.rank && m.to.rank <= 9 && 1 <= m.to.file && m.to.file <= 9) {
            proof {
                assert(step_fails(states[i as int], moves@[i as int]) == Some(
                    DataError::InvalidRecord,
                ));
            }
            return Err(DataError::InvalidRecord);
        }
        let from_pos = match &m.from {
            Some(f) => {
                if !(1 <= f.rank && f.rank <= 9 && 1 <= f.file && f.file <= 9) {
                    proof {
                        assert(step_fails(states[i as int], moves@[i as int]) == Some(
                            DataError::InvalidRecord,
                        ));
                    }
                    return Err(DataError::InvalidRecord);
                }
                *f
            },
            None => Position::new(0, 0),
        };
        if board.captures_king(m.to) {
            proof {
                assert(step_fails(states[i as int], moves@[i as int]) == Some(
                    DataError::InvalidRecord,
                ));
            }
            return Err(DataError::InvalidRecord);
        }
        if !label_geometry_ok(&m) {
            proof {
                assert(step_fails(states[i as int], moves@[i as int]) == Some(
                    DataError::EncodingAssertionFailure,
                ));
            }
            return Err(DataError::EncodingAssertionFailure);
        }
        let features = make_input_feature_from_board(&board, m.side);
        let outcome = match board.make_move(from_pos, m.to, m.piece) {
            Ok(o) => o,
            Err(e) => {
                proof {
                    assert(step_fails(states[i as int], moves@[i as int]) == Some(
                        DataError::IllegalMove(e),
                    ));
                }
                return Err(DataError::IllegalMove(e));
            },
        };
        proof {
            assert(from_pos == moves@[i as int].from_sentinel());
        }
        let label = encode_move_label(&m.from, &m.to, m.piece, outcome.promoted, m.side);
        let row = DataRow {
            features,
            is_winner_turn: m.side == winner,
            move_label: label as u16,
        };
        rows.push(row);
        proof {
            states = states.push(board);
            assert(moves@.subrange(0, i + 1)[i as int] == moves@[i as int]);
            assert forall|j: int| 0 <= j < i + 1 implies {
                let mm = #[trigger] moves@.subrange(0, i + 1)[j];
                let b = states[j];
                &&& b.wf()
                &&& mm.side as int == b.turn as int
                &&& rows@[j].features@ == oriented_feature_spec(b, mm.side as int)
                &&& rows@[j].move_label as int == oriented_label_spec(
                    mm.from,
                    mm.to,
                    mm.piece,
                    promoted_in(b, mm),
                    mm.side as int,
                )
                &&& rows@[j].is_winner_turn == (mm.side as int == winner as int)
                &&& step_fails(b, mm) is None
                &&& GameState::move_applied(
                    b,
                    states[j + 1],
                    mm.from_sentinel(),
                    mm.to,
                    piece_idx(mm.piece),
                )
            } by {
                assert(moves@.subrange(0, i + 1)[j] == moves@[j]);
                if j < i {
                    assert(moves@.subrange(0, i as int)[j] == moves@[j]);
                }
            }
        }
        i = i + 1;
    }
    proof {
        assert(moves@.subrange(0, moves@.len() as int) =~= moves@);
    }
    Ok(rows)
}


/// The little-endian bytes of a 128-bit feature word.
pub open spec fn le_bytes_u128(x: u128) -> Seq<u8> {
    Seq::new(16, |i: int| ((x >> ((8 * i) as u128)) & 0xFF) as u8)
}

/// The little-endian bytes of the record count.
pub open spec fn le_bytes_u64(x: u64) -> Seq<u8> {
    Seq::new(8, |i: int| ((x >> ((8 * i) as u64)) & 0xFF) as u8)
}

/// The little-endian bytes of a move label.
pub open spec fn le_bytes_u16(x: u16) -> Seq<u8> {
    Seq::new(2, |i: int| ((x >> ((8 * i) as u16)) & 0xFF) as u8)
}

/// The bytes of the first `n` feature words, concatenated.
pub open spec fn words_bytes(ws: Seq<u128>, n: int) -> Seq<u8>
    decreases n,
{
    if n <= 0 {
        Seq::empty()
    } else {
        words_bytes(ws, n - 1) + le_bytes_u128(ws[n - 1])
    }
}

/// The 1667 bytes of one sample: 104 feature words, the label, and the
/// winner flag.
pub open spec fn row_bytes(r: DataRow) -> Seq<u8> {
    words_bytes(r.features@, 104) + le_bytes_u16(r.move_label) + seq![
        if r.is_winner_turn {
            1u8
        } else {
            0u8
        },
    ]
}

/// The bytes of the first `n` samples, concatenated.
pub open spec fn rows_bytes(rs: Seq<DataRow>, n: int) -> Seq<u8>
    decreases n,
{
    if n <= 0 {
        Seq::empty()
    } else {
        rows_bytes(rs, n - 1) + row_bytes(rs[n - 1])
    }
}

/// The dataset file image: a little-endian record count, then the fixed
/// 1667-byte records in order.
pub open spec fn dataset_bytes(rs: Seq<DataRow>) -> Seq<u8> {
    le_bytes_u64(rs.len() as u64) + rows_bytes(rs, rs.len() as int)
}

/// Append the little-endian bytes of a record count.
fn push_u64_le(out: &mut Vec<u8>, x: u64)
    ensures
        final(out)@ == old(out)@ + le_bytes_u64(x),
{
    let mut i: usize = 0;
    while i < 8
        invariant
            i <= 8,
            out@ == old(out)@ + le_bytes_u64(x).subrange(0, i as int),
        decreases 8 - i,
    {
        proof {
            assert(le_bytes_u64(x).subrange(0, i + 1) =~= le_bytes_u64(x).subrange(0, i as int)
                + seq![le_bytes_u64(x)[i as int]]);
        }
        out.push(((x >> ((8 * i) as u64)) & 0xFF) as u8);
        i = i + 1;
    }
    proof {
        assert(le_bytes_u64(x).subrange(0, 8) =~= le_bytes_u64(x));
    }
}

/// Append the little-endian bytes of a feature word.
fn push_u128_le(out: &mut Vec<u8>, x: u128)
    ensures
        final(out)@ == old(out)@ + le_bytes_u128(x),
{
    let mut i: usize = 0;
    while i < 16
        invariant
            i <= 16,
            out@ == old(out)@ + le_bytes_u128(x).subrange(0, i as int),
        decreases 16 - i,
    {
        proof {
            assert(le_bytes_u128(x).subrange(0, i + 1) =~= le_bytes_u128(x).subrange(0, i as int)
                + seq![le_bytes_u128(x)[i as int]]);
        }
        out.push(((x >> ((8 * i) as u128)) & 0xFF) as u8);
        i = i + 1;
    }
    proof {
        assert(le_bytes_u128(x).subrange(0, 16) =~= le_bytes_u128(x));
    }
}

/// Append the little-endian bytes of a move label.
fn push_u16_le(out: &mut Vec<u8>, x: u16)
    ensures
        final(out)@ == old(out)@ + le_bytes_u16(x),
{
    out.push((x & 0xFF) as u8);
    out.push(((x >> 8u16) & 0xFF) as u8);
    proof {
        assert(le_bytes_u16(x) =~= seq![((x >> 0u16) & 0xFF) as u8, ((x >> 8u16) & 0xFF) as u8]);
        assert((x >> 0u16) == x) by (bit_vector);
        assert(out@ =~= old(out)@ + le_bytes_u16(x));
    }
}

/// Serialize samples to the dataset file image: a little-endian record
/// count, then for each sample its 104 feature words little-endian, its
/// label, and its winner flag, 1667 bytes per record.
pub fn encode_samples(rows: &Vec<DataRow>) -> (r: Vec<u8>)
    requires
        forall|i: int| 0 <= i < rows@.len() ==> (#[trigger] rows@[i]).wf(),
    ensures
        r@ == dataset_bytes(rows@),
{
    let mut out: Vec<u8> = Vec::new();
    push_u64_le(&mut out, rows.len() as u64);
    let mut i: usize = 0;
    while i < rows.len()
        invariant
            forall|j: int| 0 <= j < rows@.len() ==> (#[trigger] rows@[j]).wf(),
            i <= rows@.len(),
            out@ == le_bytes_u64(rows@.len() as u64) + rows_bytes(rows@, i as int),
        decreases rows@.len() - i,
    {
        let row = &rows[i];
        let ghost out_before = out@;
        let mut w: usize = 0;
        while w < 104
            invariant
                rows@[i as int].wf(),
                row == &rows@[i as int],
                w <= 104,
                out@ == out_before + words_bytes(rows@[i as int].features@, w as int),
            decreases 104 - w,
        {
            push_u128_le(&mut out, row.features[w]);
            w = w + 1;
        }
        push_u16_le(&mut out, row.move_label);
        if row.is_winner_turn {
            out.push(1);
        } else {
            out.push(0);
        }
        proof {
            assert(out@ =~= out_before + row_bytes(rows@[i as int]));
            assert(out@ =~= le_bytes_u64(rows@.len() as u64) + rows_bytes(rows@, i + 1));
        }
        i = i + 1;
    }
    proof {
        assert(out@ =~= dataset_bytes(rows@));
    }
    out
}


/// Assembling one more little-endian byte extends a partial word: lower
/// bytes keep their values, the new byte lands at its offset, and the
/// bits above it stay clear.
proof fn lemma_assemble_u128(w: u128, b: u8, i: u128)
    by (bit_vector)
    requires
        i < 16,
        w >> (8 * i) == 0,
    ensures
        forall|j: u128|
            j < i ==> #[trigger] (((w | ((b as u128) << (8 * i))) >> (8 * j)) & 0xFF) == (w >> (8
                * j)) & 0xFF,
        ((w | ((b as u128) << (8 * i))) >> (8 * i)) & 0xFF == b as u128,
        (w | ((b as u128) << (8 * i))) >> ((8 * i + 8) as u128) == 0,
{
}

/// The same, for the 64-bit record count.
proof fn lemma_assemble_u64(w: u64, b: u8, i: u64)
    by (bit_vector)
    requires
        i < 8,
        w >> (8 * i) == 0,
    ensures
        forall|j: u64|
            j < i ==> #[trigger] (((w | ((b as u64) << (8 * i))) >> (8 * j)) & 0xFF) == (w >> (8
                * j)) & 0xFF,
        ((w | ((b as u64) << (8 * i))) >> (8 * i)) & 0xFF == b as u64,
        (w | ((b as u64) << (8 * i))) >> ((8 * i + 8) as u64) == 0,
{
}

/// Word-byte concatenations agree on agreeing prefixes.
proof fn lemma_words_bytes_prefix(s1: Seq<u128>, s2: Seq<u128>, n: int)
    requires
        forall|j: int| 0 <= j < n ==> s1[j] == #[trigger] s2[j],
    ensures
        words_bytes(s1, n) == words_bytes(s2, n),
    decreases n,
{
    if n > 0 {
        lemma_words_bytes_prefix(s1, s2, n - 1);
    }
}

/// Sample-byte concatenations agree on agreeing prefixes.
proof fn lemma_rows_bytes_prefix(s1: Seq<DataRow>, s2: Seq<DataRow>, n: int)
    requires
        forall|j: int| 0 <= j < n ==> s1[j] == #[trigger] s2[j],
    ensures
        rows_bytes(s1, n) == rows_bytes(s2, n),
    decreases n,
{
    if n > 0 {
        lemma_rows_bytes_prefix(s1, s2, n - 1);
    }
}

/// Read a feature word back from its sixteen little-endian bytes.
fn read_u128_le(bytes: &Vec<u8>, pos: usize) -> (r: u128)
    requires
        pos + 16 <= bytes@.len(),
    ensures
        le_bytes_u128(r) == bytes@.subrange(pos as int, pos as int + 16),
{
    let n = bytes.len();
    let mut w: u128 = 0;
    let mut i: usize = 0;
    proof {
        assert(0u128 >> 0u128 == 0) by (bit_vector);
    }
    while i < 16
        invariant
            n == bytes@.len(),
            pos + 16 <= n,
            i <= 16,
            w >> ((8 * i) as u128) == 0,
            forall|j: int|
                0 <= j < i ==> (w >> ((8 * j) as u128)) & 0xFF == #[trigger] bytes@[pos + j] as u128,
        decreases 16 - i,
    {
        let b = bytes[pos + i];
        proof {
            lemma_assemble_u128(w, b, i as u128);
        }
        w = w | ((b as u128) << ((8 * i) as u128));
        i = i + 1;
    }
    proof {
        assert(le_bytes_u128(w) =~= bytes@.subrange(pos as int, pos as int + 16)) by {
            assert forall|j: int| 0 <= j < 16 implies le_bytes_u128(w)[j] == bytes@[pos + j] by {
                assert((w >> ((8 * j) as u128)) & 0xFF == bytes@[pos + j] as u128);
            }
        }
    }
    w
}

/// Read the record count back from its eight little-endian bytes.
fn read_u64_le(bytes: &Vec<u8>, pos: usize) -> (r: u64)
    requires
        pos + 8 <= bytes@.len(),
    ensures
        le_bytes_u64(r) == bytes@.subrange(pos as int, pos as int + 8),
{
    let n = bytes.len();
    let mut w: u64 = 0;
    let mut i: usize = 0;
    proof {
        assert(0u64 >> 0u64 == 0) by (bit_vector);
    }
    while i < 8
        invariant
            n == bytes@.len(),
            pos + 8 <= n,
            i <= 8,
            w >> ((8 * i) as u64) == 0,
            forall|j: int|
                0 <= j < i ==> (w >> ((8 * j) as u64)) & 0xFF == #[trigger] bytes@[pos + j] as u64,
        decreases 8 - i,
    {
        let b = bytes[pos + i];
        proof {
            lemma_assemble_u64(w, b, i as u64);
        }
        w = w | ((b as u64) << ((8 * i) as u64));
        i = i + 1;
    }
    proof {
        assert(le_bytes_u64(w) =~= bytes@.subrange(pos as int, pos as int + 8)) by {
            assert forall|j: int| 0 <= j < 8 implies le_bytes_u64(w)[j] == bytes@[pos + j] by {
                assert((w >> ((8 * j) as u64)) & 0xFF == bytes@[pos + j] as u64);
            }
        }
    }
    w
}

/// Read a move label back from its two little-endian bytes.
fn read_u16_le(bytes: &Vec<u8>, pos: usize) -> (r: u16)
    requires
        pos + 2 <= bytes@.len(),
    ensures
        le_bytes_u16(r) == bytes@.subrange(pos as int, pos as int + 2),
{
    let n = bytes.len();
    let b0 = bytes[pos];
    let b1 = bytes[pos + 1];
    let w = (b0 as u16) | ((b1 as u16) << 8u16);
    proof {
        assert(((b0 as u16) | ((b1 as u16) << 8u16)) >> 0u16 & 0xFF == b0 as u16) by (bit_vector);
        assert(((b0 as u16) | ((b1 as u16) << 8u16)) >> 8u16 & 0xFF == b1 as u16) by (bit_vector);
        assert(le_bytes_u16(w) =~= bytes@.subrange(pos as int, pos as int + 2));
    }
    w
}


/// A well-formed dataset image: the serialized form of some samples
/// that all carry 104 feature words and an in-range label.
pub open spec fn well_formed_image(bytes: Seq<u8>) -> bool {
    exists|rows: Seq<DataRow>|
        bytes == dataset_bytes(rows) && (forall|i: int|
            0 <= i < rows.len() ==> (#[trigger] rows[i]).wf())
}

/// The bytes of `n` feature words take sixteen bytes each.
proof fn lemma_words_bytes_len(ws: Seq<u128>, n: int)
    requires
        n >= 0,
    ensures
        words_bytes(ws, n).len() == 16 * n,
    decreases n,
{
    if n > 0 {
        lemma_words_bytes_len(ws, n - 1);
    }
}

/// The bytes of `n` samples take 1667 bytes each.
proof fn lemma_rows_bytes_len(rs: Seq<DataRow>, n: int)
    requires
        n >= 0,
    ensures
        rows_bytes(rs, n).len() == 1667 * n,
    decreases n,
{
    if n > 0 {
        lemma_rows_bytes_len(rs, n - 1);
        lemma_words_bytes_len(rs[n - 1].features@, 104);
    }
}

/// Two record counts with the same little-endian bytes are equal.
proof fn lemma_le_u64_unique(x: u64, y: u64)
    requires
        le_bytes_u64(x) == le_bytes_u64(y),
    ensures
        x == y,
{
    assert(((x >> 0u64) & 0xFF) < 256 && ((y >> 0u64) & 0xFF) < 256) by (bit_vector);
    assert((x >> 0u64) & 0xFF == (y >> 0u64) & 0xFF) by {
        assert(le_bytes_u64(x)[0] == le_bytes_u64(y)[0]);
        assert(le_bytes_u64(x)[0] == (((x >> ((8* 0) as u64)) & 0xFF) as u8));
        assert(le_bytes_u64(y)[0] == (((y >> ((8* 0) as u64)) & 0xFF) as u8));
    }
    assert(((x >> 8u64) & 0xFF) < 256 && ((y >> 8u64) & 0xFF) < 256) by (bit_vector);
    assert((x >> 8u64) & 0xFF == (y >> 8u64) & 0xFF) by {
        assert(le_bytes_u64(x)[1] == le_bytes_u64(y)[1]);
        assert(le_bytes_u64(x)[1] == (((x >> ((8* 1) as u64)) & 0xFF) as u8));
        assert(le_bytes_u64(y)[1] == (((y >> ((8* 1) as u64)) & 0xFF) as u8));
    }
    assert(((x >> 16u64) & 0xFF) < 256 && ((y >> 16u64) & 0xFF) < 256) by (bit_vector);
    assert((x >> 16u64) & 0xFF == (y >> 16u64) & 0xFF) by {
        assert(le_bytes_u64(x)[2] == le_bytes_u64(y)[2]);
        assert(le_bytes_u64(x)[2] == (((x >> ((8* 2) as u64)) & 0xFF) as u8));
        assert(le_bytes_u64(y)[2] == (((y >> ((8* 2) as u64)) & 0xFF) as u8));
    }
    assert(((x >> 24u64) & 0xFF) < 256 && ((y >> 24u64) & 0xFF) < 256) by (bit_vector);
    assert((x >> 24u64) & 0xFF == (y >> 24u64) & 0xFF) by {
        assert(le_bytes_u64(x)[3] == le_bytes_u64(y)[3]);
        assert(le_bytes_u64(x)[3] == (((x >> ((8* 3) as u64)) & 0xFF) as u8));
        assert(le_bytes_u64(y)[3] == (((y >> ((8* 3) as u64)) & 0xFF) as u8));
    }
    assert(((x >> 32u64) & 0xFF) < 256 && ((y >> 32u64) & 0xFF) < 256) by (bit_vector);
    assert((x >> 32u64) & 0xFF == (y >> 32u64) & 0xFF) by {
        assert(le_bytes_u64(x)[4] == le_bytes_u64(y)[4]);
        assert(le_bytes_u64(x)[4] == (((x >> ((8* 4) as u64)) & 0xFF) as u8));
        assert(le_bytes_u64(y)[4] == (((y >> ((8* 4) as u64)) & 0xFF) as u8));
    }
    assert(((x >> 40u64) & 0xFF) < 256 && ((y >> 40u64) & 0xFF) < 256) by (bit_vector);
    assert((x >> 40u64) & 0xFF == (y >> 40u64) & 0xFF) by {
        assert(le_bytes_u64(x)[5] == le_bytes_u64(y)[5]);
        assert(le_bytes_u64(x)[5] == (((x >> ((8* 5) as u64)) & 0xFF) as u8));
        assert(le_bytes_u64(y)[5] == (((y >> ((8* 5) as u64)) & 0xFF) as u8));
    }
    assert(((x >> 48u64) & 0xFF) < 256 && ((y >> 48u64) & 0xFF) < 256) by (bit_vector);
    assert((x >> 48u64) & 0xFF == (y >> 48u64) & 0xFF) by {
        assert(le_bytes_u64(x)[6] == le_bytes_u64(y)[6]);
        assert(le_bytes_u64(x)[6] == (((x >> ((8* 6) as u64)) & 0xFF) as u8));
        assert(le_bytes_u64(y)[6] == (((y >> ((8* 6) as u64)) & 0xFF) as u8));
    }
    assert(((x >> 56u64) & 0xFF) < 256 && ((y >> 56u64) & 0xFF) < 256) by (bit_vector);
    assert((x >> 56u64) & 0xFF == (y >> 56u64) & 0xFF) by {
        assert(le_bytes_u64(x)[7] == le_bytes_u64(y)[7]);
        assert(le_bytes_u64(x)[7] == (((x >> ((8* 7) as u64)) & 0xFF) as u8));
        assert(le_bytes_u64(y)[7] == (((y >> ((8* 7) as u64)) & 0xFF) as u8));
    }
    assert(x == y) by (bit_vector)
        requires
            (x >> 0u64) & 0xFF == (y >> 0u64) & 0xFF,
            (x >> 8u64) & 0xFF == (y >> 8u64) & 0xFF,
            (x >> 16u64) & 0xFF == (y >> 16u64) & 0xFF,
            (x >> 24u64) & 0xFF == (y >> 24u64) & 0xFF,
            (x >> 32u64) & 0xFF == (y >> 32u64) & 0xFF,
            (x >> 40u64) & 0xFF == (y >> 40u64) & 0xFF,
            (x >> 48u64) & 0xFF == (y >> 48u64) & 0xFF,
            (x >> 56u64) & 0xFF == (y >> 56u64) & 0xFF,
    ;
}

/// Two labels with the same little-endian bytes are equal.
proof fn lemma_le_u16_unique(x: u16, y: u16)
    requires
        le_bytes_u16(x) == le_bytes_u16(y),
    ensures
        x == y,
{
    assert(((x >> 0u16) & 0xFF) < 256 && ((y >> 0u16) & 0xFF) < 256) by (bit_vector);
    assert(((x >> 8u16) & 0xFF) < 256 && ((y >> 8u16) & 0xFF) < 256) by (bit_vector);
    assert((x >> 0u16) & 0xFF == (y >> 0u16) & 0xFF) by {
        assert(le_bytes_u16(x)[0] == le_bytes_u16(y)[0]);
        assert(le_bytes_u16(x)[0] == (((x >> ((8 * 0) as u16)) & 0xFF) as u8));
        assert(le_bytes_u16(y)[0] == (((y >> ((8 * 0) as u16)) & 0xFF) as u8));
    }
    assert((x >> 8u16) & 0xFF == (y >> 8u16) & 0xFF) by {
        assert(le_bytes_u16(x)[1] == le_bytes_u16(y)[1]);
        assert(le_bytes_u16(x)[1] == (((x >> ((8 * 1) as u16)) & 0xFF) as u8));
        assert(le_bytes_u16(y)[1] == (((y >> ((8 * 1) as u16)) & 0xFF) as u8));
    }
    assert(x == y) by (bit_vector)
        requires
            (x >> 0u16) & 0xFF == (y >> 0u16) & 0xFF,
            (x >> 8u16) & 0xFF == (y >> 8u16) & 0xFF,
    ;
}

/// Each sample's bytes sit at their fixed offset in the concatenation.
proof fn lemma_rows_bytes_slice(rs: Seq<DataRow>, n: int, i: int)
    requires
        0 <= i < n,
    ensures
        rows_bytes(rs, n).subrange(1667 * i, 1667 * i + 1667) == row_bytes(rs[i]),
    decreases n,
{
    lemma_rows_bytes_len(rs, n - 1);
    lemma_words_bytes_len(rs[n - 1].features@, 104);
    lemma_words_bytes_len(rs[i].features@, 104);
    if i == n - 1 {
        assert(rows_bytes(rs, n).subrange(1667 * i, 1667 * i + 1667) =~= row_bytes(rs[i]));
    } else {
        lemma_rows_bytes_slice(rs, n - 1, i);
        assert(rows_bytes(rs, n).subrange(1667 * i, 1667 * i + 1667) =~= rows_bytes(
            rs,
            n - 1,
        ).subrange(1667 * i, 1667 * i + 1667));
    }
}

/// Parse a dataset file image back into its samples. The bytes of a
/// successful parse are exactly the serialized form of the returned
/// samples.
pub fn decode_samples(bytes: &Vec<u8>) -> (r: Result<Vec<DataRow>, DataError>)
    ensures
        r matches Ok(rows) ==> {
            &&& bytes@ == dataset_bytes(rows@)
            &&& forall|i: int| 0 <= i < rows@.len() ==> (#[trigger] rows@[i]).wf()
        },
        r is Err ==> !well_formed_image(bytes@),
{
    let n = bytes.len();
    let ghost wfi = well_formed_image(bytes@);
    let ghost rows0: Seq<DataRow> = if wfi {
        choose|rs: Seq<DataRow>|
            bytes@ == dataset_bytes(rs) && (forall|i: int|
                0 <= i < rs.len() ==> (#[trigger] rs[i]).wf())
    } else {
        Seq::empty()
    };
    proof {
        if wfi {
            lemma_rows_bytes_len(rows0, rows0.len() as int);
            assert(n == 8 + 1667 * rows0.len());
        }
    }
    if n < 8 {
        proof {
            assert(!wfi);
        }
        return Err(DataError::FormatError);
    }
    let count64 = read_u64_le(bytes, 0);
    proof {
        if wfi {
            assert(bytes@.subrange(0, 8) =~= le_bytes_u64(rows0.len() as u64));
            lemma_le_u64_unique(count64, rows0.len() as u64);
            assert(count64 == rows0.len());
        }
    }
    if count64 > n as u64 {
        proof {
            assert(!wfi);
        }
        return Err(DataError::FormatError);
    }
    let count = count64 as usize;
    let mut rows: Vec<DataRow> = Vec::new();
    let mut pos: usize = 8;
    let mut i: usize = 0;
    while i < count
        invariant
            n == bytes@.len(),
            n >= 8,
            le_bytes_u64(count as u64) == bytes@.subrange(0, 8),
            count <= n,
            i <= count,
            rows@.len() == i,
            pos == 8 + 1667 * i,
            pos <= n,
            bytes@.subrange(0, pos as int) == le_bytes_u64(count as u64) + rows_bytes(
                rows@,
                i as int,
            ),
            forall|j: int| 0 <= j < rows@.len() ==> (#[trigger] rows@[j]).wf(),
            wfi == well_formed_image(bytes@),
            wfi ==> bytes@ == dataset_bytes(rows0) && count as int == rows0.len() && n == 8
                + 1667 * rows0.len() && (forall|j: int|
                0 <= j < rows0.len() ==> (#[trigger] rows0[j]).wf()),
        decreases count - i,
    {
        if n - pos < 1667 {
            proof {
                assert(!wfi);
            }
            return Err(DataError::FormatError);
        }
        let ghost row_start = pos as int;
        let mut features: Vec<u128> = Vec::new();
        let mut w: usize = 0;
        while w < 104
            invariant
                n == bytes@.len(),
                w <= 104,
                features@.len() == w,
                8 <= row_start,
                pos == row_start + 16 * w,
                row_start + 1667 <= n,
                pos + 16 * (104 - w) + 3 <= n,
                bytes@.subrange(row_start, pos as int) == words_bytes(features@, w as int),
            decreases 104 - w,
        {
            let word = read_u128_le(bytes, pos);
            let ghost old_features = features@;
            features.push(word);
            proof {
                lemma_words_bytes_prefix(old_features, features@, w as int);
                assert(bytes@.subrange(row_start, pos + 16) =~= bytes@.subrange(
                    row_start,
                    pos as int,
                ) + bytes@.subrange(pos as int, pos + 16));
                assert(bytes@.subrange(row_start, pos + 16) =~= words_bytes(features@, w + 1));
            }
            pos = pos + 16;
            w = w + 1;
        }
        let label = read_u16_le(bytes, pos);
        pos = pos + 2;
        let flag = bytes[pos];
        pos = pos + 1;
        proof {
            if wfi {
                lemma_rows_bytes_slice(rows0, count as int, i as int);
                let rb = row_bytes(rows0[i as int]);
                lemma_words_bytes_len(rows0[i as int].features@, 104);
                assert(rb.subrange(1664, 1666) =~= le_bytes_u16(rows0[i as int].move_label));
                assert(bytes@.subrange(row_start + 1664, row_start + 1666) =~= rb.subrange(
                    1664,
                    1666,
                )) by {
                    assert forall|t: int| 0 <= t < 2 implies #[trigger] bytes@[row_start + 1664
                        + t] == rb[1664 + t] by {
                        assert(bytes@[row_start + 1664 + t] == rows_bytes(
                            rows0,
                            count as int,
                        )[1667 * i + 1664 + t]);
                        assert(rb[1664 + t] == rows_bytes(rows0, count as int).subrange(
                            1667 * i,
                            1667 * i + 1667,
                        )[1664 + t]);
                    }
                }
                lemma_le_u16_unique(label, rows0[i as int].move_label);
                assert(label == rows0[i as int].move_label);
                assert(bytes@[row_start + 1666] == rows_bytes(rows0, count as int)[1667 * i
                    + 1666]);
                assert(rb[1666] == rows_bytes(rows0, count as int).subrange(
                    1667 * i,
                    1667 * i + 1667,
                )[1666]);
                assert(flag == rb[1666]);
                assert(flag <= 1);
            }
        }
        if label >= 2187 {
            proof {
                assert(!wfi);
            }
            return Err(DataError::FormatError);
        }
        if flag > 1 {
            proof {
                assert(!wfi);
            }
            return Err(DataError::FormatError);
        }
        let row = DataRow { features, is_winner_turn: flag == 1, move_label: label };
        proof {
            assert(bytes@.subrange(row_start, pos as int) =~= bytes@.subrange(
                row_start,
                row_start + 1664,
            ) + bytes@.subrange(row_start + 1664, row_start + 1666) + seq![
                bytes@[row_start + 1666],
            ]);
            assert(bytes@.subrange(row_start + 1664, row_start + 1666) == le_bytes_u16(
                row.move_label,
            ));
            assert(seq![bytes@[row_start + 1666]] =~= seq![
                if row.is_winner_turn {
                    1u8
                } else {
                    0u8
                },
            ]);
            assert(bytes@.subrange(row_start, pos as int) == row_bytes(row));
        }
        let ghost old_rows = rows@;
        rows.push(row);
        proof {
            lemma_rows_bytes_prefix(old_rows, rows@, i as int);
            assert(bytes@.subrange(0, pos as int) =~= bytes@.subrange(0, row_start)
                + bytes@.subrange(row_start, pos as int));
            assert(bytes@.subrange(0, pos as int) =~= le_bytes_u64(count as u64) + rows_bytes(
                rows@,
                i + 1,
            ));
        }
        i = i + 1;
    }
    if pos != n {
        proof {
            assert(!wfi);
        }
        return Err(DataError::FormatError);
    }
    proof {
        assert(bytes@.subrange(0, pos as int) =~= bytes@);
        assert(rows@.len() == count);
        assert(bytes@ =~= dataset_bytes(rows@));
    }
    Ok(rows)
}

} // verus!
