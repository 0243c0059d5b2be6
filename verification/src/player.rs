//! The policy player's decision core: label the legal candidate moves,
//! pick the best-scoring one, and hand it back in the board frame.

use crate::label::label_input_ok;
use crate::label::label_spec;
use crate::label::make_output_label;
use crate::label::rot_from_spec;
use crate::label::rot_pos_spec;
use crate::state::PieceType;
use crate::state::Position;
use vstd::prelude::*;

verus! {

/// One legal move offered to the policy, in the frame the features were
/// packed in.
#[derive(Clone, Copy, Debug)]
pub struct CandidateMove {
    /// The origin square, or the hand for a drop.
    pub from: Option<Position>,
    /// The destination square.
    pub to: Position,
    /// The piece as it stands after the move.
    pub piece: PieceType,
    /// Whether the move promotes the piece.
    pub promoted: bool,
}

impl CandidateMove {
    /// Whether the label encoder accepts this candidate.
    pub open spec fn encodable(self) -> bool {
        label_input_ok(self.from, self.to, self.piece)
    }

    /// This candidate's label.
    pub open spec fn label_of(self) -> int {
        label_spec(self.from, self.to, self.piece, self.promoted)
    }

    /// The same move seen from the other side.
    pub open spec fn rotated_spec(self) -> CandidateMove {
        CandidateMove {
            from: rot_from_spec(self.from),
            to: rot_pos_spec(self.to),
            piece: self.piece,
            promoted: self.promoted,
        }
    }
}

/// The labels of the candidate moves, in order; nothing when some
/// candidate is not encodable.
pub fn move_labels(cands: &Vec<CandidateMove>) -> (r: Option<Vec<i16>>)
    ensures
        match r {
            Some(ls) => {
                &&& ls@.len() == cands@.len()
                &&& forall|i: int|
                    0 <= i < cands@.len() ==> (#[trigger] cands@[i]).encodable() && ls@[i] as int
                        == cands@[i].label_of() && 0 <= ls@[i] < 2187
            },
            None => exists|i: int| 0 <= i < cands@.len() && !(#[trigger] cands@[i]).encodable(),
        },
{
    let mut ls: Vec<i16> = Vec::new();
    let mut i: usize = 0;
    while i < cands.len()
        invariant
            i <= cands@.len(),
            ls@.len() == i,
            forall|j: int|
                0 <= j < i ==> (#[trigger] cands@[j]).encodable() && ls@[j] as int
                    == cands@[j].label_of() && 0 <= ls@[j] < 2187,
        decreases cands@.len() - i,
    {
        let c = cands[i];
        let ok = match &c.from {
            Some(f) => {
                if !(1 <= f.rank && f.rank <= 9 && 1 <= f.file && f.file <= 9 && 1 <= c.to.rank
                    && c.to.rank <= 9 && 1 <= c.to.file && c.to.file <= 9) {
                    false
                } else {
                    let dy = c.to.rank as i16 - f.rank as i16;
                    let dx = f.file as i16 - c.to.file as i16;
                    let knight = dy == -2 && (dx == 1 || dx == -1);
                    let slide = (dx == dy || dx == 0 - dy || dx == 0 || dy == 0) && !(dx == 0 && dy
                        == 0);
                    knight || slide
                }
            },
            None => {
                let k = c.piece.to_usize();
                1 <= c.to.rank && c.to.rank <= 9 && 1 <= c.to.file && c.to.file <= 9 && 1 <= k && k
                    <= 7
            },
        };
        if !ok {
            return None;
        }
        let label = make_output_label(&c.from, &c.to, c.piece, c.promoted);
        ls.push(label);
        i = i + 1;
    }
    Some(ls)
}

/// Index `i` holds the winning score: no score is higher, and every
/// later score is strictly lower, which is how a stable ascending sort
/// followed by taking the last element breaks ties.
pub open spec fn is_last_argmax(scores: Seq<u64>, i: int) -> bool {
    &&& 0 <= i < scores.len()
    &&& (forall|j: int| 0 <= j < scores.len() ==> scores[j] <= scores[i])
    &&& (forall|j: int| i < j < scores.len() ==> scores[j] < scores[i])
}

/// The index of the best score, ties broken toward the latest
/// candidate.
pub fn select_best_index(scores: &Vec<u64>) -> (r: Option<usize>)
    ensures
        match r {
            Some(i) => is_last_argmax(scores@, i as int),
            None => scores@.len() == 0,
        },
{
    if scores.len() == 0 {
        return None;
    }
    let mut best: usize = 0;
    let mut i: usize = 1;
    while i < scores.len()
        invariant
            scores@.len() > 0,
            best < i <= scores@.len(),
            forall|j: int| 0 <= j < i ==> scores@[j] <= scores@[best as int],
            forall|j: int| best < j < i ==> scores@[j] < scores@[best as int],
        decreases scores@.len() - i,
    {
        if scores[i] >= scores[best] {
            best = i;
        }
        i = i + 1;
    }
    Some(best)
}

/// Pick the best-scoring candidate and hand it back in the board frame:
/// candidates scored in White's rotated frame are rotated back before
/// they are returned.
pub fn choose_move(cands: &Vec<CandidateMove>, scores: &Vec<u64>, side: usize) -> (r: Option<
    CandidateMove,
>)
    requires
        cands@.len() == scores@.len(),
        side < 2,
    ensures
        match r {
            Some(c) => exists|i: int|
                {
                    &&& #[trigger] is_last_argmax(scores@, i)
                    &&& cands@[i].to.valid()
                    &&& (cands@[i].from matches Some(f) ==> f.valid())
                    &&& c == (if side == 0 {
                        cands@[i]
                    } else {
                        cands@[i].rotated_spec()
                    })
                },
            None => scores@.len() == 0 || exists|i: int|
                {
                    &&& #[trigger] is_last_argmax(scores@, i)
                    &&& !(cands@[i].to.valid() && (cands@[i].from matches Some(f) ==> f.valid()))
                },
        },
{
    let best = match select_best_index(scores) {
        Some(b) => b,
        None => {
            return None;
        },
    };
    let c = cands[best];
    let coords_ok = 1 <= c.to.rank && c.to.rank <= 9 && 1 <= c.to.file && c.to.file <= 9
        && (match &c.from {
        Some(f) => 1 <= f.rank && f.rank <= 9 && 1 <= f.file && f.file <= 9,
        None => true,
    });
    if !coords_ok {
        return None;
    }
    if side == 0 {
        Some(c)
    } else {
        let rf: Option<Position> = match &c.from {
            Some(f) => Some(f.rotate()),
            None => None,
        };
        Some(CandidateMove { from: rf, to: c.to.rotate(), piece: c.piece, promoted: c.promoted })
    }
}

} // verus!
