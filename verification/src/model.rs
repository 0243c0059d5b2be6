//! The categorical move-direction taxonomy and the persisted sample record.

use vstd::prelude::*;

verus! {

/// The twenty direction tags a board move can encode: eight unit
/// directions, the two knight jumps, and the promoting variant of each.
#[derive(Clone, Copy, Debug, PartialEq, Eq, Structural)]
pub enum MoveDirection {
    Up,
    Down,
    Left,
    Right,
    UpLeft,
    UpRight,
    DownLeft,
    DownRight,
    Up2Left,
    Up2Right,
    UpPromote,
    DownPromote,
    LeftPromote,
    RightPromote,
    UpLeftPromote,
    UpRightPromote,
    DownLeftPromote,
    DownRightPromote,
    Up2LeftPromote,
    Up2RightPromote,
}

/// The byte code of each direction tag; promoting variants sit ten above
/// their plain form.
pub open spec fn direction_byte(d: MoveDirection) -> int {
    match d {
        MoveDirection::Up => 0,
        MoveDirection::Down => 1,
        MoveDirection::Left => 2,
        MoveDirection::Right => 3,
        MoveDirection::UpLeft => 4,
        MoveDirection::UpRight => 5,
        MoveDirection::DownLeft => 6,
        MoveDirection::DownRight => 7,
        MoveDirection::Up2Left => 8,
        MoveDirection::Up2Right => 9,
        MoveDirection::UpPromote => 10,
        MoveDirection::DownPromote => 11,
        MoveDirection::LeftPromote => 12,
        MoveDirection::RightPromote => 13,
        MoveDirection::UpLeftPromote => 14,
        MoveDirection::UpRightPromote => 15,
        MoveDirection::DownLeftPromote => 16,
        MoveDirection::DownRightPromote => 17,
        MoveDirection::Up2LeftPromote => 18,
        MoveDirection::Up2RightPromote => 19,
    }
}

impl MoveDirection {
    /// The byte code of this direction tag.
    pub fn to_byte(&self) -> (r: u8)
        ensures
            r as int == direction_byte(*self),
            r < 20,
    {
        match self {
            MoveDirection::Up => 0,
            MoveDirection::Down => 1,
            MoveDirection::Left => 2,
            MoveDirection::Right => 3,
            MoveDirection::UpLeft => 4,
            MoveDirection::UpRight => 5,
            MoveDirection::DownLeft => 6,
            MoveDirection::DownRight => 7,
            MoveDirection::Up2Left => 8,
            MoveDirection::Up2Right => 9,
            MoveDirection::UpPromote => 10,
            MoveDirection::DownPromote => 11,
            MoveDirection::LeftPromote => 12,
            MoveDirection::RightPromote => 13,
            MoveDirection::UpLeftPromote => 14,
            MoveDirection::UpRightPromote => 15,
            MoveDirection::DownLeftPromote => 16,
            MoveDirection::DownRightPromote => 17,
            MoveDirection::Up2LeftPromote => 18,
            MoveDirection::Up2RightPromote => 19,
        }
    }

    /// The promoting variant of a plain direction tag.
    pub fn promote(&self) -> (r: MoveDirection)
        requires
            direction_byte(*self) < 10,
        ensures
            direction_byte(r) == direction_byte(*self) + 10,
    {
        match self {
            MoveDirection::Up => MoveDirection::UpPromote,
            MoveDirection::Down => MoveDirection::DownPromote,
            MoveDirection::Left => MoveDirection::LeftPromote,
            MoveDirection::Right => MoveDirection::RightPromote,
            MoveDirection::UpLeft => MoveDirection::UpLeftPromote,
            MoveDirection::UpRight => MoveDirection::UpRightPromote,
            MoveDirection::DownLeft => MoveDirection::DownLeftPromote,
            MoveDirection::DownRight => MoveDirection::DownRightPromote,
            MoveDirection::Up2Left => MoveDirection::Up2LeftPromote,
            MoveDirection::Up2Right => MoveDirection::Up2RightPromote,
            _ => {
                assert(false);
                MoveDirection::UpPromote
            },
        }
    }
}

/// The twenty direction tags in byte-code order.
pub fn move_directions() -> (r: Vec<MoveDirection>)
    ensures
        r@.len() == 20,
        forall|i: int| 0 <= i < 20 ==> direction_byte(#[trigger] r@[i]) == i,
{
    let r: Vec<MoveDirection> = vec![
        MoveDirection::Up,
        MoveDirection::Down,
        MoveDirection::Left,
        MoveDirection::Right,
        MoveDirection::UpLeft,
        MoveDirection::UpRight,
        MoveDirection::DownLeft,
        MoveDirection::DownRight,
        MoveDirection::Up2Left,
        MoveDirection::Up2Right,
        MoveDirection::UpPromote,
        MoveDirection::DownPromote,
        MoveDirection::LeftPromote,
        MoveDirection::RightPromote,
        MoveDirection::UpLeftPromote,
        MoveDirection::UpRightPromote,
        MoveDirection::DownLeftPromote,
        MoveDirection::DownRightPromote,
        MoveDirection::Up2LeftPromote,
        MoveDirection::Up2RightPromote,
    ];
    r
}

/// One persisted training sample: the packed feature planes of a
/// position, the label of the move played from it, and whether the mover
/// went on to win the game.
pub struct DataRow {
    /// One 128-bit word per feature plane.
    pub features: Vec<u128>,
    /// Whether the side to move is the declared winner of the record.
    pub is_winner_turn: bool,
    /// The categorical label of the move played.
    pub move_label: u16,
}

impl DataRow {
    /// A sample carries one word per feature plane and a label inside the
    /// output space.
    pub open spec fn wf(self) -> bool {
        self.features@.len() == 104 && self.move_label < 2187
    }
}

} // verus!
