//! An 81-square board mask packed into the low bits of a 128-bit word.
//!
//! The mathematical model of a bitboard is the set of occupied square
//! indices, a `Set<int>` with elements in `[0, 81)`.

use vstd::prelude::*;
use vstd::set_lib::lemma_int_range;
use vstd::set_lib::lemma_map_size;
use vstd::set_lib::set_int_range;

verus! {

/// All 81 board bits set: the full-board constant.
pub const FULL_BOARD: u128 = 0x1_FFFF_FFFF_FFFF_FFFF_FFFF;

/// 2^81, the first value with a bit outside the board.
pub const BOARD_LIMIT: u128 = 0x2_0000_0000_0000_0000_0000;

/// Whether bit `i` of `x` is set.
pub open spec fn bit_at(x: u128, i: int) -> bool {
    0 <= i < 128 && (x >> (i as u128)) & 1 == 1
}

/// The set of board squares whose bit is set in `x`.
pub open spec fn bits_set(x: u128) -> Set<int> {
    Set::new(|i: int| 0 <= i < 81 && bit_at(x, i))
}

/// A word is in range when it has no bits outside the 81 board squares.
pub open spec fn in_range(x: u128) -> bool {
    x < BOARD_LIMIT
}

/// The square set of `x` reflected through the board center: square `i`
/// is occupied in the result exactly when square `80 - i` is occupied in `x`.
pub open spec fn rot_view(s: Set<int>) -> Set<int> {
    Set::new(|i: int| 0 <= i < 81 && s.contains(80 - i))
}

/// The unique in-range word whose square set is the 180-degree rotation
/// of the square set of `x`.
pub open spec fn rev81(x: u128) -> u128 {
    choose|y: u128| in_range(y) && bits_set(y) == rot_view(bits_set(x))
}

/// An 81-square occupancy mask with set-of-squares semantics.
#[derive(Clone, Copy, Debug, PartialEq, Eq, Structural)]
pub struct Bitboard {
    pub bits: u128,
}

impl View for Bitboard {
    type V = Set<int>;

    open spec fn view(&self) -> Set<int> {
        bits_set(self.bits)
    }
}

impl Bitboard {
    /// No bits outside the board.
    pub open spec fn wf(self) -> bool {
        in_range(self.bits)
    }
}

proof fn lemma_or_bits(a: u128, b: u128)
    by (bit_vector)
    ensures
        forall|i: u128| i < 128 ==> (((a | b) >> i) & 1 == 1 <==> ((a >> i) & 1 == 1 || (b >> i)
            & 1 == 1)),
{
}

proof fn lemma_and_bits(a: u128, b: u128)
    by (bit_vector)
    ensures
        forall|i: u128| i < 128 ==> (((a & b) >> i) & 1 == 1 <==> ((a >> i) & 1 == 1 && (b >> i)
            & 1 == 1)),
{
}

proof fn lemma_xor_bits(a: u128, b: u128)
    by (bit_vector)
    ensures
        forall|i: u128| i < 128 ==> (((a ^ b) >> i) & 1 == 1 <==> (((a >> i) & 1 == 1) != ((b
            >> i) & 1 == 1))),
{
}

proof fn lemma_single_bit(p: u128)
    by (bit_vector)
    requires
        p < 81,
    ensures
        forall|i: u128| i < 128 ==> (((1u128 << p) >> i) & 1 == 1 <==> i == p),
        (1u128 << p) < 0x2_0000_0000_0000_0000_0000u128,
{
}

proof fn lemma_full_bits()
    by (bit_vector)
    ensures
        forall|i: u128| i < 128 ==> ((0x1_FFFF_FFFF_FFFF_FFFF_FFFFu128 >> i) & 1 == 1 <==> i
            < 81),
{
}

proof fn lemma_range_ops(a: u128, b: u128)
    by (bit_vector)
    requires
        a < 0x2_0000_0000_0000_0000_0000u128,
        b < 0x2_0000_0000_0000_0000_0000u128,
    ensures
        (a | b) < 0x2_0000_0000_0000_0000_0000u128,
        (a & b) < 0x2_0000_0000_0000_0000_0000u128,
        (a ^ b) < 0x2_0000_0000_0000_0000_0000u128,
        (a & !b) < 0x2_0000_0000_0000_0000_0000u128,
{
}

proof fn lemma_clear_bit(x: u128, p: u128)
    by (bit_vector)
    requires
        p < 81,
        x < 0x2_0000_0000_0000_0000_0000u128,
    ensures
        forall|i: u128| i < 128 ==> (((x & !(1u128 << p)) >> i) & 1 == 1 <==> ((x >> i) & 1 == 1
            && i != p)),
        (x & !(1u128 << p)) < 0x2_0000_0000_0000_0000_0000u128,
{
}

proof fn lemma_not_and_full(x: u128)
    by (bit_vector)
    ensures
        forall|i: u128| i < 128 ==> (((!x & 0x1_FFFF_FFFF_FFFF_FFFF_FFFFu128) >> i) & 1 == 1 <==> (
        (x >> i) & 1 != 1 && i < 81)),
        (!x & 0x1_FFFF_FFFF_FFFF_FFFF_FFFFu128) < 0x2_0000_0000_0000_0000_0000u128,
{
}

/// A word whose bits below `n` are all clear is zero under the `n`-bit mask.
proof fn lemma_low_zero(x: u128, n: u128)
    requires
        n <= 81,
        forall|i: u128| i < n ==> (x >> i) & 1 != 1,
    ensures
        x & (((1u128 << n) - 1) as u128) == 0,
    decreases n,
{
    if n == 0 {
        assert(x & (((1u128 << 0) - 1) as u128) == 0) by (bit_vector);
    } else {
        lemma_low_zero(x, (n - 1) as u128);
        assert((x >> ((n - 1) as u128)) & 1 != 1);
        assert(x & (((1u128 << n) - 1) as u128) == 0) by (bit_vector)
            requires
                1 <= n <= 81,
                x & (((1u128 << ((n - 1) as u128)) - 1) as u128) == 0,
                (x >> ((n - 1) as u128)) & 1 != 1,
        ;
    }
}

/// An in-range word with an empty square set is zero.
proof fn lemma_no_bits_zero(x: u128)
    requires
        x < 0x2_0000_0000_0000_0000_0000u128,
        forall|i: u128| i < 81 ==> (x >> i) & 1 != 1,
    ensures
        x == 0,
{
    lemma_low_zero(x, 81);
    assert(x == 0) by (bit_vector)
        requires
            x < 0x2_0000_0000_0000_0000_0000u128,
            x & (((1u128 << 81) - 1) as u128) == 0,
    ;
}

/// Two in-range words with the same square set are the same word.
pub proof fn lemma_view_determines_bits(a: u128, b: u128)
    requires
        in_range(a),
        in_range(b),
        bits_set(a) == bits_set(b),
    ensures
        a == b,
{
    lemma_xor_bits(a, b);
    lemma_range_ops(a, b);
    assert forall|i: u128| i < 81 implies ((a ^ b) >> i) & 1 != 1 by {
        let j = i as int;
        assert(0 <= j < 81);
        assert(j as u128 == i);
        assert(bits_set(a).contains(j) == (0 <= j < 81 && bit_at(a, j)));
        assert(bits_set(b).contains(j) == (0 <= j < 81 && bit_at(b, j)));
        assert(bits_set(a).contains(j) == bits_set(b).contains(j));
        assert(bit_at(a, j) == ((a >> i) & 1 == 1));
        assert(bit_at(b, j) == ((b >> i) & 1 == 1));
        assert(((a ^ b) >> i) & 1 == 1 <==> ((a >> i) & 1 == 1) != ((b >> i) & 1 == 1));
    }
    lemma_no_bits_zero(a ^ b);
    assert(a == b) by (bit_vector)
        requires
            a ^ b == 0,
    ;
}

/// The board-set view of a union word is the union of the views.
pub proof fn lemma_or_view(a: u128, b: u128)
    ensures
        bits_set(a | b) =~= bits_set(a) + bits_set(b),
{
    lemma_or_bits(a, b);
}

/// The board-set view of an intersection word is the intersection of the views.
pub proof fn lemma_and_view(a: u128, b: u128)
    ensures
        bits_set(a & b) =~= bits_set(a).intersect(bits_set(b)),
{
    lemma_and_bits(a, b);
}

/// The board-set view of a single-bit word.
pub proof fn lemma_single_bit_view(p: int)
    requires
        0 <= p < 81,
    ensures
        bits_set(1u128 << (p as u128)) =~= Set::<int>::empty().insert(p),
        in_range(1u128 << (p as u128)),
{
    lemma_single_bit(p as u128);
}

/// The board-set view of the full-board constant is the whole square range.
pub proof fn lemma_full_view()
    ensures
        bits_set(FULL_BOARD) =~= set_int_range(0, 81),
        in_range(FULL_BOARD),
        bits_set(FULL_BOARD).len() == 81,
        bits_set(FULL_BOARD).finite(),
{
    lemma_full_bits();
    lemma_int_range(0, 81);
    assert(bits_set(FULL_BOARD) =~= set_int_range(0, 81));
}

/// The board-set view of zero is empty.
pub proof fn lemma_zero_view()
    ensures
        bits_set(0) =~= Set::<int>::empty(),
        in_range(0),
{
    assert forall|i: int| !bits_set(0).contains(i) by {
        if 0 <= i < 128 {
            let k = i as u128;
            assert((0u128 >> k) & 1 == 0) by (bit_vector);
        }
    }
}

/// Every board-set view is a finite set of at most 81 squares.
pub proof fn lemma_view_finite(x: u128)
    ensures
        bits_set(x).finite(),
        bits_set(x).len() <= 81,
{
    lemma_int_range(0, 81);
    assert(bits_set(x).subset_of(set_int_range(0, 81)));
    vstd::set_lib::lemma_len_subset(bits_set(x), set_int_range(0, 81));
}

/// Rotation preserves the number of occupied squares.
pub proof fn lemma_rot_view_len(s: Set<int>)
    requires
        s.finite(),
        forall|i: int| s.contains(i) ==> 0 <= i < 81,
    ensures
        rot_view(s).finite(),
        rot_view(s).len() == s.len(),
{
    let f = |i: int| 80 - i;
    assert(s.map(f) =~= rot_view(s)) by {
        assert forall|j: int| rot_view(s).contains(j) implies s.map(f).contains(j) by {
            assert(s.contains(80 - j));
            assert(f(80 - j) == j);
        }
    }
    lemma_map_size(s, rot_view(s), f);
}

/// Rotation distributes over union, intersection and difference, and
/// preserves disjointness.
pub proof fn lemma_rot_view_ops(a: Set<int>, b: Set<int>)
    ensures
        rot_view(a + b) =~= rot_view(a) + rot_view(b),
        rot_view(a.intersect(b)) =~= rot_view(a).intersect(rot_view(b)),
        a.disjoint(b) ==> rot_view(a).disjoint(rot_view(b)),
{
}

/// `rev81` really is the rotation of `x`: witnessed by any in-range word
/// whose view is the rotated view.
pub proof fn lemma_rev81_characterization(x: u128, w: u128)
    requires
        in_range(w),
        bits_set(w) == rot_view(bits_set(x)),
    ensures
        rev81(x) == w,
        in_range(rev81(x)),
        bits_set(rev81(x)) == rot_view(bits_set(x)),
{
    assert(in_range(w) && bits_set(w) == rot_view(bits_set(x)));
    let y = rev81(x);
    assert(in_range(y) && bits_set(y) == rot_view(bits_set(x)));
    lemma_view_determines_bits(y, w);
}

impl Bitboard {
    /// The empty board mask.
    pub fn empty() -> (r: Bitboard)
        ensures
            r@ == Set::<int>::empty(),
            r.wf(),
            r.bits == 0,
    {
        proof {
            lemma_zero_view();
        }
        Bitboard { bits: 0 }
    }

    /// The mask with every one of the 81 squares occupied.
    pub fn full() -> (r: Bitboard)
        ensures
            r@ == set_int_range(0, 81),
            r.wf(),
            r.bits == FULL_BOARD,
    {
        proof {
            lemma_full_view();
        }
        Bitboard { bits: FULL_BOARD }
    }

    /// Wrap a raw word; the caller promises it carries no bits off the board.
    pub fn from_raw(bits: u128) -> (r: Bitboard)
        requires
            in_range(bits),
        ensures
            r.bits == bits,
            r.wf(),
    {
        Bitboard { bits }
    }

    /// The raw 128-bit word, for the feature encoder's fast path.
    pub fn raw(&self) -> (r: u128)
        ensures
            r == self.bits,
    {
        self.bits
    }

    /// Whether square `p` is occupied.
    pub fn contains_pos(&self, p: u8) -> (r: bool)
        requires
            p < 81,
        ensures
            r == self@.contains(p as int),
    {
        let r = (self.bits >> (p as u128)) & 1 == 1;
        r
    }

    /// Mark square `p` occupied.
    pub fn set_pos(&self, p: u8) -> (r: Bitboard)
        requires
            p < 81,
            self.wf(),
        ensures
            r@ == self@.insert(p as int),
            r.wf(),
            r.bits == self.bits | (1u128 << (p as u128)),
    {
        proof {
            lemma_single_bit_view(p as int);
            lemma_or_view(self.bits, 1u128 << (p as u128));
            lemma_range_ops(self.bits, 1u128 << (p as u128));
            assert(bits_set(self.bits | (1u128 << (p as u128))) =~= self@.insert(p as int));
        }
        Bitboard { bits: self.bits | (1u128 << (p as u128)) }
    }

    /// Mark square `p` free.
    pub fn clear_pos(&self, p: u8) -> (r: Bitboard)
        requires
            p < 81,
            self.wf(),
        ensures
            r@ == self@.remove(p as int),
            r.wf(),
    {
        proof {
            lemma_clear_bit(self.bits, p as u128);
            assert(bits_set(self.bits & !(1u128 << (p as u128))) =~= self@.remove(p as int));
        }
        Bitboard { bits: self.bits & !(1u128 << (p as u128)) }
    }

    /// Flip square `p`.
    pub fn toggle_pos(&self, p: u8) -> (r: Bitboard)
        requires
            p < 81,
            self.wf(),
        ensures
            r@ == (if self@.contains(p as int) {
                self@.remove(p as int)
            } else {
                self@.insert(p as int)
            }),
            r.wf(),
    {
        if self.contains_pos(p) {
            self.clear_pos(p)
        } else {
            self.set_pos(p)
        }
    }

    /// Set union of two masks.
    pub fn union(&self, other: &Bitboard) -> (r: Bitboard)
        requires
            self.wf(),
            other.wf(),
        ensures
            r@ == self@ + other@,
            r.wf(),
            r.bits == self.bits | other.bits,
    {
        proof {
            lemma_or_view(self.bits, other.bits);
            lemma_range_ops(self.bits, other.bits);
        }
        Bitboard { bits: self.bits | other.bits }
    }

    /// Set intersection of two masks.
    pub fn intersect(&self, other: &Bitboard) -> (r: Bitboard)
        requires
            self.wf(),
            other.wf(),
        ensures
            r@ == self@.intersect(other@),
            r.wf(),
            r.bits == self.bits & other.bits,
    {
        proof {
            lemma_and_view(self.bits, other.bits);
            lemma_range_ops(self.bits, other.bits);
        }
        Bitboard { bits: self.bits & other.bits }
    }

    /// Symmetric difference of two masks.
    pub fn xor(&self, other: &Bitboard) -> (r: Bitboard)
        requires
            self.wf(),
            other.wf(),
        ensures
            r@ == (self@ + other@).difference(self@.intersect(other@)),
            r.wf(),
    {
        proof {
            lemma_xor_bits(self.bits, other.bits);
            lemma_range_ops(self.bits, other.bits);
            assert(bits_set(self.bits ^ other.bits) =~= (self@ + other@).difference(
                self@.intersect(other@)));
        }
        Bitboard { bits: self.bits ^ other.bits }
    }

    /// The free squares of the board: complement within the 81 squares.
    pub fn complement_within_board(&self) -> (r: Bitboard)
        requires
            self.wf(),
        ensures
            r@ == set_int_range(0, 81).difference(self@),
            r.wf(),
    {
        proof {
            lemma_not_and_full(self.bits);
            lemma_full_view();
            assert(bits_set(!self.bits & FULL_BOARD) =~= set_int_range(0, 81).difference(self@));
        }
        Bitboard { bits: !self.bits & FULL_BOARD }
    }

    /// The number of occupied squares.
    pub fn count(&self) -> (r: u8)
        ensures
            r as int == self@.len(),
    {
        let mut c: u8 = 0;
        let mut p: u8 = 0;
        proof {
            assert(bits_prefix(self.bits, 0) =~= Set::<int>::empty());
        }
        while p < 81
            invariant
                p <= 81,
                c <= p,
                c as int == bits_prefix(self.bits, p as int).len(),
                bits_prefix(self.bits, p as int).finite(),
            decreases 81 - p,
        {
            let b = (self.bits >> (p as u128)) & 1 == 1;
            proof {
                if b {
                    assert(bits_prefix(self.bits, p as int + 1) =~= bits_prefix(
                        self.bits,
                        p as int,
                    ).insert(p as int));
                } else {
                    assert(bits_prefix(self.bits, p as int + 1) =~= bits_prefix(
                        self.bits,
                        p as int,
                    ));
                }
            }
            if b {
                c = c + 1;
            }
            p = p + 1;
        }
        proof {
            assert(bits_prefix(self.bits, 81) =~= bits_set(self.bits));
        }
        c
    }

    /// The mask reflected through the board center.
    pub fn rotate180(&self) -> (r: Bitboard)
        requires
            self.wf(),
        ensures
            r@ == rot_view(self@),
            r.wf(),
            r.bits == rev81(self.bits),
    {
        let mut out = Bitboard::empty();
        let mut p: u8 = 0;
        while p < 81
            invariant
                p <= 81,
                out.wf(),
                self.wf(),
                out@ =~= rot_prefix(self@, p as int),
            decreases 81 - p,
        {
            if self.contains_pos(p) {
                out = out.set_pos(80 - p);
                proof {
                    assert(rot_prefix(self@, p as int + 1) =~= rot_prefix(self@, p as int).insert(
                        80 - p as int,
                    ));
                }
            } else {
                proof {
                    assert(rot_prefix(self@, p as int + 1) =~= rot_prefix(self@, p as int));
                }
            }
            p = p + 1;
        }
        proof {
            assert(rot_prefix(self@, 81) =~= rot_view(self@));
            lemma_rev81_characterization(self.bits, out.bits);
        }
        out
    }
}

/// The squares below `n` that are occupied in `x`.
pub open spec fn bits_prefix(x: u128, n: int) -> Set<int> {
    Set::new(|i: int| 0 <= i < n && i < 81 && bit_at(x, i))
}

/// The rotated image of the squares of `s` that lie below `n`.
pub open spec fn rot_prefix(s: Set<int>, n: int) -> Set<int> {
    Set::new(|i: int| 0 <= i < 81 && 80 - i < n && s.contains(80 - i))
}

} // verus!
