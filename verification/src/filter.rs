//! The game-record filter: recognize move lines, the resignation marker
//! and the player-rating lines of a record, accept records by rating and
//! length, and split the accepted files into train and test lists.

use rand::seq::SliceRandom;
use rand::SeedableRng;
use vstd::prelude::*;
use vstd::seq_lib::group_to_multiset_ensures;

verus! {

/// An ASCII digit.
pub open spec fn is_digit(b: u8) -> bool {
    48 <= b <= 57
}

/// A line that records one move: it starts with a plus or minus sign.
pub open spec fn is_move_line(l: Seq<u8>) -> bool {
    l.len() > 0 && (l[0] == 43 || l[0] == 45)
}

/// The resignation marker line, `%TORYO`.
pub open spec fn is_resign_line(l: Seq<u8>) -> bool {
    l == seq![37u8, 84u8, 79u8, 82u8, 89u8, 79u8]
}

/// The prefix of a Black rating line, `'black_rate:`.
pub open spec fn black_rate_prefix() -> Seq<u8> {
    seq![39u8, 98u8, 108u8, 97u8, 99u8, 107u8, 95u8, 114u8, 97u8, 116u8, 101u8, 58u8]
}

/// The prefix of a White rating line, `'white_rate:`.
pub open spec fn white_rate_prefix() -> Seq<u8> {
    seq![39u8, 119u8, 104u8, 105u8, 116u8, 101u8, 95u8, 114u8, 97u8, 116u8, 101u8, 58u8]
}

/// A line that starts with the given prefix.
pub open spec fn has_prefix(l: Seq<u8>, p: Seq<u8>) -> bool {
    l.len() >= p.len() && l.subrange(0, p.len() as int) == p
}

/// The index of the last colon of `l` below `hi`, or `-1`.
pub open spec fn last_colon_below(l: Seq<u8>, hi: int) -> int
    decreases hi,
{
    if hi <= 0 {
        -1
    } else if l[hi - 1] == 58 {
        hi - 1
    } else {
        last_colon_below(l, hi - 1)
    }
}

/// Where the leading digit run of `s` ends, scanning from `i`.
pub open spec fn digit_run(s: Seq<u8>, i: int) -> int
    decreases s.len() - i,
{
    if i < 0 || i >= s.len() || !is_digit(s[i]) {
        i
    } else {
        digit_run(s, i + 1)
    }
}

/// The value of the first `n` digits of `s`.
pub open spec fn digits_value(s: Seq<u8>, n: int) -> int
    decreases n,
{
    if n <= 0 {
        0
    } else {
        digits_value(s, n - 1) * 10 + (s[n - 1] - 48)
    }
}

/// The rating grammar: one to ten digits, optionally followed by a
/// decimal point and more digits to the end.
pub open spec fn valid_rate_number(s: Seq<u8>) -> bool {
    let d = digit_run(s, 0);
    &&& 1 <= d <= 10
    &&& (d == s.len() || (s[d] == 46 && digit_run(s, d + 1) == s.len()))
}

/// The integer part of a rating; comparing it to an integral threshold
/// decides the same way as comparing the full decimal value.
pub open spec fn rate_int_value(s: Seq<u8>) -> int {
    digits_value(s, digit_run(s, 0))
}

/// What a rating line after its prefix yields: the integer part of the
/// number after the line's last colon, or nothing when the tail does not
/// fit the grammar.
pub open spec fn rate_value_spec(l: Seq<u8>, lo: int) -> Option<int> {
    let j = last_colon_below(l, l.len() as int);
    if j < lo {
        None
    } else {
        let s = l.subrange(j + 1, l.len() as int);
        if valid_rate_number(s) {
            Some(rate_int_value(s))
        } else {
            None
        }
    }
}

/// The byte sequences of a vector of lines.
pub open spec fn line_views(s: Seq<Vec<u8>>) -> Seq<Seq<u8>> {
    Seq::new(s.len(), |i: int| s[i]@)
}

/// How many move lines the first `n` lines hold.
pub open spec fn moves_upto(ls: Seq<Seq<u8>>, n: int) -> int
    decreases n,
{
    if n <= 0 {
        0
    } else {
        moves_upto(ls, n - 1) + if is_move_line(ls[n - 1]) {
            1int
        } else {
            0int
        }
    }
}

/// Whether the first `n` lines hold the resignation marker.
pub open spec fn resign_upto(ls: Seq<Seq<u8>>, n: int) -> bool
    decreases n,
{
    if n <= 0 {
        false
    } else {
        resign_upto(ls, n - 1) || is_resign_line(ls[n - 1])
    }
}

/// The rating read from the last line with the given prefix among the
/// first `n` lines, later lines overriding earlier ones.
pub open spec fn rate_upto(ls: Seq<Seq<u8>>, p: Seq<u8>, n: int) -> Option<int>
    decreases n,
{
    if n <= 0 {
        None
    } else if has_prefix(ls[n - 1], p) && rate_value_spec(ls[n - 1], p.len() as int) is Some {
        rate_value_spec(ls[n - 1], p.len() as int)
    } else {
        rate_upto(ls, p, n - 1)
    }
}

/// Whether any rating-shaped line among the first `n` fails the rating
/// grammar; such a record is rejected outright.
pub open spec fn bad_rate_upto(ls: Seq<Seq<u8>>, n: int) -> bool
    decreases n,
{
    if n <= 0 {
        false
    } else {
        bad_rate_upto(ls, n - 1) || (has_prefix(ls[n - 1], black_rate_prefix())
            && rate_value_spec(ls[n - 1], 12) is None) || (has_prefix(
            ls[n - 1],
            white_rate_prefix(),
        ) && rate_value_spec(ls[n - 1], 12) is None)
    }
}

/// Whether a record passes the filter: every rating line parses, both
/// sides' ratings are present and reach the threshold, the record ends
/// in resignation, and it holds more than fifty moves.
pub open spec fn accept_spec(ls: Seq<Seq<u8>>, threshold: int) -> bool {
    let n = ls.len() as int;
    &&& !bad_rate_upto(ls, n)
    &&& rate_upto(ls, black_rate_prefix(), n) matches Some(b) && b >= threshold
    &&& rate_upto(ls, white_rate_prefix(), n) matches Some(w) && w >= threshold
    &&& resign_upto(ls, n)
    &&& moves_upto(ls, n) > 50
}

/// Ten digits keep the integer part below `10^10`.
proof fn lemma_digits_bound(s: Seq<u8>, n: int)
    requires
        0 <= n <= 10,
        forall|i: int| 0 <= i < n ==> is_digit(#[trigger] s[i]),
    ensures
        0 <= digits_value(s, n) < 10_000_000_000,
    decreases n,
{
    if n > 0 {
        lemma_digits_bound(s, n - 1);
        assert(digits_value(s, n - 1) < 1_000_000_000) by {
            lemma_digits_small(s, n - 1);
        }
    }
}

/// The value of `n` digits stays below `10^n`, stated for the runs this
/// grammar admits.
proof fn lemma_digits_small(s: Seq<u8>, n: int)
    requires
        0 <= n <= 9,
        forall|i: int| 0 <= i < n ==> is_digit(#[trigger] s[i]),
    ensures
        0 <= digits_value(s, n) < pow10(n),
        pow10(n) <= 1_000_000_000,
    decreases n,
{
    if n > 0 {
        lemma_digits_small(s, n - 1);
        assert(pow10(n) == 10 * pow10(n - 1));
        lemma_pow10_mono(n);
    }
}

/// Powers of ten.
pub open spec fn pow10(n: int) -> int
    decreases n,
{
    if n <= 0 {
        1
    } else {
        10 * pow10(n - 1)
    }
}

proof fn lemma_pow10_mono(n: int)
    requires
        0 <= n <= 9,
    ensures
        pow10(n) <= 1_000_000_000,
    decreases n,
{
    assert(pow10(0) == 1);
    assert(pow10(1) == 10);
    assert(pow10(2) == 100);
    assert(pow10(3) == 1000);
    assert(pow10(4) == 10000);
    assert(pow10(5) == 100000);
    assert(pow10(6) == 1000000);
    assert(pow10(7) == 10000000);
    assert(pow10(8) == 100000000);
    assert(pow10(9) == 1_000_000_000);
}

/// Whether the line starts with the twelve-byte rating prefix.
fn check_prefix12(line: &Vec<u8>, p: &[u8; 12], ghost_p: Ghost<Seq<u8>>) -> (r: bool)
    requires
        ghost_p@.len() == 12,
        forall|i: int| 0 <= i < 12 ==> ghost_p@[i] == p@[i],
    ensures
        r == has_prefix(line@, ghost_p@),
{
    if line.len() < 12 {
        return false;
    }
    let mut i: usize = 0;
    while i < 12
        invariant
            line@.len() >= 12,
            ghost_p@.len() == 12,
            forall|k: int| 0 <= k < 12 ==> ghost_p@[k] == p@[k],
            i <= 12,
            forall|k: int| 0 <= k < i ==> line@[k] == ghost_p@[k],
        decreases 12 - i,
    {
        if line[i] != p[i] {
            proof {
                assert(line@.subrange(0, 12)[i as int] != ghost_p@[i as int]);
            }
            return false;
        }
        i = i + 1;
    }
    proof {
        assert(line@.subrange(0, 12) =~= ghost_p@);
    }
    true
}

/// Read the rating after the last colon of a rating line; `lo` is where
/// the prefix ends.
fn rate_value_after(line: &Vec<u8>, lo: usize) -> (r: Option<u64>)
    requires
        lo <= line@.len(),
    ensures
        match r {
            Some(v) => rate_value_spec(line@, lo as int) == Some(v as int),
            None => rate_value_spec(line@, lo as int) is None,
        },
{
    let n = line.len();
    // find the last colon
    let mut hi: usize = n;
    while hi > 0 && line[hi - 1] != 58
        invariant
            n == line@.len(),
            hi <= n,
            last_colon_below(line@, n as int) == last_colon_below(line@, hi as int),
        decreases hi,
    {
        hi = hi - 1;
    }
    if hi == 0 {
        proof {
            assert(last_colon_below(line@, 0) == -1);
        }
        return None;
    }
    let j = hi - 1;
    proof {
        assert(last_colon_below(line@, hi as int) == j);
    }
    if j < lo {
        return None;
    }
    // parse the digits of the integer part
    let start = j + 1;
    let ghost s = line@.subrange(start as int, n as int);
    let mut d: usize = start;
    while d < n && 48 <= line[d] && line[d] <= 57
        invariant
            n == line@.len(),
            start <= d <= n,
            s == line@.subrange(start as int, n as int),
            digit_run(s, 0) == digit_run(s, d - start),
            forall|k: int| 0 <= k < d - start ==> is_digit(#[trigger] s[k]),
        decreases n - d,
    {
        d = d + 1;
    }
    proof {
        assert(digit_run(s, (d - start) as int) == d - start);
    }
    let ndig = d - start;
    if ndig < 1 || ndig > 10 {
        return None;
    }
    if d < n {
        if line[d] != 46 {
            return None;
        }
        // the fraction must be digits to the end
        let mut f: usize = d + 1;
        while f < n && 48 <= line[f] && line[f] <= 57
            invariant
                n == line@.len(),
                d + 1 <= f <= n,
                s == line@.subrange(start as int, n as int),
                start <= d < n,
                digit_run(s, (d - start) + 1) == digit_run(s, (f - start) as int),
            decreases n - f,
        {
            f = f + 1;
        }
        if f < n {
            proof {
                assert(digit_run(s, (f - start) as int) == f - start);
            }
            return None;
        }
        proof {
            assert(digit_run(s, (f - start) as int) == f - start);
        }
    }
    proof {
        assert(valid_rate_number(s));
    }
    // accumulate the integer part
    let mut v: u64 = 0;
    let mut k: usize = 0;
    proof {
        lemma_digits_bound(s, ndig as int);
    }
    while k < ndig
        invariant
            n == line@.len(),
            start + ndig <= n,
            s == line@.subrange(start as int, n as int),
            k <= ndig,
            ndig <= 10,
            forall|t: int| 0 <= t < ndig ==> is_digit(#[trigger] s[t]),
            v as int == digits_value(s, k as int),
        decreases ndig - k,
    {
        proof {
            lemma_digits_bound(s, k + 1);
        }
        v = v * 10 + (line[start + k] - 48) as u64;
        k = k + 1;
    }
    Some(v)
}

/// Decide whether one record passes the filter: it must end in
/// resignation, hold more than fifty moves, and give both players a
/// rating that parses and reaches the threshold.
pub fn accept_record(lines: &Vec<Vec<u8>>, threshold: u64) -> (r: bool)
    ensures
        r == accept_spec(line_views(lines@), threshold as int),
{
    let ghost ls = line_views(lines@);
    let mut moves: usize = 0;
    let mut resign = false;
    let mut black: Option<u64> = None;
    let mut white: Option<u64> = None;
    let mut bad = false;
    let mut i: usize = 0;
    while i < lines.len()
        invariant
            ls == line_views(lines@),
            ls.len() == lines@.len(),
            i <= lines@.len(),
            moves <= i,
            moves as int == moves_upto(ls, i as int),
            resign == resign_upto(ls, i as int),
            bad == bad_rate_upto(ls, i as int),
            match black {
                Some(v) => rate_upto(ls, black_rate_prefix(), i as int) == Some(v as int),
                None => rate_upto(ls, black_rate_prefix(), i as int) is None,
            },
            match white {
                Some(v) => rate_upto(ls, white_rate_prefix(), i as int) == Some(v as int),
                None => rate_upto(ls, white_rate_prefix(), i as int) is None,
            },
        decreases lines@.len() - i,
    {
        let line = &lines[i];
        proof {
            assert(ls[i as int] == line@);
        }
        if line.len() > 0 && (line[0] == 43 || line[0] == 45) {
            moves = moves + 1;
        }
        if line.len() == 6 && line[0] == 37 && line[1] == 84 && line[2] == 79 && line[3] == 82
            && line[4] == 89 && line[5] == 79 {
            proof {
                assert(line@ =~= seq![37u8, 84u8, 79u8, 82u8, 89u8, 79u8]);
            }
            resign = true;
        } else {
            proof {
                assert(!is_resign_line(line@));
            }
        }
        let bp: [u8; 12] = [39, 98, 108, 97, 99, 107, 95, 114, 97, 116, 101, 58];
        let wp: [u8; 12] = [39, 119, 104, 105, 116, 101, 95, 114, 97, 116, 101, 58];
        if check_prefix12(line, &bp, Ghost(black_rate_prefix())) {
            match rate_value_after(line, 12) {
                Some(v) => {
                    black = Some(v);
                },
                None => {
                    bad = true;
                },
            }
        }
        if check_prefix12(line, &wp, Ghost(white_rate_prefix())) {
            match rate_value_after(line, 12) {
                Some(v) => {
                    white = Some(v);
                },
                None => {
                    bad = true;
                },
            }
        }
        i = i + 1;
    }
    if bad {
        return false;
    }
    let b_ok = match black {
        Some(v) => v >= threshold,
        None => false,
    };
    let w_ok = match white {
        Some(v) => v >= threshold,
        None => false,
    };
    b_ok && w_ok && resign && moves > 50
}


/// Relies on rand's `StdRng::seed_from_u64` and `SliceRandom::shuffle`:
/// the shuffle permutes the slice in place by swaps, so the vector
/// afterwards holds exactly the same elements.
#[verifier::external_body]
fn shuffle_with_seed(v: &mut Vec<String>, seed: u64)
    ensures
        final(v)@.len() == old(v)@.len(),
        final(v)@.to_multiset() == old(v)@.to_multiset(),
{
    let mut rng = rand::rngs::StdRng::seed_from_u64(seed);
    v.shuffle(&mut rng);
}

/// Shuffle the accepted record paths with the given seed and split nine
/// tenths of them into the training list, the rest into the test list.
pub fn split_train_test(paths: Vec<String>, seed: u64) -> (r: (Vec<String>, Vec<String>))
    ensures
        r.0@.len() == paths@.len() * 9 / 10,
        r.0@.len() + r.1@.len() == paths@.len(),
        (r.0@ + r.1@).to_multiset() == paths@.to_multiset(),
{
    broadcast use group_to_multiset_ensures;

    let mut train = paths;
    shuffle_with_seed(&mut train, seed);
    let cut128 = (train.len() as u128) * 9 / 10;
    proof {
        assert((train@.len() as u128) * 9 / 10 <= train@.len() as u128) by (nonlinear_arith);
    }
    let cut = cut128 as usize;
    let mut test: Vec<String> = Vec::new();
    let ghost shuffled = train@;
    while train.len() > cut
        invariant
            cut <= train@.len(),
            (train@ + test@).to_multiset() == shuffled.to_multiset(),
            train@.len() + test@.len() == shuffled.len(),
        decreases train@.len(),
    {
        broadcast use group_to_multiset_ensures;

        let ghost before_train = train@;
        let ghost before_test = test@;
        let item = match train.pop() {
            Some(x) => x,
            None => {
                proof {
                    assert(false);
                }
                return (train, test);
            },
        };
        test.push(item);
        proof {
            assert(before_train =~= train@.push(item));
            vstd::seq_lib::lemma_multiset_commutative(before_train, before_test);
            vstd::seq_lib::lemma_multiset_commutative(train@, test@);
            assert(test@.to_multiset() == before_test.to_multiset().insert(item));
            assert(before_train.to_multiset() == train@.to_multiset().insert(item));
        }
    }
    (train, test)
}

} // verus!
