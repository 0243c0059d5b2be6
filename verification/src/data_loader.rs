//! Mini-batch walking over a sample array: which index range forms each
//! batch, and how many batches remain.

use vstd::prelude::*;

verus! {

/// A cursor that deals a sample array out in fixed-size batches; a
/// trailing partial batch is never dealt.
pub struct DataLoader {
    /// How many samples the data holds.
    pub total: usize,
    /// How many samples one batch holds.
    pub batchsize: usize,
    /// How many batches were dealt already.
    pub cur_position: usize,
}

impl DataLoader {
    /// The cursor stays within the data.
    pub open spec fn wf(self) -> bool {
        self.batchsize > 0 && self.cur_position * self.batchsize <= self.total + self.batchsize
    }

    /// Start dealing batches over `total` samples.
    pub fn new(total: usize, batchsize: usize) -> (r: DataLoader)
        requires
            batchsize > 0,
        ensures
            r.total == total,
            r.batchsize == batchsize,
            r.cur_position == 0,
            r.wf(),
    {
        DataLoader { total, batchsize, cur_position: 0 }
    }

    /// The index range of the next batch, or nothing when fewer than a
    /// full batch of samples is left.
    pub fn next_range(&mut self) -> (r: Option<(usize, usize)>)
        requires
            old(self).wf(),
        ensures
            final(self).wf(),
            final(self).total == old(self).total,
            final(self).batchsize == old(self).batchsize,
            ({
                let start = old(self).cur_position * old(self).batchsize;
                if start + old(self).batchsize > old(self).total {
                    r is None && *final(self) == *old(self)
                } else {
                    r == Some(((start as usize, (start + old(self).batchsize) as usize)))
                        && final(self).cur_position == old(self).cur_position + 1
                }
            }),
    {
        proof {
            assert(self.cur_position * self.batchsize <= self.total + self.batchsize);
        }
        if self.cur_position > self.total / self.batchsize {
            proof {
                vstd::arithmetic::div_mod::lemma_fundamental_div_mod(
                    self.total as int,
                    self.batchsize as int,
                );
                assert(self.cur_position * self.batchsize > self.total) by (nonlinear_arith)
                    requires
                        self.batchsize > 0,
                        self.cur_position as int > (self.total as int / self.batchsize as int),
                        self.total as int == self.batchsize * (self.total as int
                            / self.batchsize as int) + self.total as int % self.batchsize as int,
                        (self.total as int % self.batchsize as int) < self.batchsize as int,
                ;
            }
            return None;
        }
        proof {
            vstd::arithmetic::div_mod::lemma_fundamental_div_mod(
                self.total as int,
                self.batchsize as int,
            );
            assert(self.cur_position * self.batchsize <= self.total) by (nonlinear_arith)
                requires
                    self.batchsize > 0,
                    self.cur_position as int <= (self.total as int / self.batchsize as int),
                    self.total as int == self.batchsize * (self.total as int
                        / self.batchsize as int) + self.total as int % self.batchsize as int,
                    0 <= (self.total as int % self.batchsize as int),
            ;
        }
        let start = self.cur_position * self.batchsize;
        if self.total - start < self.batchsize {
            return None;
        }
        proof {
            assert((self.cur_position + 1) * self.batchsize == start + self.batchsize)
                by (nonlinear_arith)
                requires
                    start == self.cur_position * self.batchsize,
            ;
            assert(self.cur_position + 1 <= (self.cur_position + 1) * self.batchsize)
                by (nonlinear_arith)
                requires
                    self.batchsize >= 1,
            ;
        }
        self.cur_position = self.cur_position + 1;
        Some((start, start + self.batchsize))
    }

    /// How many full batches are left to deal.
    pub fn size_hint(&self) -> (r: (usize, Option<usize>))
        requires
            self.wf(),
            self.cur_position <= self.total / self.batchsize,
        ensures
            r.0 == self.total / self.batchsize - self.cur_position,
            r.1 == Some(r.0),
    {
        let size = self.total / self.batchsize;
        let remain = size - self.cur_position;
        (remain, Some(remain))
    }
}

} // verus!
