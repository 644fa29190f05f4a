//! Block partitioning for offline renders: a render of `length` samples is
//! processed in consecutive blocks of the requested size, the last one
//! possibly shorter.

use vstd::prelude::*;

verus! {

/// The block size actually used: the requested one, or 1 when 0 was asked for.
pub open spec fn effective_block(block_size: usize) -> int {
    if block_size == 0 {
        1
    } else {
        block_size as int
    }
}

/// The blocks `(start, len)` that a render of `length` samples is processed
/// in, for a requested block size of `block_size`: block `k` starts at
/// `k * b` and holds `min(b, length - k * b)` samples, where `b` is the
/// effective block size; there are just enough blocks to reach `length`.
pub fn block_spans(length: usize, block_size: usize) -> (r: Vec<(usize, usize)>)
    ensures
        forall|k: int|
            0 <= k < r@.len() ==> {
                let b = effective_block(block_size);
                &&& (#[trigger] r@[k]).0 == k * b
                &&& r@[k].0 < length
                &&& r@[k].1 == if b <= length - r@[k].0 {
                    b
                } else {
                    length - r@[k].0
                }
            },
        forall|k: int|
            0 <= k < r@.len() - 1 ==> (#[trigger] r@[k]).0 + r@[k].1 == r@[k + 1].0,
        length == 0 <==> r@.len() == 0,
        r@.len() > 0 ==> r@.last().0 + r@.last().1 == length,
{
    let block: usize = if block_size == 0 {
        1
    } else {
        block_size
    };
    let mut r: Vec<(usize, usize)> = Vec::new();
    let mut pos: usize = 0;
    while pos < length
        invariant
            block as int == effective_block(block_size),
            pos <= length,
            r@.len() > 0 ==> r@.last().0 + r@.last().1 == pos,
            r@.len() == 0 ==> pos == 0,
            pos == r@.len() * block || pos == length,
            forall|k: int|
                0 <= k < r@.len() ==> {
                    &&& (#[trigger] r@[k]).0 == k * block
                    &&& r@[k].0 < length
                    &&& r@[k].1 == if block <= length - r@[k].0 {
                        block as int
                    } else {
                        length - r@[k].0
                    }
                },
            forall|k: int| 0 <= k < r@.len() - 1 ==> (#[trigger] r@[k]).0 + r@[k].1 == r@[k + 1].0,
        decreases length - pos,
    {
        let this: usize = if block <= length - pos {
            block
        } else {
            length - pos
        };
        proof {
            assert(pos == r@.len() * block) by {
                if pos == length {
                }
            }
            vstd::arithmetic::mul::lemma_mul_is_distributive_add_other_way(
                block as int,
                r@.len() as int,
                1,
            );
        }
        r.push((pos, this));
        pos = pos + this;
    }
    r
}

} // verus!
