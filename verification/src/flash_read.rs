use vstd::prelude::*;

verus! {

/// The most bytes read from flash before the chip is reset and the
/// programmer loaded again.
pub const MAX_READ_BEFORE_RESET: usize = 1048576;

/// One part of a flash read: `len` bytes from address `pos`; `is_last` is
/// set on the part that completes the read.
#[derive(Debug, Clone, Copy, PartialEq, Eq)]
pub struct FlashReadChunk {
    pub pos: usize,
    pub len: usize,
    pub is_last: bool,
}

/// The length of the next part of a read of `length` bytes of which `done`
/// have been read: what is left, but at most `MAX_READ_BEFORE_RESET`.
pub open spec fn spec_chunk_len(length: int, done: int) -> int {
    if length - done < MAX_READ_BEFORE_RESET {
        length - done
    } else {
        MAX_READ_BEFORE_RESET as int
    }
}

/// The next part of a read of `length` bytes from `start`, given that
/// `done` bytes have been read; `None` once the read is complete.
pub fn next_read_chunk(start: usize, length: usize, done: usize) -> (r: Option<FlashReadChunk>)
    requires
        start + length <= usize::MAX,
    ensures
        r is None <==> done >= length,
        r matches Some(c) ==> {
            &&& c.pos == start + done
            &&& c.len == spec_chunk_len(length as int, done as int)
            &&& c.is_last == (done + c.len >= length)
        },
{
    if done >= length {
        return None;
    }
    let chunk_length = if (length - done) < MAX_READ_BEFORE_RESET {
        length - done
    } else {
        MAX_READ_BEFORE_RESET
    };
    let pos = start + done;
    let is_last = (done + chunk_length) >= length;
    Some(FlashReadChunk { pos, len: chunk_length, is_last })
}

/// The lengths of the parts of a read of `length` bytes of which `done`
/// have been read, when every part is read in full.
pub open spec fn chunk_plan(length: int, done: int) -> Seq<int>
    decreases length - done,
{
    if done >= length {
        Seq::empty()
    } else {
        seq![spec_chunk_len(length, done)] + chunk_plan(length, done + spec_chunk_len(length, done))
    }
}

/// Sum of a sequence of lengths.
pub open spec fn total(s: Seq<int>) -> int
    decreases s.len(),
{
    if s.len() == 0 {
        0
    } else {
        s[0] + total(s.drop_first())
    }
}

/// Reading part after part, each read in full, covers exactly the
/// requested bytes: the parts add up to what is left, each has between 1
/// and `MAX_READ_BEFORE_RESET` bytes, there are as many as what is left
/// divided by `MAX_READ_BEFORE_RESET`, rounded up, and only the final part
/// is the last one.
pub proof fn lemma_chunk_plan_covers(length: int, done: int)
    requires
        0 <= done <= length,
    ensures
        total(chunk_plan(length, done)) == length - done,
        forall|i: int| 0 <= i < chunk_plan(length, done).len() ==>
            0 < #[trigger] chunk_plan(length, done)[i] <= MAX_READ_BEFORE_RESET,
        chunk_plan(length, done).len() == (length - done + MAX_READ_BEFORE_RESET - 1) / (
        MAX_READ_BEFORE_RESET as int),
        forall|i: int| 0 <= i < chunk_plan(length, done).len() - 1 ==>
            done + total(#[trigger] chunk_plan(length, done).take(i + 1)) < length,
    decreases length - done,
{
    let m = MAX_READ_BEFORE_RESET as int;
    if done < length {
        let c = spec_chunk_len(length, done);
        let rest = chunk_plan(length, done + c);
        let plan = chunk_plan(length, done);
        lemma_chunk_plan_covers(length, done + c);
        assert(plan == seq![c] + rest);
        assert(plan.drop_first() =~= rest);
        let r = length - done;
        if r <= m {
            assert((r + m - 1) / m == 1) by (nonlinear_arith)
                requires 0 < r <= m, m == 1048576;
        } else {
            assert((r + m - 1) / m == 1 + (r - m + m - 1) / m) by (nonlinear_arith)
                requires r > m, m == 1048576;
        }
        assert forall|i: int| 0 <= i < plan.len() - 1 implies done + total(
            #[trigger] plan.take(i + 1),
        ) < length by {
            let t = plan.take(i + 1);
            assert(t[0] == c);
            assert(t.drop_first() =~= rest.take(i));
            assert(total(t) == c + total(rest.take(i)));
            if i == 0 {
                assert(rest.take(0) =~= Seq::<int>::empty());
                assert(rest.len() > 0);
                assert(done + c < length);
            } else {
                assert(rest.take(i) == rest.take((i - 1) + 1));
                assert(done + c + total(rest.take((i - 1) + 1)) < length);
            }
        }
    } else {
        assert((length - done + m - 1) / m == 0) by (nonlinear_arith)
            requires length - done == 0, m == 1048576;
    }
}

/// The first flash address of a read of `length` bytes at `offset` from
/// `flash_base`: their sum, provided the whole read stays within the
/// address range; `None` when it does not.
pub fn flash_read_start(flash_base: u32, offset: usize, length: usize) -> (r: Option<usize>)
    ensures
        r == (if flash_base + offset + length <= usize::MAX {
            Some((flash_base + offset) as usize)
        } else {
            None::<usize>
        }),
{
    let base = flash_base as usize;
    if offset > usize::MAX - base {
        return None;
    }
    let start = base + offset;
    if length > usize::MAX - start {
        return None;
    }
    Some(start)
}

} // verus!
