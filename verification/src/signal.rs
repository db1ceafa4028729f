//! Front trimming of a raw sample stream.
//!
//! The first samples of a read carry pore-loading and adapter artifacts.
//! Before event detection the stream loses a fixed number of leading
//! samples, and proceeds only when a minimum number of samples is left;
//! otherwise nothing usable remains and the result is empty.

use vstd::prelude::*;

verus! {

/// What front trimming leaves: the stream without its first `front`
/// samples when at least `min_len` samples would remain, nothing
/// otherwise.
pub open spec fn trim_front_spec(q: Seq<i32>, front: int, min_len: int) -> Seq<i32> {
    if q.len() >= front + min_len {
        q.skip(front)
    } else {
        Seq::empty()
    }
}

/// Drops the first `front` samples, requiring at least `min_len` to
/// remain; an input too short to satisfy that yields an empty stream.
pub fn trim_front(q: &Vec<i32>, front: usize, min_len: usize) -> (r: Vec<i32>)
    ensures
        r@ == trim_front_spec(q@, front as int, min_len as int),
{
    let n = q.len();
    if n < front || n - front < min_len {
        let r: Vec<i32> = Vec::new();
        proof {
            assert(r@ =~= trim_front_spec(q@, front as int, min_len as int));
        }
        return r;
    }
    let mut r: Vec<i32> = Vec::new();
    let mut i = front;
    proof {
        assert(r@ =~= q@.subrange(front as int, front as int));
    }
    while i < n
        invariant
            front <= i <= n,
            n == q@.len(),
            r@ == q@.subrange(front as int, i as int),
        decreases n - i,
    {
        r.push(q[i]);
        proof {
            assert(r@ =~= q@.subrange(front as int, i + 1));
        }
        i += 1;
    }
    proof {
        assert(q@.subrange(front as int, n as int) =~= q@.skip(front as int));
    }
    r
}

} // verus!
