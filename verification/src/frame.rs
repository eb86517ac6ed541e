//! Finding the frame boundary — the first `\r\n\r\n` — in the bytes
//! accumulated from one connection. The offset just past it is where the
//! body begins; the reading loop around the socket stops once it exists.

use vstd::prelude::*;

verus! {

/// The four boundary bytes, `\r\n\r\n`.
pub open spec fn boundary() -> Seq<u8> {
    seq![13u8, 10u8, 13u8, 10u8]
}

/// The boundary occurs in `h` starting at index `i`.
pub open spec fn boundary_at(h: Seq<u8>, i: int) -> bool {
    &&& 0 <= i
    &&& i + 4 <= h.len()
    &&& h.subrange(i, i + 4) == boundary()
}

/// The boundary occurs somewhere in `h`.
pub open spec fn contains_boundary(h: Seq<u8>) -> bool {
    exists|i: int| boundary_at(h, i)
}

/// `i` is the leftmost index at which the boundary occurs in `h`.
pub open spec fn is_first_boundary(h: Seq<u8>, i: int) -> bool {
    &&& boundary_at(h, i)
    &&& forall|j: int| 0 <= j < i ==> !boundary_at(h, j)
}

/// Finds the offset just past the first `\r\n\r\n` in `buf` — where the
/// body begins — or reports that the boundary has not arrived yet.
pub fn find_frame_boundary(buf: &[u8]) -> (r: Option<usize>)
    ensures
        match r {
            Some(p) => 4 <= p <= buf@.len() && is_first_boundary(buf@, p - 4),
            None => !contains_boundary(buf@),
        },
{
    let n: usize = buf.len();
    if n < 4 {
        return None;
    }
    let mut i: usize = 0;
    while i <= n - 4
        invariant
            n == buf@.len(),
            4 <= n,
            i <= n - 3,
            forall|j: int| 0 <= j < i ==> !boundary_at(buf@, j),
        decreases n - i,
    {
        if buf[i] == 13 && buf[i + 1] == 10 && buf[i + 2] == 13 && buf[i + 3] == 10 {
            proof {
                assert(buf@.subrange(i as int, i + 4) =~= boundary());
            }
            return Some(i + 4);
        }
        proof {
            assert(!boundary_at(buf@, i as int)) by {
                if boundary_at(buf@, i as int) {
                    let w = buf@.subrange(i as int, i + 4);
                    assert(w[0] == buf@[i as int] && w[1] == buf@[i + 1] && w[2] == buf@[i + 2]
                        && w[3] == buf@[i + 3]);
                }
            }
        }
        i = i + 1;
    }
    proof {
        assert forall|j: int| !boundary_at(buf@, j) by {
            if boundary_at(buf@, j) {
                assert(j + 4 <= n);
            }
        }
    }
    None
}

} // verus!
