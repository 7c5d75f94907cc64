//! Byte-string view construction.
//!
//! The shell engine hands callbacks raw NUL-terminated buffers. The functions
//! here recover a checked view of such a buffer: the bytes strictly before the
//! first terminating zero byte.

use vstd::prelude::*;

verus! {

/// There is a zero byte at or after `start`.
pub open spec fn has_nul(s: Seq<u8>, start: int) -> bool {
    exists|i: int| start <= i < s.len() && s[i] == 0
}

/// Number of bytes from `start` up to (not including) the first zero byte.
pub open spec fn arg_len(s: Seq<u8>, start: int) -> int
    decreases s.len() - start,
{
    if start < 0 || start >= s.len() {
        0
    } else if s[start] == 0 {
        0
    } else {
        1 + arg_len(s, start + 1)
    }
}

/// The bytes of the NUL-terminated string that begins at `start`.
pub open spec fn arg_bytes(s: Seq<u8>, start: int) -> Seq<u8> {
    s.subrange(start, start + arg_len(s, start))
}

/// `arg_len` is exactly the distance to the first zero byte.
pub proof fn lemma_arg_len_at(s: Seq<u8>, start: int, end: int)
    requires
        0 <= start <= end < s.len(),
        s[end] == 0,
        forall|j: int| start <= j < end ==> s[j] != 0,
    ensures
        arg_len(s, start) == end - start,
    decreases end - start,
{
    if start < end {
        lemma_arg_len_at(s, start + 1, end);
    }
}

/// `arg_len` never reaches past the end of the sequence.
pub proof fn lemma_arg_len_bound(s: Seq<u8>, start: int)
    ensures
        0 <= arg_len(s, start),
        0 <= start <= s.len() ==> start + arg_len(s, start) <= s.len(),
        has_nul(s, start) ==> start + arg_len(s, start) < s.len(),
    decreases s.len() - start,
{
    if 0 <= start < s.len() && s[start] != 0 {
        lemma_arg_len_bound(s, start + 1);
        if has_nul(s, start) {
            let n = choose|n: int| start <= n < s.len() && s[n] == 0;
            assert(start + 1 <= n < s.len() && s[n] == 0);
        }
    }
}

/// Appending bytes after an already-terminated string does not change it.
pub proof fn lemma_arg_len_append(s: Seq<u8>, t: Seq<u8>, start: int)
    requires
        0 <= start <= s.len(),
        has_nul(s, start),
    ensures
        arg_len(s + t, start) == arg_len(s, start),
        arg_bytes(s + t, start) == arg_bytes(s, start),
    decreases s.len() - start,
{
    if start < s.len() && s[start] != 0 {
        let n = choose|n: int| start <= n < s.len() && s[n] == 0;
        assert(start + 1 <= n < s.len() && s[n] == 0);
        lemma_arg_len_append(s, t, start + 1);
    }
    lemma_arg_len_bound(s, start);
    assert(arg_bytes(s + t, start) =~= arg_bytes(s, start));
}

/// Length of the NUL-terminated string starting at `start`: the count of
/// bytes strictly before the first zero byte at or after `start`.
pub fn strlen(buf: &[u8], start: usize) -> (r: usize)
    requires
        start < buf@.len(),
        has_nul(buf@, start as int),
    ensures
        r == arg_len(buf@, start as int),
        start + r < buf@.len(),
        buf@[start as int + r] == 0,
        forall|j: int| start <= j < start + r ==> buf@[j] != 0,
{
    let ghost n0: int = choose|n: int| start <= n < buf@.len() && buf@[n] == 0;
    let mut i: usize = start;
    while buf[i] != 0
        invariant
            start <= i <= n0 < buf@.len(),
            buf@[n0] == 0,
            forall|j: int| start <= j < i ==> buf@[j] != 0,
        decreases n0 - i,
    {
        i = i + 1;
        proof {
            if n0 < i {
                assert(buf@[n0] != 0);
            }
        }
    }
    proof {
        lemma_arg_len_at(buf@, start as int, i as int);
    }
    i - start
}

/// A borrowed view of the NUL-terminated string that begins at `start`:
/// exactly the bytes before the first zero byte, the terminator excluded.
pub fn byte_view(buf: &[u8], start: usize) -> (r: &[u8])
    requires
        start < buf@.len(),
        has_nul(buf@, start as int),
    ensures
        r@ == arg_bytes(buf@, start as int),
        r@.len() == arg_len(buf@, start as int),
        forall|j: int| 0 <= j < r@.len() ==> r@[j] != 0,
{
    let total = buf.len();
    let n = strlen(buf, start);
    let r = vstd::slice::slice_subrange(buf, start, start + n);
    proof {
        assert(forall|j: int| 0 <= j < r@.len() ==> r@[j] == buf@[start + j]);
    }
    r
}

} // verus!
