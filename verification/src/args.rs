//! Argument accessor.
//!
//! A parsed command line is packed the way the shell engine lays it out: one
//! pool of NUL-terminated byte strings, and a table of start offsets, one per
//! word. `EshArgArray` is the bounds-checked accessor over that layout; each
//! access recovers its word by scanning for the terminator, and an index at
//! or beyond the word count yields an empty view, never a fault.

use vstd::prelude::*;

use crate::bytestr::arg_bytes;
use crate::bytestr::has_nul;
use crate::bytestr::lemma_arg_len_append;
use crate::bytestr::lemma_arg_len_at;
use crate::bytestr::strlen;
use crate::tokens::views_of;

verus! {

/// Bound-checked interface to a parsed argument list, argument 0 being the
/// command name.
pub struct EshArgArray {
    /// Number of arguments, the command name included.
    pub argc: usize,
    /// Start offset of each argument's bytes in `pool`.
    pub argv: Vec<usize>,
    /// The parse pool: each argument's bytes followed by a NUL terminator.
    pub pool: Vec<u8>,
}

impl View for EshArgArray {
    type V = Seq<Seq<u8>>;

    /// The argument list: for each index, the pool bytes from that
    /// argument's offset up to its terminator.
    open spec fn view(&self) -> Seq<Seq<u8>> {
        Seq::new(self.argc as nat, |i: int| arg_bytes(self.pool@, self.argv@[i] as int))
    }
}

impl EshArgArray {
    /// Each offset points into the pool, at a terminated string.
    pub open spec fn wf(&self) -> bool {
        &&& self.argv@.len() == self.argc
        &&& forall|i: int|
            0 <= i < self.argc ==> (#[trigger] self.argv@[i]) < self.pool@.len() && has_nul(
                self.pool@,
                self.argv@[i] as int,
            )
    }

    /// Packs a word list into the engine's pool-and-offsets layout.
    pub fn from_tokens(toks: &Vec<Vec<u8>>) -> (r: EshArgArray)
        requires
            forall|i: int, j: int|
                0 <= i < toks@.len() && 0 <= j < toks@[i]@.len() ==> #[trigger] toks@[i]@[j] != 0,
        ensures
            r.wf(),
            r@ == views_of(toks@),
    {
        let mut pool: Vec<u8> = Vec::new();
        let mut argv: Vec<usize> = Vec::new();
        let n = toks.len();
        let mut k: usize = 0;
        while k < n
            invariant
                n == toks@.len(),
                k <= n,
                argv@.len() == k,
                forall|i: int, j: int|
                    0 <= i < toks@.len() && 0 <= j < toks@[i]@.len() ==> #[trigger] toks@[i]@[j]
                        != 0,
                forall|i: int|
                    0 <= i < k ==> (#[trigger] argv@[i]) < pool@.len() && has_nul(
                        pool@,
                        argv@[i] as int,
                    ),
                forall|i: int|
                    0 <= i < k ==> arg_bytes(pool@, #[trigger] argv@[i] as int) == toks@[i]@,
            decreases n - k,
        {
            let ghost pool0 = pool@;
            let off = pool.len();
            argv.push(off);
            let m = toks[k].len();
            let mut j: usize = 0;
            while j < m
                invariant
                    k < n,
                    n == toks@.len(),
                    m == toks@[k as int]@.len(),
                    j <= m,
                    pool@ == pool0 + toks@[k as int]@.take(j as int),
                decreases m - j,
            {
                let c = toks[k][j];
                pool.push(c);
                proof {
                    assert(pool@ =~= pool0 + toks@[k as int]@.take(j + 1));
                }
                j = j + 1;
            }
            pool.push(0);
            proof {
                let t = toks@[k as int]@;
                assert(t.take(m as int) =~= t);
                let added = t.push(0u8);
                assert(pool@ =~= pool0 + added);
                // the new word reads back exactly
                assert(pool@[off + m] == 0);
                assert(forall|l: int| off <= l < off + m ==> pool@[l] == t[l - off] && #[trigger] pool@[l] != 0);
                lemma_arg_len_at(pool@, off as int, off + m);
                assert(arg_bytes(pool@, off as int) =~= t);
                // earlier words are untouched by the append
                assert forall|i: int| 0 <= i < k implies (#[trigger] argv@[i]) < pool@.len()
                    && has_nul(pool@, argv@[i] as int) && arg_bytes(pool@, argv@[i] as int)
                    == toks@[i]@ by {
                    lemma_arg_len_append(pool0, added, argv@[i] as int);
                    let w = choose|w: int| argv@[i] <= w < pool0.len() && pool0[w] == 0;
                    assert(pool@[w] == 0);
                }
            }
            k = k + 1;
        }
        let r = EshArgArray { argc: n, argv, pool };
        proof {
            assert(r@ =~= views_of(toks@));
        }
        r
    }

    /// The number of arguments, including the command name.
    pub fn len(&self) -> (r: usize)
        ensures
            r == self@.len(),
    {
        self.argc
    }

    /// The argument at `index`; indices start from zero, with index 0 being
    /// the command name. Out of bounds, the view is empty rather than a
    /// fault.
    pub fn index(&self, index: usize) -> (r: &[u8])
        requires
            self.wf(),
        ensures
            index < self@.len() ==> r@ == self@[index as int],
            index >= self@.len() ==> r@ == Seq::<u8>::empty(),
    {
        if index >= self.argc {
            let r = vstd::slice::slice_subrange(self.pool.as_slice(), 0, 0);
            proof {
                assert(r@ =~= Seq::<u8>::empty());
            }
            r
        } else {
            let total = self.pool.len();
            let off = self.argv[index];
            let n = strlen(self.pool.as_slice(), off);
            let r = vstd::slice::slice_subrange(self.pool.as_slice(), off, off + n);
            proof {
                assert(r@ =~= arg_bytes(self.pool@, off as int));
            }
            r
        }
    }
}

} // verus!
