//! In-place reinterpretation of an argument pointer table.
//!
//! On memory-starved targets the engine reserves, for each argument slot,
//! enough room to overwrite the raw pointer with a full (offset, length)
//! string view, so that no second table need be allocated. A slot is modeled
//! here as one storage cell that holds either shape. The conversion walks
//! the table from the highest index to the lowest — writing a view at index
//! `i` must never clobber a still-unread raw pointer below `i` — and is
//! guarded by a check that the engine reserved as many words per slot as a
//! view occupies: on a mismatch nothing is written, and the caller must
//! treat the mismatch as a fatal configuration error, since converting
//! anyway would silently corrupt the table.

use vstd::prelude::*;

use crate::bytestr::arg_bytes;
use crate::bytestr::arg_len;
use crate::bytestr::has_nul;
use crate::bytestr::lemma_arg_len_bound;

verus! {

/// Words of per-slot storage a string view occupies: its offset and its
/// length.
pub const VIEW_SLOT_WORDS: usize = 2;

/// One argument slot: the raw pointer the engine wrote (an offset into its
/// parse pool), or the string view that replaces it in place.
#[derive(Clone, Copy, Debug, PartialEq, Eq, Structural)]
pub enum ArgSlot {
    /// The engine's raw form: the offset of a NUL-terminated string.
    Ptr(usize),
    /// The converted form: offset and scanned length of the string.
    Str { off: usize, len: usize },
}

/// A raw slot whose offset points at a terminated string of the pool.
pub open spec fn raw_slot_ok(pool: Seq<u8>, slot: ArgSlot) -> bool {
    match slot {
        ArgSlot::Ptr(off) => off < pool.len() && has_nul(pool, off as int),
        ArgSlot::Str { .. } => false,
    }
}

/// The converted form of a raw slot: the same offset, paired with the
/// distance to the terminator.
pub open spec fn converted(pool: Seq<u8>, slot: ArgSlot) -> ArgSlot {
    ArgSlot::Str { off: slot->Ptr_0, len: arg_len(pool, slot->Ptr_0 as int) as usize }
}

/// Reinterprets the first `argc` slots of the table as string views, in
/// place and from right to left. Returns false — and writes nothing — when
/// the engine reserved fewer words per slot than a view occupies
/// (`reserved_words`); the caller must abort on that outcome.
pub fn map_argv_to_slices(
    pool: &[u8],
    slots: &mut Vec<ArgSlot>,
    argc: usize,
    reserved_words: usize,
) -> (ok: bool)
    requires
        argc <= old(slots)@.len(),
        forall|i: int| 0 <= i < argc ==> raw_slot_ok(pool@, #[trigger] old(slots)@[i]),
    ensures
        ok <==> reserved_words == VIEW_SLOT_WORDS,
        final(slots)@.len() == old(slots)@.len(),
        !ok ==> final(slots)@ == old(slots)@,
        ok ==> forall|i: int|
            0 <= i < argc ==> #[trigger] final(slots)@[i] == converted(pool@, old(slots)@[i]),
        forall|i: int|
            argc <= i < final(slots)@.len() ==> #[trigger] final(slots)@[i] == old(slots)@[i],
{
    if reserved_words != VIEW_SLOT_WORDS {
        return false;
    }
    let mut i: usize = argc;
    while i > 0
        invariant
            argc <= slots@.len(),
            slots@.len() == old(slots)@.len(),
            i <= argc,
            forall|k: int| 0 <= k < argc ==> raw_slot_ok(pool@, #[trigger] old(slots)@[k]),
            forall|k: int| 0 <= k < i ==> #[trigger] slots@[k] == old(slots)@[k],
            forall|k: int|
                i <= k < argc ==> #[trigger] slots@[k] == converted(pool@, old(slots)@[k]),
            forall|k: int| argc <= k < slots@.len() ==> #[trigger] slots@[k] == old(slots)@[k],
        decreases i,
    {
        i = i - 1;
        let off = match *vstd::slice::slice_index_get(slots.as_slice(), i) {
            ArgSlot::Ptr(off) => off,
            ArgSlot::Str { .. } => {
                proof {
                    assert(false);
                }
                0
            },
        };
        let len = crate::bytestr::strlen(pool, off);
        slots.set(i, ArgSlot::Str { off, len });
    }
    true
}

/// The bytes a converted slot refers to: exactly the word the raw pointer
/// addressed, up to (and not including) its terminator.
pub fn slot_bytes<'a>(pool: &'a [u8], slot: &ArgSlot) -> (r: &'a [u8])
    requires
        slot is Str,
        slot->Str_off + slot->Str_len <= pool@.len(),
    ensures
        r@ == pool@.subrange(slot->Str_off as int, slot->Str_off + slot->Str_len),
{
    match *slot {
        ArgSlot::Str { off, len } => {
            let total = pool.len();
            vstd::slice::slice_subrange(pool, off, off + len)
        },
        ArgSlot::Ptr(_) => {
            proof {
                assert(false);
            }
            vstd::slice::slice_subrange(pool, 0, 0)
        },
    }
}

/// A slot converted over a pool reads back the word of its raw pointer.
pub proof fn lemma_converted_reads_raw(pool: Seq<u8>, slot: ArgSlot)
    requires
        raw_slot_ok(pool, slot),
        pool.len() <= usize::MAX,
    ensures
        converted(pool, slot) matches ArgSlot::Str { off, len } && off == slot->Ptr_0 && off + len
            < pool.len() && pool.subrange(off as int, off + len) == arg_bytes(pool, off as int),
{
    lemma_arg_len_bound(pool, slot->Ptr_0 as int);
}

} // verus!
