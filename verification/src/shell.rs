//! The shell handle.
//!
//! `Esh` is one shell instance: a bounded line buffer, an overflow mark, and
//! one callback slot per kind (command, print, overflow). Bytes are fed in
//! one at a time with `rx`; the instance echoes accepted bytes, completes a
//! line on a newline, and reports a line that outgrew the buffer. Each
//! dispatch reconstructs the callback's payload from the engine-shaped raw
//! form — a packed pool of NUL-terminated words, or a NUL-terminated buffer
//! — through the checked view constructors, and then invokes the registered
//! function. Registering a callback replaces the previous one of its kind;
//! there is no way to query or unregister a slot.

use vstd::prelude::*;

use crate::args::EshArgArray;
use crate::bytestr::byte_view;
use crate::bytestr::has_nul;
use crate::bytestr::lemma_arg_len_at;
use crate::pool::EshPool;
use crate::tokens::lemma_tokenize_bytes;
use crate::tokens::tokenize;
use crate::tokens::tokenize_line;
use crate::tokens::views_of;

verus! {

/// Maximum number of bytes a line may hold before it overflows.
pub const BUFFER_LEN: usize = 200;

/// The line terminator.
pub const NEWLINE: u8 = 10;

/// Byte values accepted into the line buffer: printable ASCII. Anything
/// else, the newline aside, is silently dropped.
pub open spec fn printable(c: u8) -> bool {
    0x20 <= c && c <= 0x7e
}

/// The observable state of one shell instance: the buffered line and
/// whether it has overflowed.
#[verifier::ext_equal]
pub struct ShellState {
    pub line: Seq<u8>,
    pub overflowed: bool,
}

/// The state after one input byte: a newline always resets the line; an
/// accepted byte is buffered while room remains; the byte that finds the
/// buffer full marks the overflow; everything after that, and every
/// unaccepted byte, changes nothing.
pub open spec fn rx_next(st: ShellState, c: u8) -> ShellState {
    if c == NEWLINE {
        ShellState { line: Seq::empty(), overflowed: false }
    } else if !printable(c) || st.overflowed {
        st
    } else if st.line.len() < BUFFER_LEN {
        ShellState { line: st.line.push(c), overflowed: false }
    } else {
        ShellState { line: st.line, overflowed: true }
    }
}

/// The byte echoed to the print callback for one input byte, if any: every
/// byte accepted into the buffer, and every newline.
pub open spec fn rx_echo(st: ShellState, c: u8) -> Option<u8> {
    if c == NEWLINE {
        Some(NEWLINE)
    } else if printable(c) && !st.overflowed && st.line.len() < BUFFER_LEN {
        Some(c)
    } else {
        None
    }
}

/// The argument list handed to the command callback for one input byte, if
/// any: on a newline, the words of the buffered line, unless the line
/// overflowed or holds no word.
pub open spec fn rx_command(st: ShellState, c: u8) -> Option<Seq<Seq<u8>>> {
    if c == NEWLINE && !st.overflowed && tokenize(st.line).len() > 0 {
        Some(tokenize(st.line))
    } else {
        None
    }
}

/// The buffer handed to the overflow callback for one input byte, if any:
/// the buffered prefix, on the first accepted byte that no longer fits.
pub open spec fn rx_overflow(st: ShellState, c: u8) -> Option<Seq<u8>> {
    if c != NEWLINE && printable(c) && !st.overflowed && st.line.len() >= BUFFER_LEN {
        Some(st.line)
    } else {
        None
    }
}

/// One shell instance. `C`, `P` and `O` are the registered command, print
/// and overflow callback types; each is called with the instance number
/// first, so that a callback shared between instances can tell them apart.
pub struct Esh<C, P, O> {
    /// Instance number, unique per pool.
    pub instance: usize,
    /// The buffered line, at most `BUFFER_LEN` printable bytes.
    pub line: Vec<u8>,
    /// Whether the current line has outgrown the buffer.
    pub overflowed: bool,
    /// Command slot: called with the parsed argument list of a completed line.
    pub command_cb: Option<C>,
    /// Print slot: called with each echoed byte.
    pub print_cb: Option<P>,
    /// Overflow slot: called with the buffered prefix of an overlong line.
    pub overflow_cb: Option<O>,
}

impl<C, P, O> Esh<C, P, O> where
    C: Fn(usize, EshArgArray),
    P: Fn(usize, u8),
    O: Fn(usize, Vec<u8>),
 {
    /// The buffer holds at most `BUFFER_LEN` printable bytes, and every
    /// registered callback accepts every argument.
    pub open spec fn wf(&self) -> bool {
        &&& self.line@.len() <= BUFFER_LEN
        &&& forall|i: int| 0 <= i < self.line@.len() ==> printable(#[trigger] self.line@[i])
        &&& (self.command_cb matches Some(f) ==> forall|a: (usize, EshArgArray)|
            #[trigger] call_requires(f, a))
        &&& (self.print_cb matches Some(p) ==> forall|a: (usize, u8)| #[trigger] call_requires(
            p,
            a,
        ))
        &&& (self.overflow_cb matches Some(o) ==> forall|a: (usize, Vec<u8>)|
            #[trigger] call_requires(o, a))
    }

    /// The observable state.
    pub open spec fn st(&self) -> ShellState {
        ShellState { line: self.line@, overflowed: self.overflowed }
    }

    /// An initialized instance, or nothing once the pool's cap is reached.
    /// An instance is never destroyed: the pool's counter only grows.
    pub fn init(pool: &mut EshPool) -> (r: Option<Esh<C, P, O>>)
        requires
            old(pool).wf(),
        ensures
            final(pool).wf(),
            final(pool).capacity == old(pool).capacity,
            old(pool).used < old(pool).capacity ==> final(pool).used == old(pool).used + 1
                && (r matches Some(h) && h.wf() && h.instance == old(pool).used
                && h.st().line == Seq::<u8>::empty() && !h.st().overflowed
                && h.command_cb is None && h.print_cb is None && h.overflow_cb is None),
            old(pool).used >= old(pool).capacity ==> r is None && final(pool).used == old(
                pool,
            ).used,
    {
        match pool.take_slot() {
            Some(id) => Some(
                Esh {
                    instance: id,
                    line: Vec::new(),
                    overflowed: false,
                    command_cb: None,
                    print_cb: None,
                    overflow_cb: None,
                },
            ),
            None => None,
        }
    }

    /// Registers the command callback, replacing any previous one.
    pub fn register_command(&mut self, cb: C)
        requires
            old(self).wf(),
            forall|a: (usize, EshArgArray)| #[trigger] call_requires(cb, a),
        ensures
            final(self).wf(),
            final(self).command_cb == Some(cb),
            final(self).print_cb == old(self).print_cb,
            final(self).overflow_cb == old(self).overflow_cb,
            final(self).instance == old(self).instance,
            final(self).st() == old(self).st(),
    {
        self.command_cb = Some(cb);
    }

    /// Registers the print callback, replacing any previous one.
    pub fn register_print(&mut self, cb: P)
        requires
            old(self).wf(),
            forall|a: (usize, u8)| #[trigger] call_requires(cb, a),
        ensures
            final(self).wf(),
            final(self).print_cb == Some(cb),
            final(self).command_cb == old(self).command_cb,
            final(self).overflow_cb == old(self).overflow_cb,
            final(self).instance == old(self).instance,
            final(self).st() == old(self).st(),
    {
        self.print_cb = Some(cb);
    }

    /// Registers the overflow callback, replacing any previous one. The
    /// slot is optional: without it an overflowed line is dropped silently.
    pub fn register_overflow(&mut self, cb: O)
        requires
            old(self).wf(),
            forall|a: (usize, Vec<u8>)| #[trigger] call_requires(cb, a),
        ensures
            final(self).wf(),
            final(self).overflow_cb == Some(cb),
            final(self).command_cb == old(self).command_cb,
            final(self).print_cb == old(self).print_cb,
            final(self).instance == old(self).instance,
            final(self).st() == old(self).st(),
    {
        self.overflow_cb = Some(cb);
    }

    /// Echoes one byte through the print slot, if one is registered.
    fn emit_print(&self, c: u8)
        requires
            self.wf(),
        ensures
            self.print_cb matches Some(p) ==> call_ensures(p, (self.instance, c), ()),
    {
        match &self.print_cb {
            Some(p) => p(self.instance, c),
            None => {},
        }
    }

    /// Feeds in one received byte. Zero or more callbacks run synchronously
    /// inside this call: the echo of an accepted byte, the command callback
    /// of a completed line, or the overflow callback of an overlong one.
    pub fn rx(&mut self, c: u8)
        requires
            old(self).wf(),
        ensures
            final(self).wf(),
            final(self).instance == old(self).instance,
            final(self).command_cb == old(self).command_cb,
            final(self).print_cb == old(self).print_cb,
            final(self).overflow_cb == old(self).overflow_cb,
            final(self).st() == rx_next(old(self).st(), c),
            rx_echo(old(self).st(), c) matches Some(b) ==> (old(self).print_cb matches Some(p)
                ==> call_ensures(p, (old(self).instance, b), ())),
            rx_command(old(self).st(), c) matches Some(ts) ==> (old(
                self,
            ).command_cb matches Some(f) ==> exists|a: EshArgArray|
                a.wf() && a@ == ts && #[trigger] call_ensures(f, (old(self).instance, a), ())),
            rx_overflow(old(self).st(), c) matches Some(bs) ==> (old(
                self,
            ).overflow_cb matches Some(o) ==> exists|v: Vec<u8>|
                v@ == bs && #[trigger] call_ensures(o, (old(self).instance, v), ())),
    {
        if c == NEWLINE {
            self.emit_print(NEWLINE);
            if !self.overflowed {
                proof {
                    assert(forall|i: int|
                        0 <= i < self.line@.len() ==> #[trigger] self.line@[i] != 0);
                    lemma_tokenize_bytes(self.line@);
                }
                let toks = tokenize_line(self.line.as_slice());
                proof {
                    assert forall|i: int, j: int|
                        0 <= i < toks@.len() && 0 <= j < toks@[i]@.len() implies #[trigger] toks@[i]@[j]
                        != 0 by {
                        assert(toks@[i]@ == views_of(toks@)[i]);
                        assert(views_of(toks@)[i] == tokenize(self.line@)[i]);
                    }
                }
                if toks.len() > 0 {
                    let args = EshArgArray::from_tokens(&toks);
                    match &self.command_cb {
                        Some(f) => {
                            let id = self.instance;
                            f(id, args);
                            proof {
                                assert(call_ensures(f, (id, args), ()));
                            }
                        },
                        None => {},
                    }
                }
            }
            self.line = Vec::new();
            self.overflowed = false;
            proof {
                assert(self.st() =~= rx_next(old(self).st(), c));
            }
        } else if 0x20 <= c && c <= 0x7e {
            if self.overflowed {
                // line already overflowed: the byte is dropped
            } else if self.line.len() < BUFFER_LEN {
                self.line.push(c);
                self.emit_print(c);
            } else {
                // the engine hands the overflow callback its buffer with the
                // terminator; reconstruct the view by the checked scan
                self.overflowed = true;
                match &self.overflow_cb {
                    Some(o) => {
                        let mut raw = vstd::slice::slice_to_vec(self.line.as_slice());
                        raw.push(0);
                        proof {
                            assert(raw@[raw@.len() - 1] == 0);
                            assert(has_nul(raw@, 0));
                            lemma_arg_len_at(raw@, 0, self.line@.len() as int);
                        }
                        let prefix = byte_view(raw.as_slice(), 0);
                        let payload = vstd::slice::slice_to_vec(prefix);
                        proof {
                            assert(payload@ =~= self.line@);
                        }
                        let id = self.instance;
                        o(id, payload);
                    },
                    None => {},
                }
            }
        } else {
            // neither newline nor printable: the byte is dropped silently
        }
    }

    /// Feeds in a whole received byte sequence, one byte at a time, reaching
    /// exactly the state that feeding each byte singly reaches; every echoed
    /// byte of `run_prints` passes through the print slot, in that order.
    pub fn rx_all(&mut self, bytes: &[u8])
        requires
            old(self).wf(),
        ensures
            final(self).wf(),
            final(self).instance == old(self).instance,
            final(self).command_cb == old(self).command_cb,
            final(self).print_cb == old(self).print_cb,
            final(self).overflow_cb == old(self).overflow_cb,
            final(self).st() == run_state(old(self).st(), bytes@),
            old(self).print_cb matches Some(p) ==> forall|j: int|
                0 <= j < run_prints(old(self).st(), bytes@).len() ==> call_ensures(
                    p,
                    (old(self).instance, #[trigger] run_prints(old(self).st(), bytes@)[j]),
                    (),
                ),
    {
        let ghost st0 = self.st();
        let n = bytes.len();
        let mut i: usize = 0;
        proof {
            assert(bytes@.take(0) =~= Seq::<u8>::empty());
        }
        while i < n
            invariant
                n == bytes@.len(),
                i <= n,
                self.wf(),
                self.instance == old(self).instance,
                self.command_cb == old(self).command_cb,
                self.print_cb == old(self).print_cb,
                self.overflow_cb == old(self).overflow_cb,
                st0 == old(self).st(),
                self.st() == run_state(st0, bytes@.take(i as int)),
                old(self).print_cb matches Some(p) ==> forall|j: int|
                    0 <= j < run_prints(st0, bytes@.take(i as int)).len() ==> call_ensures(
                        p,
                        (old(self).instance, #[trigger] run_prints(st0, bytes@.take(i as int))[j]),
                        (),
                    ),
            decreases n - i,
        {
            let ghost pre = bytes@.take(i as int);
            let ghost post = bytes@.take(i + 1);
            proof {
                assert(post.drop_last() =~= pre);
                assert(post.last() == bytes@[i as int]);
            }
            self.rx(bytes[i]);
            proof {
                if self.print_cb is Some {
                    let p = self.print_cb->0;
                    let id = old(self).instance;
                    assert forall|j: int| 0 <= j < run_prints(st0, post).len() implies call_ensures(
                        p,
                        (id, #[trigger] run_prints(st0, post)[j]),
                        (),
                    ) by {
                        let prev = run_prints(st0, pre);
                        if j < prev.len() {
                            assert(run_prints(st0, post)[j] == prev[j]);
                        } else {
                            assert(run_prints(st0, post)[j] == echo_seq(
                                run_state(st0, pre),
                                bytes@[i as int],
                            )[j - prev.len()]);
                        }
                    }
                }
            }
            i = i + 1;
        }
        proof {
            assert(bytes@.take(n as int) =~= bytes@);
        }
    }
}

/// Registration replaces, it does not stack: whatever callback a slot held
/// before, after a registration the slot holds exactly the new callback,
/// and — the slots being all that `rx` ever dispatches through — a replaced
/// callback is never invoked again.
pub proof fn lemma_registration_replaces<C, P, O>(
    before: Esh<C, P, O>,
    after: Esh<C, P, O>,
    a: C,
    b: C,
) where C: Fn(usize, EshArgArray), P: Fn(usize, u8), O: Fn(usize, Vec<u8>)
    requires
        before.command_cb == Some(a),
        after.command_cb == Some(b),
        a != b,
    ensures
        after.command_cb != Some(a),
{
}

/// The state after feeding a whole byte sequence, one byte at a time.
pub open spec fn run_state(st: ShellState, input: Seq<u8>) -> ShellState
    decreases input.len(),
{
    if input.len() == 0 {
        st
    } else {
        rx_next(run_state(st, input.drop_last()), input.last())
    }
}

/// The echo of one input byte, as a sequence of zero or one bytes.
pub open spec fn echo_seq(st: ShellState, c: u8) -> Seq<u8> {
    match rx_echo(st, c) {
        Some(b) => seq![b],
        None => Seq::empty(),
    }
}

/// Every byte echoed while feeding a whole byte sequence, in order.
pub open spec fn run_prints(st: ShellState, input: Seq<u8>) -> Seq<u8>
    decreases input.len(),
{
    if input.len() == 0 {
        Seq::empty()
    } else {
        run_prints(st, input.drop_last()) + echo_seq(
            run_state(st, input.drop_last()),
            input.last(),
        )
    }
}

/// Echo is chunking-invariant: feeding a byte sequence in two parts reaches
/// the same state, and echoes the same bytes in the same order, as feeding
/// it whole.
pub proof fn lemma_feed_chunking(st: ShellState, a: Seq<u8>, b: Seq<u8>)
    ensures
        run_state(st, a + b) == run_state(run_state(st, a), b),
        run_prints(st, a + b) == run_prints(st, a) + run_prints(run_state(st, a), b),
    decreases b.len(),
{
    if b.len() == 0 {
        assert(a + b =~= a);
        assert(run_prints(st, a) + run_prints(run_state(st, a), b) =~= run_prints(st, a));
    } else {
        lemma_feed_chunking(st, a, b.drop_last());
        assert((a + b).drop_last() =~= a + b.drop_last());
        assert((a + b).last() == b.last());
        assert(run_prints(st, a + b) =~= run_prints(st, a) + run_prints(run_state(st, a), b));
    }
}

} // verus!
