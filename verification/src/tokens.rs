//! Line tokenizing with sh-like quoting.
//!
//! A completed line is split into words at blanks; a quoted stretch (single
//! or double quotes) keeps its blanks and loses the quote characters. The
//! word that a command callback sees at index 0 is the command name.

use vstd::prelude::*;

verus! {

/// Byte values the tokenizer treats as word separators.
pub open spec fn is_blank(c: u8) -> bool {
    c == 0x20 || c == 0x09
}

/// Byte values that open or close a quoted stretch.
pub open spec fn is_quote(c: u8) -> bool {
    c == 0x22 || c == 0x27
}

/// One tokenizer step: the state is the word collected so far, the finished
/// words, and the quote character of an open quoted stretch, if any.
pub open spec fn tok_step(
    cur: Seq<u8>,
    toks: Seq<Seq<u8>>,
    q: Option<u8>,
    c: u8,
) -> (Seq<u8>, Seq<Seq<u8>>, Option<u8>) {
    match q {
        Some(qc) => if c == qc {
            (cur, toks, None)
        } else {
            (cur.push(c), toks, q)
        },
        None => if is_quote(c) {
            (cur, toks, Some(c))
        } else if is_blank(c) {
            if cur.len() > 0 {
                (Seq::empty(), toks.push(cur), None)
            } else {
                (cur, toks, None)
            }
        } else {
            (cur.push(c), toks, None)
        },
    }
}

/// The tokenizer state after reading the whole line.
pub open spec fn tok_fold(line: Seq<u8>) -> (Seq<u8>, Seq<Seq<u8>>, Option<u8>)
    decreases line.len(),
{
    if line.len() == 0 {
        (Seq::empty(), Seq::empty(), None)
    } else {
        let st = tok_fold(line.drop_last());
        tok_step(st.0, st.1, st.2, line.last())
    }
}

/// The words of a line, in order. A word still open at the end of the line
/// (including one inside an unclosed quoted stretch) counts; empty words do
/// not arise.
pub open spec fn tokenize(line: Seq<u8>) -> Seq<Seq<u8>> {
    let st = tok_fold(line);
    if st.0.len() > 0 {
        st.1.push(st.0)
    } else {
        st.1
    }
}

/// The views of a sequence of byte vectors.
pub open spec fn views_of(v: Seq<Vec<u8>>) -> Seq<Seq<u8>> {
    Seq::new(v.len(), |i: int| v[i]@)
}

/// Every word is non-empty, and made of bytes that occur in the line; in
/// particular a line without zero bytes yields words without zero bytes.
pub proof fn lemma_tok_fold_bytes(line: Seq<u8>)
    requires
        forall|i: int| 0 <= i < line.len() ==> line[i] != 0,
    ensures
        ({
            let st = tok_fold(line);
            &&& forall|j: int| 0 <= j < st.0.len() ==> st.0[j] != 0
            &&& forall|i: int| 0 <= i < st.1.len() ==> #[trigger] st.1[i].len() > 0
            &&& forall|i: int, j: int|
                0 <= i < st.1.len() && 0 <= j < st.1[i].len() ==> #[trigger] st.1[i][j] != 0
        }),
    decreases line.len(),
{
    if line.len() > 0 {
        assert(forall|i: int| 0 <= i < line.drop_last().len() ==> line.drop_last()[i] != 0);
        lemma_tok_fold_bytes(line.drop_last());
        let prev = tok_fold(line.drop_last());
        let c = line.last();
        let st = tok_fold(line);
        assert(c != 0);
        if prev.2 is None && !is_quote(c) && is_blank(c) && prev.0.len() > 0 {
            assert(st.1 == prev.1.push(prev.0));
            assert forall|i: int| 0 <= i < st.1.len() implies #[trigger] st.1[i].len() > 0 by {
                if i < prev.1.len() {
                    assert(st.1[i] == prev.1[i]);
                } else {
                    assert(st.1[i] == prev.0);
                }
            }
            assert forall|i: int, j: int|
                0 <= i < st.1.len() && 0 <= j < st.1[i].len() implies #[trigger] st.1[i][j] != 0 by {
                if i < prev.1.len() {
                    assert(st.1[i] == prev.1[i]);
                } else {
                    assert(st.1[i] == prev.0);
                }
            }
        } else {
            assert(st.1 == prev.1);
            assert(st.0 == prev.0 || st.0 == prev.0.push(c));
        }
    }
}

/// As `lemma_tok_fold_bytes`, stated of the finished word list.
pub proof fn lemma_tokenize_bytes(line: Seq<u8>)
    requires
        forall|i: int| 0 <= i < line.len() ==> line[i] != 0,
    ensures
        forall|i: int| 0 <= i < tokenize(line).len() ==> #[trigger] tokenize(line)[i].len() > 0,
        forall|i: int, j: int|
            0 <= i < tokenize(line).len() && 0 <= j < tokenize(line)[i].len()
                ==> #[trigger] tokenize(line)[i][j] != 0,
{
    lemma_tok_fold_bytes(line);
}

/// Splits a completed line into its words, exactly as `tokenize` states.
pub fn tokenize_line(line: &[u8]) -> (r: Vec<Vec<u8>>)
    ensures
        views_of(r@) == tokenize(line@),
{
    let mut cur: Vec<u8> = Vec::new();
    let mut toks: Vec<Vec<u8>> = Vec::new();
    let mut quote: Option<u8> = None;
    let n = line.len();
    let mut i: usize = 0;
    while i < n
        invariant
            n == line@.len(),
            i <= n,
            cur@ == tok_fold(line@.take(i as int)).0,
            views_of(toks@) == tok_fold(line@.take(i as int)).1,
            quote == tok_fold(line@.take(i as int)).2,
        decreases n - i,
    {
        let c = line[i];
        proof {
            assert(line@.take(i + 1).drop_last() =~= line@.take(i as int));
            assert(line@.take(i + 1).last() == line@[i as int]);
        }
        let ghost old_toks = toks@;
        let ghost old_cur = cur@;
        match quote {
            Some(qc) => {
                if c == qc {
                    quote = None;
                } else {
                    cur.push(c);
                }
            },
            None => {
                if c == 0x22 || c == 0x27 {
                    quote = Some(c);
                } else if c == 0x20 || c == 0x09 {
                    if cur.len() > 0 {
                        toks.push(cur);
                        cur = Vec::new();
                        proof {
                            assert(views_of(toks@) =~= views_of(old_toks).push(old_cur));
                        }
                    }
                } else {
                    cur.push(c);
                }
            },
        }
        i = i + 1;
    }
    proof {
        assert(line@.take(n as int) =~= line@);
    }
    if cur.len() > 0 {
        let ghost old_toks = toks@;
        let ghost old_cur = cur@;
        toks.push(cur);
        proof {
            assert(views_of(toks@) =~= views_of(old_toks).push(old_cur));
        }
    }
    toks
}

} // verus!
