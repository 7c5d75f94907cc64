use std::cell::RefCell;
use std::rc::Rc;

use esh::args::EshArgArray;
use esh::bytestr::byte_view;
use esh::bytestr::strlen;
use esh::inplace::map_argv_to_slices;
use esh::inplace::slot_bytes;
use esh::inplace::ArgSlot;
use esh::inplace::VIEW_SLOT_WORDS;
use esh::pool::EshPool;
use esh::shell::Esh;
use esh::shell::BUFFER_LEN;
use esh::tokens::tokenize_line;

type CmdLog = Rc<RefCell<Vec<(usize, Vec<Vec<u8>>)>>>;
type ByteLog = Rc<RefCell<Vec<u8>>>;
type BufLog = Rc<RefCell<Vec<Vec<u8>>>>;

fn args_to_vecs(a: &EshArgArray) -> Vec<Vec<u8>> {
    let mut out = Vec::new();
    for i in 0..a.len() {
        out.push(a.index(i).to_vec());
    }
    out
}

fn wired_shell(
    pool: &mut EshPool,
) -> (
    Esh<impl Fn(usize, EshArgArray), impl Fn(usize, u8), impl Fn(usize, Vec<u8>)>,
    CmdLog,
    ByteLog,
    BufLog,
) {
    let cmds: CmdLog = Rc::new(RefCell::new(Vec::new()));
    let prints: ByteLog = Rc::new(RefCell::new(Vec::new()));
    let overflows: BufLog = Rc::new(RefCell::new(Vec::new()));
    let c2 = cmds.clone();
    let p2 = prints.clone();
    let o2 = overflows.clone();
    let mut sh = Esh::init(pool).expect("pool slot");
    sh.register_command(move |id: usize, a: EshArgArray| {
        c2.borrow_mut().push((id, args_to_vecs(&a)));
    });
    sh.register_print(move |_id: usize, c: u8| {
        p2.borrow_mut().push(c);
    });
    sh.register_overflow(move |_id: usize, buf: Vec<u8>| {
        o2.borrow_mut().push(buf);
    });
    (sh, cmds, prints, overflows)
}

#[test]
fn strlen_stops_at_first_nul() {
    let buf = [b'a', b'b', b'c', 0, b'x', b'y', 0];
    assert_eq!(strlen(&buf, 0), 3);
    assert_eq!(strlen(&buf, 1), 2);
    assert_eq!(strlen(&buf, 3), 0);
    assert_eq!(strlen(&buf, 4), 2);
}

#[test]
fn byte_view_reads_up_to_terminator_only() {
    // embedded non-zero bytes up to a boundary, then the terminator
    let mut buf = vec![7u8; 50];
    buf.push(0);
    buf.extend_from_slice(&[9, 9, 9]);
    buf.push(0);
    let v = byte_view(&buf, 0);
    assert_eq!(v.len(), 50);
    assert!(v.iter().all(|&b| b == 7));
}

#[test]
fn tokenize_splits_on_blanks() {
    let toks = tokenize_line(b"echo hi");
    assert_eq!(toks, vec![b"echo".to_vec(), b"hi".to_vec()]);
    let toks = tokenize_line(b"  a \t b  ");
    assert_eq!(toks, vec![b"a".to_vec(), b"b".to_vec()]);
    assert_eq!(tokenize_line(b""), Vec::<Vec<u8>>::new());
    assert_eq!(tokenize_line(b"   "), Vec::<Vec<u8>>::new());
}

#[test]
fn tokenize_quotes_keep_blanks() {
    let toks = tokenize_line(b"say \"a b\" 'c d'");
    assert_eq!(toks, vec![b"say".to_vec(), b"a b".to_vec(), b"c d".to_vec()]);
    // a quote of the other kind is an ordinary byte inside a quoted stretch
    let toks = tokenize_line(b"x \"it's\"");
    assert_eq!(toks, vec![b"x".to_vec(), b"it's".to_vec()]);
}

#[test]
fn tokenize_edge_cases() {
    // an unclosed quoted stretch still yields its word
    assert_eq!(tokenize_line(b"a \"bc"), vec![b"a".to_vec(), b"bc".to_vec()]);
    // an empty quoted stretch contributes no word
    assert_eq!(tokenize_line(b"\"\""), Vec::<Vec<u8>>::new());
    // quotes joining adjacent stretches form one word
    assert_eq!(tokenize_line(b"a\"b c\"d"), vec![b"ab cd".to_vec()]);
}

#[test]
fn blank_line_invokes_no_command() {
    let mut pool = EshPool::new(1);
    let (mut sh, cmds, prints, _overflows) = wired_shell(&mut pool);
    sh.rx(b'\n');
    sh.rx(b' ');
    sh.rx(b'\n');
    assert!(cmds.borrow().is_empty());
    assert_eq!(*prints.borrow(), b"\n \n".to_vec());
}

#[test]
fn arg_array_len_and_index() {
    let toks = tokenize_line(b"echo hi there");
    let args = EshArgArray::from_tokens(&toks);
    assert_eq!(args.len(), 3);
    assert_eq!(args.index(0).to_vec(), b"echo".to_vec());
    assert_eq!(args.index(1).to_vec(), b"hi".to_vec());
    assert_eq!(args.index(2).to_vec(), b"there".to_vec());
    // out of range: an empty view, never a fault
    assert!(args.index(3).is_empty());
    assert!(args.index(1000).is_empty());
}

#[test]
fn pool_caps_instances_and_ids_differ() {
    let mut pool = EshPool::new(2);
    let a = Esh::<fn(usize, EshArgArray), fn(usize, u8), fn(usize, Vec<u8>)>::init(&mut pool)
        .expect("first instance");
    let b = Esh::<fn(usize, EshArgArray), fn(usize, u8), fn(usize, Vec<u8>)>::init(&mut pool)
        .expect("second instance");
    assert_ne!(a.instance, b.instance);
    let c = Esh::<fn(usize, EshArgArray), fn(usize, u8), fn(usize, Vec<u8>)>::init(&mut pool);
    assert!(c.is_none());
}

#[test]
fn echo_hi_invokes_command_once_with_two_args() {
    let mut pool = EshPool::new(1);
    let (mut sh, cmds, _prints, overflows) = wired_shell(&mut pool);
    for &b in b"echo hi\n" {
        sh.rx(b);
    }
    let cmds = cmds.borrow();
    assert_eq!(cmds.len(), 1);
    let (id, ref args) = cmds[0];
    assert_eq!(id, 0);
    assert_eq!(args.len(), 2);
    assert_eq!(args[0], b"echo".to_vec());
    assert_eq!(args[1], b"hi".to_vec());
    assert!(overflows.borrow().is_empty());
}

#[test]
fn accepted_bytes_are_echoed_and_others_dropped() {
    let mut pool = EshPool::new(1);
    let (mut sh, cmds, prints, _overflows) = wired_shell(&mut pool);
    for &b in b"hi\n" {
        sh.rx(b);
    }
    sh.rx(0x01); // control byte: dropped silently
    sh.rx(0x80); // outside ASCII: dropped silently
    assert_eq!(*prints.borrow(), b"hi\n".to_vec());
    assert_eq!(cmds.borrow().len(), 1);
}

#[test]
fn print_log_is_chunking_invariant() {
    let input: Vec<u8> = b"alpha beta\ngamma\n".to_vec();
    let mut pool = EshPool::new(2);
    let (mut whole, _c1, prints_whole, _o1) = wired_shell(&mut pool);
    whole.rx_all(&input);
    let (mut chunked, _c2, prints_chunked, _o2) = wired_shell(&mut pool);
    let (first, second) = input.split_at(7);
    for &b in first {
        chunked.rx(b);
    }
    for &b in second {
        chunked.rx(b);
    }
    assert_eq!(*prints_whole.borrow(), *prints_chunked.borrow());
}

#[test]
fn overlong_line_reports_overflow_once_with_prefix() {
    let mut pool = EshPool::new(1);
    let (mut sh, cmds, _prints, overflows) = wired_shell(&mut pool);
    for _ in 0..(BUFFER_LEN + 40) {
        sh.rx(b'x');
    }
    let overflows = overflows.borrow();
    assert_eq!(overflows.len(), 1);
    assert_eq!(overflows[0], vec![b'x'; BUFFER_LEN]);
    assert!(cmds.borrow().is_empty());
}

#[test]
fn line_of_exactly_buffer_len_still_completes() {
    let mut pool = EshPool::new(1);
    let (mut sh, cmds, _prints, overflows) = wired_shell(&mut pool);
    for _ in 0..BUFFER_LEN {
        sh.rx(b'y');
    }
    sh.rx(b'\n');
    assert!(overflows.borrow().is_empty());
    let cmds = cmds.borrow();
    assert_eq!(cmds.len(), 1);
    assert_eq!(cmds[0].1.len(), 1);
    assert_eq!(cmds[0].1[0], vec![b'y'; BUFFER_LEN]);
}

#[test]
fn newline_after_overflow_resets_without_command() {
    let mut pool = EshPool::new(1);
    let (mut sh, cmds, _prints, overflows) = wired_shell(&mut pool);
    for _ in 0..(BUFFER_LEN + 1) {
        sh.rx(b'z');
    }
    sh.rx(b'\n');
    assert!(cmds.borrow().is_empty());
    assert_eq!(overflows.borrow().len(), 1);
    // the next line parses normally again
    for &b in b"ok\n" {
        sh.rx(b);
    }
    assert_eq!(cmds.borrow().len(), 1);
    assert_eq!(cmds.borrow()[0].1[0], b"ok".to_vec());
}

#[test]
fn registering_replaces_previous_callback() {
    let mut pool = EshPool::new(1);
    let first_hits: ByteLog = Rc::new(RefCell::new(Vec::new()));
    let second_hits: CmdLog = Rc::new(RefCell::new(Vec::new()));
    let f1 = first_hits.clone();
    let s1 = second_hits.clone();
    let mut sh = Esh::<Box<dyn Fn(usize, EshArgArray)>, fn(usize, u8), fn(usize, Vec<u8>)>::init(
        &mut pool,
    )
    .expect("slot");
    sh.register_command(Box::new(move |_id: usize, _a: EshArgArray| {
        f1.borrow_mut().push(1);
    }));
    // a second registration of the same kind replaces, it does not stack
    sh.register_command(Box::new(move |id: usize, a: EshArgArray| {
        s1.borrow_mut().push((id, args_to_vecs(&a)));
    }));
    for &b in b"go\n" {
        sh.rx(b);
    }
    assert!(first_hits.borrow().is_empty());
    assert_eq!(second_hits.borrow().len(), 1);
}

#[test]
fn feeding_without_callbacks_is_harmless() {
    let mut pool = EshPool::new(1);
    let mut sh =
        Esh::<fn(usize, EshArgArray), fn(usize, u8), fn(usize, Vec<u8>)>::init(&mut pool)
            .expect("slot");
    for &b in b"echo hi\n" {
        sh.rx(b);
    }
}

#[test]
fn inplace_conversion_walks_right_to_left() {
    // pool: "ls\0-l\0tmp\0"
    let pool: Vec<u8> = b"ls\0-l\0tmp\0".to_vec();
    let mut slots = vec![ArgSlot::Ptr(0), ArgSlot::Ptr(3), ArgSlot::Ptr(6), ArgSlot::Ptr(99)];
    let ok = map_argv_to_slices(&pool, &mut slots, 3, VIEW_SLOT_WORDS);
    assert!(ok);
    assert_eq!(slots[0], ArgSlot::Str { off: 0, len: 2 });
    assert_eq!(slots[1], ArgSlot::Str { off: 3, len: 2 });
    assert_eq!(slots[2], ArgSlot::Str { off: 6, len: 3 });
    // a slot beyond argc is left untouched
    assert_eq!(slots[3], ArgSlot::Ptr(99));
    assert_eq!(slot_bytes(&pool, &slots[0]).to_vec(), b"ls".to_vec());
    assert_eq!(slot_bytes(&pool, &slots[1]).to_vec(), b"-l".to_vec());
    assert_eq!(slot_bytes(&pool, &slots[2]).to_vec(), b"tmp".to_vec());
}

#[test]
fn inplace_conversion_refuses_short_slots() {
    // the engine reserved fewer words per slot than a view occupies:
    // the conversion must be refused outright, nothing written
    let pool: Vec<u8> = b"ls\0".to_vec();
    let mut slots = vec![ArgSlot::Ptr(0)];
    let ok = map_argv_to_slices(&pool, &mut slots, 1, VIEW_SLOT_WORDS - 1);
    assert!(!ok);
    assert_eq!(slots[0], ArgSlot::Ptr(0));
}
