use kernel::console::{ctrl, Cons, ReadStep, BACKSPACE, INPUT_BUF_SIZE};

fn typed(c: &mut Cons, s: &[u8]) {
    for &b in s {
        c.intr(b);
    }
}

#[test]
fn ctrl_keys() {
    assert_eq!(ctrl(b'D'), 4);
    assert_eq!(ctrl(b'H'), 8);
    assert_eq!(ctrl(b'P'), 16);
    assert_eq!(ctrl(b'U'), 21);
}

#[test]
fn typed_char_is_echoed_and_kept_until_newline() {
    let mut c = Cons::new();
    let out = c.intr(b'a');
    assert_eq!(out.echo, vec![b'a' as i32]);
    assert!(!out.wakeup);
    assert!(!out.procdump);
    assert_eq!((c.r, c.w, c.e), (0, 0, 1));
    // nothing committed yet
    assert!(matches!(c.read_step(false), ReadStep::Wait));
}

#[test]
fn carriage_return_commits_line_as_newline() {
    let mut c = Cons::new();
    typed(&mut c, b"hi");
    let out = c.intr(b'\r');
    assert_eq!(out.echo, vec![b'\n' as i32]);
    assert!(out.wakeup);
    assert_eq!(c.w, 3);
    assert!(matches!(c.read_step(false), ReadStep::Char(b'h')));
    assert!(matches!(c.read_step(true), ReadStep::Char(b'i')));
    assert!(matches!(c.read_step(true), ReadStep::Char(b'\n')));
    assert!(matches!(c.read_step(true), ReadStep::Wait));
}

#[test]
fn backspace_erases_last_char() {
    let mut c = Cons::new();
    typed(&mut c, b"ab");
    let out = c.intr(0x7f);
    assert_eq!(out.echo, vec![BACKSPACE]);
    assert_eq!(c.e, 1);
    let out = c.intr(ctrl(b'H'));
    assert_eq!(out.echo, vec![BACKSPACE]);
    assert_eq!(c.e, 0);
    // nothing left to erase
    let out = c.intr(0x7f);
    assert!(out.echo.is_empty());
    assert_eq!(c.e, 0);
}

#[test]
fn kill_line_erases_to_line_start() {
    let mut c = Cons::new();
    typed(&mut c, b"ok\nabc");
    let out = c.intr(ctrl(b'U'));
    assert_eq!(out.echo, vec![BACKSPACE, BACKSPACE, BACKSPACE]);
    assert_eq!((c.w, c.e), (3, 3));
}

#[test]
fn control_p_asks_for_process_list() {
    let mut c = Cons::new();
    let out = c.intr(ctrl(b'P'));
    assert!(out.procdump);
    assert!(out.echo.is_empty());
    assert_eq!(c.e, 0);
}

#[test]
fn nul_is_ignored() {
    let mut c = Cons::new();
    let out = c.intr(0);
    assert!(out.echo.is_empty());
    assert_eq!(c.e, 0);
}

#[test]
fn end_of_file_stays_for_next_read() {
    let mut c = Cons::new();
    typed(&mut c, b"x");
    let out = c.intr(ctrl(b'D'));
    assert!(out.wakeup);
    assert!(matches!(c.read_step(false), ReadStep::Char(b'x')));
    // some bytes already copied: ^D stays
    assert!(matches!(c.read_step(true), ReadStep::Eof));
    assert_eq!(c.r, 1);
    // next read gets end of file and consumes it
    assert!(matches!(c.read_step(false), ReadStep::Eof));
    assert_eq!(c.r, 2);
}

#[test]
fn full_buffer_commits_and_refuses_more() {
    let mut c = Cons::new();
    for _ in 0..INPUT_BUF_SIZE - 1 {
        let out = c.intr(b'z');
        assert!(!out.wakeup);
    }
    let out = c.intr(b'z');
    assert!(out.wakeup);
    assert_eq!(c.w, INPUT_BUF_SIZE);
    let out = c.intr(b'y');
    assert!(out.echo.is_empty());
    assert_eq!(c.e, INPUT_BUF_SIZE);
}

#[test]
fn line_read_ends_at_newline_eof_or_failed_copy() {
    let mut rd = kernel::console::LineRead::new(10);
    rd.copied(0x61, true);
    assert!(rd.wants());
    rd.copied(0x0a, true);
    assert!(!rd.wants());
    assert_eq!(rd.result(), 2);
    let mut short = kernel::console::LineRead::new(1);
    short.copied(0x61, true);
    assert!(!short.wants());
    assert_eq!(short.result(), 1);
    let mut bad = kernel::console::LineRead::new(4);
    bad.copied(0x61, false);
    assert_eq!(bad.result(), 0);
    let mut eof = kernel::console::LineRead::new(4);
    eof.copied(0x61, true);
    eof.eof();
    assert!(!eof.wants());
    assert_eq!(eof.result(), 1);
}
