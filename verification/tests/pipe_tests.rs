use kernel::pipe::{Pipe, ReadStep, WriteStep, PIPESIZE};

#[test]
fn bytes_come_out_in_order() {
    let mut p = Pipe::new();
    assert!(p.is_empty());
    p.put(1);
    p.put(2);
    p.put(3);
    assert_eq!(p.get(), 1);
    p.put(4);
    assert_eq!(p.get(), 2);
    assert_eq!(p.get(), 3);
    assert_eq!(p.get(), 4);
    assert!(p.is_empty());
}

#[test]
fn full_pipe_makes_writer_wait() {
    let mut p = Pipe::new();
    for i in 0..PIPESIZE {
        assert!(matches!(p.write_step(false), WriteStep::Ready));
        p.put(i as u8);
    }
    assert!(p.is_full());
    assert!(matches!(p.write_step(false), WriteStep::Wait));
    assert_eq!(p.get(), 0);
    assert!(matches!(p.write_step(false), WriteStep::Ready));
}

#[test]
fn write_fails_when_reader_gone_or_killed() {
    let mut p = Pipe::new();
    assert!(matches!(p.write_step(true), WriteStep::Fail));
    assert!(!p.close(false));
    assert!(matches!(p.write_step(false), WriteStep::Fail));
}

#[test]
fn reader_waits_until_writer_closes() {
    let mut p = Pipe::new();
    assert!(matches!(p.read_step(false), ReadStep::Wait));
    assert!(matches!(p.read_step(true), ReadStep::Fail));
    p.put(7);
    assert!(matches!(p.read_step(true), ReadStep::Ready));
    assert_eq!(p.get(), 7);
    assert!(!p.close(true));
    assert!(matches!(p.read_step(false), ReadStep::Ready));
}

#[test]
fn closing_both_ends_frees_the_pipe() {
    let mut p = Pipe::new();
    assert!(!p.close(true));
    assert!(!p.writeopen);
    assert!(p.readopen);
    assert!(p.close(false));
}

#[test]
fn counters_wrap_around_the_buffer() {
    let mut p = Pipe::new();
    for round in 0..3u8 {
        for i in 0..PIPESIZE {
            p.put((i as u8).wrapping_add(round));
        }
        for i in 0..PIPESIZE {
            assert_eq!(p.get(), (i as u8).wrapping_add(round));
        }
    }
    assert_eq!(p.nread, 3 * PIPESIZE as u32);
}

#[test]
fn transfer_stops_at_first_failed_byte() {
    let mut t = kernel::pipe::Transfer::new(3);
    assert!(t.wants());
    t.moved(true);
    t.moved(false);
    assert!(!t.wants());
    assert_eq!(t.result(), 1);
    let mut all = kernel::pipe::Transfer::new(2);
    all.moved(true);
    all.moved(true);
    assert!(!all.wants());
    assert_eq!(all.result(), 2);
    let mut empty = kernel::pipe::Transfer::new(5);
    empty.stop();
    assert!(!empty.wants());
    assert_eq!(empty.result(), 0);
}
