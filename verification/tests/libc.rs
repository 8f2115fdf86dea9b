use rheo::libc::io::{close, open, read, stderr, stdout, FdWriter, O_RDONLY};
use rheo::libc::mem::{calloc_size, malloc_total, CHeap, HDR};
use rheo::libc::sys::{answer, exit, lseek, mmap, to_word, Call, SYS_LSEEK, SYS_MMAP};
use rheo::user::io::WriteAll;

#[test]
fn numbers_keep_their_sign_through_a_register() {
    for v in [0i64, 1, -1, i64::MAX, i64::MIN, -22] {
        assert_eq!(answer(to_word(v)), v);
    }
    assert_eq!(to_word(-1), u64::MAX);
}

#[test]
fn calls_have_their_numbers_and_arguments() {
    assert_eq!(mmap(4096), Call { nr: SYS_MMAP, a0: 4096, a1: 0, a2: 0 });
    assert_eq!(lseek(3, -8, 1), Call { nr: SYS_LSEEK, a0: 3, a1: to_word(-8), a2: 1 });
    assert_eq!(open(0x10, 5, O_RDONLY).a1, 5);
    assert_eq!(read(3, 0x20, 8).a0, 3);
    assert_eq!(close(3).a0, 3);
    assert_eq!(exit(7).a0, 7);
}

#[test]
fn a_writer_goes_on_behind_what_was_written() {
    let w = stdout();
    assert_eq!(w, FdWriter(1));
    assert_eq!(stderr(), FdWriter(2));
    let mut p = WriteAll::new(10);
    let c = w.next_write(0x1000, &p).unwrap();
    assert_eq!((c.a0, c.a1, c.a2), (1, 0x1000, 10));
    p.wrote(4);
    let c = w.next_write(0x1000, &p).unwrap();
    assert_eq!((c.a1, c.a2), (0x1004, 6));
    p.wrote(6);
    assert!(w.next_write(0x1000, &p).is_none());
}

#[test]
fn memory_is_given_behind_a_header() {
    let mut h = CHeap::new();
    let p = h.malloc(100, 0x1000);
    assert_eq!(p, 0x1000 + HDR);
    assert_eq!(h.malloc(100, 0), 0);
    h.free(p);
    h.free(0);
    let z = h.calloc(4, 8, 0x2000);
    assert_eq!(z, 0x2000 + HDR);
    let q = h.realloc(z, 64, 0x3000);
    assert_eq!(q, 0x3000 + HDR);
    assert_eq!(h.realloc(0, 16, 0x4000), 0x4000 + HDR);
}

#[test]
fn sizes_that_do_not_fit_are_refused() {
    assert_eq!(malloc_total(100), Some(116));
    assert_eq!(malloc_total(u64::MAX), None);
    assert_eq!(calloc_size(4, 8), Some(32));
    assert_eq!(calloc_size(u64::MAX, 2), None);
}
