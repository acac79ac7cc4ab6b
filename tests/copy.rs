use hps::copy::{get_buf_range, CopyProgress};
use hps::util::compose;

#[test]
fn copy_reads_bounded_by_scratch() {
    let mut p = CopyProgress::new(10);
    assert!(!p.is_done());
    assert_eq!(p.next_read_len(4), 4);
    assert_eq!(p.record_read(4), Ok(()));
    assert_eq!(p.remaining, 6);
    assert_eq!(p.next_read_len(8192), 6);
    assert_eq!(p.record_read(6), Ok(()));
    assert!(p.is_done());
    assert_eq!(p.next_read_len(4), 0);
}

#[test]
fn copy_eof_reports_missing() {
    let mut p = CopyProgress::new(10);
    assert_eq!(p.record_read(3), Ok(()));
    assert_eq!(p.record_read(0), Err(7));
    assert_eq!(p.remaining, 7);
    let mut q = CopyProgress::new(5);
    assert_eq!(q.record_read(0), Err(5));
}

#[test]
fn zero_length_copy_is_done() {
    assert!(CopyProgress::new(0).is_done());
}

#[test]
fn buf_range() {
    assert_eq!(get_buf_range(3, 10), 3);
    assert_eq!(get_buf_range(10, 3), 3);
    assert_eq!(get_buf_range(5, 5), 5);
}

#[test]
fn composes_in_order() {
    let h = compose(|x: u32| x + 1, |y: u32| y * 10);
    assert_eq!(h(4), 50);
}
