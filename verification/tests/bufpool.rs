use rufka::bufpool::{get_buffer, put_buffer, Pool};

#[test]
fn empty_pool_yields_zeros() {
    let mut pool = Pool::new();
    let buffer = get_buffer(&mut pool, 4);
    assert_eq!(buffer.len(), 4);
    assert_eq!(buffer.as_slice(), &[0u8; 4][..]);
    assert_eq!(pool.len(), 0);
    let none = get_buffer(&mut pool, 0);
    assert_eq!(none.len(), 0);
}

#[test]
fn pool_hands_out_the_latest_buffer_first() {
    let mut pool = Pool::new();
    let mut first = get_buffer(&mut pool, 2);
    first.as_mut_slice().copy_from_slice(b"aa");
    let mut second = get_buffer(&mut pool, 2);
    second.as_mut_slice().copy_from_slice(b"bb");
    put_buffer(&mut pool, first);
    put_buffer(&mut pool, second);
    assert_eq!(pool.len(), 2);
    assert_eq!(get_buffer(&mut pool, 2).as_slice(), &b"bb"[..]);
    assert_eq!(pool.len(), 1);
    assert_eq!(get_buffer(&mut pool, 2).as_slice(), &b"aa"[..]);
    assert_eq!(pool.len(), 0);
}

#[test]
fn reused_buffer_is_cut_or_zero_extended() {
    let mut pool = Pool::new();
    let mut buffer = get_buffer(&mut pool, 4);
    buffer.as_mut_slice().copy_from_slice(b"abcd");
    put_buffer(&mut pool, buffer);
    let shorter = get_buffer(&mut pool, 2);
    assert_eq!(shorter.as_slice(), &b"ab"[..]);
    put_buffer(&mut pool, shorter);
    let longer = get_buffer(&mut pool, 5);
    assert_eq!(longer.as_slice(), &b"ab\0\0\0"[..]);
}
