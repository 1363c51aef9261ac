use chatproto::bytes::{get_le, put_le};

#[test]
fn little_endian_fixed_widths() {
    let mut w = vec![9];
    put_le(&mut w, 0x0102, 2);
    put_le(&mut w, 0x0102, 4);
    put_le(&mut w, 0x0102, 0);
    put_le(&mut w, 0x0a0b0c0d, 3);
    assert_eq!(w, &[9, 2, 1, 2, 1, 0, 0, 0x0d, 0x0c, 0x0b]);
    assert_eq!(get_le(&w, 1, 2), 0x0102);
    assert_eq!(get_le(&w, 3, 4), 0x0102);
    assert_eq!(get_le(&w, 7, 3), 0x0b0c0d);
    assert_eq!(get_le(&w, 0, 0), 0);
    assert_eq!(get_le(&w, 10, 0), 0);
}

#[test]
fn little_endian_sixteen_bytes() {
    let value = 0x0102030405060708090a0b0c0d0e0f10u128;
    let mut w = Vec::new();
    put_le(&mut w, value, 16);
    assert_eq!(
        w,
        &[16, 15, 14, 13, 12, 11, 10, 9, 8, 7, 6, 5, 4, 3, 2, 1]
    );
    assert_eq!(get_le(&w, 0, 16), value);
    let mut w = Vec::new();
    put_le(&mut w, u128::MAX, 16);
    assert_eq!(get_le(&w, 0, 16), u128::MAX);
    let mut w = Vec::new();
    put_le(&mut w, 1, 17);
    assert_eq!(w.len(), 17);
    assert_eq!(w[0], 1);
    assert_eq!(w[16], 0);
}
