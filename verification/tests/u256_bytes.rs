use u256::U256;

#[test]
fn from_be_bytes_reads_big_endian() {
    assert_eq!(U256::from_be_bytes(&[1, 0]), U256::from_u64(256));
    assert_eq!(U256::from_be_bytes(&[0xDE, 0xAD, 0xBE, 0xEF]), U256::from_u64(0xDEAD_BEEF));
}

#[test]
fn from_be_bytes_short_input_is_left_padded() {
    assert_eq!(U256::from_be_bytes(&[7]), U256::from_u64(7));
    assert_eq!(U256::from_be_bytes(&[]), U256::zero());
}

#[test]
fn from_be_bytes_fills_all_limbs() {
    let mut bytes = [0u8; 32];
    bytes[0] = 1; // the most significant byte
    let v = U256::from_be_bytes(&bytes);
    assert_eq!(v, U256 { limb0: 0, limb1: 0, limb2: 0, limb3: 1 << 56 });
}

#[test]
fn to_be_bytes_writes_32_bytes() {
    let out = U256::from_u64(1).to_be_bytes();
    assert_eq!(out.len(), 32);
    assert_eq!(out[31], 1);
    for i in 0..31 {
        assert_eq!(out[i], 0);
    }
}

#[test]
fn byte_round_trip_from_32_bytes() {
    let mut bytes = [0u8; 32];
    for i in 0..32 {
        bytes[i] = (7 * i + 3) as u8;
    }
    let v = U256::from_be_bytes(&bytes);
    let back = v.to_be_bytes();
    assert_eq!(&back[..], &bytes[..]);
}

#[test]
fn byte_round_trip_from_value() {
    let v = U256 {
        limb0: 0x0123_4567_89AB_CDEF,
        limb1: u64::MAX,
        limb2: 42,
        limb3: 1 << 63,
    };
    assert_eq!(U256::from_be_bytes(&v.to_be_bytes()), v);
}
