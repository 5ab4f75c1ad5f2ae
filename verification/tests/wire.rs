use sval_protobuf::raw::{VarInt, WireType, I32, I64};

#[test]
fn varint_uint64_len() {
    for n in (0u64..(u16::MAX as u64)).into_iter().chain(
        [
            u32::MAX as u64 - 1,
            u32::MAX as u64,
            u32::MAX as u64 + 1,
            u64::MAX,
        ]
        .into_iter(),
    ) {
        let v = VarInt::uint64(n);

        assert_eq!(v.len(), v.fill_bytes().len(), "{}", n);
    }
}

#[test]
fn encode_varint_uint64() {
    for (case, expected) in [
        (0, &[0u8] as &[u8]),
        (1, &[1u8] as &[u8]),
        (255, &[255u8, 1u8] as &[u8]),
        (
            u64::MAX,
            &[
                255u8, 255u8, 255u8, 255u8, 255u8, 255u8, 255u8, 255u8, 255u8, 1u8,
            ] as &[u8],
        ),
    ] {
        let varint = VarInt::uint64(case);

        assert_eq!(expected, varint.fill_bytes().as_slice(), "{}", case);

        assert_eq!(varint.len(), varint.fill_bytes().len(), "{}", case);
    }
}

#[test]
fn encode_varint_sint64() {
    for (case, expected) in [
        (0, &[0u8] as &[u8]),
        (1, &[1u8] as &[u8]),
        (
            -1,
            &[
                255u8, 255u8, 255u8, 255u8, 255u8, 255u8, 255u8, 255u8, 255u8, 1u8,
            ] as &[u8],
        ),
        (
            i64::MIN,
            &[
                128u8, 128u8, 128u8, 128u8, 128u8, 128u8, 128u8, 128u8, 128u8, 1u8,
            ] as &[u8],
        ),
        (
            i64::MAX,
            &[
                255u8, 255u8, 255u8, 255u8, 255u8, 255u8, 255u8, 255u8, 127u8,
            ] as &[u8],
        ),
    ] {
        assert_eq!(
            expected,
            VarInt::sint64(case).fill_bytes().as_slice(),
            "{}",
            case
        );
    }
}

#[test]
fn encode_varint_sint64z() {
    for (case, expected) in [
        (0, &[0u8] as &[u8]),
        (1, &[2u8] as &[u8]),
        (-1, &[1u8] as &[u8]),
        (
            i64::MIN,
            &[
                255u8, 255u8, 255u8, 255u8, 255u8, 255u8, 255u8, 255u8, 255u8, 1u8,
            ] as &[u8],
        ),
        (
            i64::MAX,
            &[
                254u8, 255u8, 255u8, 255u8, 255u8, 255u8, 255u8, 255u8, 255u8, 1u8,
            ] as &[u8],
        ),
    ] {
        assert_eq!(
            expected,
            VarInt::sint64z(case).fill_bytes().as_slice(),
            "{}",
            case
        );
    }
}

#[test]
fn fixed_width_bytes() {
    assert_eq!(
        vec![0xFF, 0xFF, 0xFF, 0xFF],
        I32::fixed32(u32::MAX).to_bytes()
    );
    assert_eq!(vec![0x00, 0x00, 0x00, 0x80], I32::sfixed32(i32::MIN).to_bytes());
    assert_eq!(4, I32::fixed32(7).len());
    assert_eq!(
        vec![0xFF, 0xFF, 0xFF, 0xFF, 0xFF, 0xFF, 0xFF, 0xFF],
        I64::fixed64(u64::MAX).to_bytes()
    );
    assert_eq!(
        vec![0x00, 0x00, 0x00, 0x00, 0x00, 0x00, 0x00, 0x80],
        I64::sfixed64(i64::MIN).to_bytes()
    );
    assert_eq!(8, I64::fixed64(7).len());
}

#[test]
fn field_tags() {
    assert_eq!(vec![0x08], VarInt::field(1, WireType::VarInt).fill_bytes());
    assert_eq!(vec![0x09], VarInt::field(1, WireType::I64).fill_bytes());
    assert_eq!(vec![0x0A], VarInt::field(1, WireType::Len).fill_bytes());
    assert_eq!(vec![0x0D], VarInt::field(1, WireType::I32).fill_bytes());
    assert_eq!(
        vec![0x98, 0x01],
        VarInt::field(19, WireType::VarInt).fill_bytes()
    );
}

#[test]
fn bool_and_enum_varints() {
    assert_eq!(vec![0x01], VarInt::bool(true).fill_bytes());
    assert_eq!(vec![0x00], VarInt::bool(false).fill_bytes());
    assert_eq!(
        vec![
            0xFD, 0xFF, 0xFF, 0xFF, 0xFF, 0xFF, 0xFF, 0xFF, 0xFF, 0x01
        ],
        VarInt::enum32(-3).fill_bytes()
    );
}
