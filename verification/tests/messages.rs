use sval_protobuf::buf::{ProtoBuf, ProtoBufMut};
use sval_protobuf::{ProtoBufStream, StreamIndex, StreamTag};

fn off(i: u64) -> StreamIndex {
    StreamIndex {
        value: Some(i),
        from_offset: true,
    }
}

fn explicit(i: u64) -> StreamIndex {
    StreamIndex {
        value: Some(i),
        from_offset: false,
    }
}

fn assert_proto(expected: &[u8], actual: &[u8]) {
    let roundtrip = ProtoBuf::pre_encoded(actual.to_vec());
    assert_eq!(roundtrip.len(), roundtrip.to_vec().len());
    assert_eq!(actual, roundtrip.to_vec().as_slice());

    assert_eq!(expected, actual);
}

fn push_text(stream: &mut ProtoBufStream, s: &str) {
    stream.text_begin(Some(s.len()));
    stream.text_fragment_computed(s);
    stream.text_end();
}

#[test]
fn basic() {
    let expected: &[u8] = &[
        0x08, 0x01, 0x12, 0x0C, 0x53, 0x6F, 0x6D, 0x65, 0x20, 0x63, 0x6F, 0x6E, 0x74, 0x65, 0x6E,
        0x74,
    ];

    let raw = {
        let mut buf = ProtoBufMut::new(());

        buf.push_field_varint(1);
        buf.push_varint_uint64(1);

        buf.push_field_len(2);
        buf.begin_len(());
        buf.push(b"Some content");
        buf.end_len();

        buf.freeze().to_vec()
    };

    // The same record driven through the event stream, as a tuple
    let sval1 = {
        let mut stream = ProtoBufStream::new();

        stream.tuple_begin(None, Some(3));
        stream.tuple_value_begin(&off(0));
        stream.i32(1);
        stream.tuple_value_end();
        stream.tuple_value_begin(&off(1));
        push_text(&mut stream, "Some content");
        stream.tuple_value_end();
        stream.tuple_value_begin(&off(2));
        stream.tag(Some(StreamTag::OptionNone), None);
        stream.tuple_value_end();
        stream.tuple_end(None);

        stream.freeze().to_vec()
    };

    // ... and as a record with named fields
    let sval2 = {
        let mut stream = ProtoBufStream::new();

        stream.record_tuple_begin(None, Some(3));
        stream.record_tuple_value_begin(&off(0));
        stream.i32(1);
        stream.record_tuple_value_end();
        stream.record_tuple_value_begin(&off(1));
        push_text(&mut stream, "Some content");
        stream.record_tuple_value_end();
        stream.record_tuple_value_begin(&off(2));
        stream.tag(Some(StreamTag::OptionNone), None);
        stream.record_tuple_value_end();
        stream.record_tuple_end(None);

        stream.freeze().to_vec()
    };

    assert_proto(expected, &raw);
    assert_proto(expected, &sval1);
    assert_proto(expected, &sval2);
}

#[test]
fn basic_scalar() {
    let expected: &[u8] = &[
        0x09, 0x6F, 0x12, 0x83, 0xC0, 0xCA, 0x21, 0x09, 0x40, 0x15, 0xC3, 0xF5, 0x48, 0x40, 0x18,
        0x80, 0x80, 0x80, 0x80, 0xF8, 0xFF, 0xFF, 0xFF, 0xFF, 0x01, 0x20, 0x80, 0x80, 0x80, 0x80,
        0x80, 0x80, 0x80, 0x80, 0x80, 0x01, 0x28, 0xFF, 0xFF, 0xFF, 0xFF, 0x0F, 0x30, 0xFF, 0xFF,
        0xFF, 0xFF, 0xFF, 0xFF, 0xFF, 0xFF, 0xFF, 0x01, 0x38, 0xFF, 0xFF, 0xFF, 0xFF, 0x0F, 0x40,
        0xFF, 0xFF, 0xFF, 0xFF, 0xFF, 0xFF, 0xFF, 0xFF, 0xFF, 0x01, 0x4D, 0xFF, 0xFF, 0xFF, 0xFF,
        0x51, 0xFF, 0xFF, 0xFF, 0xFF, 0xFF, 0xFF, 0xFF, 0xFF, 0x5D, 0x00, 0x00, 0x00, 0x80, 0x61,
        0x00, 0x00, 0x00, 0x00, 0x00, 0x00, 0x00, 0x80, 0x68, 0x01, 0x72, 0x03, 0x61, 0x62, 0x63,
        0x7A, 0x03, 0x31, 0x32, 0x33,
    ];

    let raw = {
        let mut buf = ProtoBufMut::new(());

        buf.push_field_i64(1);
        buf.push_i64_fixed64(3.1415f64.to_bits());

        buf.push_field_i32(2);
        buf.push_i32_fixed32(3.14f32.to_bits());

        buf.push_field_varint(3);
        buf.push_varint_sint64(i32::MIN as i64);

        buf.push_field_varint(4);
        buf.push_varint_sint64(i64::MIN);

        buf.push_field_varint(5);
        buf.push_varint_uint64(u32::MAX as u64);

        buf.push_field_varint(6);
        buf.push_varint_uint64(u64::MAX);

        buf.push_field_varint(7);
        buf.push_varint_sint64z(i32::MIN as i64);

        buf.push_field_varint(8);
        buf.push_varint_sint64z(i64::MIN);

        buf.push_field_i32(9);
        buf.push_i32_fixed32(u32::MAX);

        buf.push_field_i64(10);
        buf.push_i64_fixed64(u64::MAX);

        buf.push_field_i32(11);
        buf.push_i32_sfixed32(i32::MIN);

        buf.push_field_i64(12);
        buf.push_i64_sfixed64(i64::MIN);

        buf.push_field_varint(13);
        buf.push_varint_bool(true);

        buf.push_field_len(14);
        buf.push_len_varint_uint64(3);
        buf.push(b"abc");

        buf.push_field_len(15);
        buf.push_len_varint_uint64(3);
        buf.push(b"123");

        buf.freeze().to_vec()
    };

    let (sval1, sval2) = {
        let mut stream = ProtoBufStream::new();

        stream.record_tuple_begin(None, Some(15));

        stream.record_tuple_value_begin(&off(0));
        stream.f64_bits(3.1415f64.to_bits());
        stream.record_tuple_value_end();

        stream.record_tuple_value_begin(&off(1));
        stream.f32_bits(3.14f32.to_bits());
        stream.record_tuple_value_end();

        stream.record_tuple_value_begin(&off(2));
        stream.i32(i32::MIN);
        stream.record_tuple_value_end();

        stream.record_tuple_value_begin(&off(3));
        stream.i64(i64::MIN);
        stream.record_tuple_value_end();

        stream.record_tuple_value_begin(&off(4));
        stream.u32(u32::MAX);
        stream.record_tuple_value_end();

        stream.record_tuple_value_begin(&off(5));
        stream.u64(u64::MAX);
        stream.record_tuple_value_end();

        stream.record_tuple_value_begin(&off(6));
        stream.tagged_begin(Some(StreamTag::VarintSigned), None);
        stream.i32(i32::MIN);
        stream.tagged_end(None);
        stream.record_tuple_value_end();

        stream.record_tuple_value_begin(&off(7));
        stream.tagged_begin(Some(StreamTag::VarintSigned), None);
        stream.i64(i64::MIN);
        stream.tagged_end(None);
        stream.record_tuple_value_end();

        stream.record_tuple_value_begin(&off(8));
        stream.tagged_begin(Some(StreamTag::I32), None);
        stream.u32(u32::MAX);
        stream.tagged_end(None);
        stream.record_tuple_value_end();

        stream.record_tuple_value_begin(&off(9));
        stream.tagged_begin(Some(StreamTag::I64), None);
        stream.u64(u64::MAX);
        stream.tagged_end(None);
        stream.record_tuple_value_end();

        stream.record_tuple_value_begin(&off(10));
        stream.tagged_begin(Some(StreamTag::I32), None);
        stream.i32(i32::MIN);
        stream.tagged_end(None);
        stream.record_tuple_value_end();

        stream.record_tuple_value_begin(&off(11));
        stream.tagged_begin(Some(StreamTag::I64), None);
        stream.i64(i64::MIN);
        stream.tagged_end(None);
        stream.record_tuple_value_end();

        stream.record_tuple_value_begin(&off(12));
        stream.bool(true);
        stream.record_tuple_value_end();

        stream.record_tuple_value_begin(&off(13));
        push_text(&mut stream, "abc");
        stream.record_tuple_value_end();

        stream.record_tuple_value_begin(&off(14));
        stream.binary_begin(Some(3));
        stream.binary_fragment_computed(b"123");
        stream.binary_end();
        stream.record_tuple_value_end();

        stream.record_tuple_end(None);

        let buf = stream.freeze();

        let sval1 = buf.to_vec();

        let mut sval2 = Vec::new();
        buf.into_cursor().copy_to_vec(&mut sval2);

        (sval1, sval2)
    };

    assert_proto(expected, &raw);
    assert_proto(expected, &sval1);
    assert_proto(expected, &sval2);
}

#[test]
fn basic_scalar_default() {
    // All-default scalars are still written out when streamed directly
    let expected: &[u8] = &[
        0x09, 0x00, 0x00, 0x00, 0x00, 0x00, 0x00, 0x00, 0x00, 0x15, 0x00, 0x00, 0x00, 0x00, 0x18,
        0x00, 0x20, 0x00, 0x28, 0x00, 0x30, 0x00, 0x38, 0x00, 0x40, 0x00, 0x4D, 0x00, 0x00, 0x00,
        0x00, 0x51, 0x00, 0x00, 0x00, 0x00, 0x00, 0x00, 0x00, 0x00, 0x5D, 0x00, 0x00, 0x00, 0x00,
        0x61, 0x00, 0x00, 0x00, 0x00, 0x00, 0x00, 0x00, 0x00, 0x68, 0x00, 0x72, 0x00, 0x7A, 0x00,
    ];

    let sval = {
        let mut stream = ProtoBufStream::new();

        stream.record_tuple_begin(None, Some(15));

        stream.record_tuple_value_begin(&off(0));
        stream.f64_bits(0.0f64.to_bits());
        stream.record_tuple_value_end();

        stream.record_tuple_value_begin(&off(1));
        stream.f32_bits(0.0f32.to_bits());
        stream.record_tuple_value_end();

        stream.record_tuple_value_begin(&off(2));
        stream.i32(0);
        stream.record_tuple_value_end();

        stream.record_tuple_value_begin(&off(3));
        stream.i64(0);
        stream.record_tuple_value_end();

        stream.record_tuple_value_begin(&off(4));
        stream.u32(0);
        stream.record_tuple_value_end();

        stream.record_tuple_value_begin(&off(5));
        stream.u64(0);
        stream.record_tuple_value_end();

        stream.record_tuple_value_begin(&off(6));
        stream.tagged_begin(Some(StreamTag::VarintSigned), None);
        stream.i32(0);
        stream.tagged_end(None);
        stream.record_tuple_value_end();

        stream.record_tuple_value_begin(&off(7));
        stream.tagged_begin(Some(StreamTag::VarintSigned), None);
        stream.i64(0);
        stream.tagged_end(None);
        stream.record_tuple_value_end();

        stream.record_tuple_value_begin(&off(8));
        stream.tagged_begin(Some(StreamTag::I32), None);
        stream.i32(0);
        stream.tagged_end(None);
        stream.record_tuple_value_end();

        stream.record_tuple_value_begin(&off(9));
        stream.tagged_begin(Some(StreamTag::I64), None);
        stream.i64(0);
        stream.tagged_end(None);
        stream.record_tuple_value_end();

        stream.record_tuple_value_begin(&off(10));
        stream.tagged_begin(Some(StreamTag::I32), None);
        stream.i32(0);
        stream.tagged_end(None);
        stream.record_tuple_value_end();

        stream.record_tuple_value_begin(&off(11));
        stream.tagged_begin(Some(StreamTag::I64), None);
        stream.i64(0);
        stream.tagged_end(None);
        stream.record_tuple_value_end();

        stream.record_tuple_value_begin(&off(12));
        stream.bool(false);
        stream.record_tuple_value_end();

        stream.record_tuple_value_begin(&off(13));
        push_text(&mut stream, "");
        stream.record_tuple_value_end();

        stream.record_tuple_value_begin(&off(14));
        stream.binary_begin(Some(0));
        stream.binary_fragment_computed(b"");
        stream.binary_end();
        stream.record_tuple_value_end();

        stream.record_tuple_end(None);

        stream.freeze().to_vec()
    };

    assert_proto(expected, &sval);
}

#[test]
fn basic_non_contiguous_fields() {
    let expected: &[u8] = &[
        0x20, 0x01, 0x5A, 0x0C, 0x53, 0x6F, 0x6D, 0x65, 0x20, 0x63, 0x6F, 0x6E, 0x74, 0x65, 0x6E,
        0x74, 0x98, 0x01, 0x08,
    ];

    let raw = {
        let mut buf = ProtoBufMut::new(());

        buf.push_field_varint(4);
        buf.push_varint_uint64(1);

        buf.push_field_len(11);
        buf.begin_len(());
        buf.push(b"Some content");
        buf.end_len();

        buf.push_field_varint(19);
        buf.push_varint_uint64(8);

        buf.freeze().to_vec()
    };

    let sval = {
        let mut stream = ProtoBufStream::new();

        stream.record_tuple_begin(None, Some(3));
        stream.record_tuple_value_begin(&explicit(4));
        stream.i32(1);
        stream.record_tuple_value_end();
        stream.record_tuple_value_begin(&explicit(11));
        push_text(&mut stream, "Some content");
        stream.record_tuple_value_end();
        stream.record_tuple_value_begin(&explicit(19));
        // An optional field that is present streams as a plain tagged value
        stream.tagged_begin(None, None);
        stream.i32(8);
        stream.tagged_end(None);
        stream.record_tuple_value_end();
        stream.record_tuple_end(None);

        stream.freeze().to_vec()
    };

    assert_proto(expected, &raw);
    assert_proto(expected, &sval);
}

#[test]
fn basic_optional() {
    let expected: &[u8] = &[0x08, 0x01];

    let raw = {
        let mut buf = ProtoBufMut::new(());

        buf.push_field_varint(1);
        buf.push_varint_uint64(1);

        buf.freeze().to_vec()
    };

    let sval = {
        let mut stream = ProtoBufStream::new();

        stream.record_tuple_begin(None, Some(1));
        stream.record_tuple_value_begin(&off(0));
        stream.tagged_begin(None, None);
        stream.i32(1);
        stream.tagged_end(None);
        stream.record_tuple_value_end();
        stream.record_tuple_end(None);

        stream.freeze().to_vec()
    };

    assert_proto(expected, &raw);
    assert_proto(expected, &sval);
}

#[test]
fn basic_repeated() {
    let expected: &[u8] = &[0x1A, 0x01, 0x31, 0x1A, 0x01, 0x32, 0x1A, 0x01, 0x33];

    let raw = {
        let mut buf = ProtoBufMut::new(());

        buf.push_field_len(3);
        buf.begin_len(());
        buf.push(b"1");
        buf.end_len();

        buf.push_field_len(3);
        buf.begin_len(());
        buf.push(b"2");
        buf.end_len();

        buf.push_field_len(3);
        buf.begin_len(());
        buf.push(b"3");
        buf.end_len();

        buf.freeze().to_vec()
    };

    let sval1 = {
        let mut stream = ProtoBufStream::new();

        stream.record_tuple_begin(None, Some(1));
        stream.record_tuple_value_begin(&explicit(3));
        stream.seq_begin(Some(3));
        for s in ["1", "2", "3"] {
            stream.seq_value_begin();
            push_text(&mut stream, s);
            stream.seq_value_end();
        }
        stream.seq_end();
        stream.record_tuple_value_end();
        stream.record_tuple_end(None);

        stream.freeze().to_vec()
    };

    // Absent optional elements contribute nothing
    let sval2 = {
        let mut stream = ProtoBufStream::new();

        stream.record_tuple_begin(None, Some(1));
        stream.record_tuple_value_begin(&explicit(3));
        stream.seq_begin(Some(7));
        for s in [None, Some("1"), None, Some("2"), Some("3"), None, None] {
            stream.seq_value_begin();
            match s {
                Some(s) => {
                    stream.tagged_begin(None, None);
                    push_text(&mut stream, s);
                    stream.tagged_end(None);
                }
                None => stream.tag(Some(StreamTag::OptionNone), None),
            }
            stream.seq_value_end();
        }
        stream.seq_end();
        stream.record_tuple_value_end();
        stream.record_tuple_end(None);

        stream.freeze().to_vec()
    };

    assert_proto(expected, &raw);
    assert_proto(expected, &sval1);
    assert_proto(expected, &sval2);
}

#[test]
fn basic_repeated_packed() {
    let expected: &[u8] = &[0x0A, 0x03, 0x01, 0x02, 0x03];

    let raw = {
        let mut buf = ProtoBufMut::new(());

        buf.push_field_len(1);
        buf.begin_len(());
        buf.push_varint_uint64(1);
        buf.push_varint_uint64(2);
        buf.push_varint_uint64(3);
        buf.end_len();

        buf.freeze().to_vec()
    };

    let sval = {
        let mut stream = ProtoBufStream::new();

        stream.record_tuple_begin(None, Some(1));
        stream.record_tuple_value_begin(&off(0));
        stream.tagged_begin(Some(StreamTag::LenPacked), None);
        stream.seq_begin(Some(3));
        for v in [1, 2, 3] {
            stream.seq_value_begin();
            stream.i32(v);
            stream.seq_value_end();
        }
        stream.seq_end();
        stream.tagged_end(None);
        stream.record_tuple_value_end();
        stream.record_tuple_end(None);

        stream.freeze().to_vec()
    };

    assert_proto(expected, &raw);
    assert_proto(expected, &sval);
}

#[test]
fn basic_map() {
    let expected: &[u8] = &[
        0x0A, 0x05, 0x0A, 0x01, 0x61, 0x10, 0x01, 0x0A, 0x05, 0x0A, 0x01, 0x62, 0x10, 0x02, 0x0A,
        0x05, 0x0A, 0x01, 0x63, 0x10, 0x03,
    ];

    let raw = {
        let mut buf = ProtoBufMut::new(());

        for (key, value) in [(b"a", 1u64), (b"b", 2), (b"c", 3)] {
            buf.push_field_len(1);
            buf.begin_len(());
            buf.push_field_len(1);
            buf.begin_len(());
            buf.push(key);
            buf.end_len();
            buf.push_field_varint(2);
            buf.push_varint_uint64(value);
            buf.end_len();
        }

        buf.freeze().to_vec()
    };

    let sval = {
        let mut stream = ProtoBufStream::new();

        stream.record_tuple_begin(None, Some(1));
        stream.record_tuple_value_begin(&off(0));
        stream.map_begin(Some(3));
        for (key, value) in [("a", 1), ("b", 2), ("c", 3)] {
            stream.map_key_begin();
            push_text(&mut stream, key);
            stream.map_key_end();
            stream.map_value_begin();
            stream.i32(value);
            stream.map_value_end();
        }
        stream.map_end();
        stream.record_tuple_value_end();
        stream.record_tuple_end(None);

        stream.freeze().to_vec()
    };

    assert_proto(expected, &raw);
    assert_proto(expected, &sval);
}

#[test]
fn basic_enum() {
    let expected: &[u8] = &[
        0x08, 0xFD, 0xFF, 0xFF, 0xFF, 0xFF, 0xFF, 0xFF, 0xFF, 0xFF, 0x01,
    ];

    let raw = {
        let mut buf = ProtoBufMut::new(());

        buf.push_field_varint(1);
        buf.push_varint_sint64(-3);

        buf.freeze().to_vec()
    };

    let sval = {
        let mut stream = ProtoBufStream::new();

        stream.record_tuple_begin(None, Some(1));
        stream.record_tuple_value_begin(&off(0));
        stream.enum_begin(None);
        stream.tag(None, Some(-3));
        stream.enum_end(None);
        stream.record_tuple_value_end();
        stream.record_tuple_end(None);

        stream.freeze().to_vec()
    };

    assert_proto(expected, &raw);
    assert_proto(expected, &sval);
}

#[test]
fn basic_oneof() {
    let expected: &[u8] = &[0x10, 0x01];

    let raw = {
        let mut buf = ProtoBufMut::new(());

        buf.push_field_varint(2);
        buf.push_varint_bool(true);

        buf.freeze().to_vec()
    };

    // A record whose one-of field is flattened into the record itself
    let sval1 = {
        let mut stream = ProtoBufStream::new();

        stream.record_tuple_begin(None, Some(1));
        stream.enum_begin(None);
        stream.tagged_begin(None, Some(off(1)));
        stream.bool(true);
        stream.tagged_end(Some(off(1)));
        stream.enum_end(None);
        stream.record_tuple_end(None);

        stream.freeze().to_vec()
    };

    // A standalone variant encodes identically
    let sval2 = {
        let mut stream = ProtoBufStream::new();

        stream.enum_begin(None);
        stream.tagged_begin(None, Some(off(1)));
        stream.bool(true);
        stream.tagged_end(Some(off(1)));
        stream.enum_end(None);

        stream.freeze().to_vec()
    };

    assert_proto(expected, &raw);
    assert_proto(expected, &sval1);
    assert_proto(expected, &sval2);
}

#[test]
fn nested_oneof() {
    let expected: &[u8] = &[0x0A, 0x02, 0x10, 0x01];

    let raw = {
        let mut buf = ProtoBufMut::new(());

        buf.push_field_len(1);
        buf.begin_len(());
        buf.push_field_varint(2);
        buf.push_varint_bool(true);
        buf.end_len();

        buf.freeze().to_vec()
    };

    let sval1 = {
        let mut stream = ProtoBufStream::new();

        stream.record_tuple_begin(None, Some(1));
        stream.record_tuple_value_begin(&off(0));
        stream.record_tuple_begin(None, Some(1));
        stream.enum_begin(None);
        stream.tagged_begin(None, Some(off(1)));
        stream.bool(true);
        stream.tagged_end(Some(off(1)));
        stream.enum_end(None);
        stream.record_tuple_end(None);
        stream.record_tuple_value_end();
        stream.record_tuple_end(None);

        stream.freeze().to_vec()
    };

    let sval2 = {
        let mut stream = ProtoBufStream::new();

        stream.record_tuple_begin(None, Some(1));
        stream.record_tuple_value_begin(&off(0));
        stream.enum_begin(None);
        stream.tagged_begin(None, Some(off(1)));
        stream.bool(true);
        stream.tagged_end(Some(off(1)));
        stream.enum_end(None);
        stream.record_tuple_value_end();
        stream.record_tuple_end(None);

        stream.freeze().to_vec()
    };

    assert_proto(expected, &raw);
    assert_proto(expected, &sval1);
    assert_proto(expected, &sval2);
}

#[test]
fn nested() {
    let expected: &[u8] = &[
        0x0A, 0x12, 0x0A, 0x02, 0x08, 0x01, 0x12, 0x0A, 0x53, 0x6F, 0x6D, 0x65, 0x20, 0x62, 0x79,
        0x74, 0x65, 0x73, 0x18, 0x02, 0x12, 0x09, 0x53, 0x6F, 0x6D, 0x65, 0x20, 0x74, 0x65, 0x78,
        0x74, 0x18, 0x02,
    ];

    let raw = {
        let mut buf = ProtoBufMut::new(());

        // a: the inner record
        buf.push_field_len(1);
        buf.begin_len(());

        // a.a: the innermost record
        buf.push_field_len(1);
        buf.begin_len(());
        buf.push_field_varint(1);
        buf.push_varint_uint64(1);
        buf.end_len();

        // a.b: bytes
        buf.push_field_len(2);
        buf.begin_len(());
        buf.push(b"Some bytes");
        buf.end_len();

        // a.c: int
        buf.push_field_varint(3);
        buf.push_varint_uint64(2);

        buf.end_len();

        // b: string
        buf.push_field_len(2);
        buf.begin_len(());
        buf.push(b"Some text");
        buf.end_len();

        // c: int
        buf.push_field_varint(3);
        buf.push_varint_uint64(2);

        buf.freeze().to_vec()
    };

    let sval = {
        let mut stream = ProtoBufStream::new();

        stream.record_tuple_begin(None, Some(3));

        stream.record_tuple_value_begin(&off(0));
        stream.record_tuple_begin(None, Some(3));

        stream.record_tuple_value_begin(&off(0));
        stream.record_tuple_begin(None, Some(1));
        stream.record_tuple_value_begin(&off(0));
        stream.tagged_begin(None, None);
        stream.i32(1);
        stream.tagged_end(None);
        stream.record_tuple_value_end();
        stream.record_tuple_end(None);
        stream.record_tuple_value_end();

        stream.record_tuple_value_begin(&off(1));
        stream.binary_begin(Some(10));
        stream.binary_fragment_computed(b"Some bytes");
        stream.binary_end();
        stream.record_tuple_value_end();

        stream.record_tuple_value_begin(&off(2));
        stream.i32(2);
        stream.record_tuple_value_end();

        stream.record_tuple_end(None);
        stream.record_tuple_value_end();

        stream.record_tuple_value_begin(&off(1));
        push_text(&mut stream, "Some text");
        stream.record_tuple_value_end();

        stream.record_tuple_value_begin(&off(2));
        stream.i32(2);
        stream.record_tuple_value_end();

        stream.record_tuple_end(None);

        stream.freeze().to_vec()
    };

    assert_proto(expected, &raw);
    assert_proto(expected, &sval);
}

#[test]
fn exotic_enum_tuple() {
    let expected: &[u8] = &[
        0x08, 0x02, 0x12, 0x06, 0x12, 0x04, 0x08, 0x03, 0x10, 0x04,
    ];

    let raw = {
        let mut buf = ProtoBufMut::new(());

        // a
        buf.push_field_varint(1);
        buf.push_varint_uint64(2);

        // b
        buf.push_field_len(2);
        buf.begin_len(());

        // the tuple variant
        buf.push_field_len(2);
        buf.begin_len(());

        // its two positional fields
        buf.push_field_varint(1);
        buf.push_varint_uint64(3);

        buf.push_field_varint(2);
        buf.push_varint_uint64(4);

        buf.end_len();

        buf.end_len();

        buf.freeze().to_vec()
    };

    let sval = {
        let mut stream = ProtoBufStream::new();

        stream.record_tuple_begin(None, Some(2));

        stream.record_tuple_value_begin(&off(0));
        stream.i32(2);
        stream.record_tuple_value_end();

        stream.record_tuple_value_begin(&off(1));
        stream.enum_begin(None);
        stream.tuple_begin(Some(off(1)), Some(2));
        stream.tuple_value_begin(&off(0));
        stream.i32(3);
        stream.tuple_value_end();
        stream.tuple_value_begin(&off(1));
        stream.i32(4);
        stream.tuple_value_end();
        stream.tuple_end(Some(off(1)));
        stream.enum_end(None);
        stream.record_tuple_value_end();

        stream.record_tuple_end(None);

        stream.freeze().to_vec()
    };

    assert_proto(expected, &raw);
    assert_proto(expected, &sval);
}

#[test]
fn exotic_tagged_empty() {
    let expected: &[u8] = &[0x08, 0x02, 0x18, 0x05];

    let raw = {
        let mut buf = ProtoBufMut::new(());

        buf.push_field_varint(1);
        buf.push_varint_uint64(2);

        buf.push_field_varint(3);
        buf.push_varint_uint64(5);

        buf.freeze().to_vec()
    };

    let sval = {
        let mut stream = ProtoBufStream::new();

        stream.record_tuple_begin(None, Some(3));
        stream.record_tuple_value_begin(&off(0));
        stream.i32(2);
        stream.record_tuple_value_end();
        stream.record_tuple_value_begin(&off(1));
        stream.tagged_begin(None, None);
        stream.tagged_end(None);
        stream.record_tuple_value_end();
        stream.record_tuple_value_begin(&off(2));
        stream.i32(5);
        stream.record_tuple_value_end();
        stream.record_tuple_end(None);

        stream.freeze().to_vec()
    };

    assert_proto(expected, &raw);
    assert_proto(expected, &sval);

    // A standalone empty tagged value contributes nothing at all
    let raw: &[u8] = &[];

    let sval = {
        let mut stream = ProtoBufStream::new();

        stream.tagged_begin(None, None);
        stream.tagged_end(None);

        stream.freeze().to_vec()
    };

    assert_proto(raw, &sval);
}

#[test]
fn exotic_enum_empty() {
    let expected: &[u8] = &[0x08, 0x02, 0x18, 0x05];

    let sval = {
        let mut stream = ProtoBufStream::new();

        stream.record_tuple_begin(None, Some(3));
        stream.record_tuple_value_begin(&off(0));
        stream.i32(2);
        stream.record_tuple_value_end();
        stream.record_tuple_value_begin(&off(1));
        stream.enum_begin(None);
        stream.enum_end(None);
        stream.record_tuple_value_end();
        stream.record_tuple_value_begin(&off(2));
        stream.i32(5);
        stream.record_tuple_value_end();
        stream.record_tuple_end(None);

        stream.freeze().to_vec()
    };

    assert_proto(expected, &sval);

    // A standalone empty enum contributes nothing at all
    let empty: &[u8] = &[];

    let sval = {
        let mut stream = ProtoBufStream::new();

        stream.enum_begin(None);
        stream.enum_end(None);

        stream.freeze().to_vec()
    };

    assert_proto(empty, &sval);
}

#[test]
fn exotic_nested_enum_empty() {
    let expected: &[u8] = &[0x08, 0x02, 0x12, 0x02, 0x0A, 0x00, 0x18, 0x05];

    let raw = {
        let mut buf = ProtoBufMut::new(());

        // a
        buf.push_field_varint(1);
        buf.push_varint_uint64(2);

        // b
        buf.push_field_len(2);
        buf.begin_len(());

        buf.push_field_len(1);
        buf.begin_len(());
        buf.end_len();

        buf.end_len();

        // c
        buf.push_field_varint(3);
        buf.push_varint_uint64(5);

        buf.freeze().to_vec()
    };

    let sval = {
        let mut stream = ProtoBufStream::new();

        stream.record_tuple_begin(None, Some(3));
        stream.record_tuple_value_begin(&off(0));
        stream.i32(2);
        stream.record_tuple_value_end();
        stream.record_tuple_value_begin(&off(1));
        stream.enum_begin(None);
        stream.enum_begin(Some(off(0)));
        stream.enum_begin(Some(off(0)));
        stream.enum_end(Some(off(0)));
        stream.enum_end(Some(off(0)));
        stream.enum_end(None);
        stream.record_tuple_value_end();
        stream.record_tuple_value_begin(&off(2));
        stream.i32(5);
        stream.record_tuple_value_end();
        stream.record_tuple_end(None);

        stream.freeze().to_vec()
    };

    assert_proto(expected, &raw);
    assert_proto(expected, &sval);

    let expected: &[u8] = &[0x0A, 0x00];

    let raw = {
        let mut buf = ProtoBufMut::new(());

        buf.push_field_len(1);

        buf.begin_len(());
        buf.end_len();

        buf.end_len();

        buf.freeze().to_vec()
    };

    let sval = {
        let mut stream = ProtoBufStream::new();

        stream.enum_begin(None);
        stream.enum_begin(Some(off(0)));
        stream.enum_begin(Some(off(0)));
        stream.enum_end(Some(off(0)));
        stream.enum_end(Some(off(0)));
        stream.enum_end(None);

        stream.freeze().to_vec()
    };

    assert_proto(expected, &raw);
    assert_proto(expected, &sval);
}

fn push_pre_encoded(stream: &mut ProtoBufStream, inner: &ProtoBuf) {
    // A pre-encoded message streams its logical bytes as one binary value
    let bytes = inner.to_vec();
    stream.binary_begin(Some(bytes.len()));
    stream.binary_fragment_computed(&bytes);
    stream.binary_end();
}

#[test]
fn pre_encoded_len() {
    let expected: &[u8] = &[0x0A, 0x04, 0x08, 0x01, 0x10, 0x02];

    let raw = {
        let mut buf = ProtoBufMut::new(());

        buf.push_field_len(1);
        buf.begin_len(());

        buf.push_field_varint(1);
        buf.push_varint_uint64(1);

        buf.push_field_varint(2);
        buf.push_varint_uint64(2);

        buf.end_len();

        buf.freeze().to_vec()
    };

    let sval = {
        let inner = {
            let mut stream = ProtoBufStream::new();
            stream.record_tuple_begin(None, Some(2));
            stream.record_tuple_value_begin(&off(0));
            stream.u64(1);
            stream.record_tuple_value_end();
            stream.record_tuple_value_begin(&off(1));
            stream.u64(2);
            stream.record_tuple_value_end();
            stream.record_tuple_end(None);
            stream.freeze()
        };

        let mut stream = ProtoBufStream::new();
        stream.record_tuple_begin(None, Some(1));
        stream.record_tuple_value_begin(&off(0));
        push_pre_encoded(&mut stream, &inner);
        stream.record_tuple_value_end();
        stream.record_tuple_end(None);

        stream.freeze().to_vec()
    };

    assert_proto(expected, &raw);
    assert_proto(expected, &sval);
}

#[test]
fn pre_encoded_varint() {
    let expected: &[u8] = &[0x0A, 0x02, 0x08, 0x2A];

    let raw = {
        let mut buf = ProtoBufMut::new(());

        buf.push_field_len(1);
        buf.begin_len(());

        buf.push_field_varint(1);
        buf.push_varint_uint64(42);

        buf.end_len();

        buf.freeze().to_vec()
    };

    let sval = {
        // A standalone scalar is wrapped in a message with field number 1
        let inner = {
            let mut stream = ProtoBufStream::new();
            stream.i32(42);
            stream.freeze()
        };

        let mut stream = ProtoBufStream::new();
        stream.record_tuple_begin(None, Some(1));
        stream.record_tuple_value_begin(&off(0));
        push_pre_encoded(&mut stream, &inner);
        stream.record_tuple_value_end();
        stream.record_tuple_end(None);

        stream.freeze().to_vec()
    };

    assert_proto(expected, &raw);
    assert_proto(expected, &sval);
}

#[test]
fn pre_encoded_i32() {
    let expected: &[u8] = &[0x0A, 0x05, 0x0D, 0xC3, 0xF5, 0x48, 0x40];

    let raw = {
        let mut buf = ProtoBufMut::new(());

        buf.push_field_len(1);
        buf.begin_len(());

        buf.push_field_i32(1);
        buf.push_i32_fixed32(3.14f32.to_bits());

        buf.end_len();

        buf.freeze().to_vec()
    };

    let sval = {
        let inner = {
            let mut stream = ProtoBufStream::new();
            stream.f32_bits(3.14f32.to_bits());
            stream.freeze()
        };

        let mut stream = ProtoBufStream::new();
        stream.record_tuple_begin(None, Some(1));
        stream.record_tuple_value_begin(&off(0));
        push_pre_encoded(&mut stream, &inner);
        stream.record_tuple_value_end();
        stream.record_tuple_end(None);

        stream.freeze().to_vec()
    };

    assert_proto(expected, &raw);
    assert_proto(expected, &sval);
}

#[test]
fn pre_encoded_i64() {
    let expected: &[u8] = &[
        0x0A, 0x09, 0x09, 0x6F, 0x12, 0x83, 0xC0, 0xCA, 0x21, 0x09, 0x40,
    ];

    let raw = {
        let mut buf = ProtoBufMut::new(());

        buf.push_field_len(1);
        buf.begin_len(());

        buf.push_field_i64(1);
        buf.push_i64_fixed64(3.1415f64.to_bits());

        buf.end_len();

        buf.freeze().to_vec()
    };

    let sval = {
        let inner = {
            let mut stream = ProtoBufStream::new();
            stream.f64_bits(3.1415f64.to_bits());
            stream.freeze()
        };

        let mut stream = ProtoBufStream::new();
        stream.record_tuple_begin(None, Some(1));
        stream.record_tuple_value_begin(&off(0));
        push_pre_encoded(&mut stream, &inner);
        stream.record_tuple_value_end();
        stream.record_tuple_end(None);

        stream.freeze().to_vec()
    };

    assert_proto(expected, &raw);
    assert_proto(expected, &sval);
}

#[test]
fn pre_encoded_cursor_fragments() {
    // Streaming a pre-encoded message through cursor chunks, fragment by
    // fragment, yields the same bytes as one contiguous fragment
    let inner = {
        let mut stream = ProtoBufStream::new();
        stream.record_tuple_begin(None, Some(2));
        stream.record_tuple_value_begin(&off(0));
        push_text(&mut stream, "hi");
        stream.record_tuple_value_end();
        stream.record_tuple_value_begin(&off(1));
        stream.u64(300);
        stream.record_tuple_value_end();
        stream.record_tuple_end(None);
        stream.freeze()
    };

    let contiguous = {
        let mut stream = ProtoBufStream::new();
        stream.record_tuple_begin(None, Some(1));
        stream.record_tuple_value_begin(&off(0));
        push_pre_encoded(&mut stream, &inner);
        stream.record_tuple_value_end();
        stream.record_tuple_end(None);
        stream.freeze().to_vec()
    };

    let chunked = {
        let total = inner.len();
        let mut cursor = inner.into_cursor();

        let mut stream = ProtoBufStream::new();
        stream.record_tuple_begin(None, Some(1));
        stream.record_tuple_value_begin(&off(0));
        stream.binary_begin(Some(total));
        while cursor.remaining() > 0 {
            let chunk = cursor.chunk().to_vec();
            stream.binary_fragment_computed(&chunk);
            cursor.advance(chunk.len());
        }
        stream.binary_end();
        stream.record_tuple_value_end();
        stream.record_tuple_end(None);
        stream.freeze().to_vec()
    };

    assert_proto(&contiguous, &chunked);
}

#[test]
fn int128_fields() {
    let expected: &[u8] = &[
        0x0A, 0x10, 0xFF, 0xFF, 0xFF, 0xFF, 0xFF, 0xFF, 0xFF, 0xFF, 0xFF, 0xFF, 0xFF, 0xFF, 0xFF,
        0xFF, 0xFF, 0xFF,
    ];

    // u128::MAX at field 1: 16 little-endian bytes in a length-delimited run
    let sval = {
        let mut stream = ProtoBufStream::new();

        stream.record_tuple_begin(None, Some(1));
        stream.record_tuple_value_begin(&off(0));
        stream.u128(u128::MAX);
        stream.record_tuple_value_end();
        stream.record_tuple_end(None);

        stream.freeze().to_vec()
    };

    assert_proto(expected, &sval);

    // -1 as i128 has the same two's-complement bytes
    let sval = {
        let mut stream = ProtoBufStream::new();

        stream.record_tuple_begin(None, Some(1));
        stream.record_tuple_value_begin(&off(0));
        stream.i128(-1);
        stream.record_tuple_value_end();
        stream.record_tuple_end(None);

        stream.freeze().to_vec()
    };

    assert_proto(expected, &sval);
}

#[test]
fn null_suppresses_field() {
    let expected: &[u8] = &[0x10, 0x07];

    let sval = {
        let mut stream = ProtoBufStream::new();

        stream.record_tuple_begin(None, Some(2));
        stream.record_tuple_value_begin(&off(0));
        stream.null();
        stream.record_tuple_value_end();
        stream.record_tuple_value_begin(&off(1));
        stream.u32(7);
        stream.record_tuple_value_end();
        stream.record_tuple_end(None);

        stream.freeze().to_vec()
    };

    assert_proto(expected, &sval);
}
