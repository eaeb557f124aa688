use discordshim::fields::{decode_fields, encode_fields, put_field, take_field, Field, Value};
use discordshim::schema::{int32_to_varint, varint_to_int32};
use discordshim::wire::{put_varint, take_varint32, take_varint64};

fn varint(v: u64) -> Vec<u8> {
    let mut out = Vec::new();
    put_varint(&mut out, v);
    out
}

#[test]
fn varint_exact_bytes() {
    assert_eq!(vec![0u8], varint(0));
    assert_eq!(vec![1u8], varint(1));
    assert_eq!(vec![127u8], varint(127));
    assert_eq!(vec![0x80u8, 0x01], varint(128));
    assert_eq!(vec![0xacu8, 0x02], varint(300));
    assert_eq!(vec![0xffu8, 0xff, 0xff, 0xff, 0x0f], varint(u32::MAX as u64));
    assert_eq!(
        vec![0xffu8, 0xff, 0xff, 0xff, 0xff, 0xff, 0xff, 0xff, 0xff, 0x01],
        varint(u64::MAX)
    );
}

#[test]
fn varint_round_trip() {
    for v in [0u64, 1, 127, 128, 300, 16383, 16384, 1 << 32, (1 << 63) - 1, 1 << 63, u64::MAX] {
        let bytes = varint(v);
        assert_eq!(Some((v, bytes.len())), take_varint64(&bytes));
        let mut longer = bytes.clone();
        longer.push(0x55);
        assert_eq!(Some((v, bytes.len())), take_varint64(&longer));
    }
}

#[test]
fn varint_cut_short_or_too_long_or_too_large() {
    assert_eq!(None, take_varint64(&[]));
    assert_eq!(None, take_varint64(&[0x80]));
    assert_eq!(None, take_varint64(&[0xff, 0xff]));
    let eleven = [0x80u8, 0x80, 0x80, 0x80, 0x80, 0x80, 0x80, 0x80, 0x80, 0x80, 0x01];
    assert_eq!(None, take_varint64(&eleven));
    let too_large = [0xffu8, 0xff, 0xff, 0xff, 0xff, 0xff, 0xff, 0xff, 0xff, 0x02];
    assert_eq!(None, take_varint64(&too_large));
    assert_eq!(None, take_varint32(&[0xff, 0xff, 0xff, 0xff, 0x10]));
    assert_eq!(Some((0xffff_ffff, 5)), take_varint32(&[0xff, 0xff, 0xff, 0xff, 0x0f]));
    assert_eq!(None, take_varint32(&[0x80, 0x80, 0x80, 0x80, 0x80, 0x00]));
    assert_eq!(Some((0, 6)), take_varint64(&[0x80, 0x80, 0x80, 0x80, 0x80, 0x00]));
}

#[test]
fn varint_agrees_with_protobuf() {
    for v in [0u64, 1, 127, 128, 300, 1 << 21, 1 << 35, u64::MAX - 1, u64::MAX] {
        let mut theirs = Vec::new();
        {
            let mut os = protobuf::CodedOutputStream::vec(&mut theirs);
            os.write_raw_varint64(v).unwrap();
            os.flush().unwrap();
        }
        assert_eq!(theirs, varint(v));
        let mut is = protobuf::CodedInputStream::from_bytes(&theirs);
        assert_eq!(v, is.read_raw_varint64().unwrap());
    }
}

#[test]
fn int32_as_varint() {
    assert_eq!(0, int32_to_varint(0));
    assert_eq!(7, int32_to_varint(7));
    assert_eq!(0x7fff_ffff, int32_to_varint(i32::MAX));
    assert_eq!(u64::MAX, int32_to_varint(-1));
    assert_eq!(0xffff_ffff_8000_0000, int32_to_varint(i32::MIN));
    for x in [0, 1, -1, 12345, -12345, i32::MAX, i32::MIN] {
        assert_eq!(Some(x), varint_to_int32(int32_to_varint(x)));
    }
    assert_eq!(None, varint_to_int32(0x8000_0000));
    assert_eq!(None, varint_to_int32(0xffff_ffff_7fff_ffff));
}

#[test]
fn field_exact_bytes() {
    let mut out = Vec::new();
    put_field(&mut out, &Field { number: 1, value: Value::Varint(150) });
    assert_eq!(vec![0x08u8, 0x96, 0x01], out);
    let mut out = Vec::new();
    put_field(&mut out, &Field { number: 2, value: Value::Bytes(b"testing".to_vec()) });
    assert_eq!(vec![0x12u8, 0x07, 0x74, 0x65, 0x73, 0x74, 0x69, 0x6e, 0x67], out);
    let mut out = Vec::new();
    put_field(&mut out, &Field { number: 3, value: Value::Fixed32(0x04030201) });
    assert_eq!(vec![0x1du8, 1, 2, 3, 4], out);
    let mut out = Vec::new();
    put_field(&mut out, &Field { number: 16, value: Value::Fixed64(0x0807060504030201) });
    assert_eq!(vec![0x81u8, 0x01, 1, 2, 3, 4, 5, 6, 7, 8], out);
}

#[test]
fn fields_round_trip() {
    let fields = vec![
        Field { number: 1, value: Value::Varint(0) },
        Field { number: 0x1fff_ffff, value: Value::Varint(u64::MAX) },
        Field { number: 7, value: Value::Bytes(Vec::new()) },
        Field { number: 7, value: Value::Bytes(vec![0xff; 300]) },
        Field { number: 9, value: Value::Fixed32(u32::MAX) },
        Field { number: 10, value: Value::Fixed64(u64::MAX) },
    ];
    let bytes = encode_fields(&fields);
    let back = decode_fields(&bytes).unwrap();
    assert_eq!(fields.len(), back.len());
    for (a, b) in fields.iter().zip(back.iter()) {
        assert_eq!(a.number, b.number);
        match (&a.value, &b.value) {
            (Value::Varint(x), Value::Varint(y)) => assert_eq!(x, y),
            (Value::Fixed64(x), Value::Fixed64(y)) => assert_eq!(x, y),
            (Value::Bytes(x), Value::Bytes(y)) => assert_eq!(x, y),
            (Value::Fixed32(x), Value::Fixed32(y)) => assert_eq!(x, y),
            _ => panic!("value of another kind"),
        }
    }
    assert!(decode_fields(&[]).unwrap().is_empty());
}

#[test]
fn fields_malformed() {
    assert!(take_field(&[]).is_none());
    assert!(decode_fields(&[0x00, 0x01]).is_none());
    assert!(decode_fields(&[0x08]).is_none());
    assert!(decode_fields(&[0x12, 0x05, 1, 2]).is_none());
    assert!(decode_fields(&[0x0b, 0x0c]).is_none());
    assert!(decode_fields(&[0x0e, 0x00]).is_none());
    assert!(decode_fields(&[0x0d, 1, 2, 3]).is_none());
    assert!(decode_fields(&[0x09, 1, 2, 3, 4, 5, 6, 7]).is_none());
    assert!(decode_fields(&[0x08, 0x01, 0x12]).is_none());
}
