use borsh_prefix::{Error, ErrorKind, U16PrefixVec, U32PrefixVec, U64PrefixVec, U8PrefixVec};

#[test]
fn prefix_vec_deserialize_data() {
    // u8 length + 3 u64 values
    let mut data = [0u8; 25];
    data[0..1].copy_from_slice(u8::to_le_bytes(3).as_slice());
    data[1..9].copy_from_slice(u64::to_le_bytes(15).as_slice());
    data[9..17].copy_from_slice(u64::to_le_bytes(7).as_slice());
    data[17..].copy_from_slice(u64::to_le_bytes(10).as_slice());

    let vec = U8PrefixVec::<u64>::try_from_slice(&data).unwrap();

    assert_eq!(vec.len(), 3);
    assert_eq!(vec.as_slice(), &[15, 7, 10]);

    // u16 length + 3 u64 values
    let mut data = [0u8; 26];
    data[0..2].copy_from_slice(u16::to_le_bytes(3).as_slice());
    data[2..10].copy_from_slice(u64::to_le_bytes(15).as_slice());
    data[10..18].copy_from_slice(u64::to_le_bytes(7).as_slice());
    data[18..].copy_from_slice(u64::to_le_bytes(10).as_slice());

    let vec = U16PrefixVec::<u64>::try_from_slice(&data).unwrap();

    assert_eq!(vec.len(), 3);
    assert_eq!(vec.as_slice(), &[15, 7, 10]);

    // u32 length + 3 u64 values
    let mut data = [0u8; 28];
    data[0..4].copy_from_slice(u32::to_le_bytes(3).as_slice());
    data[4..12].copy_from_slice(u64::to_le_bytes(15).as_slice());
    data[12..20].copy_from_slice(u64::to_le_bytes(7).as_slice());
    data[20..].copy_from_slice(u64::to_le_bytes(10).as_slice());

    let vec = U32PrefixVec::<u64>::try_from_slice(&data).unwrap();

    assert_eq!(vec.len(), 3);
    assert_eq!(vec.as_slice(), &[15, 7, 10]);

    // u64 length + 3 u64 values
    let mut data = [0u8; 32];
    data[0..8].copy_from_slice(u64::to_le_bytes(3).as_slice());
    data[8..16].copy_from_slice(u64::to_le_bytes(15).as_slice());
    data[16..24].copy_from_slice(u64::to_le_bytes(7).as_slice());
    data[24..].copy_from_slice(u64::to_le_bytes(10).as_slice());

    let vec = U64PrefixVec::<u64>::try_from_slice(&data).unwrap();

    assert_eq!(vec.len(), 3);
    assert_eq!(vec.as_slice(), &[15, 7, 10]);
}

#[test]
fn prefix_vec_serialize_data() {
    // u8 length
    let source = U8PrefixVec::<u32>::new((0..10).collect::<Vec<u32>>());
    let mut data: Vec<u8> = Vec::new();
    source.serialize(&mut data).unwrap();
    assert_eq!(data.len(), 41);

    let restored = U8PrefixVec::<u32>::try_from_slice(&data).unwrap();
    assert_eq!(restored.len(), source.len());
    assert_eq!(restored.as_slice(), source.as_slice());

    // u16 length
    let source = U16PrefixVec::<u32>::new((0..10).collect::<Vec<u32>>());
    let mut data: Vec<u8> = Vec::new();
    source.serialize(&mut data).unwrap();
    assert_eq!(data.len(), 42);

    let restored = U16PrefixVec::<u32>::try_from_slice(&data).unwrap();
    assert_eq!(restored.len(), source.len());
    assert_eq!(restored.as_slice(), source.as_slice());

    // u32 length
    let source = U32PrefixVec::<u32>::new((0..10).collect::<Vec<u32>>());
    let mut data: Vec<u8> = Vec::new();
    source.serialize(&mut data).unwrap();
    assert_eq!(data.len(), 44);

    let restored = U32PrefixVec::<u32>::try_from_slice(&data).unwrap();
    assert_eq!(restored.len(), source.len());
    assert_eq!(restored.as_slice(), source.as_slice());

    // u64 length
    let source = U64PrefixVec::<u32>::new((0..10).collect::<Vec<u32>>());
    let mut data: Vec<u8> = Vec::new();
    source.serialize(&mut data).unwrap();
    assert_eq!(data.len(), 48);

    let restored = U64PrefixVec::<u32>::try_from_slice(&data).unwrap();
    assert_eq!(restored.len(), source.len());
    assert_eq!(restored.as_slice(), source.as_slice());
}

#[test]
fn fail_deserialize_invalid_data() {
    // u64 count 5, then two u64 values and 4 more bytes
    let mut data = [0u8; 28];
    data[0..8].copy_from_slice(u64::to_le_bytes(5).as_slice());
    data[8..16].copy_from_slice(u64::to_le_bytes(15).as_slice());
    data[16..24].copy_from_slice(u64::to_le_bytes(7).as_slice());

    let error = U64PrefixVec::<u64>::try_from_slice(&data).unwrap_err();

    assert_eq!(error.kind(), ErrorKind::InvalidData);
    assert_eq!(error, Error::ElementSize { read: 4, expected: 8 });
}

#[test]
fn fail_deserialize_invalid_length() {
    // u64 count 2, then 3 u64 values
    let mut data = [0u8; 32];
    data[0..8].copy_from_slice(u64::to_le_bytes(2).as_slice());
    data[8..16].copy_from_slice(u64::to_le_bytes(15).as_slice());
    data[16..24].copy_from_slice(u64::to_le_bytes(7).as_slice());
    data[24..].copy_from_slice(u64::to_le_bytes(10).as_slice());

    let error = U64PrefixVec::<u64>::try_from_slice(&data).unwrap_err();

    assert_eq!(error.kind(), ErrorKind::InvalidData);
    assert_eq!(error, Error::TrailingBytes);
}

#[test]
fn prefix_vec_fail_serialize_invalid_length_type() {
    let source = U8PrefixVec::<u32>::new((0..256).collect::<Vec<u32>>());

    let mut data: Vec<u8> = Vec::new();
    let error = source.serialize(&mut data).unwrap_err();

    assert_eq!(error.kind(), ErrorKind::InvalidData);
    assert_eq!(error, Error::LengthOverflow { len: 256, max: 255 });
    assert!(data.is_empty());
}

#[test]
fn prefix_vec_longest_for_u8_prefix() {
    let source = U8PrefixVec::<u8>::new((0..255).collect::<Vec<u8>>());
    let data = source.try_to_vec().unwrap();
    assert_eq!(data.len(), 256);
    assert_eq!(data[0], 255);
    assert_eq!(U8PrefixVec::<u8>::try_from_slice(&data).unwrap(), source);
}

#[test]
fn prefix_vec_truncated_count() {
    // count 5, but only 3 whole u32 values follow
    let mut data = vec![5u8];
    for v in [1u32, 2, 3] {
        data.extend_from_slice(&v.to_le_bytes());
    }
    let error = U8PrefixVec::<u32>::try_from_slice(&data).unwrap_err();
    assert_eq!(error, Error::CountMismatch { decoded: 3, declared: 5 });
    assert_eq!(error.kind(), ErrorKind::InvalidData);
}

#[test]
fn prefix_vec_short_prefix() {
    let error = U32PrefixVec::<u16>::try_from_slice(&[1, 0]).unwrap_err();
    assert_eq!(error, Error::ShortRead);
    assert_eq!(error.kind(), ErrorKind::UnexpectedEof);
}

#[test]
fn prefix_vec_exact_bytes_and_order() {
    let source = U16PrefixVec::<u16>::new(vec![0x0102, 0xa0b0, 7]);
    let data = source.try_to_vec().unwrap();
    assert_eq!(data, vec![3, 0, 0x02, 0x01, 0xb0, 0xa0, 7, 0]);
    let (restored, used) = U16PrefixVec::<u16>::deserialize(&data).unwrap();
    assert_eq!(used, 8);
    assert_eq!(restored.as_slice(), &[0x0102, 0xa0b0, 7]);
}

#[test]
fn prefix_vec_empty() {
    let source = U32PrefixVec::<u64>::new(Vec::new());
    let data = source.try_to_vec().unwrap();
    assert_eq!(data, vec![0, 0, 0, 0]);
    let restored = U32PrefixVec::<u64>::try_from_slice(&data).unwrap();
    assert_eq!(restored.len(), 0);
}

#[test]
fn prefix_vec_mutation() {
    let mut v = U8PrefixVec::<u32>::new(vec![1, 2]);
    v.push(3);
    v.set(0, 9);
    assert_eq!(v.get(0), 9);
    assert_eq!(v.pop(), Some(3));
    assert_eq!(v.as_slice(), &[9, 2]);
    assert_eq!(v.clone(), v);
    assert_ne!(v, U8PrefixVec::<u32>::new(vec![9, 3]));
    assert_eq!(v.into_inner(), vec![9, 2]);
}

#[test]
fn prefix_value_of_each_width() {
    assert_eq!(borsh_prefix::read_prefix::<u8>(&[200]), 200);
    assert_eq!(borsh_prefix::read_prefix::<u16>(&[0x34, 0x12]), 0x1234);
    assert_eq!(borsh_prefix::read_prefix::<u32>(&[1, 0, 0, 0x80]), 0x8000_0001);
    assert_eq!(borsh_prefix::read_prefix::<u64>(&[0xff; 8]), u64::MAX);
}

#[test]
fn prefix_vec_transparent_access() {
    let mut v = U16PrefixVec::<u8>::new(vec![1, 2]);
    v.extend_from_slice(&[3, 4]);
    v[0] = 10;
    assert_eq!(v.iter().map(|x| *x as u32).sum::<u32>(), 19);
    assert_eq!(v.try_to_vec().unwrap(), vec![4, 0, 10, 2, 3, 4]);
}
