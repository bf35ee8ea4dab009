use chain_tx::version::{DecodeError, Version};

#[test]
fn test_version_serialization() {
    let version = Version(1);
    let mut buf = Vec::new();

    version.encode(&mut buf);

    assert_eq!(buf, vec![1, 0, 0, 0]);
    assert_eq!(version.to_hex(), "01000000");
}

#[test]
fn test_version_deserialization() {
    let data = vec![1, 0, 0, 0];
    let version = Version::decode(&data).unwrap();

    assert_eq!(version, Version(1));
}

#[test]
fn test_version_round_trip() {
    let version = Version(2);
    let mut buf = Vec::new();
    version.encode(&mut buf);
    let decoded_version = Version::decode(&buf).unwrap();

    assert_eq!(version, decoded_version);
}

#[test]
fn test_version_to_vec() {
    let version = Version(1);
    let vec = version.to_vec();

    assert_eq!(vec, vec![1, 0, 0, 0]);
}

#[test]
fn test_version_to_hex() {
    let version = Version(1);
    let hex = version.to_hex();

    assert_eq!(hex, "01000000");
}

#[test]
fn test_version_invalid() {
    let version = Version(1);
    let invalid_version = Version(3);
    assert_ne!(version, invalid_version);
}

#[test]
fn version_round_trip_extremes() {
    for v in [i32::MIN, -1, 0, 1, 2, 0x1234_5678, i32::MAX] {
        let bytes = Version(v).to_vec();
        assert_eq!(bytes, v.to_le_bytes().to_vec());
        assert_eq!(Version::decode(&bytes), Ok(Version(v)));
    }
}

#[test]
fn version_negative_layout() {
    assert_eq!(Version(-2).to_vec(), vec![0xfe, 0xff, 0xff, 0xff]);
    assert_eq!(Version(-2).to_hex(), "feffffff");
    assert_eq!(Version(0x0a0b0c0d).to_hex(), "0d0c0b0a");
}

#[test]
fn version_decode_reads_first_four_bytes() {
    assert_eq!(Version::decode(&[2, 0, 0, 0, 9, 9]), Ok(Version(2)));
}

#[test]
fn version_decode_truncated() {
    assert_eq!(
        Version::decode(&[1, 0, 0]),
        Err(DecodeError::UnexpectedEnd { needed: 4, available: 3 })
    );
    assert_eq!(
        Version::decode(&[]),
        Err(DecodeError::UnexpectedEnd { needed: 4, available: 0 })
    );
}

#[test]
fn version_encode_appends() {
    let mut buf = vec![7u8];
    Version(2).encode(&mut buf);
    assert_eq!(buf, vec![7, 2, 0, 0, 0]);
}
