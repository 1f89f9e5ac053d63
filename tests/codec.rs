use ct_meter::codec::{add_f32_to_buf, add_u16_to_buf, add_u64_to_buf, CodecError, CT_READING_SIZE};
use ct_meter::reading::{CTReading, CT};
use ct_meter::storage::CTStorage;

fn sample_ct() -> CT {
    CT {
        id: 3,
        reading: CTReading {
            real_power: 1500.5f32.to_bits(),
            apparent_power: 1620.25f32.to_bits(),
            i_rms: 6.75f32.to_bits(),
            v_rms: 231.0f32.to_bits(),
            kwh: 0.125f32.to_bits(),
            timestamp: 1_700_000_000_123,
        },
    }
}

#[test]
fn record_round_trips() {
    let ct = sample_ct();
    let bytes = CTStorage::ct_reading_to_le_bytes(&ct);
    assert_eq!(bytes.len(), 30);
    let back = CTStorage::ct_reading_from_le_bytes(&bytes).unwrap();
    assert_eq!(back, ct);
    assert_eq!(f32::from_bits(back.reading.real_power), 1500.5);
    assert_eq!(f32::from_bits(back.reading.kwh), 0.125);
}

#[test]
fn record_layout_is_little_endian_fields_in_order() {
    let ct = sample_ct();
    let bytes = CTStorage::ct_reading_to_le_bytes(&ct);
    let mut expected: Vec<u8> = Vec::new();
    expected.extend_from_slice(&3u16.to_le_bytes());
    expected.extend_from_slice(&1500.5f32.to_le_bytes());
    expected.extend_from_slice(&1620.25f32.to_le_bytes());
    expected.extend_from_slice(&6.75f32.to_le_bytes());
    expected.extend_from_slice(&231.0f32.to_le_bytes());
    expected.extend_from_slice(&0.125f32.to_le_bytes());
    expected.extend_from_slice(&1_700_000_000_123u64.to_le_bytes());
    assert_eq!(bytes.to_vec(), expected);
    assert_eq!(&bytes[0..2], &[3, 0]);
}

#[test]
fn zero_reading_encodes_to_zero_bytes_but_the_id() {
    let ct = CT { id: 0x0102, reading: CTReading::default() };
    let bytes = CTStorage::ct_reading_to_le_bytes(&ct);
    assert_eq!(bytes[0], 0x02);
    assert_eq!(bytes[1], 0x01);
    assert!(bytes[2..].iter().all(|b| *b == 0));
}

#[test]
fn decode_rejects_wrong_sizes() {
    let short = [0u8; 29];
    let long = [0u8; 31];
    assert_eq!(CTStorage::ct_reading_from_le_bytes(&short), Err(CodecError::BufferSizeMismatch));
    assert_eq!(CTStorage::ct_reading_from_le_bytes(&long), Err(CodecError::BufferSizeMismatch));
    assert_eq!(CTStorage::ct_reading_from_le_bytes(&[]), Err(CodecError::BufferSizeMismatch));
}

#[test]
fn decode_of_arbitrary_record_reencodes_to_it() {
    let mut raw = [0u8; CT_READING_SIZE];
    for (i, b) in raw.iter_mut().enumerate() {
        *b = (i as u8).wrapping_mul(37).wrapping_add(11);
    }
    let ct = CTStorage::ct_reading_from_le_bytes(&raw).unwrap();
    assert_eq!(ct.id, u16::from_le_bytes([raw[0], raw[1]]));
    assert_eq!(CTStorage::ct_reading_to_le_bytes(&ct), raw);
}

#[test]
fn add_u16_writes_at_offset() {
    let mut buf = [0xAAu8; 6];
    assert_eq!(add_u16_to_buf(&0xBEEF, &mut buf, &3), Ok(2));
    assert_eq!(buf, [0xAA, 0xAA, 0xAA, 0xEF, 0xBE, 0xAA]);
}

#[test]
fn add_u16_refuses_past_the_end() {
    let mut buf = [0u8; 4];
    assert_eq!(add_u16_to_buf(&7, &mut buf, &3), Err(CodecError::BufferSizeMismatch));
    assert_eq!(add_u16_to_buf(&7, &mut buf, &usize::MAX), Err(CodecError::BufferSizeMismatch));
    assert_eq!(buf, [0u8; 4]);
}

#[test]
fn add_f32_writes_bit_pattern() {
    let mut buf = [0u8; 4];
    assert_eq!(add_f32_to_buf(&1.5f32.to_bits(), &mut buf, &0), Ok(4));
    assert_eq!(buf, 1.5f32.to_le_bytes());
    let mut small = [0u8; 3];
    assert_eq!(add_f32_to_buf(&1, &mut small, &0), Err(CodecError::BufferSizeMismatch));
}

#[test]
fn add_u64_writes_at_offset() {
    let mut buf = [0u8; 10];
    assert_eq!(add_u64_to_buf(&0x0102030405060708, &mut buf, &2), Ok(8));
    assert_eq!(buf, [0, 0, 8, 7, 6, 5, 4, 3, 2, 1]);
    assert_eq!(add_u64_to_buf(&1, &mut buf, &3), Err(CodecError::BufferSizeMismatch));
}
