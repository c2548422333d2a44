use wavedsp::{decode_wave_mono16, DspError, Format, Riff, SubcHeader, Wave};

fn wave_bytes(samples: &[i16], declared: Option<u32>) -> Vec<u8> {
    let data_size = declared.unwrap_or((samples.len() * 2) as u32);
    let mut b: Vec<u8> = Vec::new();
    b.extend_from_slice(b"RIFF");
    b.extend_from_slice(&(36 + samples.len() as u32 * 2).to_le_bytes());
    b.extend_from_slice(b"WAVE");
    b.extend_from_slice(b"fmt ");
    b.extend_from_slice(&16u32.to_le_bytes());
    b.extend_from_slice(&1u16.to_le_bytes());
    b.extend_from_slice(&1u16.to_le_bytes());
    b.extend_from_slice(&44100u32.to_le_bytes());
    b.extend_from_slice(&88200u32.to_le_bytes());
    b.extend_from_slice(&2u16.to_le_bytes());
    b.extend_from_slice(&16u16.to_le_bytes());
    b.extend_from_slice(b"data");
    b.extend_from_slice(&data_size.to_le_bytes());
    for s in samples {
        b.extend_from_slice(&s.to_le_bytes());
    }
    b
}

#[test]
fn decode_minimal_wave() {
    let samples = [0i16, 1, -1, 16384, -32768, 32767, 258];
    let bytes = wave_bytes(&samples, None);
    let w = decode_wave_mono16(&bytes).unwrap();
    assert_eq!(w.riff.id, b"RIFF".to_vec());
    assert_eq!(w.riff.size, 36 + 14);
    assert_eq!(w.riff.file_format, b"WAVE".to_vec());
    assert_eq!(w.format_header.id, b"fmt ".to_vec());
    assert_eq!(w.format_header.size, 16);
    assert_eq!(w.format, Format::new(1, 1, 44100, 88200, 2, 16));
    assert_eq!(w.format.sample_rate, 44100);
    assert_eq!(w.data_header.id, b"data".to_vec());
    assert_eq!(w.data_header.size, 14);
    assert_eq!(w.data.len(), samples.len());
    assert_eq!(w.data, samples.to_vec());
    for (i, raw) in samples.iter().enumerate() {
        let normalized = w.data[i] as f32 / 32768.0;
        assert_eq!(normalized, *raw as f32 / 32768.0);
    }
    assert_eq!(w.data[4] as f32 / 32768.0, -1.0);
    assert_eq!(w.data[3] as f32 / 32768.0, 0.5);
}

#[test]
fn decode_reads_multibyte_fields_little_endian() {
    let mut bytes = wave_bytes(&[0x0102], None);
    bytes[24..28].copy_from_slice(&[0x44, 0xac, 0x01, 0x00]);
    let w = decode_wave_mono16(&bytes).unwrap();
    assert_eq!(w.format.sample_rate, 0x0001ac44);
    assert_eq!(w.data, vec![0x0102]);
    assert_eq!(bytes[44], 0x02);
}

#[test]
fn decode_empty_sample_chunk() {
    let w = decode_wave_mono16(&wave_bytes(&[], None)).unwrap();
    assert!(w.data.is_empty());
}

#[test]
fn decode_ignores_odd_last_byte_and_trailing_bytes() {
    let mut bytes = wave_bytes(&[5, 6], Some(5));
    bytes.push(0x7f);
    bytes.extend_from_slice(&[1, 2, 3]);
    let w = decode_wave_mono16(&bytes).unwrap();
    assert_eq!(w.data_header.size, 5);
    assert_eq!(w.data, vec![5, 6]);
}

#[test]
fn decode_truncated_headers() {
    let bytes = wave_bytes(&[1, 2], None);
    for len in [0usize, 11, 12, 19, 20, 43] {
        assert_eq!(
            decode_wave_mono16(&bytes[..len]).err(),
            Some(DspError::TruncatedData),
            "length {}",
            len
        );
    }
}

#[test]
fn decode_truncated_samples() {
    let bytes = wave_bytes(&[1, 2, 3], Some(8));
    assert_eq!(decode_wave_mono16(&bytes).err(), Some(DspError::TruncatedData));
    let bytes = wave_bytes(&[1, 2, 3], None);
    assert_eq!(decode_wave_mono16(&bytes[..49]).err(), Some(DspError::TruncatedData));
}

#[test]
fn decode_rejects_other_layouts() {
    for at in [0usize, 8, 12, 36] {
        let mut bytes = wave_bytes(&[1, 2], None);
        bytes[at] = b'X';
        assert_eq!(decode_wave_mono16(&bytes).err(), Some(DspError::Format), "byte {}", at);
    }
    let mut bytes = wave_bytes(&[1, 2], None);
    bytes[36..40].copy_from_slice(b"LIST");
    assert_eq!(decode_wave_mono16(&bytes).err(), Some(DspError::Format));
}

#[test]
fn decode_reports_the_first_fault_in_order() {
    let mut bytes = wave_bytes(&[1, 2], None);
    bytes[0] = b'X';
    assert_eq!(decode_wave_mono16(&bytes[..20]).err(), Some(DspError::Format));
    let bytes = wave_bytes(&[1, 2], None);
    let mut short = bytes[..30].to_vec();
    short[12] = b'X';
    assert_eq!(decode_wave_mono16(&short).err(), Some(DspError::Format));
}

#[test]
fn riff_and_subchunk_headers_validate_id_lengths() {
    assert!(Riff::with_valid(b"RIFF".to_vec(), 4, b"WAVE".to_vec()).is_ok());
    assert_eq!(
        Riff::with_valid(b"RIF".to_vec(), 4, b"WAVE".to_vec()).err(),
        Some(DspError::Format)
    );
    assert_eq!(
        Riff::with_valid(b"RIFF".to_vec(), 4, b"WAVES".to_vec()).err(),
        Some(DspError::Format)
    );
    let h = SubcHeader::new(b"da".to_vec(), 2);
    assert_eq!(h.validate(), Err(DspError::Format));
    assert_eq!(SubcHeader::new(b"data".to_vec(), 2).validate(), Ok(()));
    assert_eq!(SubcHeader::with_valid(b"fmt ".to_vec(), 16).unwrap().size, 16);
}

#[test]
fn wave_new_keeps_its_parts() {
    let w = Wave::new(
        Riff::new(b"RIFF".to_vec(), 40, b"WAVE".to_vec()),
        SubcHeader::new(b"fmt ".to_vec(), 16),
        Format::new(1, 1, 8000, 16000, 2, 16),
        SubcHeader::new(b"data".to_vec(), 4),
        vec![3, -3],
    );
    assert_eq!(w.riff.size, 40);
    assert_eq!(w.format.bit_rate, 16000);
    assert_eq!(w.data_header.size, 4);
    assert_eq!(w.data, vec![3, -3]);
}
