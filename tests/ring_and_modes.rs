use scribe::mode::{get_mode, set_mode, Mode as RecordingMode};
use scribe::reader::TaskManager;
use scribe::ring_buffer::{aux_view, next_record, ByteBuffer, ReadError, RingError};
use scribe::sync::ParseError;
use scribe::Mode;

fn psb() -> Vec<u8> {
    let mut v = Vec::new();
    for _ in 0..8 {
        v.push(0x02);
        v.push(0x82);
    }
    v
}

#[test]
fn byte_buffer_single() {
    let data = [1u8, 2, 3];
    let b = ByteBuffer::Single(&data);
    assert_eq!(b.len(), 3);
    let mut dst = [0u8; 3];
    b.copy_to_slice(&mut dst);
    assert_eq!(dst, [1, 2, 3]);
    assert_eq!(b.to_vec(), vec![1, 2, 3]);
}

#[test]
fn byte_buffer_split() {
    let a = [1u8, 2];
    let c = [3u8, 4, 5];
    let b = ByteBuffer::Split([&a, &c]);
    assert_eq!(b.len(), 5);
    let mut dst = [0u8; 5];
    b.copy_to_slice(&mut dst);
    assert_eq!(dst, [1, 2, 3, 4, 5]);
    assert_eq!(b.to_vec(), vec![1, 2, 3, 4, 5]);
}

fn ring(size: usize, tail: u64, bytes: &[u8]) -> Vec<u8> {
    let mut aux = vec![0u8; size];
    for (k, b) in bytes.iter().enumerate() {
        aux[(tail as usize + k) % size] = *b;
    }
    aux
}

#[test]
fn aux_view_contiguous_and_wrapped() {
    let bytes: Vec<u8> = (1..=10).collect();
    let aux = ring(16, 2, &bytes);
    let v = aux_view(&aux, 12, 2).unwrap();
    assert!(matches!(v, ByteBuffer::Single(_)));
    assert_eq!(v.to_vec(), bytes);
    let aux = ring(16, 42, &bytes);
    let v = aux_view(&aux, 52, 42).unwrap();
    assert!(matches!(v, ByteBuffer::Split(_)));
    assert_eq!(v.to_vec(), bytes);
}

#[test]
fn aux_view_errors() {
    let aux = vec![0u8; 100];
    assert_eq!(aux_view(&aux, 5, 6).err(), Some(RingError::TailAheadOfHead));
    assert_eq!(aux_view(&aux, 91, 0).err(), Some(RingError::Overflow));
    assert!(aux_view(&aux, 90, 0).is_ok());
}

#[test]
fn next_record_advances_tail_by_consumed() {
    let mut bytes = psb();
    bytes.extend([0x44, 0x45]);
    bytes.extend(psb());
    bytes.extend([0x46]);
    let tail = 100u64;
    let aux = ring(64, tail, &bytes);
    let head = tail + bytes.len() as u64;
    let mut tm = TaskManager::new();
    let (t, d) = next_record(&mut tm, &aux, head, tail, false).unwrap();
    assert_eq!(d.consumed, 18);
    assert_eq!(t, tail + 18);
    assert_eq!(d.work.unwrap().data, bytes[..18].to_vec());
    let (t2, d2) = next_record(&mut tm, &aux, head, t, false).unwrap();
    assert_eq!((t2, d2.consumed), (t, 0));
    let (t3, d3) = next_record(&mut tm, &aux, head, t, true).unwrap();
    assert_eq!(t3, head);
    assert_eq!(d3.work.unwrap().sequence_number, 1);
}

#[test]
fn next_record_on_empty_ring() {
    let aux = vec![0u8; 32];
    let mut tm = TaskManager::new();
    let (t, d) = next_record(&mut tm, &aux, 7, 7, true).unwrap();
    assert_eq!(t, 7);
    assert_eq!(d.consumed, 0);
    assert!(d.work.is_none());
}

#[test]
fn next_record_errors() {
    let aux = vec![0u8; 32];
    let mut tm = TaskManager::new();
    assert_eq!(
        next_record(&mut tm, &aux, 10, 0, false).err(),
        Some(ReadError::Parse(ParseError::NoSync))
    );
    assert_eq!(
        next_record(&mut tm, &aux, 31, 0, false).err(),
        Some(ReadError::Ring(RingError::Overflow))
    );
    assert_eq!(
        next_record(&mut tm, &aux, 0, 1, false).err(),
        Some(ReadError::Ring(RingError::TailAheadOfHead))
    );
}

#[test]
fn tracing_mode_bytes() {
    for m in [Mode::Uninitialized, Mode::Simple, Mode::Tip, Mode::Fup, Mode::PtWrite] {
        assert_eq!(Mode::from(m.to_byte()), m);
    }
    assert_eq!(Mode::PtWrite.to_byte(), 4);
    assert_eq!(Mode::from(9u8), Mode::Uninitialized);
}

#[test]
fn tracing_mode_predicates() {
    assert!(Mode::Simple.enable_simple_tracing());
    assert!(!Mode::Tip.enable_simple_tracing());
    assert!(Mode::Tip.insert_jmx_at_block_start());
    assert!(Mode::Fup.insert_jmx_at_block_start());
    assert!(!Mode::PtWrite.insert_jmx_at_block_start());
    assert!(Mode::PtWrite.insert_pt_write());
    assert!(!Mode::Tip.insert_pt_write());
    assert!(Mode::Tip.insert_chain_count_check());
    assert!(Mode::Fup.insert_chain_count_check());
    assert!(Mode::PtWrite.insert_chain_count_check());
    assert!(!Mode::Simple.insert_chain_count_check());
    assert!(!Mode::Uninitialized.insert_chain_count_check());
}

#[test]
fn recording_mode_round_trip() {
    for m in [
        RecordingMode::Invalid,
        RecordingMode::Simple,
        RecordingMode::IntelPt,
        RecordingMode::PtWrite,
    ] {
        assert_eq!(get_mode(set_mode(m)), m);
    }
    assert_eq!(set_mode(RecordingMode::PtWrite), 3);
}
