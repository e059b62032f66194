use disktest::bufcache::BufCache;
use disktest::stream_aggregator::{DtStreamAgg, CHUNK_SIZE};
use disktest::disktest::{DisktestFile, NoProgress};
use disktest::{Disktest, DisktestQuiet, DtStreamType, ErrorKind, MemRawIo, RawIoOsIntf};
use std::sync::atomic::AtomicBool;
use std::sync::Arc;

fn new_dt(alg: DtStreamType, seed: &[u8], threads: usize) -> Disktest {
    Disktest::new(alg, seed.to_vec(), 0, false, threads, DisktestQuiet::Normal, None)
}

#[test]
fn write_then_verify_unlimited() {
    let mut dt = new_dt(DtStreamType::ChaCha20, b"abc", 2);
    let mut io = DisktestFile::open(MemRawIo::new(None, None), true, true);
    assert_eq!(dt.write(&mut io, 0, 1000, &mut NoProgress).unwrap(), 1000);
    assert_eq!(io.get_io().get_data().len(), 1000);
    assert_eq!(dt.verify(&mut io, 0, u64::MAX, &mut NoProgress).unwrap(), 1000);
}

#[test]
fn verify_half_of_written() {
    let mut dt = new_dt(DtStreamType::ChaCha20, &[42, 43, 44, 45], 2);
    let mut io = DisktestFile::open(MemRawIo::new(None, None), true, true);
    assert_eq!(dt.write(&mut io, 0, 1000, &mut NoProgress).unwrap(), 1000);
    assert_eq!(dt.verify(&mut io, 0, 500, &mut NoProgress).unwrap(), 500);
}

#[test]
fn aggregated_write_reads_back() {
    let threads = 2;
    let mut dt = new_dt(DtStreamType::ChaCha8, &[42, 43, 44, 45], threads);
    let mut io = DisktestFile::open(MemRawIo::new(None, None), true, true);
    let n = 2 * threads as u64 * CHUNK_SIZE + 100;
    assert_eq!(dt.write(&mut io, 0, n, &mut NoProgress).unwrap(), n);
    assert_eq!(dt.verify(&mut io, 0, u64::MAX, &mut NoProgress).unwrap(), n);
}

#[test]
fn modified_byte_is_reported() {
    let mut dt = new_dt(DtStreamType::Crc, &[42, 43, 44, 45], 2);
    let mut io = DisktestFile::open(MemRawIo::new(None, None), true, true);
    assert_eq!(dt.write(&mut io, 0, 1000, &mut NoProgress).unwrap(), 1000);
    let old = io.get_io().get_data()[10];
    io.get_io_mut().set_byte(10, old ^ 0x5A);
    let e = dt.verify(&mut io, 0, 1000, &mut NoProgress).unwrap_err();
    assert_eq!(e.kind, ErrorKind::DataMismatch(10));
}

#[test]
fn write_with_seek_then_verify_all() {
    let threads = 1;
    let mut dt = new_dt(DtStreamType::ChaCha8, &[42, 43, 44, 45], threads);
    let mut io = DisktestFile::open(MemRawIo::new(None, None), true, true);
    let offset = 2 * threads as u64 * CHUNK_SIZE;
    let n = offset + 100;
    assert_eq!(dt.write(&mut io, 0, n, &mut NoProgress).unwrap(), n);
    assert_eq!(dt.write(&mut io, offset, n, &mut NoProgress).unwrap(), n);
    assert_eq!(dt.verify(&mut io, 0, u64::MAX, &mut NoProgress).unwrap(), n + offset);
}

#[test]
fn unlimited_write_stops_at_full_device() {
    let k = 2 * CHUNK_SIZE;
    let mut dt = new_dt(DtStreamType::Crc, b"abc", 2);
    let mut io = DisktestFile::open(MemRawIo::new(Some(k), None), false, true);
    assert_eq!(dt.write(&mut io, 0, Disktest::UNLIMITED, &mut NoProgress).unwrap(), k);
    assert_eq!(io.get_io().get_data().len() as u64, k);
}

#[test]
fn limited_write_on_full_device_fails() {
    let mut dt = new_dt(DtStreamType::Crc, b"abc", 1);
    let mut io = DisktestFile::open(MemRawIo::new(Some(1000), None), false, true);
    let e = dt.write(&mut io, 0, 5000, &mut NoProgress).unwrap_err();
    assert_eq!(e.kind, ErrorKind::OutOfSpace);
}

#[test]
fn sector_size_mismatch_fails() {
    let mut dt = new_dt(DtStreamType::Crc, b"abc", 1);
    let mut io = DisktestFile::open(MemRawIo::new(None, Some(1000)), false, true);
    let e = dt.write(&mut io, 0, 5000, &mut NoProgress).unwrap_err();
    assert_eq!(e.kind, ErrorKind::GeometryMismatch);
    let mut io = DisktestFile::open(MemRawIo::new(None, Some(4096)), false, true);
    assert_eq!(dt.write(&mut io, 0, 5000, &mut NoProgress).unwrap(), 5000);
}

#[test]
fn raised_abort_flag_stops_write() {
    let abort = Arc::new(AtomicBool::new(true));
    let mut dt = Disktest::new(
        DtStreamType::Crc,
        b"abc".to_vec(),
        0,
        false,
        1,
        DisktestQuiet::Normal,
        Some(abort),
    );
    let mut io = DisktestFile::open(MemRawIo::new(None, None), false, true);
    let e = dt.write(&mut io, 0, 2 * CHUNK_SIZE, &mut NoProgress).unwrap_err();
    assert_eq!(e.kind, ErrorKind::Aborted);
}

#[test]
fn different_round_differs() {
    let mut a = Disktest::new(DtStreamType::ChaCha20, b"abc".to_vec(), 0, false, 1, DisktestQuiet::Normal, None);
    let mut b = Disktest::new(DtStreamType::ChaCha20, b"abc".to_vec(), 1, false, 1, DisktestQuiet::Normal, None);
    let mut io = DisktestFile::open(MemRawIo::new(None, None), true, true);
    assert_eq!(a.write(&mut io, 0, 1000, &mut NoProgress).unwrap(), 1000);
    assert!(matches!(b.verify(&mut io, 0, 1000, &mut NoProgress).unwrap_err().kind, ErrorKind::DataMismatch(_)));
}

#[test]
fn stream_aggregator_offset_matches() {
    for offset in 0..3u64 {
        let mut a = DtStreamAgg::new(DtStreamType::Crc, vec![1, 2, 3], 0, false, 2);
        a.activate(0, 512).unwrap();
        let mut b = DtStreamAgg::new(DtStreamType::Crc, vec![1, 2, 3], 0, false, 2);
        let res = b.activate(CHUNK_SIZE * offset + 7, 512).unwrap();
        assert_eq!(res.byte_offset, CHUNK_SIZE * offset);
        assert_eq!(res.chunk_size, CHUNK_SIZE);
        for _ in 0..offset {
            a.wait_chunk().unwrap();
        }
        for _ in 0..4 {
            let x = a.wait_chunk().unwrap();
            let y = b.wait_chunk().unwrap();
            assert!(x.get_data() == y.get_data());
        }
    }
}

#[test]
fn stream_aggregator_streams_differ() {
    let mut a = DtStreamAgg::new(DtStreamType::ChaCha20, vec![1, 2, 3], 0, false, 2);
    a.activate(0, 512).unwrap();
    let x = a.wait_chunk().unwrap();
    let y = a.wait_chunk().unwrap();
    assert_eq!(x.get_data().len() as u64, CHUNK_SIZE);
    let equal = x.get_data().iter().zip(y.get_data()).filter(|(p, q)| p == q).count();
    assert!(equal > 0);
    assert!(equal < x.get_data().len() / 100);
}

#[test]
fn stream_aggregator_invert() {
    let mut a = DtStreamAgg::new(DtStreamType::Crc, vec![1, 2, 3], 0, false, 2);
    let mut b = DtStreamAgg::new(DtStreamType::Crc, vec![1, 2, 3], 0, true, 2);
    a.activate(0, 512).unwrap();
    b.activate(0, 512).unwrap();
    let x = a.wait_chunk().unwrap();
    let y = b.wait_chunk().unwrap();
    let inv: Vec<u8> = y.get_data().iter().map(|v| v ^ 0xFF).collect();
    assert!(x.get_data() != y.get_data());
    assert!(x.get_data() == &inv[..]);
}

#[test]
fn test_bufcache() {
    let mut cache = BufCache::new();
    let mut cons0 = cache.new_consumer(42);
    let mut cons1 = cache.new_consumer(43);

    let buf = cons0.pull(&mut cache, 4);
    assert_eq!(buf.len(), 4);
    assert_eq!(buf, vec![0, 0, 0, 0]);

    cache.push(42, vec![0xDE, 0xAD, 0xBE, 0xEF]);
    let buf = cons0.pull(&mut cache, 4);
    assert_eq!(buf.len(), 4);
    assert_eq!(buf, vec![0xDE, 0xAD, 0xBE, 0xEF]);

    let buf = cons0.pull(&mut cache, 4);
    assert_eq!(buf.len(), 4);
    assert_eq!(buf, vec![0, 0, 0, 0]);

    cache.push(43, vec![0xCA, 0xFE, 0xAF, 0xFE]);
    let buf = cons0.pull(&mut cache, 4);
    assert_eq!(buf.len(), 4);
    assert_eq!(buf, vec![0, 0, 0, 0]);
    let buf = cons1.pull(&mut cache, 4);
    assert_eq!(buf.len(), 4);
    assert_eq!(buf, vec![0xCA, 0xFE, 0xAF, 0xFE]);
}

#[test]
fn mem_endpoint_short_read() {
    let mut io = MemRawIo::new(None, None);
    io.write(&[1, 2, 3]).unwrap();
    io.seek(1).unwrap();
    let mut buf = [0u8; 8];
    match io.read(&mut buf).unwrap() {
        disktest::RawIoResult::Processed(n) => assert_eq!(n, 2),
        disktest::RawIoResult::Enospc => panic!("unexpected"),
    }
    assert_eq!(&buf[..2], &[2, 3]);
}
