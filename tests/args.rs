use disktest::args::{parse_quiet, round_key_id, round_next, CliArgs, RoundAction, RoundPhase};
use disktest::disktest::{compare_chunk, max_bytes_misaligned, seek_rounding, write_step, WriteStep};
use disktest::hasher::{HasherCRC, NextHash};
use disktest::Error;
use disktest::rawio::{disk_size_from_geometry, is_raw_dev, read_outcome, write_outcome};
use disktest::RawIoResult;
use disktest::seed::gen_seed_string;
use disktest::{DisktestQuiet, DtStreamType, ErrorKind};

fn cli(write: bool, verify: bool, seed: Option<&str>, rounds: u64, start_round: u64) -> CliArgs {
    CliArgs {
        device: "/dev/foobar".to_string(),
        write,
        verify,
        seek: 123,
        max_bytes: 456,
        algorithm: DtStreamType::Crc,
        seed: seed.map(|s| s.to_string()),
        invert_pattern: true,
        threads: 24,
        rounds,
        start_round,
        quiet: DisktestQuiet::NoInfo,
    }
}

#[test]
fn into_args_defaults_to_verify() {
    let a = cli(false, false, Some("mysecret"), 1, 0).into_args().unwrap();
    assert!(!a.write);
    assert!(a.verify);
    assert!(a.user_seed);
    assert_eq!(a.seed, "mysecret");
    assert_eq!(a.device, "/dev/foobar");
    assert_eq!(a.seek, 123);
    assert_eq!(a.max_bytes, 456);
    assert_eq!(a.algorithm, DtStreamType::Crc);
    assert!(a.invert_pattern);
    assert_eq!(a.threads, 24);
    assert_eq!(a.quiet, DisktestQuiet::NoInfo);
}

#[test]
fn into_args_verify_only_needs_seed() {
    let e = cli(false, true, None, 1, 0).into_args().err().unwrap();
    assert_eq!(e.kind, ErrorKind::Parse);
}

#[test]
fn into_args_generates_seed() {
    let a = cli(true, true, None, 1, 0).into_args().unwrap();
    assert!(!a.user_seed);
    assert_eq!(a.seed.len(), 40);
    assert!(a.seed.chars().all(|c| c.is_ascii_alphanumeric()));
}

#[test]
fn into_args_rounds() {
    assert_eq!(cli(true, false, None, 0, 0).into_args().unwrap().rounds, u64::MAX);
    assert_eq!(cli(true, false, None, 3, 5).into_args().unwrap().rounds, 6);
    assert_eq!(cli(true, false, None, 3, 1).into_args().unwrap().rounds, 3);
}

#[test]
fn quiet_levels() {
    assert_eq!(parse_quiet("0").unwrap(), DisktestQuiet::Normal);
    assert_eq!(parse_quiet("1").unwrap(), DisktestQuiet::Reduced);
    assert_eq!(parse_quiet("2").unwrap(), DisktestQuiet::NoInfo);
    assert_eq!(parse_quiet("3").unwrap(), DisktestQuiet::NoWarn);
    assert_eq!(parse_quiet("4").unwrap_err().kind, ErrorKind::Parse);
    assert_eq!(parse_quiet("x").unwrap_err().kind, ErrorKind::Parse);
    assert_eq!(DisktestQuiet::NoWarn.level(), 3);
    assert!(DisktestQuiet::Normal < DisktestQuiet::NoInfo);
}

#[test]
fn round_ids() {
    assert_eq!(round_key_id(true, 7, 2), 7);
    assert_eq!(round_key_id(false, 7, 2), 2);
}

#[test]
fn seed_string_shape() {
    let s = gen_seed_string(42);
    assert_eq!(s.len(), 42);
    assert!(s.chars().all(|c| c.is_ascii_alphanumeric()));
    assert_ne!(gen_seed_string(42), gen_seed_string(42));
}

#[test]
fn raw_device_paths() {
    assert!(is_raw_dev("\\\\.\\E:"));
    assert!(is_raw_dev("\\\\.\\e:"));
    assert!(is_raw_dev("\\\\.\\PhysicalDrive2"));
    assert!(is_raw_dev("\\\\.\\PHYSICALDRIVE12"));
    assert!(!is_raw_dev("\\\\.\\PhysicalDrive"));
    assert!(!is_raw_dev("\\\\.\\E:\\file"));
    assert!(!is_raw_dev("E:\\testfile"));
    assert!(!is_raw_dev("\\\\.\\1:"));
}

#[test]
fn device_outcomes() {
    assert_eq!(disk_size_from_geometry(512, 63, 255, 1000), 512 * 63 * 255 * 1000);
    assert_eq!(disk_size_from_geometry(512, 63, 255, -1), 0);
    assert_eq!(disk_size_from_geometry(u32::MAX, u32::MAX, u32::MAX, 2), u64::MAX);
    assert_eq!(write_outcome(true, 7, 100, 50, false).unwrap(), RawIoResult::Processed(7));
    assert_eq!(write_outcome(false, 0, 100, 100, false).unwrap(), RawIoResult::Enospc);
    assert_eq!(write_outcome(false, 5, 100, 100, false).unwrap(), RawIoResult::Processed(5));
    assert_eq!(write_outcome(false, 0, 10, 100, true).unwrap(), RawIoResult::Enospc);
    assert_eq!(write_outcome(false, 0, 10, 100, false).unwrap_err().kind, ErrorKind::Io);
    assert_eq!(read_outcome(false, 3, 100, 100).unwrap(), RawIoResult::Processed(3));
    assert_eq!(read_outcome(false, 3, 10, 100).unwrap_err().kind, ErrorKind::Io);
}

#[test]
fn round_sequence() {
    // write and verify, rounds [0, 2)
    let a = round_next(true, true, 0, 2, 0, RoundPhase::Begin, true);
    assert_eq!(a, RoundAction::Write { round: 0, id: 0 });
    let a = round_next(true, true, 0, 2, 0, RoundPhase::Wrote, true);
    assert_eq!(a, RoundAction::Verify { round: 0, id: 0 });
    let a = round_next(true, true, 0, 2, 0, RoundPhase::Verified, true);
    assert_eq!(a, RoundAction::Write { round: 1, id: 1 });
    let a = round_next(true, true, 0, 2, 1, RoundPhase::Verified, true);
    assert_eq!(a, RoundAction::Stop { success: true });
    // a failed write stops without verifying
    let a = round_next(true, true, 0, 2, 0, RoundPhase::Wrote, false);
    assert_eq!(a, RoundAction::Stop { success: false });
    // verify only keeps the start round's keys
    let a = round_next(false, true, 3, 6, 4, RoundPhase::Verified, true);
    assert_eq!(a, RoundAction::Verify { round: 5, id: 3 });
}

#[test]
fn write_steps() {
    use_step(Ok(RawIoResult::Processed(10)), 100, 0, 10, WriteStep::Continue);
    use_step(Ok(RawIoResult::Processed(10)), 100, 90, 10, WriteStep::Done(100));
    use_step(Ok(RawIoResult::Enospc), u64::MAX, 90, 10, WriteStep::Done(90));
    use_step(Ok(RawIoResult::Enospc), 100, 0, 10, WriteStep::Fail(ErrorKind::OutOfSpace));
    use_step(Err(Error::new(ErrorKind::Io)), 100, 0, 10, WriteStep::Fail(ErrorKind::Io));
}

fn use_step(res: Result<RawIoResult, Error>, max: u64, written: u64, len: u64, expected: WriteStep) {
    assert_eq!(write_step(&res, max, written, len), expected);
}

#[test]
fn chunk_comparison() {
    assert_eq!(compare_chunk(&[1, 2, 3], &[1, 2, 3, 4], 100), None);
    assert_eq!(compare_chunk(&[1, 9, 3], &[1, 2, 3, 4], 100), Some(101));
    assert_eq!(compare_chunk(&[], &[1], 5), None);
}

#[test]
fn seek_and_sector_warnings() {
    assert_eq!(seek_rounding(3145728 + 7), 3145728);
    assert_eq!(seek_rounding(5), 0);
    assert!(max_bytes_misaligned(1000, Some(512)));
    assert!(!max_bytes_misaligned(1024, Some(512)));
    assert!(!max_bytes_misaligned(u64::MAX, Some(512)));
    assert!(!max_bytes_misaligned(1000, None));
}

#[test]
fn crc_hasher_blocks() {
    let mut h = HasherCRC::new(&[1, 2, 3]);
    assert_eq!(h.get_size(), 2048);
    let mut buf = vec![];
    h.next_chunk(&mut buf, 2);
    let mut g = disktest::generator::crc::GeneratorCrc::new(&[1, 2, 3]);
    let mut expected = vec![0u8; 4096];
    disktest::generator::NextRandom::next(&mut g, &mut expected, 2);
    assert_eq!(buf, expected);
}
