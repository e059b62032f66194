use disktest::generator::chacha::{GeneratorChaCha12, GeneratorChaCha20, GeneratorChaCha8};
use disktest::generator::crc::GeneratorCrc;
use disktest::generator::NextRandom;

fn reduce(acc: u32, (i, x): (usize, &u8)) -> u32 {
    acc.rotate_left(i as u32) ^ (*x as u32)
}

#[test]
fn crc_test_cmp_result() {
    let mut a = GeneratorCrc::new(&[1, 2, 3]);
    let mut buf = vec![0u8; GeneratorCrc::BASE_SIZE * 3];
    a.next(&mut buf[0..GeneratorCrc::BASE_SIZE], 1);
    assert_eq!(buf.iter().enumerate().fold(0, reduce), 2183862535);
    a.next(&mut buf[0..GeneratorCrc::BASE_SIZE], 1);
    assert_eq!(buf.iter().enumerate().fold(0, reduce), 2200729683);
    a.next(&mut buf[0..GeneratorCrc::BASE_SIZE * 2], 2);
    assert_eq!(buf.iter().enumerate().fold(0, reduce), 17260884);
    a.next(&mut buf[0..GeneratorCrc::BASE_SIZE * 3], 3);
    assert_eq!(buf.iter().enumerate().fold(0, reduce), 581162875);
}

#[test]
fn crc_test_seed_equal() {
    let mut a = GeneratorCrc::new(&[1, 2, 3]);
    let mut b = GeneratorCrc::new(&[1, 2, 3]);
    let mut res_a: Vec<Vec<u8>> = vec![];
    let mut res_b: Vec<Vec<u8>> = vec![];
    for _ in 0..2 {
        let mut buf = vec![0u8; GeneratorCrc::BASE_SIZE];
        a.next(&mut buf, 1);
        res_a.push(buf);
        let mut buf = vec![0u8; GeneratorCrc::BASE_SIZE];
        b.next(&mut buf, 1);
        res_b.push(buf);
    }
    assert_eq!(res_a[0], res_b[0]);
    assert_eq!(res_a[1], res_b[1]);
    assert_ne!(res_a[0], res_a[1]);
    assert_ne!(res_b[0], res_b[1]);
}

#[test]
fn crc_test_seed_diff() {
    let mut a = GeneratorCrc::new(&[1, 2, 3]);
    let mut b = GeneratorCrc::new(&[1, 2, 4]);
    let mut res_a: Vec<Vec<u8>> = vec![];
    let mut res_b: Vec<Vec<u8>> = vec![];
    for _ in 0..2 {
        let mut buf = vec![0u8; GeneratorCrc::BASE_SIZE];
        a.next(&mut buf, 1);
        res_a.push(buf);
        let mut buf = vec![0u8; GeneratorCrc::BASE_SIZE];
        b.next(&mut buf, 1);
        res_b.push(buf);
    }
    assert_ne!(res_a[0], res_b[0]);
    assert_ne!(res_a[1], res_b[1]);
    assert_ne!(res_a[0], res_a[1]);
    assert_ne!(res_b[0], res_b[1]);
}

#[test]
fn crc_test_concat_equal() {
    let mut a = GeneratorCrc::new(&[1, 2, 3]);
    let mut b = GeneratorCrc::new(&[1, 2, 3]);
    let mut buf_a = vec![0u8; GeneratorCrc::BASE_SIZE * 2];
    a.next(&mut buf_a[0..GeneratorCrc::BASE_SIZE], 1);
    a.next(&mut buf_a[GeneratorCrc::BASE_SIZE..GeneratorCrc::BASE_SIZE * 2], 1);
    let mut buf_b = vec![0u8; GeneratorCrc::BASE_SIZE * 2];
    b.next(&mut buf_b, 2);
    assert_eq!(buf_a, buf_b);
}

#[test]
fn crc_test_seek() {
    let mut a = GeneratorCrc::new(&[1, 2, 3]);
    let mut b = GeneratorCrc::new(&[1, 2, 3]);
    b.seek(GeneratorCrc::BASE_SIZE as u64 * 2).unwrap();
    let mut bdata = vec![0u8; GeneratorCrc::BASE_SIZE];
    b.next(&mut bdata, 1);
    let mut adata = vec![0u8; GeneratorCrc::BASE_SIZE];
    a.next(&mut adata, 1);
    assert_ne!(adata, bdata);
    a.next(&mut adata, 1);
    assert_ne!(adata, bdata);
    a.next(&mut adata, 1);
    assert_eq!(adata, bdata);
    a.next(&mut adata, 1);
    assert_ne!(adata, bdata);
}

#[test]
fn crc_seek_unaligned_fails() {
    let mut a = GeneratorCrc::new(&[1, 2, 3]);
    assert_eq!(
        a.seek(100).unwrap_err().kind,
        disktest::ErrorKind::SeekAlignment
    );
    assert_eq!(a.get_pos(), 0);
}

fn chacha_vectors<G: NextRandom>(mut a: G, expected: [u32; 4]) {
    let f = 1024 + 512;
    let mut buf = vec![0u8; 2048 * f];
    a.next(&mut buf, f);
    assert_eq!(buf.iter().enumerate().fold(0, reduce), expected[0]);
    let mut buf = vec![0u8; 2048 * f];
    a.next(&mut buf, f);
    assert_eq!(buf.iter().enumerate().fold(0, reduce), expected[1]);
    let mut buf = vec![0u8; 2048 * f * 2];
    a.next(&mut buf, f * 2);
    assert_eq!(buf.iter().enumerate().fold(0, reduce), expected[2]);
    let mut buf = vec![0u8; 2048 * f * 3];
    a.next(&mut buf, f * 3);
    assert_eq!(buf.iter().enumerate().fold(0, reduce), expected[3]);
}

#[test]
fn chacha20_fixed_vectors() {
    chacha_vectors(
        GeneratorChaCha20::new(&[1, 2, 3]),
        [331195744, 1401252284, 1567136089, 3153433807],
    );
}

#[test]
fn chacha12_fixed_vectors() {
    chacha_vectors(
        GeneratorChaCha12::new(&[1, 2, 3]),
        [477482776, 774733417, 473700519, 3620480628],
    );
}

#[test]
fn chacha8_fixed_vectors() {
    chacha_vectors(
        GeneratorChaCha8::new(&[1, 2, 3]),
        [3691419247, 1996469034, 1245532037, 1660157839],
    );
}

#[test]
fn chacha20_test_seed_equal() {
    let mut a = GeneratorChaCha20::new(&[1, 2, 3]);
    let mut b = GeneratorChaCha20::new(&[1, 2, 3]);
    let mut x = vec![0u8; 2048];
    let mut y = vec![0u8; 2048];
    a.next(&mut x, 1);
    b.next(&mut y, 1);
    assert_eq!(x, y);
    let mut z = vec![0u8; 2048];
    a.next(&mut z, 1);
    assert_ne!(x, z);
}

#[test]
fn chacha20_test_seed_diff() {
    let mut a = GeneratorChaCha20::new(&[1, 2, 3]);
    let mut b = GeneratorChaCha20::new(&[1, 2, 4]);
    let mut x = vec![0u8; 2048];
    let mut y = vec![0u8; 2048];
    a.next(&mut x, 1);
    b.next(&mut y, 1);
    assert_ne!(x, y);
}

#[test]
fn chacha20_test_concat_equal() {
    let mut a = GeneratorChaCha20::new(&[1, 2, 3]);
    let mut b = GeneratorChaCha20::new(&[1, 2, 3]);
    let mut buf_a = vec![0u8; 2048 * 2];
    a.next(&mut buf_a[0..2048], 1);
    a.next(&mut buf_a[2048..4096], 1);
    let mut buf_b = vec![0u8; 2048 * 2];
    b.next(&mut buf_b, 2);
    assert_eq!(buf_a, buf_b);
}

#[test]
fn chacha_seek_matches_skip() {
    let mut a = GeneratorChaCha8::new(&[1, 2, 3]);
    let mut b = GeneratorChaCha8::new(&[1, 2, 3]);
    b.seek(2048 * 2).unwrap();
    let mut bdata = vec![0u8; 2048];
    b.next(&mut bdata, 1);
    let mut adata = vec![0u8; 2048 * 3];
    a.next(&mut adata, 3);
    assert_eq!(&adata[4096..], &bdata[..]);
    assert_eq!(b.get_pos(), 2048 * 3);
    assert_eq!(
        b.seek(2047).unwrap_err().kind,
        disktest::ErrorKind::SeekAlignment
    );
}
