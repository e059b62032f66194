use disktest::format::HHMMSS_LIMIT;
use disktest::{fold, parsebytes, prettybytes, ErrorKind, Hhmmss};
use std::time::Duration;

#[test]
fn util_test_prettybytes() {
    assert_eq!(prettybytes(42, true, true, false), "42 bytes");
    assert_eq!(prettybytes(42 * 1024, true, true, false), "42.0 kiB (43.0 kB)");
    assert_eq!(prettybytes(42 * 1024 * 1024, true, true, false), "42.0 MiB (44.0 MB)");
    assert_eq!(prettybytes(42 * 1024 * 1024 * 1024, true, true, false), "42.00 GiB (45.10 GB)");
    assert_eq!(
        prettybytes(42 * 1024 * 1024 * 1024 * 1024, true, true, false),
        "42.0000 TiB (46.1795 TB)"
    );
    assert_eq!(
        prettybytes(42 * 1024 * 1024 * 1024 * 1024 * 1024, true, true, false),
        "42.0000 PiB (47.2878 PB)"
    );
    assert_eq!(
        prettybytes(2 * 1024 * 1024 * 1024 * 1024 * 1024 * 1024, true, true, false),
        "2.0000 EiB (2.3058 EB)"
    );

    assert_eq!(prettybytes(42, true, false, false), "42 bytes");
    assert_eq!(prettybytes(42, false, true, false), "42 bytes");
    assert_eq!(prettybytes(42, false, false, false), "");

    assert_eq!(prettybytes(42 * 1024, true, false, false), "42.0 kiB");
    assert_eq!(prettybytes(42 * 1024, false, true, false), "43.0 kB");
    assert_eq!(prettybytes(42 * 1024, false, false, false), "");

    assert_eq!(prettybytes(42 * 1024, true, true, true), "42.0 kiB (43.0 kB, 43008 bytes)");
    assert_eq!(prettybytes(42 * 1024, true, false, true), "42.0 kiB (43008 bytes)");
}

#[test]
fn prettybytes_edges() {
    assert_eq!(prettybytes(1023, true, true, true), "1023 bytes");
    assert_eq!(prettybytes(1024, true, true, false), "1.0 kiB (1.0 kB)");
    assert_eq!(prettybytes(1536, false, true, true), "1.5 kB, 1536 bytes");
    assert_eq!(prettybytes(u64::MAX, true, false, false), "16.0000 EiB");
}

#[test]
fn util_test_parsebytes() {
    assert_eq!(parsebytes("42").unwrap(), 42);

    assert_eq!(parsebytes("42kib").unwrap(), 42 * 1024);
    assert_eq!(parsebytes("42 mib").unwrap(), 42 * 1024 * 1024);
    assert_eq!(parsebytes(" 42 gib ").unwrap(), 42 * 1024 * 1024 * 1024);
    assert_eq!(parsebytes("42Tib").unwrap(), 42 * 1024 * 1024 * 1024 * 1024);
    assert_eq!(parsebytes("42PiB").unwrap(), 42 * 1024 * 1024 * 1024 * 1024 * 1024);
    assert_eq!(parsebytes("2 EIB ").unwrap(), 2 * 1024 * 1024 * 1024 * 1024 * 1024 * 1024);

    assert_eq!(parsebytes("42.5kib").unwrap(), 42 * 1024 + 1024 / 2);
    assert_eq!(parsebytes("42.5 mib").unwrap(), 42 * 1024 * 1024 + 1024 * 1024 / 2);
    assert_eq!(parsebytes(" 42.5 gib ").unwrap(), 42 * 1024 * 1024 * 1024 + 1024 * 1024 * 1024 / 2);
    assert_eq!(
        parsebytes("42.5Tib").unwrap(),
        42 * 1024 * 1024 * 1024 * 1024 + 1024 * 1024 * 1024 * 1024 / 2
    );
    assert_eq!(
        parsebytes("42.5PiB").unwrap(),
        42 * 1024 * 1024 * 1024 * 1024 * 1024 + 1024 * 1024 * 1024 * 1024 * 1024 / 2
    );
    assert_eq!(
        parsebytes("1.5 EIB ").unwrap(),
        1024 * 1024 * 1024 * 1024 * 1024 * 1024 + 1024 * 1024 * 1024 * 1024 * 1024 * 1024 / 2
    );

    assert_eq!(parsebytes("42k").unwrap(), 42 * 1024);
    assert_eq!(parsebytes("42 m").unwrap(), 42 * 1024 * 1024);
    assert_eq!(parsebytes(" 42 g ").unwrap(), 42 * 1024 * 1024 * 1024);
    assert_eq!(parsebytes("42T").unwrap(), 42 * 1024 * 1024 * 1024 * 1024);
    assert_eq!(parsebytes("42P").unwrap(), 42 * 1024 * 1024 * 1024 * 1024 * 1024);
    assert_eq!(parsebytes("2 E ").unwrap(), 2 * 1024 * 1024 * 1024 * 1024 * 1024 * 1024);

    assert_eq!(parsebytes("42.5k").unwrap(), 42 * 1024 + 1024 / 2);
    assert_eq!(parsebytes("42.5 m").unwrap(), 42 * 1024 * 1024 + 1024 * 1024 / 2);
    assert_eq!(parsebytes(" 42.5 g ").unwrap(), 42 * 1024 * 1024 * 1024 + 1024 * 1024 * 1024 / 2);
    assert_eq!(
        parsebytes("42.5T").unwrap(),
        42 * 1024 * 1024 * 1024 * 1024 + 1024 * 1024 * 1024 * 1024 / 2
    );
    assert_eq!(
        parsebytes("42.5P").unwrap(),
        42 * 1024 * 1024 * 1024 * 1024 * 1024 + 1024 * 1024 * 1024 * 1024 * 1024 / 2
    );
    assert_eq!(
        parsebytes("1.5 E ").unwrap(),
        1024 * 1024 * 1024 * 1024 * 1024 * 1024 + 1024 * 1024 * 1024 * 1024 * 1024 * 1024 / 2
    );

    assert_eq!(parsebytes("42kb").unwrap(), 42 * 1000);
    assert_eq!(parsebytes("42 mb").unwrap(), 42 * 1000 * 1000);
    assert_eq!(parsebytes(" 42 gb ").unwrap(), 42 * 1000 * 1000 * 1000);
    assert_eq!(parsebytes("42Tb").unwrap(), 42 * 1000 * 1000 * 1000 * 1000);
    assert_eq!(parsebytes("42PB").unwrap(), 42 * 1000 * 1000 * 1000 * 1000 * 1000);
    assert_eq!(parsebytes("2 EB ").unwrap(), 2 * 1000 * 1000 * 1000 * 1000 * 1000 * 1000);

    assert_eq!(parsebytes("42.5kb").unwrap(), 42 * 1000 + 1000 / 2);
    assert_eq!(parsebytes("42.5 mb").unwrap(), 42 * 1000 * 1000 + 1000 * 1000 / 2);
    assert_eq!(parsebytes(" 42.5 gb ").unwrap(), 42 * 1000 * 1000 * 1000 + 1000 * 1000 * 1000 / 2);
    assert_eq!(
        parsebytes("42.5Tb").unwrap(),
        42 * 1000 * 1000 * 1000 * 1000 + 1000 * 1000 * 1000 * 1000 / 2
    );
    assert_eq!(
        parsebytes("42.5PB").unwrap(),
        42 * 1000 * 1000 * 1000 * 1000 * 1000 + 1000 * 1000 * 1000 * 1000 * 1000 / 2
    );
    assert_eq!(
        parsebytes("1.5 EB ").unwrap(),
        1000 * 1000 * 1000 * 1000 * 1000 * 1000 + 1000 * 1000 * 1000 * 1000 * 1000 * 1000 / 2
    );
}

#[test]
fn parsebytes_rejects() {
    assert_eq!(parsebytes("").unwrap_err().kind, ErrorKind::Parse);
    assert_eq!(parsebytes("abc").unwrap_err().kind, ErrorKind::Parse);
    assert_eq!(parsebytes("42 xb").unwrap_err().kind, ErrorKind::Parse);
    assert_eq!(parsebytes("16 eib").unwrap_err().kind, ErrorKind::Parse);
    assert_eq!(parsebytes("18446744073709551616").unwrap_err().kind, ErrorKind::Parse);
    assert_eq!(parsebytes("18446744073709551615").unwrap(), u64::MAX);
    assert_eq!(parsebytes("+7 k").unwrap(), 7 * 1024);
    assert_eq!(parsebytes(".5k").unwrap(), 512);
    assert_eq!(parsebytes("0.0005 kb").unwrap(), 1);
}

#[test]
fn test_hhmmss() {
    assert_eq!(Duration::from_secs(0).as_secs().hhmmss(), "00h:00m:00s");
    assert_eq!(Duration::from_secs((2 * 60 * 60) + (3 * 60) + 4).as_secs().hhmmss(), "02h:03m:04s");
    assert_eq!(Duration::from_secs((23 * 60 * 60) + (59 * 60) + 59).as_secs().hhmmss(), "23h:59m:59s");
    assert_eq!(Duration::from_secs((99 * 60 * 60) + (59 * 60) + 59).as_secs().hhmmss(), "99h:59m:59s");
    assert_eq!(
        Duration::from_secs((99 * 60 * 60) + (59 * 60) + 59 + 1).as_secs().hhmmss(),
        ">99h:59m:59s"
    );
    assert_eq!(HHMMSS_LIMIT.hhmmss(), "99h:59m:59s");
}

#[test]
fn util_test_fold() {
    assert_eq!(fold(&[0x55, 0x55, 0xAA, 0xAA], 2), [0xFF, 0xFF]);
    assert_eq!(fold(&[0x55, 0x55, 0x55, 0x55], 2), [0x00, 0x00]);
    assert_eq!(fold(&[0x55, 0x55, 0xAA, 0x55], 2), [0xFF, 0x00]);
    assert_eq!(fold(&[0x55, 0x55, 0x55, 0xAA], 2), [0x00, 0xFF]);
    assert_eq!(fold(&[0x98, 0xB1, 0x5B, 0x47, 0x8F, 0xF7, 0x9C, 0x6F], 3), [0x43, 0x51, 0xAC]);
    assert_eq!(fold(&[0x12, 0x34, 0x56, 0x78], 4), [0x12, 0x34, 0x56, 0x78]);
    assert_eq!(fold(&[0x12, 0x34, 0x56, 0x78], 6), [0x12, 0x34, 0x56, 0x78, 0x00, 0x00]);
    assert_eq!(fold(&[0x12, 0x34, 0x56, 0x78], 0), []);
}

#[test]
fn parsebytes_unicode_space_and_kelvin() {
    assert_eq!(parsebytes("\u{a0}5").unwrap(), 5);
    assert_eq!(parsebytes("\u{3000}7 kib\u{2009}").unwrap(), 7 * 1024);
    assert_eq!(parsebytes("42\u{212a}").unwrap(), 42 * 1024);
    assert_eq!(parsebytes("1e3k").unwrap_err().kind, ErrorKind::Parse);
}
