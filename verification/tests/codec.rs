use idt8a3xxxx::offset;
use idt8a3xxxx::page;
use idt8a3xxxx::Contents;
use idt8a3xxxx::Payload;
use idt8a3xxxx::PAGE_ADDR_15_8;
use idt8a3xxxx::PAGE_ADDR_23_16;
use idt8a3xxxx::PAGE_ADDR_31_24;
use idt8a3xxxx::PAGE_ADDR_7_0;
use chrono::NaiveDateTime;

#[test]
fn data() {
    let bytes = [0xde, 0x01, 0xce, 0xfa, 0xed, 0xfe];

    let check = [
        (Contents::Byte, 0xdeu64),
        (Contents::Word, 0x1de),
        (Contents::Word24, 0xce01de),
        (Contents::Word32, 0xface01de),
        (Contents::Word40, 0xedface01de),
        (Contents::Word48, 0xfeedface01de),
    ];

    for c in check {
        let p = Payload::from_slice(c.0, &bytes).unwrap();
        println!("{:x}", p.value());
        assert_eq!(p.value(), c.1);
    }
}

#[test]
fn tod() {
    let bytes = [0, 0, 0, 0, 0, 0x00, 0x77, 0x76, 0x5d, 0, 0];
    let p = Payload::from_slice(Contents::TimeOfDay, &bytes).unwrap();

    #[allow(deprecated)]
    let d = NaiveDateTime::from_timestamp(p.value() as i64, 0);
    assert_eq!(format!("{}", d), "2019-09-09 16:00:00");
}

#[test]
fn sizes() {
    assert_eq!(Contents::Byte.size(), 1);
    assert_eq!(Contents::Word.size(), 2);
    assert_eq!(Contents::Word24.size(), 3);
    assert_eq!(Contents::Word32.size(), 4);
    assert_eq!(Contents::Word40.size(), 5);
    assert_eq!(Contents::Word48.size(), 6);
    assert_eq!(Contents::Frequency.size(), 8);
    assert_eq!(Contents::TimeOfDay.size(), 11);
}

#[test]
fn short_buffers() {
    let kinds = [
        Contents::Byte,
        Contents::Word,
        Contents::Word24,
        Contents::Word32,
        Contents::Word40,
        Contents::Word48,
        Contents::Frequency,
        Contents::TimeOfDay,
    ];
    let bytes = [0u8; 16];

    for kind in kinds {
        let size = kind.size() as usize;
        assert!(Payload::from_slice(kind, &[]).is_none());
        assert!(Payload::from_slice(kind, &bytes[0..size - 1]).is_none());
        assert!(Payload::from_slice(kind, &bytes[0..size]).is_some());
    }
}

#[test]
fn round_trip() {
    let kinds = [
        Contents::Byte,
        Contents::Word,
        Contents::Word24,
        Contents::Word32,
        Contents::Word40,
        Contents::Word48,
    ];
    let value = 0xfeedface01deu64;

    for kind in kinds {
        let size = kind.size() as usize;
        let expected = value % (1u64 << (8 * size));
        let mut buf = [0u8; 8];
        let p = Payload::into_slice(kind, value, &mut buf).unwrap();
        assert_eq!(p.value(), expected);
    }
}

#[test]
fn encode_bytes() {
    let mut buf = [0xaau8; 12];
    let p = Payload::into_slice(Contents::Word48, 0xfeedface01de, &mut buf).unwrap();
    assert_eq!(p.value(), 0xfeedface01de);
    assert_eq!(&buf[0..6], &[0xde, 0x01, 0xce, 0xfa, 0xed, 0xfe]);
    assert_eq!(&buf[6..12], &[0xaa; 6]);
}

#[test]
fn frequency_ratio() {
    let ratio = [10, 0, 0, 0, 0, 0, 2, 0];
    let p = Payload::from_slice(Contents::Frequency, &ratio).unwrap();
    assert_eq!(p.value(), 5);

    let unity = [10, 0, 0, 0, 0, 0, 0, 0];
    let p = Payload::from_slice(Contents::Frequency, &unity).unwrap();
    assert_eq!(p.value(), 10);
}

#[test]
fn frequency_encode() {
    let mut buf = [0xffu8; 8];
    let p = Payload::into_slice(Contents::Frequency, 1000, &mut buf).unwrap();
    assert_eq!(p.value(), 1000);
    assert_eq!(&buf, &[0xe8, 0x03, 0, 0, 0, 0, 0x01, 0x00]);
}

#[test]
fn tod_seconds_only() {
    let bytes = [0x99, 0x88, 0x77, 0x66, 0x55, 0x01, 0x02, 0x03, 0x04, 0x05, 0x06];
    let p = Payload::from_slice(Contents::TimeOfDay, &bytes).unwrap();
    assert_eq!(p.value(), 0x060504030201);
}

#[test]
fn paging() {
    assert_eq!(page(0xc03c), 0xc0);
    assert_eq!(offset(0xc03c), 0x3c);
    assert_eq!(page(0x00ff), 0x00);
    assert_eq!(offset(0x00ff), 0xff);
    assert_eq!(PAGE_ADDR_7_0, 0xfc);
    assert_eq!(PAGE_ADDR_15_8, 0xfd);
    assert_eq!(PAGE_ADDR_23_16, 0xfe);
    assert_eq!(PAGE_ADDR_31_24, 0xff);
}
