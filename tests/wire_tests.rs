use q2_proto::msg_buf::MsgBuf;
use q2_proto::objects::{parse_configstring, parse_print, parse_serverdata, parse_string, PrintLevel};
use q2_proto::session::connectionless_payload;
use q2_proto::wire::{push_u16_le, push_u32_le, read_u16_le, read_u32_le};
use q2_proto::ClientEvent;

#[test]
fn parse_string_stops_at_zero() {
    let buf = vec![104u8, 105, 0, 120];
    let mut pos: usize = 0;
    let s = parse_string(&buf, &mut pos);
    assert_eq!(s, vec![104u8, 105]);
    assert_eq!(pos, 3);
}

#[test]
fn parse_string_without_terminator_returns_rest() {
    let buf = vec![1u8, 2, 3];
    let mut pos: usize = 1;
    let s = parse_string(&buf, &mut pos);
    assert_eq!(s, vec![2u8, 3]);
    assert_eq!(pos, 3);
}

#[test]
fn parse_string_empty_and_past_end() {
    let buf = vec![0u8, 7];
    let mut pos: usize = 0;
    assert!(parse_string(&buf, &mut pos).is_empty());
    assert_eq!(pos, 1);
    let mut far: usize = 9;
    assert!(parse_string(&buf, &mut far).is_empty());
    assert_eq!(far, 9);
}

#[test]
fn little_endian_round_trip() {
    let mut out = Vec::new();
    push_u32_le(&mut out, 0x8000_0022);
    push_u16_le(&mut out, 0xBEEF);
    assert_eq!(out, vec![0x22, 0, 0, 0x80, 0xEF, 0xBE]);
    let mut pos: usize = 0;
    assert_eq!(read_u32_le(&out, &mut pos), Some(0x8000_0022));
    assert_eq!(read_u16_le(&out, &mut pos), Some(0xBEEF));
    assert_eq!(read_u16_le(&out, &mut pos), None);
    assert_eq!(pos, 6);
}

#[test]
fn msg_buf_string_and_overflow() {
    let mut m = MsgBuf::new(16);
    assert_eq!(m.write_string("abc"), Some(()));
    assert_eq!(m.get_msg(), vec![97u8, 98, 99, 0]);
    let long = "x".repeat(2049);
    assert_eq!(m.write_string(&long), None);
    assert_eq!(m.get_msg(), vec![97u8, 98, 99, 0, 0]);
    assert_eq!(m.write_string("0123456789ab"), None);
    assert_eq!(m.len(), 5);
    m.clear();
    assert!(m.is_empty());
}

#[test]
fn msg_buf_accepts_longest_string() {
    let mut m = MsgBuf::new(4096);
    let s = "y".repeat(2048);
    assert_eq!(m.write_string(&s), Some(()));
    assert_eq!(m.len(), 2049);
}

#[test]
fn print_levels() {
    let buf = vec![3u8, 104, 105, 0];
    let mut pos: usize = 0;
    match parse_print(&buf, &mut pos) {
        Some(ClientEvent::Print(level, text)) => {
            assert_eq!(level, PrintLevel::CHAT);
            assert_eq!(text, vec![104u8, 105]);
        }
        _ => panic!("no print"),
    }
    let unk = vec![9u8, 0];
    let mut pos2: usize = 0;
    assert!(matches!(parse_print(&unk, &mut pos2), Some(ClientEvent::Print(PrintLevel::UNK, _))));
    let mut pos3: usize = 0;
    assert!(parse_print(&[], &mut pos3).is_none());
}

#[test]
fn configstring_scenario() {
    let buf = vec![0x05u8, 0x00, 0x68, 0x69, 0x00];
    let mut pos: usize = 0;
    match parse_configstring(&buf, &mut pos) {
        Some(ClientEvent::ConfigString(index, value)) => {
            assert_eq!(index, 5);
            assert_eq!(value, b"hi".to_vec());
        }
        _ => panic!("no configstring"),
    }
    assert_eq!(pos, 5);
}

#[test]
fn serverdata_rejects_invalid_utf8_name() {
    let buf = vec![
        0x22u8, 0, 0, 0, 1, 0, 0, 0, 0, 0xFF, 0xFE, 0, 0xFF, 0, 0x74, 0,
    ];
    let mut pos: usize = 0;
    assert!(parse_serverdata(&buf, &mut pos).is_none());
}

#[test]
fn serverdata_decodes_utf8_names() {
    let buf = vec![
        0x22u8, 0, 0, 0, 1, 0, 0, 0, 1, 0xC3, 0xA9, 0, 2, 0, 0x74, 0,
    ];
    let mut pos: usize = 0;
    match parse_serverdata(&buf, &mut pos) {
        Some(ClientEvent::ServerData(m)) => {
            assert_eq!(m.gamedir, "\u{e9}");
            assert_eq!(m.levelname, "t");
            assert_eq!(m.clnum, 2);
            assert_eq!(m.attract_loop, 1);
        }
        _ => panic!("no serverdata"),
    }
    assert_eq!(pos, 16);
}

#[test]
fn oob_filter() {
    assert!(connectionless_payload(&[0xFF, 0xFF, 0xFF, 0xFE, 0x61]).is_none());
    assert!(connectionless_payload(&[0xFF, 0xFF, 0xFF]).is_none());
    assert_eq!(connectionless_payload(&[0xFF, 0xFF, 0xFF, 0xFF, 0x61]), Some(vec![0x61u8]));
}
