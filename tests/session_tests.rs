use q2_proto::netchan::NetChanVanilla;
use q2_proto::session::{oob_packet, parse_challenge, Session, SessionError};
use q2_proto::user_info::UserInfo;
use q2_proto::{ClientEvent, ProtocolVersion};

const VERSION: &str = "q2proto-test v0.1";

fn connected_session() -> Session {
    let mut s = Session::new(27955, VERSION, 0);
    assert_eq!(s.finish_connect(b"client_connect map=q2dm1 nc=0\n"), Some(()));
    s
}

fn header(seq: u32, ack: u32) -> Vec<u8> {
    let mut v = seq.to_le_bytes().to_vec();
    v.extend_from_slice(&ack.to_le_bytes());
    v
}

#[test]
fn challenge_exchange() {
    let c = parse_challenge(b"challenge 12345 p=34,35,36\n").expect("challenge");
    assert_eq!(c.ch_value, "12345");
    assert_eq!(c.protocols, "34,35,36");
}

#[test]
fn challenge_rejects_malformed_replies() {
    assert!(parse_challenge(b"challenge 12345 34,35\n").is_none());
    assert!(parse_challenge(b"challenges 1 p=34").is_none());
    assert!(parse_challenge(b"challenge 1").is_none());
    assert!(parse_challenge(&[0x63, 0xFF]).is_none());
}

#[test]
fn serverdata_frame() {
    let bytes = vec![
        0x0Cu8, 0x22, 0x00, 0x00, 0x00, 0x01, 0x00, 0x00, 0x00, 0x00, 0x62, 0x61, 0x73, 0x65, 0x71, 0x32, 0x00,
        0xFF, 0x00, 0x74, 0x65, 0x73, 0x74, 0x00,
    ];
    let mut s = Session::new(1, VERSION, 0);
    let mut pos: usize = 0;
    let evts = s.parse_command(&bytes, &mut pos, 0).events;
    assert_eq!(evts.len(), 1);
    match &evts[0] {
        ClientEvent::ServerData(m) => {
            assert_eq!(m.protocol, 34);
            assert_eq!(m.srv_count, 1);
            assert_eq!(m.attract_loop, 0);
            assert_eq!(m.gamedir, "baseq2");
            assert_eq!(m.clnum, 255);
            assert_eq!(m.levelname, "test");
        }
        _ => panic!("not server data"),
    }
}

#[test]
fn configstring_through_decoder() {
    let bytes = vec![0x0Du8, 0x05, 0x00, 0x68, 0x69, 0x00];
    let mut s = Session::new(1, VERSION, 0);
    let mut pos: usize = 0;
    let evts = s.parse_command(&bytes, &mut pos, 0).events;
    assert_eq!(evts.len(), 1);
    assert!(matches!(&evts[0], ClientEvent::ConfigString(5, v) if v == b"hi"));
}

#[test]
fn disconnect_emission() {
    let mut s = connected_session();
    let before = s.chan().queued_message();
    let mut pos: usize = 0;
    let evts = s.parse_command(&[7u8], &mut pos, 0).events;
    assert_eq!(evts.len(), 1);
    assert!(matches!(evts[0], ClientEvent::Disconnect));
    let mut expected = before.clone();
    expected.push(4);
    expected.extend_from_slice(b"disconnect");
    expected.push(0);
    assert_eq!(s.chan().queued_message(), expected);
}

#[test]
fn stuff_text_auto_reply() {
    let mut s = connected_session();
    let before = s.chan().queued_message();
    let mut bytes = vec![0x0Bu8];
    bytes.extend_from_slice(b"cmd \x7fcversion\n");
    bytes.push(0);
    let mut pos: usize = 0;
    let evts = s.parse_command(&bytes, &mut pos, 0).events;
    assert_eq!(evts.len(), 1);
    assert!(matches!(evts[0], ClientEvent::StuffText(_)));
    let queued = s.chan().queued_message();
    let reply = &queued[before.len()..];
    let mut expected = vec![4u8, 0x7F, b'c', b' '];
    expected.extend_from_slice(format!("version \"{}\"", VERSION).as_bytes());
    expected.push(0);
    assert_eq!(reply, &expected[..]);
}

#[test]
fn stuff_text_precache_and_actoken() {
    let mut s = connected_session();
    let before = s.chan().queued_message();
    let mut bytes = vec![0x0Bu8];
    bytes.extend_from_slice(b"precache 42\ncmd \x7fcactoken\nchanging\n");
    bytes.push(0);
    let mut pos: usize = 0;
    s.parse_command(&bytes, &mut pos, 777).events;
    assert_eq!(s.last_precache_value(), 42);
    let queued = s.chan().queued_message();
    let mut expected = vec![4u8];
    expected.extend_from_slice(b"begin 42\0");
    expected.extend_from_slice(&[4u8, 0x7F, b'c', b' ']);
    expected.extend_from_slice(b"actoken\0");
    assert_eq!(&queued[before.len()..], &expected[..]);
}

#[test]
fn precache_with_bad_number_is_zero() {
    let mut s = connected_session();
    let mut bytes = vec![0x0Bu8];
    bytes.extend_from_slice(b"precache 4294967296");
    bytes.push(0);
    let mut pos: usize = 0;
    s.parse_command(&bytes, &mut pos, 0).events;
    assert_eq!(s.last_precache_value(), 0);
}

#[test]
fn bad_command_is_an_error() {
    let mut s = connected_session();
    let mut pos: usize = 0;
    let got = s.parse_command(&[0x0Fu8, 0x61, 0x00, 0x00, 0x0F, 0x62, 0x00], &mut pos, 0);
    assert_eq!(got.error, Some(SessionError::BadCommand));
    assert_eq!(got.events.len(), 1);
    assert!(matches!(&got.events[0], ClientEvent::CenterPrint(t) if t == b"a"));
    assert!(!s.is_connected());
}

#[test]
fn undecoded_command_stops_the_stream() {
    let mut s = Session::new(1, VERSION, 0);
    let mut pos: usize = 0;
    let evts = s.parse_command(&[0x0Fu8, 0x61, 0x00, 0x01, 0x07], &mut pos, 0).events;
    assert_eq!(evts.len(), 1);
    assert!(matches!(&evts[0], ClientEvent::CenterPrint(t) if t == b"a"));
}

#[test]
fn nop_is_skipped() {
    let mut s = Session::new(1, VERSION, 0);
    let mut pos: usize = 0;
    let got = s.parse_command(&[0x06u8, 0x0F, 0x61, 0x00, 0x06, 0x07], &mut pos, 0);
    assert_eq!(got.error, None);
    assert_eq!(got.events.len(), 2);
    assert!(matches!(&got.events[0], ClientEvent::CenterPrint(t) if t == b"a"));
    assert!(matches!(got.events[1], ClientEvent::Disconnect));
}

#[test]
fn command_that_does_not_fit_queues_nothing() {
    let mut s = connected_session();
    let filler = "z".repeat(2000);
    assert_eq!(s.send_command(&filler), Some(()));
    assert_eq!(s.send_command(&filler), Some(()));
    let before = s.chan().queued_message();
    assert_eq!(s.send_command(&"w".repeat(100)), None);
    assert_eq!(s.chan().queued_message(), before);
    let long = "q".repeat(2049);
    assert_eq!(s.send_command(&long), None);
    assert_eq!(s.chan().queued_message(), before);
}

#[test]
fn truncated_baseline_stops_the_stream() {
    let mut s = Session::new(1, VERSION, 0);
    let mut pos: usize = 0;
    // SpawnBaseline announcing ORIGIN1 with one byte of it left.
    let got = s.parse_command(&[0x0Eu8, 0x01, 0x09, 0xFF], &mut pos, 0);
    assert_eq!(got.error, None);
    assert!(got.events.is_empty());
}

#[test]
fn receive_before_connect_is_refused() {
    let mut s = Session::new(1, VERSION, 0);
    let got = s.receive(&header(1, 0), 0);
    assert_eq!(got.error, Some(SessionError::NotConnected));
    assert!(got.events.is_empty());
}

#[test]
fn anticheat_reply_disconnects() {
    let mut s = Session::new(1, VERSION, 0);
    assert_eq!(s.finish_connect(b"client_connect ac=1"), None);
    assert!(!s.is_connected());
    assert_eq!(s.finish_connect(b"hello"), None);
    assert!(!s.is_connected());
}

#[test]
fn keep_alive_nop() {
    let mut s = connected_session();
    // The first transmit carries the queued `new` command.
    let first = s.tick(0).expect("first packet");
    assert_eq!(&first[..4], &(1u32 | 0x8000_0000).to_le_bytes());
    // The server acknowledges it (ack toggle matches ours).
    let evts = s.receive(&header(1, 1 | 0x8000_0000), 10).events;
    assert!(evts.is_empty());
    assert!(s.tick(1000).is_none());
    let packet = s.tick(2500).expect("keep-alive");
    let mut expected = (2u32 | 0x8000_0000).to_le_bytes().to_vec();
    expected.extend_from_slice(&1u32.to_le_bytes());
    expected.extend_from_slice(&27955u16.to_le_bytes());
    expected.push(1);
    assert_eq!(packet, expected);
}

#[test]
fn connect_request_text() {
    let s = Session::new(27955, VERSION, 0);
    let c = parse_challenge(b"challenge 987 p=34").expect("challenge");
    let mut ui = UserInfo::new();
    ui.insert(String::from("name"), String::from("bob"));
    let msg = s.connect_request(&c, ProtocolVersion::Vanilla, &ui.as_string()).expect("request");
    assert_eq!(msg, b"connect 34 27955 987 \"\\name\\bob\"\n".to_vec());
    assert!(s.connect_request(&c, ProtocolVersion::R1Q2, "").is_none());
    assert_eq!(oob_packet(b"status"), b"\xff\xff\xff\xffstatus".to_vec());
}

#[test]
fn reliable_delivery_toggling() {
    let mut chan = NetChanVanilla::new(true, 9);
    let payloads: Vec<Vec<u8>> = vec![vec![4, 97, 0], vec![4, 98, 0], vec![4, 99, 0]];
    let mut emitted: Vec<Vec<u8>> = Vec::new();
    let mut peer_seq: u32 = 0;
    for p in &payloads {
        assert!(chan.queue_bytes(p));
        // First send of this payload.
        let pkt = chan.transmit(&[]);
        assert_ne!(u32::from_le_bytes([pkt[0], pkt[1], pkt[2], pkt[3]]) & 0x8000_0000, 0);
        let carried = pkt[10..].to_vec();
        assert_eq!(&carried, p);
        if emitted.last() != Some(&carried) {
            emitted.push(carried.clone());
        }
        // Queue more while unacknowledged: it must not start a new payload.
        assert!(chan.queue_bytes(&[1]));
        let idle = chan.transmit(&[]);
        assert_eq!(idle.len(), 10);
        let sent_seq = chan.outgoing_sequence() - 1;
        // The peer lost the payload and acknowledges the later packet with
        // the old toggle: the payload is sent again.
        peer_seq += 1;
        let stale = if chan.reliable_sequence() { 0 } else { 0x8000_0000 };
        let mut h = peer_seq.to_le_bytes().to_vec();
        h.extend_from_slice(&(sent_seq | stale).to_le_bytes());
        let mut pos: usize = 0;
        assert!(chan.process(&h, &mut pos));
        let again = chan.transmit(&[]);
        assert_eq!(&again[10..], &p[..]);
        // Now the peer acknowledges.
        peer_seq += 1;
        let ack_bit = if chan.reliable_sequence() { 0x8000_0000 } else { 0 };
        let mut h2 = peer_seq.to_le_bytes().to_vec();
        h2.extend_from_slice(&((chan.outgoing_sequence() - 1) | ack_bit).to_le_bytes());
        let mut pos2: usize = 0;
        assert!(chan.process(&h2, &mut pos2));
        assert!(chan.reliable_payload().is_empty());
        // Drain the queued nop as its own payload and acknowledge it too.
        let nop = chan.transmit(&[]);
        assert_eq!(&nop[10..], &[1u8]);
        peer_seq += 1;
        let ack_bit = if chan.reliable_sequence() { 0x8000_0000 } else { 0 };
        let mut h3 = peer_seq.to_le_bytes().to_vec();
        h3.extend_from_slice(&((chan.outgoing_sequence() - 1) | ack_bit).to_le_bytes());
        let mut pos3: usize = 0;
        assert!(chan.process(&h3, &mut pos3));
    }
    assert_eq!(emitted, payloads);
}

#[test]
fn sequence_monotonicity() {
    let mut chan = NetChanVanilla::new(true, 1);
    let mut pos: usize = 0;
    assert!(chan.process(&header(5, 0), &mut pos));
    assert_eq!(pos, 8);
    let mut pos2: usize = 0;
    assert!(!chan.process(&header(5, 0), &mut pos2));
    let mut pos3: usize = 0;
    assert!(!chan.process(&header(3, 0), &mut pos3));
    assert_eq!(chan.incoming_sequence(), 5);
    let mut pos4: usize = 0;
    assert!(!chan.process(&[1, 0, 0], &mut pos4));
}

#[test]
fn high_bit_isolation() {
    let mut chan = NetChanVanilla::new(true, 1);
    let mut pos: usize = 0;
    assert!(chan.process(&header(0x8000_0007, 0), &mut pos));
    assert_eq!(chan.incoming_sequence(), 7);
    assert!(chan.incoming_reliable_sequence());
    let pkt = chan.transmit(&[9, 9]);
    assert_eq!(&pkt[4..8], &(7u32 | 0x8000_0000).to_le_bytes());
    assert_eq!(&pkt[10..], &[9u8, 9]);
}

#[test]
fn unreliable_data_that_does_not_fit_is_dropped() {
    let mut chan = NetChanVanilla::new(true, 1);
    let big = vec![7u8; 4087];
    let pkt = chan.transmit(&big);
    assert_eq!(pkt.len(), 10);
    let fits = vec![7u8; 4086];
    let pkt2 = chan.transmit(&fits);
    assert_eq!(pkt2.len(), 4096);
}

#[test]
fn userinfo_round_trip() {
    let mut ui = UserInfo::new();
    ui.insert(String::from("name"), String::from("player"));
    ui.insert(String::from("skin"), String::from("male/grunt"));
    ui.insert(String::from("rate"), String::from(""));
    let text = ui.as_string();
    assert_eq!(text, "\\name\\player\\skin\\male/grunt\\rate\\");
    let back = UserInfo::from_string(&text);
    assert_eq!(back.len(), 3);
    assert_eq!(back.get("name"), Some(String::from("player")));
    assert_eq!(back.get("skin"), Some(String::from("male/grunt")));
    assert_eq!(back.get("rate"), Some(String::new()));
    assert_eq!(back.as_string(), text);
}

#[test]
fn userinfo_parsing_edges() {
    assert_eq!(UserInfo::from_string("").len(), 0);
    assert_eq!(UserInfo::from_string("name\\bob").len(), 0);
    let ui = UserInfo::from_string("\\name\\asdfasdf\\name\\x\\dangling");
    assert_eq!(ui.len(), 1);
    assert_eq!(ui.get("name"), Some(String::from("x")));
    assert_eq!(ui.get("dangling"), None);
    assert_eq!(UserInfo::default().len(), 0);
}
