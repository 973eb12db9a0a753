//! The client's side of a session, apart from the socket: the command
//! decoder, the stuff-text handler, the keep-alive and the connection
//! handshake. The caller does the I/O and hands datagrams and the time in.
use crate::msg_buf::MAX_NET_STRING;
use crate::netchan::{with_byte, with_bytes, with_cstring, wants_transmit, after_transmit, packet_of, ChanView, NetChanVanilla};
use crate::objects::{
    after_cstr, baseline_at, configstring_at, cstr, parse_baseline, parse_configstring, parse_print,
    parse_serverdata, parse_string, print_at, serverdata_at,
};
use crate::text::{
    decimal_digits, has_prefix, parsed_u32, parse_u32, push_decimal, split_bytes, split_seq, split_tokens,
    starts_with, tokens,
};
use crate::text::utf8_string;
use crate::{MAX_WRITEABLE_SIZE, op_of, Challenge, ClientToServerOps, ClientEvent, EventView, ProtocolVersion, ServerToClientOps};
use vstd::utf8::{decode_utf8, encode_utf8, valid_utf8};
use vstd::prelude::*;
use vstd::string::StringSliceAdditionalSpecFns;

verus! {

/// Idle time, in milliseconds, after which a keep-alive is queued.
pub const KEEPALIVE_MS: u64 = 2000;

/// Why a datagram could not be taken in.
#[derive(Clone, Copy, Debug, PartialEq, Eq)]
pub enum SessionError {
    /// The handshake has not completed.
    NotConnected,
    /// The server sent the `Bad` command.
    BadCommand,
}

/// What a datagram yielded: the events decoded, in order, and the error
/// that ended decoding, if one did.
pub struct Received {
    pub events: Vec<ClientEvent>,
    pub error: Option<SessionError>,
}

/// What one command of the stream gave.
enum CommandOutcome {
    Fatal,
    Stop,
    Skip,
    Event(ClientEvent),
}

/// The session's state.
pub struct SessionView {
    pub connected: bool,
    pub chan: ChanView,
    /// The client's version string, as bytes.
    pub version: Seq<u8>,
    pub last_precache_value: u32,
    /// When a datagram was last sent, in milliseconds.
    pub last_sent_ms: u64,
}

/// A session's channel is a client's, and its message buffer holds at most
/// one datagram's worth of bytes.
pub open spec fn session_wf(s: SessionView) -> bool {
    &&& s.chan.is_client
    &&& s.chan.message_capacity == MAX_WRITEABLE_SIZE
    &&& s.chan.message.len() <= MAX_WRITEABLE_SIZE
}

/// The bytes `cmd \x7Fc` that open a protocol sub-command in stuff-text.
pub open spec fn cmd_prefix() -> Seq<u8> {
    seq![99u8, 109, 100, 32, 127, 99]
}

/// The bytes `\x7Fc ` that open a result string-command.
pub open spec fn result_prefix() -> Seq<u8> {
    seq![127u8, 99, 32]
}

pub open spec fn word_version() -> Seq<u8> {
    seq![118u8, 101, 114, 115, 105, 111, 110]
}

pub open spec fn word_actoken() -> Seq<u8> {
    seq![97u8, 99, 116, 111, 107, 101, 110]
}

pub open spec fn word_precache() -> Seq<u8> {
    seq![112u8, 114, 101, 99, 97, 99, 104, 101]
}

pub open spec fn word_disconnect() -> Seq<u8> {
    seq![100u8, 105, 115, 99, 111, 110, 110, 101, 99, 116]
}

pub open spec fn word_new() -> Seq<u8> {
    seq![110u8, 101, 119]
}

/// `version "<v>"`
pub open spec fn version_reply(v: Seq<u8>) -> Seq<u8> {
    seq![118u8, 101, 114, 115, 105, 111, 110, 32, 34] + v + seq![34u8]
}

/// `begin <n>`
pub open spec fn begin_command(n: u32) -> Seq<u8> {
    seq![98u8, 101, 103, 105, 110, 32] + decimal_digits(n as nat)
}

/// The precache number of a `precache` line: the decimal number from its
/// ninth byte on, or zero.
pub open spec fn precache_value(line: Seq<u8>) -> u32 {
    let rest = if line.len() >= 9 { line.subrange(9, line.len() as int) } else { Seq::empty() };
    match parsed_u32(rest) {
        Some(n) => n,
        None => 0,
    }
}

/// `s` after a string-command `cmd` is queued: the command byte, the string
/// and its terminator when connected and all of them fit, else nothing.
pub open spec fn command_sent(s: SessionView, cmd: Seq<u8>) -> SessionView {
    if s.connected && cmd.len() <= MAX_NET_STRING && s.chan.message.len() + cmd.len() + 2
        <= s.chan.message_capacity {
        SessionView { chan: ChanView { message: s.chan.message + seq![4u8] + cmd + seq![0u8], ..s.chan }, ..s }
    } else {
        s
    }
}

/// `s` after a result string-command `cmd` is queued: the command byte, the
/// result prefix, the string and its terminator, all of them or nothing.
pub open spec fn result_sent(s: SessionView, cmd: Seq<u8>) -> SessionView {
    if s.connected && cmd.len() <= MAX_NET_STRING && s.chan.message.len() + cmd.len() + 5
        <= s.chan.message_capacity {
        SessionView {
            chan: ChanView { message: s.chan.message + seq![4u8] + result_prefix() + cmd + seq![0u8], ..s.chan },
            ..s
        }
    } else {
        s
    }
}

/// `s` after one stuff-text line, at time `now`: protocol sub-commands are
/// answered, and a `precache` line is answered with `begin`.
pub open spec fn line_handled(s: SessionView, line: Seq<u8>, now: u64) -> SessionView {
    let s1 = if starts_with(line, cmd_prefix()) {
        let sub = line.subrange(6, line.len() as int);
        if starts_with(sub, word_version()) {
            result_sent(s, version_reply(s.version))
        } else if starts_with(sub, word_actoken()) {
            result_sent(s, word_actoken())
        } else {
            s
        }
    } else {
        s
    };
    if starts_with(line, word_precache()) {
        let n = precache_value(line);
        let s2 = command_sent(SessionView { last_precache_value: n, ..s1 }, begin_command(n));
        SessionView { last_sent_ms: now, ..s2 }
    } else {
        s1
    }
}

/// `s` after the stuff-text `lines`, in order.
pub open spec fn lines_handled(s: SessionView, lines: Seq<Seq<u8>>, now: u64) -> SessionView
    decreases lines.len(),
{
    if lines.len() == 0 {
        s
    } else {
        line_handled(lines_handled(s, lines.drop_last(), now), lines.last(), now)
    }
}

/// `s` after the stuff-text `text`, split into lines at `\n`.
pub open spec fn stuff_handled(s: SessionView, text: Seq<u8>, now: u64) -> SessionView {
    lines_handled(s, split_seq(text, 10u8), now)
}

/// `s` after reacting to event `e`: a disconnect or reconnect is answered
/// with `disconnect`, and stuff-text goes through its handler.
pub open spec fn reacted(s: SessionView, e: EventView, now: u64) -> SessionView {
    match e {
        EventView::Disconnect => command_sent(s, word_disconnect()),
        EventView::Reconnect => command_sent(s, word_disconnect()),
        EventView::StuffText(text) => stuff_handled(s, text, now),
        _ => s,
    }
}

/// `s` after reacting to each of `es`, in order.
pub open spec fn reacted_all(s: SessionView, es: Seq<EventView>, now: u64) -> SessionView
    decreases es.len(),
{
    if es.len() == 0 {
        s
    } else {
        reacted(reacted_all(s, es.drop_last(), now), es.last(), now)
    }
}

/// One step of the command decoder.
pub enum Step {
    /// The datagram is used up.
    End,
    /// The `Bad` command: a protocol error.
    Fatal,
    /// A command this client does not decode, or one cut short: decoding stops.
    Stop,
    /// A command without payload or event (`Nop`), and where the next one starts.
    Skip(int),
    /// An event, and where the next command starts.
    Emit(EventView, int),
}

pub open spec fn emit_or_stop(r: Option<(EventView, int)>) -> Step {
    match r {
        Some((e, n)) => Step::Emit(e, n),
        None => Step::Stop,
    }
}

/// The command at `p`.
#[verifier::opaque]
pub open spec fn step_at(b: Seq<u8>, p: int) -> Step {
    if p < 0 || p >= b.len() {
        Step::End
    } else {
        let q = p + 1;
        match op_of(b[p]) {
            ServerToClientOps::Bad => Step::Fatal,
            ServerToClientOps::Nop => Step::Skip(q),
            ServerToClientOps::Disconnect => Step::Emit(EventView::Disconnect, q),
            ServerToClientOps::Reconnect => Step::Emit(EventView::Reconnect, q),
            ServerToClientOps::Print => emit_or_stop(print_at(b, q)),
            ServerToClientOps::StuffText => Step::Emit(EventView::StuffText(cstr(b, q)), after_cstr(b, q)),
            ServerToClientOps::ServerData => emit_or_stop(serverdata_at(b, q)),
            ServerToClientOps::ConfigString => emit_or_stop(configstring_at(b, q)),
            ServerToClientOps::SpawnBaseline => emit_or_stop(baseline_at(b, q)),
            ServerToClientOps::CenterPrint => Step::Emit(EventView::CenterPrint(cstr(b, q)), after_cstr(b, q)),
            _ => Step::Stop,
        }
    }
}

/// The events decoded from `p` on, and whether decoding met the `Bad` command.
pub open spec fn decoded(b: Seq<u8>, p: int) -> (Seq<EventView>, bool)
    decreases b.len() - p,
{
    if p < 0 || p >= b.len() {
        (Seq::empty(), false)
    } else {
        match step_at(b, p) {
            Step::Fatal => (Seq::empty(), true),
            Step::Emit(e, n) => if p < n <= b.len() {
                let rest = decoded(b, n);
                (seq![e] + rest.0, rest.1)
            } else {
                (seq![e], false)
            },
            Step::Skip(n) => if p < n <= b.len() {
                decoded(b, n)
            } else {
                (Seq::empty(), false)
            },
            _ => (Seq::empty(), false),
        }
    }
}

/// Whether a keep-alive is due at `now` after a send at `last`: more than
/// two seconds have passed.
pub open spec fn keepalive_due(last: u64, now: u64) -> bool {
    now > last && now - last > KEEPALIVE_MS
}

/// A connection to one server, without its socket.
pub struct Session {
    connected: bool,
    chan: NetChanVanilla,
    version: Vec<u8>,
    last_precache_value: u32,
    last_sent_ms: u64,
}

impl View for Session {
    type V = SessionView;

    closed spec fn view(&self) -> SessionView {
        SessionView {
            connected: self.connected,
            chan: self.chan@,
            version: self.version@,
            last_precache_value: self.last_precache_value,
            last_sent_ms: self.last_sent_ms,
        }
    }
}

fn copy_bytes(b: &[u8]) -> (r: Vec<u8>)
    ensures
        r@ == b@,
{
    let mut out: Vec<u8> = Vec::new();
    let mut i: usize = 0;
    while i < b.len()
        invariant
            i <= b@.len(),
            out@ == b@.subrange(0, i as int),
        decreases b@.len() - i,
    {
        out.push(b[i]);
        i = i + 1;
        assert(out@ =~= b@.subrange(0, i as int));
    }
    assert(b@.subrange(0, i as int) =~= b@);
    out
}

impl Session {
    /// A disconnected session whose channel uses `qport`, made at time `now_ms`.
    pub fn new(qport: u16, version: &str, now_ms: u64) -> (r: Session)
        ensures
            r.wf(),
            r@ == (SessionView {
                connected: false,
                chan: crate::netchan::fresh_chan(true, qport),
                version: version.spec_bytes(),
                last_precache_value: 0,
                last_sent_ms: now_ms,
            }),
    {
        Session {
            connected: false,
            chan: NetChanVanilla::new(true, qport),
            version: copy_bytes(version.as_bytes()),
            last_precache_value: 0,
            last_sent_ms: now_ms,
        }
    }

    /// The session's invariant.
    pub open spec fn wf(&self) -> bool {
        session_wf(self@)
    }

    pub fn is_connected(&self) -> (r: bool)
        ensures
            r == self@.connected,
    {
        self.connected
    }

    /// The number of the last `precache` the server asked for.
    pub fn last_precache_value(&self) -> (r: u32)
        ensures
            r == self@.last_precache_value,
    {
        self.last_precache_value
    }

    /// The channel, for inspection.
    pub fn chan(&self) -> (r: &NetChanVanilla)
        ensures
            r@ == self@.chan,
    {
        &self.chan
    }

    fn send_command_bytes(&mut self, cmd: &[u8]) -> (r: Option<()>)
        ensures
            old(self).wf() ==> final(self).wf(),
            final(self)@ == command_sent(old(self)@, cmd@),
            r is Some <==> old(self)@.connected && old(self)@.chan.message.len() + cmd@.len() + 2
                <= old(self)@.chan.message_capacity && cmd@.len() <= MAX_NET_STRING,
    {
        if !self.connected || cmd.len() > MAX_NET_STRING || self.chan.message_room() < cmd.len() + 2 {
            return None;
        }
        let ghost m0 = self@.chan.message;
        self.chan.queue_u8(ClientToServerOps::StringCmd.byte());
        assert(self@.chan.message == m0.push(4u8));
        let r = self.chan.queue_cstring(cmd);
        proof {
            assert(self@.chan.message =~= m0 + seq![4u8] + cmd@ + seq![0u8]);
            assert(self@ =~= command_sent(old(self)@, cmd@));
        }
        r
    }

    /// Queues the reliable string-command `cmd`; `None` when not connected
    /// or when it does not fit.
    pub fn send_command(&mut self, cmd: &str) -> (r: Option<()>)
        ensures
            old(self).wf() ==> final(self).wf(),
            final(self)@ == command_sent(old(self)@, cmd.spec_bytes()),
            r is Some <==> old(self)@.connected && old(self)@.chan.message.len() + cmd.spec_bytes().len() + 2
                <= old(self)@.chan.message_capacity && cmd.spec_bytes().len() <= MAX_NET_STRING,
    {
        self.send_command_bytes(cmd.as_bytes())
    }

    /// Queues `cmd` as a result string-command, behind the `\x7Fc ` prefix.
    fn send_result_command(&mut self, cmd: &[u8]) -> (r: Option<()>)
        ensures
            old(self).wf() ==> final(self).wf(),
            final(self)@ == result_sent(old(self)@, cmd@),
            r is Some <==> old(self)@.connected && old(self)@.chan.message.len() + cmd@.len() + 5
                <= old(self)@.chan.message_capacity && cmd@.len() <= MAX_NET_STRING,
    {
        if !self.connected || cmd.len() > MAX_NET_STRING || self.chan.message_room() < cmd.len() + 5 {
            return None;
        }
        let ghost m0 = self@.chan.message;
        self.chan.queue_u8(ClientToServerOps::StringCmd.byte());
        assert(self@.chan.message == m0.push(4u8));
        let prefix: &[u8] = &[127u8, 99, 32];
        assert(prefix@ =~= result_prefix());
        self.chan.queue_bytes(prefix);
        let r = self.chan.queue_cstring(cmd);
        proof {
            assert(self@.chan.message =~= m0 + seq![4u8] + result_prefix() + cmd@ + seq![0u8]);
            assert(self@ =~= result_sent(old(self)@, cmd@));
        }
        r
    }

    /// Queues a keep-alive `Nop`.
    fn send_nop(&mut self) -> (r: bool)
        ensures
            old(self).wf() ==> final(self).wf(),
            r == (old(self)@.chan.message.len() < old(self)@.chan.message_capacity),
            final(self)@ == (SessionView { chan: with_byte(old(self)@.chan, 1), ..old(self)@ }),
    {
        let r = self.chan.queue_u8(ClientToServerOps::Nop.byte());
        proof {
            assert(self@ =~= (SessionView { chan: with_byte(old(self)@.chan, 1), ..old(self)@ }));
        }
        r
    }

    fn handle_line(&mut self, line: &[u8], now_ms: u64)
        ensures
            old(self).wf() ==> final(self).wf(),
            final(self)@ == line_handled(old(self)@, line@, now_ms),
    {
        let ghost s0 = self@;
        let cmd_head: &[u8] = &[99u8, 109, 100, 32, 127, 99];
        let version_word: &[u8] = &[118u8, 101, 114, 115, 105, 111, 110];
        let actoken_word: &[u8] = &[97u8, 99, 116, 111, 107, 101, 110];
        let precache_word: &[u8] = &[112u8, 114, 101, 99, 97, 99, 104, 101];
        assert(cmd_head@ =~= cmd_prefix());
        assert(version_word@ =~= word_version());
        assert(actoken_word@ =~= word_actoken());
        assert(precache_word@ =~= word_precache());
        if has_prefix(line, cmd_head) {
            let sub = slice_from(line, 6);
            if has_prefix(&sub, version_word) {
                let mut reply: Vec<u8> = Vec::new();
                let head: &[u8] = &[118u8, 101, 114, 115, 105, 111, 110, 32, 34];
                append_bytes(&mut reply, head);
                append_bytes(&mut reply, &self.version);
                reply.push(34);
                assert(reply@ =~= version_reply(s0.version));
                self.send_result_command(&reply);
            } else if has_prefix(&sub, actoken_word) {
                self.send_result_command(actoken_word);
            }
        }
        let ghost s1 = self@;
        if has_prefix(line, precache_word) {
            let rest = slice_from(line, 9);
            let n = match parse_u32(&rest) {
                Some(v) => v,
                None => 0,
            };
            assert(n == precache_value(line@)) by {
                if line@.len() >= 9 {
                    assert(rest@ =~= line@.subrange(9, line@.len() as int));
                } else {
                    assert(rest@ =~= Seq::<u8>::empty());
                }
            }
            self.last_precache_value = n;
            let mut cmd: Vec<u8> = Vec::new();
            let begin: &[u8] = &[98u8, 101, 103, 105, 110, 32];
            append_bytes(&mut cmd, begin);
            push_decimal(&mut cmd, n);
            assert(cmd@ =~= begin_command(n));
            self.send_command_bytes(&cmd);
            self.last_sent_ms = now_ms;
            proof {
                assert(self@ =~= line_handled(s0, line@, now_ms));
            }
        }
    }

    /// Handles server stuff-text at time `now_ms`: splits it into lines and
    /// answers the protocol's own sub-commands.
    pub fn check_stuffcmd(&mut self, stuff_text: &[u8], now_ms: u64)
        ensures
            old(self).wf() ==> final(self).wf(),
            final(self)@ == stuff_handled(old(self)@, stuff_text@, now_ms),
    {
        let lines = split_bytes(stuff_text, 10);
        let ghost lv = lines@.map_values(|v: Vec<u8>| v@);
        let mut i: usize = 0;
        while i < lines.len()
            invariant
                i <= lines@.len(),
                lv == lines@.map_values(|v: Vec<u8>| v@),
                lv == split_seq(stuff_text@, 10u8),
                old(self).wf() ==> self.wf(),
                self@ == lines_handled(old(self)@, lv.subrange(0, i as int), now_ms),
            decreases lines@.len() - i,
        {
            self.handle_line(&lines[i], now_ms);
            i = i + 1;
            proof {
                assert(lv.subrange(0, i as int).drop_last() =~= lv.subrange(0, i - 1));
                assert(lv[i - 1] == lines@[i - 1]@);
            }
        }
        assert(lv.subrange(0, i as int) =~= lv);
    }

    /// Decodes the command at `*pos` and reacts to it.
    fn decode_one(&mut self, buf: &[u8], pos: &mut usize, now_ms: u64) -> (r: CommandOutcome)
        requires
            *old(pos) < buf@.len(),
        ensures
            old(self).wf() ==> final(self).wf(),
            match step_at(buf@, *old(pos) as int) {
                Step::Fatal => r is Fatal && final(self)@ == old(self)@,
                Step::Skip(n) => r is Skip && *final(pos) == n && final(self)@ == old(self)@,
                Step::Emit(e, n) => (r matches CommandOutcome::Event(ev) && ev@ == e) && *final(pos) == n
                    && final(self)@ == reacted(old(self)@, e, now_ms),
                _ => r is Stop && final(self)@ == old(self)@,
            },
    {
        reveal(step_at);
        let op = ServerToClientOps::from_byte(buf[*pos]);
        *pos = *pos + 1;
        let ev = match op {
            ServerToClientOps::Bad => {
                return CommandOutcome::Fatal;
            },
            ServerToClientOps::Nop => {
                return CommandOutcome::Skip;
            },
            ServerToClientOps::Disconnect => {
                self.send_command_bytes(&[100u8, 105, 115, 99, 111, 110, 110, 101, 99, 116]);
                Some(ClientEvent::Disconnect)
            },
            ServerToClientOps::Reconnect => {
                self.send_command_bytes(&[100u8, 105, 115, 99, 111, 110, 110, 101, 99, 116]);
                Some(ClientEvent::Reconnect)
            },
            ServerToClientOps::Print => parse_print(buf, pos),
            ServerToClientOps::StuffText => {
                let text = parse_string(buf, pos);
                self.check_stuffcmd(&text, now_ms);
                Some(ClientEvent::StuffText(text))
            },
            ServerToClientOps::ServerData => parse_serverdata(buf, pos),
            ServerToClientOps::ConfigString => parse_configstring(buf, pos),
            ServerToClientOps::SpawnBaseline => parse_baseline(buf, pos),
            ServerToClientOps::CenterPrint => Some(ClientEvent::CenterPrint(parse_string(buf, pos))),
            _ => None,
        };
        match ev {
            Some(e) => CommandOutcome::Event(e),
            None => CommandOutcome::Stop,
        }
    }

    /// Decodes the command stream at `*pos` and reacts to each event as it
    /// comes. The events decoded are returned in order; at the `Bad` command
    /// decoding ends with an error and the session is disconnected.
    pub fn parse_command(&mut self, buf: &[u8], pos: &mut usize, now_ms: u64) -> (r: Received)
        ensures
            old(self).wf() ==> final(self).wf(),
            ({
                let (es, fatal) = decoded(buf@, *old(pos) as int);
                let s1 = reacted_all(old(self)@, es, now_ms);
                &&& r.events@.map_values(|e: ClientEvent| e@) == es
                &&& r.error == if fatal { Some(SessionError::BadCommand) } else { None }
                &&& final(self)@ == if fatal { SessionView { connected: false, ..s1 } } else { s1 }
            }),
    {
        let ghost start = *pos as int;
        let mut evts: Vec<ClientEvent> = Vec::new();
        assert(evts@.map_values(|e: ClientEvent| e@) =~= Seq::<EventView>::empty());
        assert(Seq::<EventView>::empty() + decoded(buf@, start).0 =~= decoded(buf@, start).0);
        loop
            invariant
                ({
                    let done = evts@.map_values(|e: ClientEvent| e@);
                    let rest = decoded(buf@, *pos as int);
                    &&& decoded(buf@, *old(pos) as int) == (done + rest.0, rest.1)
                    &&& self@ == reacted_all(old(self)@, done, now_ms)
                    &&& old(self).wf() ==> self.wf()
                }),
            decreases buf@.len() - *pos,
        {
            let ghost done = evts@.map_values(|e: ClientEvent| e@);
            let ghost p = *pos as int;
            if *pos >= buf.len() {
                assert(done + Seq::<EventView>::empty() =~= done);
                return Received { events: evts, error: None };
            }
            let at: usize = *pos;
            match self.decode_one(buf, pos, now_ms) {
                CommandOutcome::Fatal => {
                    assert(done + Seq::<EventView>::empty() =~= done);
                    self.connected = false;
                    return Received { events: evts, error: Some(SessionError::BadCommand) };
                },
                CommandOutcome::Stop => {
                    assert(done + Seq::<EventView>::empty() =~= done);
                    return Received { events: evts, error: None };
                },
                CommandOutcome::Skip => {
                    if *pos <= at || *pos > buf.len() {
                        assert(done + Seq::<EventView>::empty() =~= done);
                        return Received { events: evts, error: None };
                    }
                },
                CommandOutcome::Event(e) => {
                    let ghost ev_view = e@;
                    evts.push(e);
                    let ghost done2 = evts@.map_values(|e: ClientEvent| e@);
                    assert(done2 =~= done.push(ev_view));
                    assert(done2.drop_last() =~= done);
                    if *pos <= at || *pos > buf.len() {
                        assert(done2 + Seq::<EventView>::empty() =~= done2);
                        assert(done + seq![ev_view] =~= done2);
                        return Received { events: evts, error: None };
                    }
                    assert(done + (seq![ev_view] + decoded(buf@, *pos as int).0) =~= done2 + decoded(
                        buf@,
                        *pos as int,
                    ).0);
                },
            }
        }
    }

    /// Takes in one datagram at time `now_ms`: the channel header, then the
    /// command stream when the channel accepts the packet.
    pub fn receive(&mut self, datagram: &[u8], now_ms: u64) -> (r: Received)
        ensures
            old(self).wf() ==> final(self).wf(),
            !old(self)@.connected ==> r.events@.len() == 0 && r.error == Some(SessionError::NotConnected)
                && final(self)@ == old(self)@,
            old(self)@.connected && !crate::netchan::accepts(old(self)@.chan, datagram@, 0) ==> r.events@.len() == 0
                && r.error is None && final(self)@ == old(self)@,
            old(self)@.connected && crate::netchan::accepts(old(self)@.chan, datagram@, 0) ==> ({
                let s0 = SessionView { chan: crate::netchan::after_process(old(self)@.chan, datagram@, 0), ..old(self)@ };
                let hdr = if !old(self)@.chan.is_client && 10 <= datagram@.len() { 10int } else { 8int };
                let (es, fatal) = decoded(datagram@, hdr);
                let s1 = reacted_all(s0, es, now_ms);
                &&& r.events@.map_values(|e: ClientEvent| e@) == es
                &&& r.error == if fatal { Some(SessionError::BadCommand) } else { None }
                &&& final(self)@ == if fatal { SessionView { connected: false, ..s1 } } else { s1 }
            }),
    {
        if !self.connected {
            return Received { events: Vec::new(), error: Some(SessionError::NotConnected) };
        }
        let mut pos: usize = 0;
        if !self.chan.process(datagram, &mut pos) {
            return Received { events: Vec::new(), error: None };
        }
        self.parse_command(datagram, &mut pos, now_ms)
    }

    /// Sends what is due at time `now_ms`, while connected: a keep-alive
    /// `Nop` is queued once more than two seconds passed since the last
    /// send, and a packet is built when the channel has something to send.
    pub fn tick(&mut self, now_ms: u64) -> (r: Option<Vec<u8>>)
        ensures
            old(self).wf() ==> final(self).wf(),
            !old(self)@.connected ==> r is None && final(self)@ == old(self)@,
            old(self)@.connected ==> ({
                let s1 = if keepalive_due(old(self)@.last_sent_ms, now_ms) {
                    SessionView { chan: with_byte(old(self)@.chan, 1), last_sent_ms: now_ms, ..old(self)@ }
                } else {
                    old(self)@
                };
                if wants_transmit(s1.chan) && s1.chan.outgoing_sequence < u32::MAX {
                    &&& r matches Some(p) && p@ == packet_of(s1.chan, Seq::empty())
                    &&& final(self)@ == (SessionView { chan: after_transmit(s1.chan), last_sent_ms: now_ms, ..s1 })
                } else {
                    r is None && final(self)@ == s1
                }
            }),
    {
        if !self.connected {
            return None;
        }
        if now_ms > self.last_sent_ms && now_ms - self.last_sent_ms > KEEPALIVE_MS {
            self.send_nop();
            self.last_sent_ms = now_ms;
        }
        if self.chan.should_transmit() && self.chan.outgoing_sequence() < u32::MAX {
            let empty: &[u8] = &[];
            assert(empty@ =~= Seq::<u8>::empty());
            let packet = self.chan.transmit(empty);
            self.last_sent_ms = now_ms;
            Some(packet)
        } else {
            None
        }
    }
}

/// The four bytes that open a connectionless datagram.
pub open spec fn oob_prefix() -> Seq<u8> {
    seq![255u8, 255, 255, 255]
}

/// The payload of a connectionless datagram, after its prefix; `None` for a
/// datagram without the prefix.
pub fn connectionless_payload(datagram: &[u8]) -> (r: Option<Vec<u8>>)
    ensures
        r is Some <==> starts_with(datagram@, oob_prefix()),
        r matches Some(p) ==> p@ == datagram@.subrange(4, datagram@.len() as int),
{
    let prefix: &[u8] = &[255u8, 255, 255, 255];
    assert(prefix@ =~= oob_prefix());
    if !has_prefix(datagram, prefix) {
        return None;
    }
    Some(slice_from(datagram, 4))
}

/// A connectionless datagram carrying `payload`.
pub fn oob_packet(payload: &[u8]) -> (r: Vec<u8>)
    ensures
        r@ == oob_prefix() + payload@,
{
    let mut out: Vec<u8> = Vec::new();
    let prefix: &[u8] = &[255u8, 255, 255, 255];
    append_bytes(&mut out, prefix);
    append_bytes(&mut out, payload);
    assert(out@ =~= oob_prefix() + payload@);
    out
}

pub open spec fn word_challenge() -> Seq<u8> {
    seq![99u8, 104, 97, 108, 108, 101, 110, 103, 101]
}

pub open spec fn word_client_connect() -> Seq<u8> {
    seq![99u8, 108, 105, 101, 110, 116, 95, 99, 111, 110, 110, 101, 99, 116]
}

/// `p=`
pub open spec fn protocols_tag() -> Seq<u8> {
    seq![112u8, 61]
}

/// `ac=`
pub open spec fn anticheat_tag() -> Seq<u8> {
    seq![97u8, 99, 61]
}

/// The value and protocol list of a reply `challenge <value> p=<protocols>`.
pub open spec fn challenge_reply(payload: Seq<u8>) -> Option<(Seq<u8>, Seq<u8>)> {
    let t = tokens(payload);
    if t.len() >= 3 && t[0] == word_challenge() && starts_with(t[2], protocols_tag()) {
        Some((t[1], t[2].subrange(2, t[2].len() as int)))
    } else {
        None
    }
}

/// Reads the reply to `getchallenge`: UTF-8 text whose words are
/// `challenge`, the value, and `p=` before the protocol list.
pub fn parse_challenge(payload: &[u8]) -> (r: Option<Challenge>)
    ensures
        r is Some <==> valid_utf8(payload@) && (challenge_reply(payload@) matches Some((v, p)) && valid_utf8(v)
            && valid_utf8(p)),
        r matches Some(c) ==> (challenge_reply(payload@) matches Some((v, p)) && c.ch_value@ == decode_utf8(v)
            && c.protocols@ == decode_utf8(p)),
{
    let _text = utf8_string(copy_bytes(payload))?;
    let t = split_tokens(payload);
    let ghost tv = t@.map_values(|v: Vec<u8>| v@);
    if t.len() < 3 {
        return None;
    }
    assert(tv[0] == t@[0]@ && tv[1] == t@[1]@ && tv[2] == t@[2]@);
    let word: &[u8] = &[99u8, 104, 97, 108, 108, 101, 110, 103, 101];
    assert(word@ =~= word_challenge());
    if !(has_prefix(&t[0], word) && t[0].len() == word.len()) {
        proof {
            if t@[0]@ == word_challenge() {
                assert(t@[0]@.subrange(0, 9) =~= t@[0]@);
            }
        }
        return None;
    }
    assert(t@[0]@ =~= word_challenge());
    let tag: &[u8] = &[112u8, 61];
    assert(tag@ =~= protocols_tag());
    if !has_prefix(&t[2], tag) {
        return None;
    }
    let ch_value = utf8_string(copy_bytes(&t[1]))?;
    let protocols = utf8_string(slice_from(&t[2], 2))?;
    Some(Challenge { ch_value, protocols })
}

/// Whether a reply to `connect` accepts this client: its first word is
/// `client_connect` and no later word asks for anti-cheat (`ac=`).
pub open spec fn connect_accepted(reply: Seq<u8>) -> bool {
    let t = tokens(reply);
    t.len() >= 1 && t[0] == word_client_connect() && forall|i: int| 1 <= i < t.len() ==> !starts_with(
        #[trigger] t[i],
        anticheat_tag(),
    )
}

fn check_connect_reply(reply: &[u8]) -> (r: bool)
    ensures
        r == connect_accepted(reply@),
{
    let t = split_tokens(reply);
    let ghost tv = t@.map_values(|v: Vec<u8>| v@);
    if t.len() < 1 {
        return false;
    }
    let word: &[u8] = &[99u8, 108, 105, 101, 110, 116, 95, 99, 111, 110, 110, 101, 99, 116];
    assert(word@ =~= word_client_connect());
    assert(tv[0] == t@[0]@);
    if !(has_prefix(&t[0], word) && t[0].len() == word.len()) {
        proof {
            if t@[0]@ == word_client_connect() {
                assert(t@[0]@.subrange(0, 14) =~= t@[0]@);
            }
        }
        return false;
    }
    assert(t@[0]@ =~= word_client_connect());
    let tag: &[u8] = &[97u8, 99, 61];
    assert(tag@ =~= anticheat_tag());
    let mut i: usize = 1;
    while i < t.len()
        invariant
            1 <= i <= t@.len(),
            tv == t@.map_values(|v: Vec<u8>| v@),
            tv == tokens(reply@),
            tv.len() == t@.len(),
            tv[0] == word_client_connect(),
            tag@ == anticheat_tag(),
            forall|k: int| 1 <= k < i ==> !starts_with(#[trigger] tv[k], anticheat_tag()),
        decreases t@.len() - i,
    {
        assert(tv[i as int] == t@[i as int]@);
        if has_prefix(&t[i], tag) {
            assert(starts_with(tv[i as int], anticheat_tag()));
            return false;
        }
        i = i + 1;
    }
    true
}

/// The `connect` request: `connect <protocol> <qport> <challenge> "<userinfo>"` and a newline.
pub open spec fn connect_text(protocol: u8, qport: u16, challenge: Seq<u8>, userinfo: Seq<u8>) -> Seq<u8> {
    seq![99u8, 111, 110, 110, 101, 99, 116, 32] + decimal_digits(protocol as nat) + seq![32u8]
        + decimal_digits(qport as nat) + seq![32u8] + challenge + seq![32u8, 34] + userinfo + seq![34u8, 10]
}

impl Session {
    /// The `connect` request for `challenge`, in protocol `proto`, with the
    /// serialized `userinfo`. Only the vanilla protocol is spoken: `None` for another.
    pub fn connect_request(&self, challenge: &Challenge, proto: ProtocolVersion, userinfo: &str) -> (r: Option<Vec<u8>>)
        ensures
            proto != ProtocolVersion::Vanilla ==> r is None,
            proto == ProtocolVersion::Vanilla ==> (r matches Some(m) && m@ == connect_text(
                34,
                self@.chan.qport,
                encode_utf8(challenge.ch_value@),
                userinfo.spec_bytes(),
            )),
    {
        match proto {
            ProtocolVersion::Vanilla => {},
            _ => return None,
        }
        let mut out: Vec<u8> = Vec::new();
        let head: &[u8] = &[99u8, 111, 110, 110, 101, 99, 116, 32];
        append_bytes(&mut out, head);
        push_decimal(&mut out, proto.number() as u32);
        out.push(32);
        push_decimal(&mut out, self.chan.qport() as u32);
        out.push(32);
        append_bytes(&mut out, challenge.ch_value.as_str().as_bytes());
        let quote: &[u8] = &[32u8, 34];
        append_bytes(&mut out, quote);
        append_bytes(&mut out, userinfo.as_bytes());
        out.push(34);
        out.push(10);
        assert(out@ =~= connect_text(34, self@.chan.qport, encode_utf8(challenge.ch_value@), userinfo.spec_bytes()));
        Some(out)
    }

    /// Completes the handshake with the server's reply to `connect`: the
    /// session is connected when the reply accepts it and the `new` command
    /// could be queued; otherwise it is left disconnected.
    pub fn finish_connect(&mut self, reply: &[u8]) -> (r: Option<()>)
        ensures
            old(self).wf() ==> final(self).wf(),
            ({
                let s1 = SessionView { connected: true, ..old(self)@ };
                let s2 = command_sent(s1, word_new());
                &&& r is Some <==> connect_accepted(reply@) && s1.chan.message.len() + 5 <= s1.chan.message_capacity
                &&& !connect_accepted(reply@) ==> final(self)@ == (SessionView { connected: false, ..old(self)@ })
                &&& connect_accepted(reply@) && r is Some ==> final(self)@ == s2
                &&& connect_accepted(reply@) && r is None ==> final(self)@ == (SessionView { connected: false, ..s2 })
            }),
    {
        self.connected = true;
        if !check_connect_reply(reply) {
            self.connected = false;
            return None;
        }
        let new_word: &[u8] = &[110u8, 101, 119];
        assert(new_word@ =~= word_new());
        let r = self.send_command_bytes(new_word);
        if r.is_none() {
            self.connected = false;
        }
        r
    }
}

/// The bytes of `b` from `start` on (none when `start` is past the end).
fn slice_from(b: &[u8], start: usize) -> (r: Vec<u8>)
    ensures
        r@ == if start <= b@.len() { b@.subrange(start as int, b@.len() as int) } else { Seq::empty() },
{
    let mut out: Vec<u8> = Vec::new();
    let mut i: usize = start;
    while i < b.len()
        invariant
            start <= i,
            i <= b@.len() || i == start,
            start <= b@.len() ==> out@ == b@.subrange(start as int, i as int),
            start > b@.len() ==> out@.len() == 0,
        decreases b@.len() - i,
    {
        out.push(b[i]);
        i = i + 1;
        assert(out@ =~= b@.subrange(start as int, i as int));
    }
    if start <= b.len() {
        assert(out@ =~= b@.subrange(start as int, b@.len() as int));
    }
    out
}

fn append_bytes(out: &mut Vec<u8>, b: &[u8])
    ensures
        final(out)@ == old(out)@ + b@,
{
    let mut i: usize = 0;
    while i < b.len()
        invariant
            i <= b@.len(),
            out@ == old(out)@ + b@.subrange(0, i as int),
        decreases b@.len() - i,
    {
        out.push(b[i]);
        i = i + 1;
        assert(out@ =~= old(out)@ + b@.subrange(0, i as int));
    }
    assert(b@.subrange(0, i as int) =~= b@);
}

} // verus!
