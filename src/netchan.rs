//! The vanilla net-channel: sequence numbers with a reliable flag in the high
//! bit, a one-bit alternating reliable toggle, and retransmission of the
//! reliable payload until the peer echoes its toggle.
use crate::msg_buf::{MsgBuf, MAX_NET_STRING};
use crate::wire::{lemma_le32_round_trip, le16_bytes, le32_bytes, le_value, push_u16_le, push_u32_le, read_u16_le, read_u32_le};
use crate::MAX_WRITEABLE_SIZE;
use vstd::prelude::*;

verus! {

/// The high bit of a sequence word on the wire.
pub const RELIABLE_BIT: u32 = 0x8000_0000;

/// The 31-bit sequence number carried by a sequence word.
pub open spec fn seq_number(word: u32) -> u32 {
    (word % 0x8000_0000) as u32
}

/// The reliable flag carried by the high bit of a sequence word.
pub open spec fn reliable_flag(word: u32) -> bool {
    word >= 0x8000_0000
}

/// The sequence word for number `n` (high bit dropped) and flag `flag`.
pub open spec fn seq_word(n: u32, flag: bool) -> u32 {
    (n % 0x8000_0000 + if flag { 0x8000_0000int } else { 0int }) as u32
}

/// The channel's state.
pub struct ChanView {
    pub incoming_sequence: u32,
    pub incoming_acknowledged: u32,
    pub last_sent_reliable_sequence: u32,
    pub outgoing_sequence: u32,
    pub incoming_reliable_acknowledged: bool,
    pub incoming_reliable_sequence: bool,
    pub reliable_sequence: bool,
    pub is_reliable_ack_pending: bool,
    pub is_client: bool,
    pub qport: u16,
    /// What the application has queued for reliable delivery.
    pub message: Seq<u8>,
    /// How many bytes the message buffer can hold.
    pub message_capacity: nat,
    /// The reliable payload in flight, awaiting the peer's acknowledgement.
    pub reliable: Seq<u8>,
}

/// The state of a channel just made.
pub open spec fn fresh_chan(is_client: bool, qport: u16) -> ChanView {
    ChanView {
        incoming_sequence: 0,
        incoming_acknowledged: 0,
        last_sent_reliable_sequence: 0,
        outgoing_sequence: 1,
        incoming_reliable_acknowledged: false,
        incoming_reliable_sequence: false,
        reliable_sequence: false,
        is_reliable_ack_pending: false,
        is_client,
        qport,
        message: Seq::empty(),
        message_capacity: MAX_WRITEABLE_SIZE as nat,
        reliable: Seq::empty(),
    }
}

/// Whether `process` takes the packet whose header starts at `pos`: both
/// sequence words are there and the incoming number is newer than any seen.
pub open spec fn accepts(c: ChanView, packet: Seq<u8>, pos: int) -> bool {
    pos + 8 <= packet.len() && seq_number(le_value(packet, pos, 4) as u32) > c.incoming_sequence
}

/// The state after `process` accepts the packet whose header starts at `pos`.
pub open spec fn after_process(c: ChanView, packet: Seq<u8>, pos: int) -> ChanView {
    let seq = le_value(packet, pos, 4) as u32;
    let ack = le_value(packet, pos + 4, 4) as u32;
    ChanView {
        incoming_sequence: seq_number(seq),
        incoming_acknowledged: seq_number(ack),
        incoming_reliable_acknowledged: reliable_flag(ack),
        reliable: if reliable_flag(ack) == c.reliable_sequence { Seq::empty() } else { c.reliable },
        is_reliable_ack_pending: reliable_flag(seq) || c.is_reliable_ack_pending,
        incoming_reliable_sequence: if reliable_flag(seq) {
            !c.incoming_reliable_sequence
        } else {
            c.incoming_reliable_sequence
        },
        ..c
    }
}

/// The payload in flight is sent again: it is there, the peer has not echoed
/// its toggle, and the peer has seen a packet sent after its last sending.
pub open spec fn retransmits(c: ChanView) -> bool {
    c.reliable.len() > 0 && c.incoming_reliable_acknowledged != c.reliable_sequence
        && c.incoming_acknowledged > c.last_sent_reliable_sequence
}

/// The queued message becomes the new reliable payload: there is one and
/// nothing is in flight.
pub open spec fn absorbs(c: ChanView) -> bool {
    c.message.len() > 0 && c.reliable.len() == 0
}

/// Whether a transmit carries a reliable payload.
pub open spec fn sends_reliable(c: ChanView) -> bool {
    retransmits(c) || absorbs(c)
}

/// The reliable payload in flight after a transmit.
pub open spec fn reliable_after(c: ChanView) -> Seq<u8> {
    if absorbs(c) { c.message } else { c.reliable }
}

/// The packet up to its unreliable part.
pub open spec fn packet_head(c: ChanView) -> Seq<u8> {
    le32_bytes(seq_word(c.outgoing_sequence, sends_reliable(c)))
        + le32_bytes(seq_word(c.incoming_sequence, c.incoming_reliable_sequence))
        + (if c.is_client { le16_bytes(c.qport) } else { Seq::empty() })
        + (if sends_reliable(c) { reliable_after(c) } else { Seq::empty() })
}

/// Whether the unreliable `data` rides along: it is not empty and fits.
pub open spec fn data_fits(c: ChanView, data: Seq<u8>) -> bool {
    data.len() > 0 && packet_head(c).len() + data.len() <= MAX_WRITEABLE_SIZE
}

/// The packet a transmit sends.
pub open spec fn packet_of(c: ChanView, data: Seq<u8>) -> Seq<u8> {
    packet_head(c) + if data_fits(c, data) { data } else { Seq::empty() }
}

/// The state after a transmit.
pub open spec fn after_transmit(c: ChanView) -> ChanView {
    ChanView {
        reliable: reliable_after(c),
        reliable_sequence: if absorbs(c) { !c.reliable_sequence } else { c.reliable_sequence },
        last_sent_reliable_sequence: if sends_reliable(c) {
            c.outgoing_sequence
        } else {
            c.last_sent_reliable_sequence
        },
        outgoing_sequence: (c.outgoing_sequence + 1) as u32,
        is_reliable_ack_pending: false,
        message: if absorbs(c) { Seq::empty() } else { c.message },
        ..c
    }
}

/// Whether a transmit is called for.
pub open spec fn wants_transmit(c: ChanView) -> bool {
    c.is_reliable_ack_pending || c.message.len() > 0 || c.reliable.len() > 0
}

/// `c` with byte `b` queued, if there is room.
pub open spec fn with_byte(c: ChanView, b: u8) -> ChanView {
    if c.message.len() < c.message_capacity {
        ChanView { message: c.message.push(b), ..c }
    } else {
        c
    }
}

/// `c` with `bytes` queued, if all of them fit.
pub open spec fn with_bytes(c: ChanView, bytes: Seq<u8>) -> ChanView {
    if c.message.len() + bytes.len() <= c.message_capacity {
        ChanView { message: c.message + bytes, ..c }
    } else {
        c
    }
}

/// `c` with `s` queued as a zero-terminated string: a lone zero when `s` is
/// too long, nothing when it does not fit.
pub open spec fn with_cstring(c: ChanView, s: Seq<u8>) -> ChanView {
    if s.len() > MAX_NET_STRING {
        with_byte(c, 0)
    } else if c.message.len() + s.len() + 1 <= c.message_capacity {
        ChanView { message: c.message + s + seq![0u8], ..c }
    } else {
        c
    }
}

/// The high bit of a sequence word is the reliable flag and the low 31
/// bits are the number: masking gives the number, shifting gives the flag,
/// and the two together give the word back.
pub proof fn lemma_high_bit_isolation(w: u32)
    ensures
        seq_number(w) == w & 0x7FFF_FFFF,
        reliable_flag(w) == (w >> 31u32 == 1),
        seq_word(seq_number(w), reliable_flag(w)) == w,
        seq_number(w) < 0x8000_0000,
{
    assert(w & 0x7FFF_FFFF == w % 0x8000_0000) by (bit_vector);
    assert((w >> 31u32 == 1) == (w >= 0x8000_0000)) by (bit_vector);
}

/// A word built from a 31-bit number and a flag carries exactly that
/// number and that flag.
pub proof fn lemma_seq_word_parts(n: u32, flag: bool)
    requires
        n < 0x8000_0000,
    ensures
        seq_number(seq_word(n, flag)) == n,
        reliable_flag(seq_word(n, flag)) == flag,
{
}

/// What a peer reads from a packet's header is what the sender meant: the
/// first word carries the outgoing number and whether a reliable payload
/// rides along, the second the incoming number and the receive toggle.
pub proof fn lemma_header_read_back(c: ChanView, data: Seq<u8>)
    ensures
        seq_number(le_value(packet_of(c, data), 0, 4) as u32) == c.outgoing_sequence % 0x8000_0000,
        reliable_flag(le_value(packet_of(c, data), 0, 4) as u32) == sends_reliable(c),
        seq_number(le_value(packet_of(c, data), 4, 4) as u32) == c.incoming_sequence % 0x8000_0000,
        reliable_flag(le_value(packet_of(c, data), 4, 4) as u32) == c.incoming_reliable_sequence,
        c.is_client ==> packet_of(c, data).len() >= 10 && le_value(packet_of(c, data), 8, 2) == c.qport,
{
    let w0 = seq_word(c.outgoing_sequence, sends_reliable(c));
    let w1 = seq_word(c.incoming_sequence, c.incoming_reliable_sequence);
    let p = packet_of(c, data);
    lemma_le32_round_trip(w0);
    lemma_le32_round_trip(w1);
    let rest = (if c.is_client { le16_bytes(c.qport) } else { Seq::empty() }) + (if sends_reliable(c) {
        reliable_after(c)
    } else {
        Seq::empty()
    }) + (if data_fits(c, data) { data } else { Seq::empty() });
    assert(p =~= le32_bytes(w0) + le32_bytes(w1) + rest);
    assert forall|k: int| 0 <= k < 4 implies p[k] == le32_bytes(w0)[k] && p[4 + k] == le32_bytes(w1)[k] by {
        assert((le32_bytes(w0) + le32_bytes(w1) + rest)[k] == le32_bytes(w0)[k]);
        assert((le32_bytes(w0) + le32_bytes(w1) + rest)[4 + k] == le32_bytes(w1)[k]);
    }
    if c.is_client {
        let q = le16_bytes(c.qport);
        assert(p[8] == q[0] && p[9] == q[1]) by {
            assert((le32_bytes(w0) + le32_bytes(w1) + rest)[8] == rest[0]);
            assert((le32_bytes(w0) + le32_bytes(w1) + rest)[9] == rest[1]);
        }
    }
    assert(le_value(p, 0, 4) == le_value(le32_bytes(w0), 0, 4));
    assert(le_value(p, 4, 4) == le_value(le32_bytes(w1), 0, 4));
}

/// A payload in flight that the peer has not acknowledged, though it has
/// seen a later packet, is sent again: the packet has the reliable flag and
/// carries it right after the header, and the send is recorded.
pub proof fn lemma_unacked_payload_resent(c: ChanView, data: Seq<u8>)
    requires
        retransmits(c),
        c.outgoing_sequence < 0x8000_0000,
    ensures
        reliable_flag(seq_word(c.outgoing_sequence, sends_reliable(c))),
        packet_of(c, data).subrange(header_bytes(c), header_bytes(c) + c.reliable.len()) == c.reliable,
        after_transmit(c).reliable == c.reliable,
        after_transmit(c).last_sent_reliable_sequence == c.outgoing_sequence,
{
    let h = le32_bytes(seq_word(c.outgoing_sequence, true)) + le32_bytes(
        seq_word(c.incoming_sequence, c.incoming_reliable_sequence),
    ) + (if c.is_client { le16_bytes(c.qport) } else { Seq::empty() });
    assert(h.len() == header_bytes(c));
    assert(packet_head(c) == h + c.reliable);
    assert(packet_of(c, data).subrange(header_bytes(c), header_bytes(c) + c.reliable.len()) =~= c.reliable);
}

/// `process` only moves forward: an accepted packet raises the incoming
/// sequence, and afterwards a packet whose number is not higher than that
/// one's is refused.
pub proof fn lemma_sequence_monotonic(c: ChanView, first: Seq<u8>, second: Seq<u8>)
    requires
        accepts(c, first, 0),
        second.len() >= 8,
        seq_number(le_value(second, 0, 4) as u32) <= seq_number(le_value(first, 0, 4) as u32),
    ensures
        after_process(c, first, 0).incoming_sequence > c.incoming_sequence,
        !accepts(after_process(c, first, 0), second, 0),
{
}

/// While a reliable payload is in flight no new one begins: a transmit
/// keeps it, keeps the toggle and leaves the queued message alone; it is
/// sent again whenever the peer has seen a later packet without echoing the
/// toggle.
pub proof fn lemma_in_flight_kept_by_transmit(c: ChanView)
    requires
        c.reliable.len() > 0,
    ensures
        after_transmit(c).reliable == c.reliable,
        after_transmit(c).reliable_sequence == c.reliable_sequence,
        after_transmit(c).message == c.message,
        sends_reliable(c) == retransmits(c),
{
}

/// The payload in flight is retired exactly by a packet that echoes its
/// toggle; any other accepted packet keeps it.
pub proof fn lemma_in_flight_retired_by_ack(c: ChanView, packet: Seq<u8>)
    requires
        accepts(c, packet, 0),
    ensures
        reliable_flag(le_value(packet, 4, 4) as u32) == c.reliable_sequence ==> after_process(c, packet, 0).reliable
            == Seq::<u8>::empty(),
        reliable_flag(le_value(packet, 4, 4) as u32) != c.reliable_sequence ==> after_process(c, packet, 0).reliable
            == c.reliable,
        after_process(c, packet, 0).reliable_sequence == c.reliable_sequence,
        after_process(c, packet, 0).message == c.message,
{
}

/// With nothing in flight, a transmit takes up the whole queued message as
/// the new reliable payload: the packet carries it after the header with
/// the reliable flag set, the toggle flips and the queue empties.
pub proof fn lemma_queued_payload_begins(c: ChanView, data: Seq<u8>)
    requires
        c.reliable.len() == 0,
        c.message.len() > 0,
        c.outgoing_sequence < 0x8000_0000,
    ensures
        sends_reliable(c),
        after_transmit(c).reliable == c.message,
        after_transmit(c).reliable_sequence == !c.reliable_sequence,
        after_transmit(c).message == Seq::<u8>::empty(),
        reliable_flag(seq_word(c.outgoing_sequence, sends_reliable(c))),
        packet_of(c, data).subrange(header_bytes(c), header_bytes(c) + c.message.len()) == c.message,
{
    let h = le32_bytes(seq_word(c.outgoing_sequence, true)) + le32_bytes(
        seq_word(c.incoming_sequence, c.incoming_reliable_sequence),
    ) + (if c.is_client { le16_bytes(c.qport) } else { Seq::empty() });
    assert(h.len() == header_bytes(c));
    assert(packet_head(c) == h + c.message);
    assert(packet_of(c, data).subrange(header_bytes(c), header_bytes(c) + c.message.len()) =~= c.message);
}

/// The length of the header a channel writes: two words, and the qport on a client.
pub open spec fn header_bytes(c: ChanView) -> int {
    if c.is_client { 10 } else { 8 }
}

/// A reliable/unreliable channel over datagrams.
pub trait NetChan {
    /// Reads the channel header at `*pos`; true when the rest of the packet is to be used.
    fn process(&mut self, packet: &[u8], pos: &mut usize) -> bool;

    /// Builds the next packet, with `data` as its unreliable part where it fits.
    /// `None` once the outgoing sequence numbers are used up.
    fn transmit(&mut self, data: &[u8]) -> Option<Vec<u8>>;

    /// Whether there is something to send.
    fn should_transmit(&self) -> bool;
}

/// The vanilla protocol's net-channel.
pub struct NetChanVanilla {
    message: MsgBuf,
    incoming_sequence: u32,
    incoming_acknowledged: u32,
    last_sent_reliable_sequence: u32,
    outgoing_sequence: u32,
    incoming_reliable_acknowledged: bool,
    incoming_reliable_sequence: bool,
    reliable_sequence: bool,
    is_reliable_ack_pending: bool,
    is_client: bool,
    qport: u16,
    reliable_buf: Vec<u8>,
}

impl View for NetChanVanilla {
    type V = ChanView;

    closed spec fn view(&self) -> ChanView {
        ChanView {
            incoming_sequence: self.incoming_sequence,
            incoming_acknowledged: self.incoming_acknowledged,
            last_sent_reliable_sequence: self.last_sent_reliable_sequence,
            outgoing_sequence: self.outgoing_sequence,
            incoming_reliable_acknowledged: self.incoming_reliable_acknowledged,
            incoming_reliable_sequence: self.incoming_reliable_sequence,
            reliable_sequence: self.reliable_sequence,
            is_reliable_ack_pending: self.is_reliable_ack_pending,
            is_client: self.is_client,
            qport: self.qport,
            message: self.message@,
            message_capacity: self.message.capacity(),
            reliable: self.reliable_buf@,
        }
    }
}

fn make_seq_word(n: u32, flag: bool) -> (r: u32)
    ensures
        r == seq_word(n, flag),
{
    n % RELIABLE_BIT + if flag { RELIABLE_BIT } else { 0 }
}

impl NetChanVanilla {
    pub fn new(is_client: bool, qport: u16) -> (r: NetChanVanilla)
        ensures
            r@ == fresh_chan(is_client, qport),
    {
        let r = NetChanVanilla {
            message: MsgBuf::new(MAX_WRITEABLE_SIZE),
            incoming_sequence: 0,
            incoming_acknowledged: 0,
            last_sent_reliable_sequence: 0,
            outgoing_sequence: 1,
            incoming_reliable_acknowledged: false,
            incoming_reliable_sequence: false,
            reliable_sequence: false,
            is_reliable_ack_pending: false,
            is_client,
            qport,
            reliable_buf: Vec::new(),
        };
        assert(r@ =~= fresh_chan(is_client, qport));
        r
    }

    /// Queues one byte for reliable delivery, if the message buffer has room.
    pub fn queue_u8(&mut self, b: u8) -> (r: bool)
        ensures
            r == (old(self)@.message.len() < old(self)@.message_capacity),
            final(self)@ == with_byte(old(self)@, b),
    {
        self.message.write_u8(b)
    }

    /// Queues `bytes` for reliable delivery if all of them fit, else nothing.
    pub fn queue_bytes(&mut self, bytes: &[u8]) -> (r: bool)
        ensures
            r == (old(self)@.message.len() + bytes@.len() <= old(self)@.message_capacity),
            final(self)@ == with_bytes(old(self)@, bytes@),
    {
        self.message.write_bytes(bytes)
    }

    /// Queues `bytes` as a zero-terminated string, as `MsgBuf::write_cstring` writes it.
    pub fn queue_cstring(&mut self, bytes: &[u8]) -> (r: Option<()>)
        ensures
            r is Some <==> bytes@.len() <= MAX_NET_STRING && old(self)@.message.len() + bytes@.len() + 1
                <= old(self)@.message_capacity,
            final(self)@ == with_cstring(old(self)@, bytes@),
    {
        let r = self.message.write_cstring(bytes);
        proof {
            assert(self@ =~= with_cstring(old(self)@, bytes@));
        }
        r
    }

    pub fn process(&mut self, packet: &[u8], pos: &mut usize) -> (r: bool)
        ensures
            r == accepts(old(self)@, packet@, *old(pos) as int),
            r ==> final(self)@ == after_process(old(self)@, packet@, *old(pos) as int),
            r ==> *final(pos) == *old(pos) + (if !old(self)@.is_client && *old(pos) + 10 <= packet@.len() {
                10int
            } else {
                8int
            }),
            !r ==> final(self)@ == old(self)@,
    {
        let seq_opt = read_u32_le(packet, pos);
        let ack_opt = read_u32_le(packet, pos);
        if !self.is_client {
            let _qport = read_u16_le(packet, pos);
        }
        let (seq, ack) = match (seq_opt, ack_opt) {
            (Some(s), Some(a)) => (s, a),
            _ => return false,
        };
        let is_reliable_message = seq >= RELIABLE_BIT;
        let is_reliable_ack = ack >= RELIABLE_BIT;
        let seq = seq % RELIABLE_BIT;
        let ack = ack % RELIABLE_BIT;
        if seq <= self.incoming_sequence {
            return false;
        }
        self.incoming_reliable_acknowledged = is_reliable_ack;
        if is_reliable_ack == self.reliable_sequence {
            self.reliable_buf.clear();
        }
        self.incoming_sequence = seq;
        self.incoming_acknowledged = ack;
        if is_reliable_message {
            self.is_reliable_ack_pending = true;
            self.incoming_reliable_sequence = !self.incoming_reliable_sequence;
        }
        proof {
            assert(self@ =~= after_process(old(self)@, packet@, *old(pos) as int));
        }
        true
    }

    pub fn transmit(&mut self, data: &[u8]) -> (r: Vec<u8>)
        requires
            old(self)@.outgoing_sequence < u32::MAX,
        ensures
            r@ == packet_of(old(self)@, data@),
            final(self)@ == after_transmit(old(self)@),
    {
        let ghost c = self@;
        let mut send_reliable = self.reliable_buf.len() > 0
            && self.incoming_reliable_acknowledged != self.reliable_sequence
            && self.incoming_acknowledged > self.last_sent_reliable_sequence;
        if !self.message.is_empty() && self.reliable_buf.len() == 0 {
            self.reliable_buf = self.message.get_msg();
            self.message.clear();
            send_reliable = true;
            self.reliable_sequence = !self.reliable_sequence;
        }
        let mut packet: Vec<u8> = Vec::new();
        push_u32_le(&mut packet, make_seq_word(self.outgoing_sequence, send_reliable));
        push_u32_le(&mut packet, make_seq_word(self.incoming_sequence, self.incoming_reliable_sequence));
        if self.is_client {
            push_u16_le(&mut packet, self.qport);
        }
        if send_reliable {
            let mut i: usize = 0;
            let ghost before = packet@;
            while i < self.reliable_buf.len()
                invariant
                    i <= self.reliable_buf@.len(),
                    packet@ == before + self.reliable_buf@.subrange(0, i as int),
                decreases self.reliable_buf@.len() - i,
            {
                packet.push(self.reliable_buf[i]);
                i = i + 1;
                assert(packet@ =~= before + self.reliable_buf@.subrange(0, i as int));
            }
            assert(self.reliable_buf@.subrange(0, i as int) =~= self.reliable_buf@);
            self.last_sent_reliable_sequence = self.outgoing_sequence;
        }
        assert(packet@ =~= packet_head(c));
        if data.len() > 0 && packet.len() <= MAX_WRITEABLE_SIZE && MAX_WRITEABLE_SIZE - packet.len() >= data.len() {
            let mut i: usize = 0;
            let ghost before = packet@;
            while i < data.len()
                invariant
                    i <= data@.len(),
                    packet@ == before + data@.subrange(0, i as int),
                decreases data@.len() - i,
            {
                packet.push(data[i]);
                i = i + 1;
                assert(packet@ =~= before + data@.subrange(0, i as int));
            }
            assert(data@.subrange(0, i as int) =~= data@);
        } else {
            assert(packet@ =~= packet@ + Seq::<u8>::empty());
        }
        self.outgoing_sequence = self.outgoing_sequence + 1;
        self.is_reliable_ack_pending = false;
        proof {
            assert(self@ =~= after_transmit(c));
        }
        packet
    }

    pub fn should_transmit(&self) -> (r: bool)
        ensures
            r == wants_transmit(self@),
    {
        self.is_reliable_ack_pending || !self.message.is_empty() || self.reliable_buf.len() > 0
    }

    /// How many more bytes the message buffer takes.
    pub fn message_room(&self) -> (r: usize)
        ensures
            r == if self@.message.len() <= self@.message_capacity {
                self@.message_capacity - self@.message.len()
            } else {
                0
            },
    {
        self.message.room()
    }

    /// The qport this channel sends.
    pub fn qport(&self) -> (r: u16)
        ensures
            r == self@.qport,
    {
        self.qport
    }

    /// The outgoing sequence number, which the next transmit uses.
    pub fn outgoing_sequence(&self) -> (r: u32)
        ensures
            r == self@.outgoing_sequence,
    {
        self.outgoing_sequence
    }

    /// The highest sequence number accepted from the peer.
    pub fn incoming_sequence(&self) -> (r: u32)
        ensures
            r == self@.incoming_sequence,
    {
        self.incoming_sequence
    }

    /// The sender's reliable toggle.
    pub fn reliable_sequence(&self) -> (r: bool)
        ensures
            r == self@.reliable_sequence,
    {
        self.reliable_sequence
    }

    /// The receiver's reliable toggle, echoed to the peer.
    pub fn incoming_reliable_sequence(&self) -> (r: bool)
        ensures
            r == self@.incoming_reliable_sequence,
    {
        self.incoming_reliable_sequence
    }

    /// A copy of the reliable payload in flight.
    pub fn reliable_payload(&self) -> (r: Vec<u8>)
        ensures
            r@ == self@.reliable,
    {
        self.reliable_buf.clone()
    }

    /// A copy of what is queued and not yet taken up by a transmit.
    pub fn queued_message(&self) -> (r: Vec<u8>)
        ensures
            r@ == self@.message,
    {
        self.message.get_msg()
    }
}

impl NetChan for NetChanVanilla {
    fn process(&mut self, packet: &[u8], pos: &mut usize) -> bool {
        NetChanVanilla::process(self, packet, pos)
    }

    fn transmit(&mut self, data: &[u8]) -> Option<Vec<u8>> {
        if self.outgoing_sequence == u32::MAX {
            return None;
        }
        Some(NetChanVanilla::transmit(self, data))
    }

    fn should_transmit(&self) -> bool {
        NetChanVanilla::should_transmit(self)
    }
}

} // verus!
