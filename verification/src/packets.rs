//! Binary codecs for the gossip packets and the type-length-value envelope.
//!
//! Each packet variant has a stable type identifier, a declared range of
//! permitted encoded sizes, and a fixed byte layout (big-endian throughout).
//! The envelope frames a payload as type byte, big-endian length, payload;
//! decoding validates the announced length against the target variant's size
//! range before the payload is examined, bounding what may be allocated for
//! untrusted input.

use vstd::prelude::*;

use crate::message_id::MessageId;

verus! {

broadcast use crate::message_id::lemma_message_id_len;

/// A failure while decoding a type-length-value frame.
#[derive(Clone, Copy, Debug, PartialEq, Eq, Structural)]
pub enum TlvError {
    /// The frame announces a packet type outside the protocol.
    UnknownPacketType(u8),
    /// The frame is too short for its fixed fields, announces a payload
    /// length outside the packet type's declared size range, or does not
    /// hold exactly the announced payload.
    InvalidTlvLength,
}

/// Stable type identifier of the header packet.
pub const HEADER_PACKET_ID: u8 = 0;

/// Stable type identifier of the milestone request packet.
pub const MILESTONE_REQUEST_PACKET_ID: u8 = 1;

/// Stable type identifier of the message packet.
pub const MESSAGE_PACKET_ID: u8 = 2;

/// Stable type identifier of the message request packet.
pub const MESSAGE_REQUEST_PACKET_ID: u8 = 3;

/// Stable type identifier of the heartbeat packet.
pub const HEARTBEAT_PACKET_ID: u8 = 4;

/// Exact encoded size of a header packet.
pub const HEADER_SIZE: usize = 33;

/// Exact encoded size of a heartbeat packet.
pub const HEARTBEAT_SIZE: usize = 8;

/// Exact encoded size of a milestone request packet.
pub const MILESTONE_REQUEST_SIZE: usize = 4;

/// Exact encoded size of a message request packet.
pub const MESSAGE_REQUEST_SIZE: usize = 32;

/// Smallest permitted encoded size of a message packet.
pub const MESSAGE_SIZE_MIN: usize = 1;

/// Largest permitted encoded size of a message packet.
pub const MESSAGE_SIZE_MAX: usize = 32768;

/// Big-endian bytes of a sixteen-bit integer.
pub open spec fn be16(x: u16) -> Seq<u8> {
    seq![(x >> 8u16) as u8, x as u8]
}

/// The sixteen-bit integer read big-endian from two bytes.
pub open spec fn be16_val(b: Seq<u8>) -> u16 {
    ((b[0] as u16) << 8u16) | (b[1] as u16)
}

/// Big-endian bytes of a thirty-two-bit integer.
pub open spec fn be32(x: u32) -> Seq<u8> {
    seq![(x >> 24u32) as u8, (x >> 16u32) as u8, (x >> 8u32) as u8, x as u8]
}

/// The thirty-two-bit integer read big-endian from four bytes.
pub open spec fn be32_val(b: Seq<u8>) -> u32 {
    ((b[0] as u32) << 24u32) | ((b[1] as u32) << 16u32) | ((b[2] as u32) << 8u32) | (b[3] as u32)
}

/// Reading back the big-endian bytes of a sixteen-bit integer restores it.
pub proof fn lemma_be16_round_trip(x: u16)
    ensures
        be16_val(be16(x)) == x,
{
    let b0 = (x >> 8u16) as u8;
    let b1 = x as u8;
    assert((((b0 as u16) << 8u16) | (b1 as u16)) == x) by (bit_vector)
        requires
            b0 == (x >> 8u16) as u8,
            b1 == x as u8,
    ;
}

/// Reading back the big-endian bytes of a thirty-two-bit integer restores it.
pub proof fn lemma_be32_round_trip(x: u32)
    ensures
        be32_val(be32(x)) == x,
{
    let b0 = (x >> 24u32) as u8;
    let b1 = (x >> 16u32) as u8;
    let b2 = (x >> 8u32) as u8;
    let b3 = x as u8;
    assert((((b0 as u32) << 24u32) | ((b1 as u32) << 16u32) | ((b2 as u32) << 8u32) | (b3 as u32))
        == x) by (bit_vector)
        requires
            b0 == (x >> 24u32) as u8,
            b1 == (x >> 16u32) as u8,
            b2 == (x >> 8u32) as u8,
            b3 == x as u8,
    ;
}

/// Appends the big-endian bytes of a sixteen-bit integer.
fn push_be16(out: &mut Vec<u8>, x: u16)
    ensures
        final(out)@ == old(out)@ + be16(x),
{
    out.push((x >> 8u16) as u8);
    out.push(x as u8);
    assert(out@ =~= old(out)@ + be16(x));
}

/// Appends the big-endian bytes of a thirty-two-bit integer.
fn push_be32(out: &mut Vec<u8>, x: u32)
    ensures
        final(out)@ == old(out)@ + be32(x),
{
    out.push((x >> 24u32) as u8);
    out.push((x >> 16u32) as u8);
    out.push((x >> 8u32) as u8);
    out.push(x as u8);
    assert(out@ =~= old(out)@ + be32(x));
}

/// Reads a sixteen-bit integer big-endian at an offset.
fn read_be16(bytes: &[u8], offset: usize) -> (r: u16)
    requires
        offset + 2 <= bytes@.len(),
    ensures
        r == be16_val(bytes@.subrange(offset as int, offset + 2)),
{
    let r = ((bytes[offset] as u16) << 8u16) | (bytes[offset + 1] as u16);
    proof {
        let s = bytes@.subrange(offset as int, offset + 2);
        assert(s[0] == bytes@[offset as int] && s[1] == bytes@[offset + 1]);
    }
    r
}

/// Reads a thirty-two-bit integer big-endian at an offset.
fn read_be32(bytes: &[u8], offset: usize) -> (r: u32)
    requires
        offset + 4 <= bytes@.len(),
    ensures
        r == be32_val(bytes@.subrange(offset as int, offset + 4)),
{
    let r = ((bytes[offset] as u32) << 24u32) | ((bytes[offset + 1] as u32) << 16u32) | ((bytes[
        offset + 2] as u32) << 8u32) | (bytes[offset + 3] as u32);
    proof {
        let s = bytes@.subrange(offset as int, offset + 4);
        assert(s[0] == bytes@[offset as int] && s[1] == bytes@[offset + 1] && s[2] == bytes@[offset
            + 2] && s[3] == bytes@[offset + 3]);
    }
    r
}

/// The handshake header exchanged when a connection opens.
#[derive(Clone, Copy, Debug, PartialEq, Eq)]
pub struct HeaderPacket {
    /// Version of the gossip protocol spoken by the peer.
    pub protocol_version: u8,
    /// Identity bytes of the coordinator the peer follows.
    pub coordinator: [u8; 32],
}

impl View for HeaderPacket {
    type V = (u8, Seq<u8>);

    open spec fn view(&self) -> (u8, Seq<u8>) {
        (self.protocol_version, self.coordinator@)
    }
}

/// Serialized header: version byte, then the coordinator bytes.
pub open spec fn header_bytes(v: (u8, Seq<u8>)) -> Seq<u8> {
    seq![v.0] + v.1
}

/// Header content read from an exactly sized buffer.
pub open spec fn header_from(bytes: Seq<u8>) -> (u8, Seq<u8>) {
    (bytes[0], bytes.subrange(1, 33))
}

impl HeaderPacket {
    /// Deserializes from a buffer whose length the envelope has already
    /// checked against this packet's size range.
    pub fn from_bytes(bytes: &[u8]) -> (r: HeaderPacket)
        requires
            bytes@.len() == HEADER_SIZE,
        ensures
            r@ == header_from(bytes@),
    {
        let protocol_version = bytes[0];
        let mut coordinator = [0u8; 32];
        let mut j: usize = 0;
        while j < 32
            invariant
                j <= 32,
                bytes@.len() == 33,
                forall|t: int| 0 <= t < j ==> coordinator@[t] == bytes@[1 + t],
            decreases 32 - j,
        {
            coordinator[j] = bytes[1 + j];
            j = j + 1;
        }
        let r = HeaderPacket { protocol_version, coordinator };
        assert(r@.1 =~= bytes@.subrange(1, 33));
        r
    }

    /// Encoded size of this packet.
    pub fn size(&self) -> (r: usize)
        ensures
            r == header_bytes(self@).len(),
    {
        HEADER_SIZE
    }

    /// Serializes into a fresh buffer of exactly `size` bytes.
    pub fn to_bytes(&self) -> (r: Vec<u8>)
        ensures
            r@ == header_bytes(self@),
    {
        let mut out: Vec<u8> = Vec::new();
        out.push(self.protocol_version);
        let mut j: usize = 0;
        while j < 32
            invariant
                j <= 32,
                out@ == seq![self@.0] + self@.1.take(j as int),
            decreases 32 - j,
        {
            out.push(self.coordinator[j]);
            assert(self@.1.take(j + 1) =~= self@.1.take(j as int).push(self@.1[j as int]));
            assert(out@ =~= seq![self@.0] + self@.1.take(j + 1));
            j = j + 1;
        }
        assert(self@.1.take(32) =~= self@.1);
        out
    }
}

/// A heartbeat describing the sender's local sync state.
#[derive(Clone, Copy, Debug, PartialEq, Eq, Structural)]
pub struct HeartbeatPacket {
    /// Index of the latest solid milestone the sender holds.
    pub solid_milestone_index: u32,
    /// Index up to which the sender has pruned its tangle.
    pub pruned_index: u32,
}

/// Serialized heartbeat: the two counters, big-endian.
pub open spec fn heartbeat_bytes(p: HeartbeatPacket) -> Seq<u8> {
    be32(p.solid_milestone_index) + be32(p.pruned_index)
}

/// Heartbeat content read from an exactly sized buffer.
pub open spec fn heartbeat_from(bytes: Seq<u8>) -> HeartbeatPacket {
    HeartbeatPacket {
        solid_milestone_index: be32_val(bytes.subrange(0, 4)),
        pruned_index: be32_val(bytes.subrange(4, 8)),
    }
}

impl HeartbeatPacket {
    /// Deserializes from a buffer whose length the envelope has already
    /// checked against this packet's size range.
    pub fn from_bytes(bytes: &[u8]) -> (r: HeartbeatPacket)
        requires
            bytes@.len() == HEARTBEAT_SIZE,
        ensures
            r == heartbeat_from(bytes@),
    {
        HeartbeatPacket {
            solid_milestone_index: read_be32(bytes, 0),
            pruned_index: read_be32(bytes, 4),
        }
    }

    /// Encoded size of this packet.
    pub fn size(&self) -> (r: usize)
        ensures
            r == heartbeat_bytes(*self).len(),
    {
        HEARTBEAT_SIZE
    }

    /// Serializes into a fresh buffer of exactly `size` bytes.
    pub fn to_bytes(&self) -> (r: Vec<u8>)
        ensures
            r@ == heartbeat_bytes(*self),
    {
        let mut out: Vec<u8> = Vec::new();
        push_be32(&mut out, self.solid_milestone_index);
        push_be32(&mut out, self.pruned_index);
        out
    }
}

/// A packet carrying one serialized message as an opaque byte sequence.
///
/// The sequence is independently decodable into a message that embeds zero
/// or more parents blocks; that inner structure is not this codec's concern.
#[derive(Clone, Debug, PartialEq, Eq)]
pub struct MessagePacket {
    bytes: Vec<u8>,
}

impl View for MessagePacket {
    type V = Seq<u8>;

    closed spec fn view(&self) -> Seq<u8> {
        self.bytes@
    }
}

impl MessagePacket {
    /// Wraps serialized message bytes for transmission.
    pub fn new(bytes: Vec<u8>) -> (r: MessagePacket)
        ensures
            r@ == bytes@,
    {
        MessagePacket { bytes }
    }

    /// The carried serialized message bytes.
    pub fn message(&self) -> (r: &Vec<u8>)
        ensures
            r@ == self@,
    {
        &self.bytes
    }

    /// Deserializes from a buffer whose length the envelope has already
    /// checked against this packet's size range.
    pub fn from_bytes(bytes: &[u8]) -> (r: MessagePacket)
        requires
            MESSAGE_SIZE_MIN <= bytes@.len() <= MESSAGE_SIZE_MAX,
        ensures
            r@ == bytes@,
    {
        MessagePacket { bytes: vstd::slice::slice_to_vec(bytes) }
    }

    /// Encoded size of this packet.
    pub fn size(&self) -> (r: usize)
        ensures
            r == self@.len(),
    {
        self.bytes.len()
    }

    /// Serializes into a fresh buffer of exactly `size` bytes.
    pub fn to_bytes(&self) -> (r: Vec<u8>)
        ensures
            r@ == self@,
    {
        vstd::slice::slice_to_vec(self.bytes.as_slice())
    }
}

/// A request for the message with a given identifier.
#[derive(Clone, Copy, Debug, PartialEq, Eq)]
pub struct MessageRequestPacket {
    /// Identifier of the requested message.
    pub message_id: MessageId,
}

impl View for MessageRequestPacket {
    type V = Seq<u8>;

    open spec fn view(&self) -> Seq<u8> {
        self.message_id@
    }
}

impl MessageRequestPacket {
    /// Builds a request for one message identifier.
    pub fn new(message_id: MessageId) -> (r: MessageRequestPacket)
        ensures
            r@ == message_id@,
    {
        MessageRequestPacket { message_id }
    }

    /// Deserializes from a buffer whose length the envelope has already
    /// checked against this packet's size range.
    pub fn from_bytes(bytes: &[u8]) -> (r: MessageRequestPacket)
        requires
            bytes@.len() == MESSAGE_REQUEST_SIZE,
        ensures
            r@ == bytes@,
    {
        let mut id = [0u8; 32];
        let mut j: usize = 0;
        while j < 32
            invariant
                j <= 32,
                bytes@.len() == 32,
                forall|t: int| 0 <= t < j ==> id@[t] == bytes@[t],
            decreases 32 - j,
        {
            id[j] = bytes[j];
            j = j + 1;
        }
        let r = MessageRequestPacket { message_id: MessageId::new(id) };
        assert(r@ =~= bytes@);
        r
    }

    /// Encoded size of this packet.
    pub fn size(&self) -> (r: usize)
        ensures
            r == self@.len(),
    {
        MESSAGE_REQUEST_SIZE
    }

    /// Serializes into a fresh buffer of exactly `size` bytes.
    pub fn to_bytes(&self) -> (r: Vec<u8>)
        ensures
            r@ == self@,
    {
        let idb = self.message_id.as_bytes();
        let mut out: Vec<u8> = Vec::new();
        let mut j: usize = 0;
        while j < 32
            invariant
                j <= 32,
                idb@ == self@,
                self@.len() == 32,
                out@ == self@.take(j as int),
            decreases 32 - j,
        {
            out.push(idb[j]);
            assert(self@.take(j + 1) =~= self@.take(j as int).push(self@[j as int]));
            j = j + 1;
        }
        assert(self@.take(32) =~= self@);
        out
    }
}

/// A request for the milestone at a given index.
#[derive(Clone, Copy, Debug, PartialEq, Eq, Structural)]
pub struct MilestoneRequestPacket {
    /// Index of the requested milestone.
    pub index: u32,
}

/// Serialized milestone request: the index, big-endian.
pub open spec fn milestone_request_bytes(p: MilestoneRequestPacket) -> Seq<u8> {
    be32(p.index)
}

impl MilestoneRequestPacket {
    /// Deserializes from a buffer whose length the envelope has already
    /// checked against this packet's size range.
    pub fn from_bytes(bytes: &[u8]) -> (r: MilestoneRequestPacket)
        requires
            bytes@.len() == MILESTONE_REQUEST_SIZE,
        ensures
            r == (MilestoneRequestPacket { index: be32_val(bytes@) }),
    {
        let index = read_be32(bytes, 0);
        assert(bytes@.subrange(0, 4) =~= bytes@);
        MilestoneRequestPacket { index }
    }

    /// Encoded size of this packet.
    pub fn size(&self) -> (r: usize)
        ensures
            r == milestone_request_bytes(*self).len(),
    {
        MILESTONE_REQUEST_SIZE
    }

    /// Serializes into a fresh buffer of exactly `size` bytes.
    pub fn to_bytes(&self) -> (r: Vec<u8>)
        ensures
            r@ == milestone_request_bytes(*self),
    {
        let mut out: Vec<u8> = Vec::new();
        push_be32(&mut out, self.index);
        out
    }
}

/// A gossip packet: the closed set of protocol message variants.
#[derive(Clone, Debug, PartialEq, Eq)]
pub enum Packet {
    /// Handshake header.
    Header(HeaderPacket),
    /// Request for a milestone by index.
    MilestoneRequest(MilestoneRequestPacket),
    /// A serialized message.
    Message(MessagePacket),
    /// Request for a message by identifier.
    MessageRequest(MessageRequestPacket),
    /// Local sync state beacon.
    Heartbeat(HeartbeatPacket),
}

/// The mathematical content of a packet, by variant.
pub enum PacketView {
    /// Handshake header content.
    Header((u8, Seq<u8>)),
    /// Milestone request content.
    MilestoneRequest(MilestoneRequestPacket),
    /// Serialized message bytes.
    Message(Seq<u8>),
    /// Requested message identifier bytes.
    MessageRequest(Seq<u8>),
    /// Heartbeat content.
    Heartbeat(HeartbeatPacket),
}

impl View for Packet {
    type V = PacketView;

    open spec fn view(&self) -> PacketView {
        match self {
            Packet::Header(p) => PacketView::Header(p@),
            Packet::MilestoneRequest(p) => PacketView::MilestoneRequest(*p),
            Packet::Message(p) => PacketView::Message(p@),
            Packet::MessageRequest(p) => PacketView::MessageRequest(p@),
            Packet::Heartbeat(p) => PacketView::Heartbeat(*p),
        }
    }
}

/// The stable type identifier of a packet.
pub open spec fn packet_view_id(v: PacketView) -> u8 {
    match v {
        PacketView::Header(_) => HEADER_PACKET_ID,
        PacketView::MilestoneRequest(_) => MILESTONE_REQUEST_PACKET_ID,
        PacketView::Message(_) => MESSAGE_PACKET_ID,
        PacketView::MessageRequest(_) => MESSAGE_REQUEST_PACKET_ID,
        PacketView::Heartbeat(_) => HEARTBEAT_PACKET_ID,
    }
}

/// The serialized payload of a packet, before framing.
pub open spec fn packet_view_payload(v: PacketView) -> Seq<u8> {
    match v {
        PacketView::Header(h) => header_bytes(h),
        PacketView::MilestoneRequest(m) => milestone_request_bytes(m),
        PacketView::Message(b) => b,
        PacketView::MessageRequest(b) => b,
        PacketView::Heartbeat(h) => heartbeat_bytes(h),
    }
}

/// Whether a packet's content satisfies its variant's structural bounds.
pub open spec fn packet_view_wf(v: PacketView) -> bool {
    match v {
        PacketView::Header(h) => h.1.len() == 32,
        PacketView::MilestoneRequest(_) => true,
        PacketView::Message(b) => MESSAGE_SIZE_MIN as int <= b.len() <= MESSAGE_SIZE_MAX as int,
        PacketView::MessageRequest(b) => b.len() == 32,
        PacketView::Heartbeat(_) => true,
    }
}

/// Whether a byte is the type identifier of some packet variant.
pub open spec fn known_packet_id(id: u8) -> bool {
    id == HEADER_PACKET_ID || id == MILESTONE_REQUEST_PACKET_ID || id == MESSAGE_PACKET_ID || id
        == MESSAGE_REQUEST_PACKET_ID || id == HEARTBEAT_PACKET_ID
}

/// Whether a payload length lies in a packet type's declared size range; a
/// single point for fixed-shape packets, a closed interval for the
/// variable-shape message packet.
pub open spec fn size_in_range(id: u8, len: int) -> bool {
    if id == HEADER_PACKET_ID {
        len == HEADER_SIZE as int
    } else if id == MILESTONE_REQUEST_PACKET_ID {
        len == MILESTONE_REQUEST_SIZE as int
    } else if id == MESSAGE_PACKET_ID {
        MESSAGE_SIZE_MIN as int <= len <= MESSAGE_SIZE_MAX as int
    } else if id == MESSAGE_REQUEST_PACKET_ID {
        len == MESSAGE_REQUEST_SIZE as int
    } else if id == HEARTBEAT_PACKET_ID {
        len == HEARTBEAT_SIZE as int
    } else {
        false
    }
}

/// The packet content a payload denotes, given its type identifier and a
/// payload length already checked against that type's size range.
pub open spec fn parse_packet(id: u8, payload: Seq<u8>) -> PacketView {
    if id == HEADER_PACKET_ID {
        PacketView::Header(header_from(payload))
    } else if id == MILESTONE_REQUEST_PACKET_ID {
        PacketView::MilestoneRequest(MilestoneRequestPacket { index: be32_val(payload) })
    } else if id == MESSAGE_PACKET_ID {
        PacketView::Message(payload)
    } else if id == MESSAGE_REQUEST_PACKET_ID {
        PacketView::MessageRequest(payload)
    } else {
        PacketView::Heartbeat(heartbeat_from(payload))
    }
}

/// The framed form of a packet: type byte, big-endian payload length, then
/// the payload.
pub open spec fn spec_tlv(v: PacketView) -> Seq<u8> {
    seq![packet_view_id(v)] + be16(packet_view_payload(v).len() as u16) + packet_view_payload(v)
}

/// The exact result of decoding one frame: the packet content, or the
/// error. The type byte is examined first, then the announced length is
/// validated against that type's size range, then the payload is parsed.
pub open spec fn spec_tlv_from(bytes: Seq<u8>) -> Result<PacketView, TlvError> {
    if bytes.len() < 1 {
        Err(TlvError::InvalidTlvLength)
    } else if !known_packet_id(bytes[0]) {
        Err(TlvError::UnknownPacketType(bytes[0]))
    } else if bytes.len() < 3 {
        Err(TlvError::InvalidTlvLength)
    } else {
        let advertised = be16_val(bytes.subrange(1, 3)) as int;
        if !size_in_range(bytes[0], advertised) {
            Err(TlvError::InvalidTlvLength)
        } else if bytes.len() != 3 + advertised {
            Err(TlvError::InvalidTlvLength)
        } else {
            Ok(parse_packet(bytes[0], bytes.subrange(3, 3 + advertised)))
        }
    }
}

/// Frames a packet for transmission: type byte, big-endian payload length,
/// then the payload.
pub fn tlv_to_bytes(packet: &Packet) -> (r: Vec<u8>)
    requires
        packet_view_wf(packet@),
    ensures
        r@ == spec_tlv(packet@),
{
    let (id, mut payload): (u8, Vec<u8>) = match packet {
        Packet::Header(p) => (HEADER_PACKET_ID, p.to_bytes()),
        Packet::MilestoneRequest(p) => (MILESTONE_REQUEST_PACKET_ID, p.to_bytes()),
        Packet::Message(p) => (MESSAGE_PACKET_ID, p.to_bytes()),
        Packet::MessageRequest(p) => (MESSAGE_REQUEST_PACKET_ID, p.to_bytes()),
        Packet::Heartbeat(p) => (HEARTBEAT_PACKET_ID, p.to_bytes()),
    };
    assert(payload@ == packet_view_payload(packet@) && id == packet_view_id(packet@));
    assert(payload@.len() <= 65535);
    let mut out: Vec<u8> = Vec::new();
    out.push(id);
    push_be16(&mut out, payload.len() as u16);
    out.append(&mut payload);
    assert(out@ =~= spec_tlv(packet@));
    out
}

/// Decodes one frame: reads the type byte, validates the announced length
/// against the target variant's declared size range before the payload is
/// touched, then dispatches the payload to that variant's decoder.
pub fn tlv_from_bytes(bytes: &[u8]) -> (r: Result<Packet, TlvError>)
    ensures
        match r {
            Ok(p) => spec_tlv_from(bytes@) == Ok::<PacketView, TlvError>(p@) && packet_view_wf(p@),
            Err(e) => spec_tlv_from(bytes@) == Err::<PacketView, TlvError>(e),
        },
{
    if bytes.len() < 1 {
        return Err(TlvError::InvalidTlvLength);
    }
    let id = bytes[0];
    if id > HEARTBEAT_PACKET_ID {
        return Err(TlvError::UnknownPacketType(id));
    }
    if bytes.len() < 3 {
        return Err(TlvError::InvalidTlvLength);
    }
    let advertised = read_be16(bytes, 1) as usize;
    let in_range: bool = if id == HEADER_PACKET_ID {
        advertised == HEADER_SIZE
    } else if id == MILESTONE_REQUEST_PACKET_ID {
        advertised == MILESTONE_REQUEST_SIZE
    } else if id == MESSAGE_PACKET_ID {
        MESSAGE_SIZE_MIN <= advertised && advertised <= MESSAGE_SIZE_MAX
    } else if id == MESSAGE_REQUEST_PACKET_ID {
        advertised == MESSAGE_REQUEST_SIZE
    } else {
        advertised == HEARTBEAT_SIZE
    };
    if !in_range {
        return Err(TlvError::InvalidTlvLength);
    }
    if bytes.len() != 3 + advertised {
        return Err(TlvError::InvalidTlvLength);
    }
    let payload = vstd::slice::slice_subrange(bytes, 3, 3 + advertised);
    let packet = if id == HEADER_PACKET_ID {
        Packet::Header(HeaderPacket::from_bytes(payload))
    } else if id == MILESTONE_REQUEST_PACKET_ID {
        Packet::MilestoneRequest(MilestoneRequestPacket::from_bytes(payload))
    } else if id == MESSAGE_PACKET_ID {
        Packet::Message(MessagePacket::from_bytes(payload))
    } else if id == MESSAGE_REQUEST_PACKET_ID {
        Packet::MessageRequest(MessageRequestPacket::from_bytes(payload))
    } else {
        Packet::Heartbeat(HeartbeatPacket::from_bytes(payload))
    };
    assert(packet@ == parse_packet(id, bytes@.subrange(3, 3 + advertised as int)));
    Ok(packet)
}

/// Round trip of the header layout.
pub proof fn lemma_header_round_trip(v: (u8, Seq<u8>))
    requires
        v.1.len() == 32,
    ensures
        header_from(header_bytes(v)) == v,
{
    assert(header_bytes(v).subrange(1, 33) =~= v.1);
}

/// Round trip of the heartbeat layout.
pub proof fn lemma_heartbeat_round_trip(p: HeartbeatPacket)
    ensures
        heartbeat_from(heartbeat_bytes(p)) == p,
{
    assert(heartbeat_bytes(p).subrange(0, 4) =~= be32(p.solid_milestone_index));
    assert(heartbeat_bytes(p).subrange(4, 8) =~= be32(p.pruned_index));
    lemma_be32_round_trip(p.solid_milestone_index);
    lemma_be32_round_trip(p.pruned_index);
}

/// Round trip of the milestone request layout.
pub proof fn lemma_milestone_request_round_trip(p: MilestoneRequestPacket)
    ensures
        parse_packet(MILESTONE_REQUEST_PACKET_ID, milestone_request_bytes(p))
            == PacketView::MilestoneRequest(p),
{
    lemma_be32_round_trip(p.index);
}

/// Round trip: any well-formed packet, once framed, is decoded back
/// unchanged; this holds for every packet variant.
pub proof fn lemma_tlv_round_trip(v: PacketView)
    requires
        packet_view_wf(v),
    ensures
        spec_tlv_from(spec_tlv(v)) == Ok::<PacketView, TlvError>(v),
{
    let b = spec_tlv(v);
    let payload = packet_view_payload(v);
    let id = packet_view_id(v);
    assert(payload.len() <= 65535) by {
        match v {
            PacketView::Header(h) => {},
            PacketView::MilestoneRequest(_) => {},
            PacketView::Message(_) => {},
            PacketView::MessageRequest(_) => {},
            PacketView::Heartbeat(_) => {},
        }
    }
    assert(b[0] == id);
    assert(b.subrange(1, 3) =~= be16(payload.len() as u16));
    lemma_be16_round_trip(payload.len() as u16);
    assert(be16_val(b.subrange(1, 3)) == payload.len());
    assert(b.len() == 3 + payload.len());
    assert(b.subrange(3, 3 + payload.len() as int) =~= payload);
    assert(size_in_range(id, payload.len() as int));
    match v {
        PacketView::Header(h) => {
            lemma_header_round_trip(h);
        },
        PacketView::MilestoneRequest(p) => {
            lemma_be32_round_trip(p.index);
        },
        PacketView::Message(_) => {},
        PacketView::MessageRequest(_) => {},
        PacketView::Heartbeat(p) => {
            lemma_heartbeat_round_trip(p);
        },
    }
}

} // verus!
