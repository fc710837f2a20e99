//! The handshake and the messages that follow it.
use crate::bytes::{same_bytes, take_array};
use crate::peer::error::HandshakeError;
use vstd::prelude::*;
use vstd::std_specs::convert::FromSpecImpl;

verus! {

/// The ASCII bytes of the protocol label, `BitTorrent protocol`.
pub open spec fn protocol_label() -> Seq<u8> {
    seq![
        0x42u8, 0x69u8, 0x74u8, 0x54u8, 0x6fu8, 0x72u8, 0x72u8, 0x65u8, 0x6eu8, 0x74u8, 0x20u8,
        0x70u8, 0x72u8, 0x6fu8, 0x74u8, 0x6fu8, 0x63u8, 0x6fu8, 0x6cu8,
    ]
}

/// The protocol label.
pub fn label() -> (l: [u8; 19])
    ensures
        l@ == protocol_label(),
{
    let l: [u8; 19] = [
        0x42u8, 0x69u8, 0x74u8, 0x54u8, 0x6fu8, 0x72u8, 0x72u8, 0x65u8, 0x6eu8, 0x74u8, 0x20u8,
        0x70u8, 0x72u8, 0x6fu8, 0x74u8, 0x6fu8, 0x63u8, 0x6fu8, 0x6cu8,
    ];
    proof {
        assert(l@ =~= protocol_label());
    }
    l
}

/// The message that opens a connection between two peers.
///
/// On the wire it is 68 bytes: the length of the label, the label, eight
/// reserved bytes, the content identifier and the sender's peer identifier.
#[derive(Debug, Clone, Copy, PartialEq, Eq)]
pub struct Handshake {
    pub length: u8,
    pub protocol: [u8; 19],
    pub reserved: [u8; 8],
    pub info_hash: [u8; 20],
    pub peer_id: [u8; 20],
}

/// The first rule that the response `bytes` breaks, for a caller that
/// expects the content identifier `expected` and has the peer identifier
/// `own`; `None` where it breaks none.
pub open spec fn rejection(bytes: Seq<u8>, expected: Seq<u8>, own: Seq<u8>) -> Option<
    HandshakeError,
> {
    if bytes.len() != 68 {
        Some(HandshakeError::InvalidLength)
    } else if bytes[0] != 19 {
        Some(HandshakeError::InvalidProtocolLength(bytes[0]))
    } else if bytes.subrange(1, 20) != protocol_label() {
        Some(HandshakeError::InvalidProtocolString)
    } else if bytes.subrange(28, 48) != expected {
        Some(HandshakeError::InfoHashMismatch)
    } else if bytes.subrange(48, 68) == own {
        Some(HandshakeError::SelfConnection)
    } else {
        None
    }
}

impl Handshake {
    /// The 68 bytes that stand for this handshake on the wire.
    pub open spec fn wire(&self) -> Seq<u8> {
        seq![self.length] + self.protocol@ + self.reserved@ + self.info_hash@ + self.peer_id@
    }

    /// The handshake that a client with the peer identifier `peer_id` sends
    /// for the content `info_hash`.
    pub fn new(info_hash: &[u8; 20], peer_id: &[u8; 20]) -> (h: Handshake)
        ensures
            h.length == 19,
            h.protocol@ == protocol_label(),
            h.reserved@ == Seq::new(8, |i: int| 0u8),
            h.info_hash == *info_hash,
            h.peer_id == *peer_id,
    {
        let h = Handshake {
            length: 19,
            protocol: label(),
            reserved: [0u8;8],
            info_hash: *info_hash,
            peer_id: *peer_id,
        };
        proof {
            assert(h.reserved@ =~= Seq::new(8, |i: int| 0u8));
        }
        h
    }

    /// Lays the handshake out in its wire form.
    pub fn to_bytes(&self) -> (bytes: [u8; 68])
        ensures
            bytes@ == self.wire(),
    {
        let mut bytes: [u8; 68] = [0u8;68];
        bytes[0] = self.length;
        let mut i: usize = 0;
        while i < 19
            invariant
                i <= 19,
                bytes@[0] == self.length,
                forall|j: int| 0 <= j < i ==> bytes@[1 + j] == self.protocol@[j],
            decreases 19 - i,
        {
            bytes[1 + i] = self.protocol[i];
            i += 1;
        }
        i = 0;
        while i < 8
            invariant
                i <= 8,
                bytes@[0] == self.length,
                forall|j: int| 0 <= j < 19 ==> bytes@[1 + j] == self.protocol@[j],
                forall|j: int| 0 <= j < i ==> bytes@[20 + j] == self.reserved@[j],
            decreases 8 - i,
        {
            bytes[20 + i] = self.reserved[i];
            i += 1;
        }
        i = 0;
        while i < 20
            invariant
                i <= 20,
                bytes@[0] == self.length,
                forall|j: int| 0 <= j < 19 ==> bytes@[1 + j] == self.protocol@[j],
                forall|j: int| 0 <= j < 8 ==> bytes@[20 + j] == self.reserved@[j],
                forall|j: int| 0 <= j < i ==> bytes@[28 + j] == self.info_hash@[j],
                forall|j: int| 0 <= j < i ==> bytes@[48 + j] == self.peer_id@[j],
            decreases 20 - i,
        {
            bytes[28 + i] = self.info_hash[i];
            bytes[48 + i] = self.peer_id[i];
            i += 1;
        }
        proof {
            let w = self.wire();
            assert(w.len() == 68);
            assert forall|k: int| 0 <= k < 68 implies bytes@[k] == w[k] by {
                if k == 0 {
                } else if k < 20 {
                    assert(bytes@[1 + (k - 1)] == self.protocol@[k - 1]);
                } else if k < 28 {
                    assert(bytes@[20 + (k - 20)] == self.reserved@[k - 20]);
                } else if k < 48 {
                    assert(bytes@[28 + (k - 28)] == self.info_hash@[k - 28]);
                } else {
                    assert(bytes@[48 + (k - 48)] == self.peer_id@[k - 48]);
                }
            }
            assert(bytes@ =~= w);
        }
        bytes
    }

    /// Checks a peer's response against the rules of the handshake, in
    /// their order, and reads it where it breaks none.
    pub fn from_bytes(
        bytes: &[u8],
        expected_info_hash: &[u8; 20],
        own_peer_id: &[u8; 20],
    ) -> (r: Result<Handshake, HandshakeError>)
        ensures
            match r {
                Ok(h) => {
                    &&& rejection(bytes@, expected_info_hash@, own_peer_id@) is None
                    &&& h.wire() == bytes@
                    &&& speaks_protocol(h)
                    &&& h.reserved@ == bytes@.subrange(20, 28)
                    &&& h.info_hash@ == expected_info_hash@
                    &&& h.peer_id@ == bytes@.subrange(48, 68)
                },
                Err(e) => rejection(bytes@, expected_info_hash@, own_peer_id@) == Some(e),
            },
    {
        if bytes.len() != 68 {
            return Err(HandshakeError::InvalidLength);
        }
        if bytes[0] != 19 {
            return Err(HandshakeError::InvalidProtocolLength(bytes[0]));
        }
        let protocol: [u8; 19] = take_array(bytes, 1);
        let expected_label = label();
        if !same_bytes(protocol.as_slice(), expected_label.as_slice()) {
            return Err(HandshakeError::InvalidProtocolString);
        }
        let reserved: [u8; 8] = take_array(bytes, 20);
        let info_hash: [u8; 20] = take_array(bytes, 28);
        if !same_bytes(info_hash.as_slice(), expected_info_hash.as_slice()) {
            return Err(HandshakeError::InfoHashMismatch);
        }
        let peer_id: [u8; 20] = take_array(bytes, 48);
        if same_bytes(peer_id.as_slice(), own_peer_id.as_slice()) {
            return Err(HandshakeError::SelfConnection);
        }
        let h = Handshake { length: 19, protocol, reserved, info_hash, peer_id };
        proof {
            assert(h.wire() =~= bytes@);
        }
        Ok(h)
    }
}

/// Whether `h` is a handshake of this protocol: its length byte is 19 and
/// its label is the protocol label.
pub open spec fn speaks_protocol(h: Handshake) -> bool {
    h.length == 19 && h.protocol@ == protocol_label()
}

/// The wire form of a handshake of this protocol passes every rule but,
/// possibly, the last two: it is rejected for its content identifier where
/// that is not the expected one, else as a self-connection where its peer
/// identifier is the caller's own, and accepted otherwise.
pub proof fn lemma_wire_form_validates(h: Handshake, expected: Seq<u8>, own: Seq<u8>)
    requires
        speaks_protocol(h),
    ensures
        rejection(h.wire(), expected, own) == if expected != h.info_hash@ {
            Some(HandshakeError::InfoHashMismatch)
        } else if own == h.peer_id@ {
            Some(HandshakeError::SelfConnection)
        } else {
            None
        },
{
    let w = h.wire();
    assert(w.len() == 68);
    assert(w.subrange(1, 20) =~= h.protocol@);
    assert(w.subrange(28, 48) =~= h.info_hash@);
    assert(w.subrange(48, 68) =~= h.peer_id@);
}

/// The wire form tells the handshake: two handshakes with the same 68
/// bytes are the same.
pub proof fn lemma_wire_form_tells_handshake(a: Handshake, b: Handshake)
    requires
        a.wire() == b.wire(),
    ensures
        a == b,
{
    let w = a.wire();
    assert(a.length == w[0] && b.length == w[0]);
    assert(a.protocol@ =~= w.subrange(1, 20));
    assert(b.protocol@ =~= w.subrange(1, 20));
    assert(a.reserved@ =~= w.subrange(20, 28));
    assert(b.reserved@ =~= w.subrange(20, 28));
    assert(a.info_hash@ =~= w.subrange(28, 48));
    assert(b.info_hash@ =~= w.subrange(28, 48));
    assert(a.peer_id@ =~= w.subrange(48, 68));
    assert(b.peer_id@ =~= w.subrange(48, 68));
    assert(a.protocol =~= b.protocol);
    assert(a.reserved =~= b.reserved);
    assert(a.info_hash =~= b.info_hash);
    assert(a.peer_id =~= b.peer_id);
}

/// A response of any length but 68 is rejected for its length.
pub proof fn lemma_wrong_length_rejected(bytes: Seq<u8>, expected: Seq<u8>, own: Seq<u8>)
    requires
        bytes.len() != 68,
    ensures
        rejection(bytes, expected, own) == Some(HandshakeError::InvalidLength),
{
}

/// A message of the peer protocol.
#[derive(Debug, PartialEq, Eq)]
pub enum PeerMessage {
    KeepAlive,
    Choke,
    Unchoke,
    Interested,
    NotInterested,
    Have { piece_index: u32 },
    Bitfield(Vec<u8>),
    Request { index: u32, begin: u32, length: u32 },
    Piece { index: u32, begin: u32, block: Vec<u8> },
    Cancel { index: u32, begin: u32, length: u32 },
    Unknown { id: u8, payload: Vec<u8> },
}

/// The mathematical content of a [`PeerMessage`].
pub ghost enum MessageView {
    KeepAlive,
    Choke,
    Unchoke,
    Interested,
    NotInterested,
    Have { piece_index: int },
    Bitfield(Seq<u8>),
    Request { index: int, begin: int, length: int },
    Piece { index: int, begin: int, block: Seq<u8> },
    Cancel { index: int, begin: int, length: int },
    Unknown { id: u8, payload: Seq<u8> },
}

impl View for PeerMessage {
    type V = MessageView;

    open spec fn view(&self) -> MessageView {
        match self {
            PeerMessage::KeepAlive => MessageView::KeepAlive,
            PeerMessage::Choke => MessageView::Choke,
            PeerMessage::Unchoke => MessageView::Unchoke,
            PeerMessage::Interested => MessageView::Interested,
            PeerMessage::NotInterested => MessageView::NotInterested,
            PeerMessage::Have { piece_index } => MessageView::Have {
                piece_index: *piece_index as int,
            },
            PeerMessage::Bitfield(bits) => MessageView::Bitfield(bits@),
            PeerMessage::Request { index, begin, length } => MessageView::Request {
                index: *index as int,
                begin: *begin as int,
                length: *length as int,
            },
            PeerMessage::Piece { index, begin, block } => MessageView::Piece {
                index: *index as int,
                begin: *begin as int,
                block: block@,
            },
            PeerMessage::Cancel { index, begin, length } => MessageView::Cancel {
                index: *index as int,
                begin: *begin as int,
                length: *length as int,
            },
            PeerMessage::Unknown { id, payload } => MessageView::Unknown {
                id: *id,
                payload: payload@,
            },
        }
    }
}

/// The number that the four bytes of `s` from `at` on stand for, most
/// significant byte first.
pub open spec fn be_u32(s: Seq<u8>, at: int) -> int {
    s[at] * 0x100_0000 + s[at + 1] * 0x1_0000 + s[at + 2] * 0x100 + s[at + 3]
}

/// The message that the body of a frame stands for. The first byte is the
/// tag and the rest the payload; an empty body is a keep-alive. A tag that
/// is not known, or whose payload has not the size that the tag calls for,
/// gives `Unknown` with the payload as it came.
pub open spec fn message_of(body: Seq<u8>) -> MessageView {
    if body.len() == 0 {
        MessageView::KeepAlive
    } else {
        let id = body[0];
        let payload = body.skip(1);
        if id == 0 {
            MessageView::Choke
        } else if id == 1 {
            MessageView::Unchoke
        } else if id == 2 {
            MessageView::Interested
        } else if id == 3 {
            MessageView::NotInterested
        } else if id == 4 && payload.len() == 4 {
            MessageView::Have { piece_index: be_u32(payload, 0) }
        } else if id == 5 {
            MessageView::Bitfield(payload)
        } else if id == 6 && payload.len() == 12 {
            MessageView::Request {
                index: be_u32(payload, 0),
                begin: be_u32(payload, 4),
                length: be_u32(payload, 8),
            }
        } else if id == 7 && payload.len() >= 8 {
            MessageView::Piece {
                index: be_u32(payload, 0),
                begin: be_u32(payload, 4),
                block: payload.skip(8),
            }
        } else if id == 8 && payload.len() == 12 {
            MessageView::Cancel {
                index: be_u32(payload, 0),
                begin: be_u32(payload, 4),
                length: be_u32(payload, 8),
            }
        } else {
            MessageView::Unknown { id, payload }
        }
    }
}

/// Why reading a message from a peer failed: the connection failed.
#[derive(Debug)]
pub enum PeerMessageError {
    IOError(std::io::Error),
}

impl From<std::io::Error> for PeerMessageError {
    fn from(value: std::io::Error) -> (e: PeerMessageError) {
        PeerMessageError::IOError(value)
    }
}

impl FromSpecImpl<std::io::Error> for PeerMessageError {
    open spec fn obeys_from_spec() -> bool {
        true
    }

    open spec fn from_spec(value: std::io::Error) -> PeerMessageError {
        PeerMessageError::IOError(value)
    }
}

/// A body whose tag is above 8 stands for `Unknown`, with the tag and with
/// the payload as it came.
pub proof fn lemma_unknown_tag_keeps_payload(id: u8, payload: Seq<u8>)
    requires
        id > 8,
    ensures
        message_of(seq![id] + payload) == (MessageView::Unknown { id, payload }),
{
    assert((seq![id] + payload).skip(1) =~= payload);
}

/// What a reader does once it has the four bytes of a length prefix.
#[derive(Debug, PartialEq, Eq)]
pub enum NextRead {
    /// The frame is complete: it was a keep-alive, and nothing more is read.
    Finished(PeerMessage),
    /// The frame has a body of so many bytes, which are read next.
    Body(u32),
}

/// Reads four bytes of `s` from `at` on as a number, most significant byte
/// first.
fn read_be_u32(s: &[u8], at: usize) -> (n: u32)
    requires
        at + 4 <= s@.len(),
    ensures
        n == be_u32(s@, at as int),
{
    let total = s.len();
    let b0 = s[at] as u32;
    let b1 = s[at + 1] as u32;
    let b2 = s[at + 2] as u32;
    let b3 = s[at + 3] as u32;
    b0 * 0x100_0000 + b1 * 0x1_0000 + b2 * 0x100 + b3
}

impl PeerMessage {
    /// Decides, from the length prefix of a frame, whether the frame is a
    /// keep-alive or has a body to read.
    pub fn after_prefix(prefix: &[u8; 4]) -> (step: NextRead)
        ensures
            be_u32(prefix@, 0) == 0 ==> step == NextRead::Finished(PeerMessage::KeepAlive),
            be_u32(prefix@, 0) != 0 ==> step == NextRead::Body(be_u32(prefix@, 0) as u32),
    {
        let length = read_be_u32(prefix.as_slice(), 0);
        if length == 0 {
            NextRead::Finished(PeerMessage::KeepAlive)
        } else {
            NextRead::Body(length)
        }
    }

    /// Reads the body of a frame: its tag and its payload.
    pub fn from_body(body: &[u8]) -> (message: PeerMessage)
        ensures
            message@ == message_of(body@),
    {
        let total = body.len();
        if total == 0 {
            return PeerMessage::KeepAlive;
        }
        let id = body[0];
        let payload = vstd::slice::slice_subrange(body, 1, total);
        proof {
            assert(payload@ =~= body@.skip(1));
        }
        let size = payload.len();
        if id == 0 {
            PeerMessage::Choke
        } else if id == 1 {
            PeerMessage::Unchoke
        } else if id == 2 {
            PeerMessage::Interested
        } else if id == 3 {
            PeerMessage::NotInterested
        } else if id == 4 && size == 4 {
            PeerMessage::Have { piece_index: read_be_u32(payload, 0) }
        } else if id == 5 {
            PeerMessage::Bitfield(vstd::slice::slice_to_vec(payload))
        } else if id == 6 && size == 12 {
            PeerMessage::Request {
                index: read_be_u32(payload, 0),
                begin: read_be_u32(payload, 4),
                length: read_be_u32(payload, 8),
            }
        } else if id == 7 && size >= 8 {
            let block = vstd::slice::slice_subrange(payload, 8, size);
            proof {
                assert(block@ =~= payload@.skip(8));
            }
            PeerMessage::Piece {
                index: read_be_u32(payload, 0),
                begin: read_be_u32(payload, 4),
                block: vstd::slice::slice_to_vec(block),
            }
        } else if id == 8 && size == 12 {
            PeerMessage::Cancel {
                index: read_be_u32(payload, 0),
                begin: read_be_u32(payload, 4),
                length: read_be_u32(payload, 8),
            }
        } else {
            PeerMessage::Unknown { id, payload: vstd::slice::slice_to_vec(payload) }
        }
    }
}

} // verus!
