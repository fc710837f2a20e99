//! The announce request and the parts of a tracker's answer.
use crate::digits::{append_decimal, decimal_text, hex_str, hex_text};
use vstd::prelude::*;
use vstd::string::*;

verus! {

/// Announce events a client reports to a tracker.
#[derive(Debug, Clone, Copy, PartialEq, Eq)]
pub enum Event {
    Started,
    Completed,
    Stopped,
}

impl Event {
    /// The keyword a tracker expects for this event.
    pub open spec fn keyword(self) -> Seq<char> {
        match self {
            Event::Started => "started"@,
            Event::Completed => "completed"@,
            Event::Stopped => "stopped"@,
        }
    }

    /// The keyword a tracker expects for this event.
    pub fn as_str(&self) -> (name: &'static str)
        ensures
            name@ == self.keyword(),
    {
        match self {
            Event::Started => "started",
            Event::Completed => "completed",
            Event::Stopped => "stopped",
        }
    }
}

/// What a client reports when it announces itself to a tracker.
#[derive(Debug)]
pub struct TrackerRequest {
    pub announce_url: String,
    pub info_hash: [u8; 20],
    pub peer_id: [u8; 20],
    /// The octets of the client's IPv4 address, where it states one.
    pub ip: Option<[u8; 4]>,
    pub port: u16,
    pub uploaded: u64,
    pub downloaded: u64,
    pub left: u64,
    pub compact: bool,
    pub event: Option<Event>,
}

/// A peer that a tracker names.
#[derive(Debug, PartialEq, Eq)]
pub struct Peer {
    pub id: Option<Vec<u8>>,
    /// The octets of the peer's IPv4 address.
    pub ip: [u8; 4],
    pub port: u16,
}

/// A tracker's answer to an announce.
#[derive(Debug, PartialEq, Eq)]
pub struct TrackerResponse {
    pub interval: u32,
    pub peers: Vec<Peer>,
}

/// The mathematical content of a [`Peer`].
pub ghost struct PeerView {
    pub id: Option<Seq<u8>>,
    pub ip: Seq<u8>,
    pub port: u16,
}

/// The mathematical content of a [`TrackerResponse`].
pub ghost struct ResponseView {
    pub interval: u32,
    pub peers: Seq<PeerView>,
}

impl View for Peer {
    type V = PeerView;

    open spec fn view(&self) -> PeerView {
        PeerView {
            id: match self.id {
                Some(id) => Some(id@),
                None => None,
            },
            ip: self.ip@,
            port: self.port,
        }
    }
}

impl Clone for Peer {
    /// A copy with the same content.
    fn clone(&self) -> (copy: Peer)
        ensures
            copy@ == self@,
    {
        let id = match &self.id {
            Some(id) => Some(id.clone()),
            None => None,
        };
        Peer { id, ip: self.ip, port: self.port }
    }
}

/// The views of a vector of peers, in order.
pub open spec fn peers_view(peers: Seq<Peer>) -> Seq<PeerView> {
    Seq::new(peers.len(), |i: int| peers[i]@)
}

impl View for TrackerResponse {
    type V = ResponseView;

    open spec fn view(&self) -> ResponseView {
        ResponseView { interval: self.interval, peers: peers_view(self.peers@) }
    }
}

/// Every byte written as `%` and two digits in base sixteen.
pub open spec fn percent_encoded(bytes: Seq<u8>) -> Seq<char>
    decreases bytes.len(),
{
    if bytes.len() == 0 {
        Seq::empty()
    } else {
        percent_encoded(bytes.drop_last()) + "%"@ + hex_text(bytes.last() as int / 16) + hex_text(
            bytes.last() as int % 16,
        )
    }
}

/// An IPv4 address in dotted decimal form.
pub open spec fn dotted_text(ip: Seq<u8>) -> Seq<char> {
    decimal_text(ip[0] as nat) + "."@ + decimal_text(ip[1] as nat) + "."@ + decimal_text(
        ip[2] as nat,
    ) + "."@ + decimal_text(ip[3] as nat)
}

/// The prefix that marks this client in its peer identifiers: `-RS0001-`.
pub open spec fn client_prefix() -> Seq<u8> {
    seq![0x2du8, 0x52u8, 0x53u8, 0x30u8, 0x30u8, 0x30u8, 0x31u8, 0x2du8]
}

/// Calls `rand::random::<u8>()`. Trusted: nothing is promised of the byte
/// that comes back.
#[verifier::external_body]
fn random_byte() -> u8 {
    rand::random::<u8>()
}

impl TrackerRequest {
    /// The part of the query that says who announces what: the content
    /// identifier and the peer identifier, percent-encoded.
    pub open spec fn identity_query(&self) -> Seq<char> {
        "info_hash="@ + percent_encoded(self.info_hash@) + "&peer_id="@ + percent_encoded(
            self.peer_id@,
        )
    }

    /// The part of the query that holds the port, the three counters and
    /// the compact flag, in decimal.
    pub open spec fn counters_query(&self) -> Seq<char> {
        "&port="@ + decimal_text(self.port as nat) + "&uploaded="@ + decimal_text(
            self.uploaded as nat,
        ) + "&downloaded="@ + decimal_text(self.downloaded as nat) + "&left="@ + decimal_text(
            self.left as nat,
        ) + "&compact="@ + (if self.compact {
            "1"@
        } else {
            "0"@
        })
    }

    /// The part of the query that holds the event and the address, where
    /// the request has them.
    pub open spec fn optional_query(&self) -> Seq<char> {
        (match self.event {
            Some(event) => "&event="@ + event.keyword(),
            None => Seq::empty(),
        }) + (match self.ip {
            Some(ip) => "&ip="@ + dotted_text(ip@),
            None => Seq::empty(),
        })
    }

    /// The announce URL with the request's fields as its query.
    pub open spec fn url(&self) -> Seq<char> {
        self.announce_url@ + "?"@ + self.identity_query() + self.counters_query()
            + self.optional_query()
    }

    /// The peer identifier made of the client prefix and twelve given bytes.
    pub fn peer_id_from(random: &[u8; 12]) -> (id: [u8; 20])
        ensures
            id@ == client_prefix() + random@,
    {
        let mut id: [u8; 20] = [
            0x2du8, 0x52u8, 0x53u8, 0x30u8, 0x30u8, 0x30u8, 0x31u8, 0x2du8, 0u8, 0u8, 0u8, 0u8,
            0u8, 0u8, 0u8, 0u8, 0u8, 0u8, 0u8, 0u8,
        ];
        let ghost prefix = id@.subrange(0, 8);
        proof {
            assert(prefix =~= client_prefix());
        }
        let mut i: usize = 0;
        while i < 12
            invariant
                i <= 12,
                id@.subrange(0, 8) == prefix,
                forall|j: int| 0 <= j < i ==> id@[8 + j] == random@[j],
            decreases 12 - i,
        {
            id[8 + i] = random[i];
            proof {
                assert(id@.subrange(0, 8) =~= prefix);
            }
            i += 1;
        }
        proof {
            assert forall|k: int| 0 <= k < 20 implies id@[k] == (client_prefix() + random@)[k] by {
                if k < 8 {
                    assert(id@.subrange(0, 8)[k] == id@[k]);
                } else {
                    assert(id@[8 + (k - 8)] == random@[k - 8]);
                }
            }
            assert(id@ =~= client_prefix() + random@);
        }
        id
    }

    /// A fresh peer identifier: the client prefix and twelve random bytes.
    pub fn generate_peer_id() -> (id: [u8; 20])
        ensures
            id@.subrange(0, 8) == client_prefix(),
    {
        let mut random: [u8; 12] = [0u8;12];
        let mut i: usize = 0;
        while i < 12
            invariant
                i <= 12,
            decreases 12 - i,
        {
            random[i] = random_byte();
            i += 1;
        }
        let id = Self::peer_id_from(&random);
        proof {
            assert(id@.subrange(0, 8) =~= client_prefix());
        }
        id
    }

    /// Writes every byte as `%` and two digits in base sixteen.
    fn url_encode_bytes(bytes: &[u8]) -> (text: String)
        ensures
            text@ == percent_encoded(bytes@),
    {
        let mut text = String::new();
        let mut i: usize = 0;
        proof {
            assert(bytes@.take(0) =~= Seq::<u8>::empty());
        }
        while i < bytes.len()
            invariant
                i <= bytes@.len(),
                text@ == percent_encoded(bytes@.take(i as int)),
            decreases bytes@.len() - i,
        {
            let b = bytes[i];
            proof {
                assert(bytes@.take(i + 1).drop_last() =~= bytes@.take(i as int));
            }
            text.append("%");
            text.append(hex_str(b / 16));
            text.append(hex_str(b % 16));
            i += 1;
        }
        proof {
            assert(bytes@.take(i as int) =~= bytes@);
        }
        text
    }

    /// Writes the part of the query that says who announces what.
    fn build_identity_query(&self) -> (text: String)
        ensures
            text@ == self.identity_query(),
    {
        let mut text = String::from_str("info_hash=");
        let info_hash = Self::url_encode_bytes(self.info_hash.as_slice());
        text.append(info_hash.as_str());
        text.append("&peer_id=");
        let peer_id = Self::url_encode_bytes(self.peer_id.as_slice());
        text.append(peer_id.as_str());
        text
    }

    /// Writes the part of the query that holds the port, the counters and
    /// the compact flag.
    fn build_counters_query(&self) -> (text: String)
        ensures
            text@ == self.counters_query(),
    {
        let mut text = String::from_str("&port=");
        append_decimal(&mut text, self.port as u64);
        text.append("&uploaded=");
        append_decimal(&mut text, self.uploaded);
        text.append("&downloaded=");
        append_decimal(&mut text, self.downloaded);
        text.append("&left=");
        append_decimal(&mut text, self.left);
        text.append("&compact=");
        if self.compact {
            text.append("1");
        } else {
            text.append("0");
        }
        text
    }

    /// Writes an address in dotted decimal form.
    fn build_dotted(ip: &[u8; 4]) -> (text: String)
        ensures
            text@ == dotted_text(ip@),
    {
        let mut text = String::new();
        append_decimal(&mut text, ip[0] as u64);
        text.append(".");
        append_decimal(&mut text, ip[1] as u64);
        text.append(".");
        append_decimal(&mut text, ip[2] as u64);
        text.append(".");
        append_decimal(&mut text, ip[3] as u64);
        proof {
            assert(text@ =~= dotted_text(ip@));
        }
        text
    }

    /// Writes the part of the query that holds the event and the address.
    fn build_optional_query(&self) -> (text: String)
        ensures
            text@ == self.optional_query(),
    {
        let mut text = String::new();
        if let Some(event) = &self.event {
            text.append("&event=");
            text.append(event.as_str());
        }
        let ghost first = text@;
        if let Some(ip) = &self.ip {
            text.append("&ip=");
            let dotted = Self::build_dotted(ip);
            text.append(dotted.as_str());
        }
        proof {
            assert(text@ =~= self.optional_query());
        }
        text
    }

    /// Builds the URL of the announce.
    pub fn build_url(&self) -> (url: String)
        ensures
            url@ == self.url(),
    {
        let mut url = self.announce_url.clone();
        url.append("?");
        let identity = self.build_identity_query();
        url.append(identity.as_str());
        let counters = self.build_counters_query();
        url.append(counters.as_str());
        let optional = self.build_optional_query();
        url.append(optional.as_str());
        url
    }
}

} // verus!
