//! Reading a tracker's answer.
use crate::bencode::decimal::{digits_value, is_canonical_nat, read_decimal};
use crate::bencode::helper::{
    bytes_field, get_bytes, get_int, get_list, get_string, int_field, list_field, text_field,
};
use crate::bencode::parser::{decode_value, BencodeParser, MAX_DEPTH};
use crate::bencode::value::{list_view, BencodeValue, Value};
use crate::bytes::find_byte;
use crate::tracker::error::{TrackerError, TrackerErrorView};
use crate::tracker::value::{peers_view, Peer, PeerView, ResponseView, TrackerResponse};
use vstd::prelude::*;
use vstd::slice::{slice_subrange, slice_to_vec};
use vstd::utf8::*;

verus! {

/// The octet that `s` denotes: an unsigned numeral without leading zeros,
/// of at most 255.
pub open spec fn octet_of(s: Seq<u8>) -> Option<u8> {
    if is_canonical_nat(s) && digits_value(s) <= 255 {
        Some(digits_value(s) as u8)
    } else {
        None
    }
}

/// The four octets of an IPv4 address in dotted decimal form: four
/// numerals of at most 255, without leading zeros, with a `.` between them
/// and nothing else.
pub open spec fn ipv4_of(s: Seq<u8>) -> Option<Seq<u8>> {
    match s.index_of_first(0x2eu8) {
        None => None,
        Some(i) => {
            let s1 = s.skip(i + 1);
            match s1.index_of_first(0x2eu8) {
                None => None,
                Some(j) => {
                    let s2 = s1.skip(j + 1);
                    match s2.index_of_first(0x2eu8) {
                        None => None,
                        Some(k) => {
                            match (
                                octet_of(s.subrange(0, i)),
                                octet_of(s1.subrange(0, j)),
                                octet_of(s2.subrange(0, k)),
                                octet_of(s2.skip(k + 1)),
                            ) {
                                (Some(a), Some(b), Some(c), Some(d)) => Some(seq![a, b, c, d]),
                                _ => None,
                            }
                        },
                    }
                },
            }
        },
    }
}

/// The identifier of a peer: the raw bytes under `peer id`, where the
/// dictionary has such bytes.
pub open spec fn peer_id_of(m: Map<Seq<char>, Value>) -> Option<Seq<u8>> {
    match bytes_field(m, "peer id"@) {
        Ok(id) => Some(id),
        Err(_) => None,
    }
}

/// The peer that `v` stands for: a dictionary with a text `ip` that is an
/// IPv4 address and an integer `port`, which is cut to 16 bits.
pub open spec fn peer_of(v: Value) -> Result<PeerView, TrackerErrorView> {
    match v {
        Value::Dict(m) => match text_field(m, "ip"@) {
            Err(e) => Err(TrackerErrorView::Bencode(e)),
            Ok(text) => match ipv4_of(encode_utf8(text)) {
                None => Err(TrackerErrorView::InvalidAddress),
                Some(ip) => match int_field(m, "port"@) {
                    Err(e) => Err(TrackerErrorView::Bencode(e)),
                    Ok(port) => Ok(PeerView { id: peer_id_of(m), ip, port: port as u16 }),
                },
            },
        },
        other => Err(TrackerErrorView::Bencode(other.mismatch("Dict"@))),
    }
}

/// The peers that the items of `l` stand for. The first item that stands
/// for none decides the failure.
pub open spec fn peers_of(l: Seq<Value>) -> Result<Seq<PeerView>, TrackerErrorView>
    decreases l.len(),
{
    if l.len() == 0 {
        Ok(Seq::empty())
    } else {
        match peers_of(l.drop_last()) {
            Err(e) => Err(e),
            Ok(peers) => match peer_of(l.last()) {
                Err(e) => Err(e),
                Ok(peer) => Ok(peers.push(peer)),
            },
        }
    }
}

/// The answer that the bytes `s` hold: their first value has to be a
/// dictionary with an integer `interval`, which is cut to 32 bits, and a
/// list `peers`.
pub open spec fn response_of(s: Seq<u8>) -> Result<ResponseView, TrackerErrorView> {
    match decode_value(s, MAX_DEPTH as nat) {
        Err(e) => Err(TrackerErrorView::Bencode(e)),
        Ok((Value::Dict(m), _)) => match int_field(m, "interval"@) {
            Err(e) => Err(TrackerErrorView::Bencode(e)),
            Ok(interval) => match list_field(m, "peers"@) {
                Err(e) => Err(TrackerErrorView::Bencode(e)),
                Ok(l) => match peers_of(l) {
                    Err(e) => Err(e),
                    Ok(peers) => Ok(ResponseView { interval: interval as u32, peers }),
                },
            },
        },
        Ok((other, _)) => Err(TrackerErrorView::Bencode(other.mismatch("Dict"@))),
    }
}

/// A failure among the first items of a peer list is the failure of the list.
pub proof fn lemma_peers_of_failure(l: Seq<Value>, k: int)
    requires
        0 <= k <= l.len(),
        peers_of(l.take(k)) is Err,
    ensures
        peers_of(l) == peers_of(l.take(k)),
    decreases l.len() - k,
{
    if k == l.len() {
        assert(l.take(k) =~= l);
    } else {
        assert(l.take(k + 1).drop_last() =~= l.take(k));
        lemma_peers_of_failure(l, k + 1);
    }
}

/// Reads one numeral of an address.
fn parse_octet(s: &[u8]) -> (r: Option<u8>)
    ensures
        r == octet_of(s@),
{
    match read_decimal(s) {
        Some(n) if n <= 255 => Some(n as u8),
        _ => None,
    }
}

/// Reads an IPv4 address in dotted decimal form.
pub fn parse_ipv4(text: &str) -> (r: Option<[u8; 4]>)
    ensures
        match r {
            Some(ip) => ipv4_of(encode_utf8(text@)) == Some(ip@),
            None => ipv4_of(encode_utf8(text@)) is None,
        },
{
    let s = text.as_bytes();
    let total = s.len();
    let i = match find_byte(s, 0x2e) {
        Some(i) => i,
        None => {
            return None;
        },
    };
    let s1 = slice_subrange(s, i + 1, total);
    proof {
        assert(s1@ =~= s@.skip(i + 1));
    }
    let total1 = s1.len();
    let j = match find_byte(s1, 0x2e) {
        Some(j) => j,
        None => {
            return None;
        },
    };
    let s2 = slice_subrange(s1, j + 1, total1);
    proof {
        assert(s2@ =~= s1@.skip(j + 1));
    }
    let total2 = s2.len();
    let k = match find_byte(s2, 0x2e) {
        Some(k) => k,
        None => {
            return None;
        },
    };
    let last = slice_subrange(s2, k + 1, total2);
    proof {
        assert(last@ =~= s2@.skip(k + 1));
    }
    let a = parse_octet(slice_subrange(s, 0, i));
    let b = parse_octet(slice_subrange(s1, 0, j));
    let c = parse_octet(slice_subrange(s2, 0, k));
    let d = parse_octet(last);
    match (a, b, c, d) {
        (Some(a), Some(b), Some(c), Some(d)) => {
            let ip: [u8; 4] = [a, b, c, d];
            proof {
                assert(ip@ =~= seq![a, b, c, d]);
            }
            Some(ip)
        },
        _ => None,
    }
}

/// Reads one peer of a peer list.
fn parse_peer(value: &BencodeValue) -> (r: Result<Peer, TrackerError>)
    ensures
        match r {
            Ok(peer) => peer_of(value@) == Ok::<_, TrackerErrorView>(peer@),
            Err(e) => peer_of(value@) == Err::<PeerView, _>(e@),
        },
{
    let peer_dict = match value.as_dict() {
        Ok(dict) => dict,
        Err(e) => {
            return Err(TrackerError::Bencode(e));
        },
    };
    let id = match get_bytes(peer_dict, "peer id") {
        Ok(bytes) => Some(slice_to_vec(bytes.as_slice())),
        Err(_) => None,
    };
    let ip_text = match get_string(peer_dict, "ip") {
        Ok(text) => text,
        Err(e) => {
            return Err(TrackerError::Bencode(e));
        },
    };
    let ip = match parse_ipv4(ip_text.as_str()) {
        Some(ip) => ip,
        None => {
            return Err(TrackerError::InvalidAddress);
        },
    };
    let port = match get_int(peer_dict, "port") {
        Ok(n) => #[verifier::truncate] (n as u16),
        Err(e) => {
            return Err(TrackerError::Bencode(e));
        },
    };
    Ok(Peer { id, ip, port })
}

/// Reads the peers of a tracker's answer.
pub fn parse_peers(peers_data: &Vec<BencodeValue>) -> (r: Result<Vec<Peer>, TrackerError>)
    ensures
        match r {
            Ok(peers) => peers_of(list_view(peers_data@)) == Ok::<_, TrackerErrorView>(
                peers_view(peers@),
            ),
            Err(e) => peers_of(list_view(peers_data@)) == Err::<Seq<PeerView>, _>(e@),
        },
{
    let ghost items = list_view(peers_data@);
    let mut peers: Vec<Peer> = Vec::new();
    let mut i: usize = 0;
    proof {
        assert(items.take(0) =~= Seq::<Value>::empty());
        assert(peers_view(peers@) =~= Seq::<PeerView>::empty());
    }
    while i < peers_data.len()
        invariant
            i <= peers_data@.len(),
            items == list_view(peers_data@),
            peers_of(items.take(i as int)) == Ok::<_, TrackerErrorView>(peers_view(peers@)),
        decreases peers_data@.len() - i,
    {
        proof {
            assert(items.take(i + 1).drop_last() =~= items.take(i as int));
            assert(items.take(i + 1).last() == peers_data@[i as int]@);
        }
        match parse_peer(&peers_data[i]) {
            Ok(peer) => {
                proof {
                    assert(peers_view(peers@.push(peer)) =~= peers_view(peers@).push(peer@));
                }
                peers.push(peer);
            },
            Err(e) => {
                proof {
                    lemma_peers_of_failure(items, i + 1);
                }
                return Err(e);
            },
        }
        i += 1;
    }
    proof {
        assert(items.take(i as int) =~= items);
    }
    Ok(peers)
}

/// Reads a tracker's answer out of the bytes of its response.
pub fn parse_tracker_response(data: &[u8]) -> (r: Result<TrackerResponse, TrackerError>)
    ensures
        match r {
            Ok(response) => response_of(data@) == Ok::<_, TrackerErrorView>(response@),
            Err(e) => response_of(data@) == Err::<ResponseView, _>(e@),
        },
{
    let bencode_value = match BencodeParser::parse_value(data) {
        Ok((value, _)) => value,
        Err(e) => {
            return Err(TrackerError::Bencode(e));
        },
    };
    let dict = match bencode_value.as_dict() {
        Ok(dict) => dict,
        Err(e) => {
            return Err(TrackerError::Bencode(e));
        },
    };
    let interval = match get_int(dict, "interval") {
        Ok(n) => #[verifier::truncate] (n as u32),
        Err(e) => {
            return Err(TrackerError::Bencode(e));
        },
    };
    let peers_value = match get_list(dict, "peers") {
        Ok(list) => list,
        Err(e) => {
            return Err(TrackerError::Bencode(e));
        },
    };
    let peers = parse_peers(peers_value)?;
    Ok(TrackerResponse { interval, peers })
}

} // verus!
