use vstd::prelude::*;
use base64::Engine;
use crate::keys::clone_bytes;

verus! {

broadcast use vstd::array::group_array_axioms;

/// A mix node as the directory lists it: its host address in bytes and its
/// public key as URL-safe base64.
pub struct MixNode {
    pub host: Vec<u8>,
    pub pub_key: String,
}

/// The network topology the directory returns: the mix nodes on offer, in
/// listed order.
pub struct Topology {
    pub mix_nodes: Vec<MixNode>,
}

/// One hop of a sphinx route: 32 address bytes and the 32 bytes of a
/// Montgomery point.
pub struct SphinxNode {
    pub address: [u8; 32],
    pub pub_key: [u8; 32],
}

/// Ghost value of a route hop.
#[verifier::ext_equal]
pub ghost struct SphinxNodeV {
    pub address: Seq<u8>,
    pub pub_key: Seq<u8>,
}

impl View for SphinxNode {
    type V = SphinxNodeV;

    open spec fn view(&self) -> SphinxNodeV {
        SphinxNodeV { address: self.address@, pub_key: self.pub_key@ }
    }
}

/// The final destination of a sphinx route: a placeholder of zeroed
/// address and identifier until a real destination service exists.
pub struct Destination {
    pub address: [u8; 32],
    pub identifier: [u8; 16],
}

/// What `base64`'s URL-safe engine decodes a string to: the decoded bytes
/// of a valid padded URL-safe base64 string, nothing for an invalid one.
pub uninterp spec fn b64_url_decoding(s: Seq<char>) -> Option<Seq<u8>>;

/// Relies on base64::engine::general_purpose::URL_SAFE: it decodes a valid
/// padded URL-safe base64 string to its bytes and fails exactly on an
/// invalid one.
#[verifier::external_body]
fn b64_url_decode(s: &String) -> (r: Option<Vec<u8>>)
    ensures
        match r {
            Some(v) => b64_url_decoding(s@) == Some(v@),
            None => b64_url_decoding(s@) is None,
        },
{
    match base64::engine::general_purpose::URL_SAFE.decode(s.as_str()) {
        Ok(v) => Some(v),
        Err(_) => None,
    }
}

/// A byte string padded with zeroes to 32 bytes.
pub open spec fn pad32(b: Seq<u8>) -> Seq<u8> {
    Seq::new(
        32,
        |i: int|
            if i < b.len() {
                b[i]
            } else {
                0u8
            },
    )
}

/// Pads a byte string shorter than 33 bytes with zeroes to exactly 32.
pub fn zero_pad_to_32_bytes(bytes: Vec<u8>) -> (r: [u8; 32])
    requires
        bytes@.len() <= 32,
    ensures
        r@ == pad32(bytes@),
{
    let mut padded: [u8; 32] = [0u8; 32];
    let n = bytes.len();
    let mut i: usize = 0;
    while i < n
        invariant
            n == bytes@.len() <= 32,
            i <= n,
            padded@.len() == 32,
            forall|j: int| 0 <= j < i ==> padded@[j] == bytes@[j],
            forall|j: int| i <= j < 32 ==> padded@[j] == 0u8,
        decreases n - i,
    {
        padded[i] = bytes[i];
        i = i + 1;
    }
    proof {
        assert(padded@ =~= pad32(bytes@));
    }
    padded
}

/// The route hop made of one mix node, where the node is usable: its host
/// must fit in 32 bytes and its key must decode to at most 32 bytes.
pub open spec fn spec_route_node(host: Seq<u8>, decoded_key: Option<Seq<u8>>) -> Option<
    SphinxNodeV,
> {
    if host.len() <= 32 {
        match decoded_key {
            Some(k) => if k.len() <= 32 {
                Some(SphinxNodeV { address: pad32(host), pub_key: pad32(k) })
            } else {
                None
            },
            None => None,
        }
    } else {
        None
    }
}

/// How many nodes a route takes from a topology.
pub open spec fn route_count(topology: Topology, route_len: usize) -> int {
    if route_len <= topology.mix_nodes@.len() {
        route_len as int
    } else {
        topology.mix_nodes@.len() as int
    }
}

/// Builds a sphinx route from the first `route_len` mix nodes of the
/// topology: each hop carries the node's zero-padded host address and its
/// zero-padded, base64-decoded public key. Fails when any selected node is
/// unusable: a host over 32 bytes, an undecodable key, or a key over 32
/// bytes.
#[verifier::loop_isolation(false)]
pub fn route_from(topology: &Topology, route_len: usize) -> (r: Option<Vec<SphinxNode>>)
    ensures
        match r {
            Some(nodes) => nodes@.len() == route_count(*topology, route_len) && (forall|i: int|
                0 <= i < nodes@.len() ==> Some((#[trigger] nodes@[i])@) == spec_route_node(
                    topology.mix_nodes@[i].host@,
                    b64_url_decoding(topology.mix_nodes@[i].pub_key@),
                )),
            None => exists|i: int|
                0 <= i < route_count(*topology, route_len) && spec_route_node(
                    topology.mix_nodes@[i].host@,
                    b64_url_decoding(#[trigger] topology.mix_nodes@[i].pub_key@),
                ) is None,
        },
{
    let count = if route_len <= topology.mix_nodes.len() {
        route_len
    } else {
        topology.mix_nodes.len()
    };
    let mut route: Vec<SphinxNode> = Vec::new();
    let mut i: usize = 0;
    while i < count
        invariant
            count == route_count(*topology, route_len),
            i <= count,
            route@.len() == i,
            forall|j: int|
                0 <= j < i ==> Some((#[trigger] route@[j])@) == spec_route_node(
                    topology.mix_nodes@[j].host@,
                    b64_url_decoding(topology.mix_nodes@[j].pub_key@),
                ),
        decreases count - i,
    {
        let mix = &topology.mix_nodes[i];
        if mix.host.len() > 32 {
            proof {
                assert(spec_route_node(
                    topology.mix_nodes@[i as int].host@,
                    b64_url_decoding(topology.mix_nodes@[i as int].pub_key@),
                ) is None);
            }
            return None;
        }
        let address = zero_pad_to_32_bytes(clone_bytes(&mix.host));
        let decoded = match b64_url_decode(&mix.pub_key) {
            Some(d) => d,
            None => {
            proof {
                assert(spec_route_node(
                    topology.mix_nodes@[i as int].host@,
                    b64_url_decoding(topology.mix_nodes@[i as int].pub_key@),
                ) is None);
            }
                return None;
            },
        };
        if decoded.len() > 32 {
            proof {
                assert(spec_route_node(
                    topology.mix_nodes@[i as int].host@,
                    b64_url_decoding(topology.mix_nodes@[i as int].pub_key@),
                ) is None);
            }
            return None;
        }
        let key = zero_pad_to_32_bytes(decoded);
        let node = SphinxNode { address, pub_key: key };
        route.push(node);
        i = i + 1;
    }
    Some(route)
}

/// The destination every route currently targets: zeroed address and
/// identifier.
pub fn get_destination() -> (r: Destination)
    ensures
        r.address@ =~= Seq::new(32, |i: int| 0u8),
        r.identifier@ =~= Seq::new(16, |i: int| 0u8),
{
    let d = Destination { address: [0u8; 32], identifier: [0u8; 16] };
    proof {
        assert(d.address@ =~= Seq::new(32, |i: int| 0u8));
        assert(d.identifier@ =~= Seq::new(16, |i: int| 0u8));
    }
    d
}

} // verus!
