//! Layered replication: the encoder applied layer after layer, with the
//! direction of traversal flipped on every other layer, and the commitments
//! that bind the layers together.
use vstd::prelude::*;
use crate::drg::{
    decode_nodes, decoded, encode_nodes, encoded, lemma_decode_encode, lemma_decoded_len, lemma_encoded_len,
};
use crate::error::Error;
use crate::fr32::{fr_trimmed, trim_digest, Commitment, NODE_SIZE};
use crate::graph::{Graph, MAX_NODES};
use crate::hash::{sha256, sha256_of, tagged, LAYERS_TAG};
use crate::merkle::{merkle_root, merkle_root_of};

verus! {

/// The most layers a replica may have.
pub const MAX_LAYERS: usize = 16;

/// `d` with its `n` nodes in reverse order.
pub open spec fn reversed_nodes(d: Seq<u8>, n: int) -> Seq<u8> {
    Seq::new((32 * n) as nat, |b: int| d[32 * (n - 1 - b / 32) + b % 32])
}

/// Reversing the nodes twice gives the buffer back.
pub proof fn lemma_reverse_twice(d: Seq<u8>, n: int)
    requires
        n >= 0,
        d.len() == 32 * n,
    ensures
        reversed_nodes(reversed_nodes(d, n), n) == d,
{
    let r = reversed_nodes(d, n);
    assert forall|b: int| 0 <= b < d.len() implies reversed_nodes(r, n)[b] == d[b] by {
        let q = b / 32;
        let m = b % 32;
        let c = 32 * (n - 1 - q) + m;
        assert(0 <= c < 32 * n);
        assert(c / 32 == n - 1 - q);
        assert(c % 32 == m);
    }
    assert(reversed_nodes(r, n) =~= d);
}

/// Layer `l` applied to `d`: the even layers encode front to back, the odd
/// ones back to front.
pub open spec fn layer_encoded(g: Graph, replica_id: Seq<u8>, d: Seq<u8>, l: int) -> Seq<u8> {
    if l % 2 == 0 {
        encoded(g, replica_id, d)
    } else {
        reversed_nodes(encoded(g, replica_id, reversed_nodes(d, g.nodes as int)), g.nodes as int)
    }
}

/// Layer `l` undone on `r`.
pub open spec fn layer_decoded(g: Graph, replica_id: Seq<u8>, r: Seq<u8>, l: int) -> Seq<u8> {
    if l % 2 == 0 {
        decoded(g, replica_id, r)
    } else {
        reversed_nodes(decoded(g, replica_id, reversed_nodes(r, g.nodes as int)), g.nodes as int)
    }
}

/// `d` after its first `n` layers.
pub open spec fn replicated(g: Graph, replica_id: Seq<u8>, d: Seq<u8>, n: nat) -> Seq<u8>
    decreases n,
{
    if n == 0 {
        d
    } else {
        layer_encoded(g, replica_id, replicated(g, replica_id, d, (n - 1) as nat), n - 1)
    }
}

/// The replica `r` of `n` layers, with the layers undone from the last down.
pub open spec fn extracted(g: Graph, replica_id: Seq<u8>, r: Seq<u8>, n: nat) -> Seq<u8>
    decreases n,
{
    if n == 0 {
        r
    } else {
        extracted(g, replica_id, layer_decoded(g, replica_id, r, n - 1), (n - 1) as nat)
    }
}

/// The Merkle roots of the first `n` layers, in order.
pub open spec fn layer_roots(g: Graph, replica_id: Seq<u8>, d: Seq<u8>, n: nat) -> Seq<Seq<u8>>
    decreases n,
{
    if n == 0 {
        Seq::empty()
    } else {
        layer_roots(g, replica_id, d, (n - 1) as nat).push(
            merkle_root(replicated(g, replica_id, d, n)),
        )
    }
}

/// The sequences of `s`, one after the other.
pub open spec fn flatten(s: Seq<Seq<u8>>) -> Seq<u8>
    decreases s.len(),
{
    if s.len() == 0 {
        Seq::empty()
    } else {
        flatten(s.drop_last()) + s.last()
    }
}

/// The aggregate commitment: the trimmed digest of the replica identity
/// followed by the root of every layer.
pub open spec fn comm_r_star_of(replica_id: Seq<u8>, roots: Seq<Seq<u8>>) -> Seq<u8> {
    fr_trimmed(sha256_of(seq![LAYERS_TAG] + (replica_id + flatten(roots))))
}

/// The commitments of one replication.
#[derive(Clone, Copy)]
pub struct ReplicaCommitments {
    /// The root over the unencoded data.
    pub comm_d: Commitment,
    /// The root over the last layer.
    pub comm_r: Commitment,
    /// The digest over the replica identity and every layer's root.
    pub comm_r_star: Commitment,
}

/// The commitments of `d` replicated in `layers` layers.
pub open spec fn commitments_of(
    g: Graph,
    replica_id: Seq<u8>,
    d: Seq<u8>,
    layers: nat,
    c: ReplicaCommitments,
) -> bool {
    &&& c.comm_d@ == merkle_root(d)
    &&& c.comm_r@ == merkle_root(replicated(g, replica_id, d, layers))
    &&& c.comm_r_star@ == comm_r_star_of(replica_id, layer_roots(g, replica_id, d, layers))
}

proof fn lemma_layer_round_trip(g: Graph, replica_id: Seq<u8>, d: Seq<u8>, l: int)
    requires
        g.wf(),
        d.len() == NODE_SIZE * g.nodes,
    ensures
        layer_decoded(g, replica_id, layer_encoded(g, replica_id, d, l), l) == d,
        layer_encoded(g, replica_id, d, l).len() == d.len(),
{
    let n = g.nodes as int;
    if l % 2 == 0 {
        lemma_decode_encode(g, replica_id, d);
        lemma_encoded_len(g, replica_id, d);
    } else {
        let rd = reversed_nodes(d, n);
        lemma_encoded_len(g, replica_id, rd);
        let e = encoded(g, replica_id, rd);
        lemma_reverse_twice(e, n);
        lemma_decode_encode(g, replica_id, rd);
        lemma_decoded_len(g, replica_id, e);
        lemma_reverse_twice(d, n);
    }
}

/// Replicating keeps the size of the buffer.
pub proof fn lemma_replicated_len(g: Graph, replica_id: Seq<u8>, d: Seq<u8>, n: nat)
    requires
        g.wf(),
        d.len() == NODE_SIZE * g.nodes,
    ensures
        replicated(g, replica_id, d, n).len() == d.len(),
    decreases n,
{
    if n > 0 {
        lemma_replicated_len(g, replica_id, d, (n - 1) as nat);
        lemma_layer_round_trip(
            g,
            replica_id,
            replicated(g, replica_id, d, (n - 1) as nat),
            n - 1,
        );
    }
}

/// Extracting a replica of `layers` layers gives back the data it was
/// replicated from.
pub proof fn lemma_extract_replicate(g: Graph, replica_id: Seq<u8>, d: Seq<u8>, layers: nat)
    requires
        g.wf(),
        d.len() == NODE_SIZE * g.nodes,
    ensures
        extracted(g, replica_id, replicated(g, replica_id, d, layers), layers) == d,
    decreases layers,
{
    if layers > 0 {
        let m = (layers - 1) as nat;
        let prev = replicated(g, replica_id, d, m);
        lemma_replicated_len(g, replica_id, d, m);
        lemma_layer_round_trip(g, replica_id, prev, m as int);
        lemma_extract_replicate(g, replica_id, d, m);
    }
}

fn reverse_nodes(d: &Vec<u8>, n: usize) -> (r: Vec<u8>)
    requires
        n <= MAX_NODES,
        d@.len() == NODE_SIZE * n,
    ensures
        r@ == reversed_nodes(d@, n as int),
{
    let ghost target = reversed_nodes(d@, n as int);
    let mut out: Vec<u8> = Vec::new();
    let mut k: usize = 0;
    while k < n
        invariant
            k <= n,
            n <= MAX_NODES,
            d@.len() == 32 * n,
            target == reversed_nodes(d@, n as int),
            out@ == target.subrange(0, 32 * k),
        decreases n - k,
    {
        let base = 32 * (n - 1 - k);
        let mut t: usize = 0;
        while t < 32
            invariant
                k < n,
                n <= MAX_NODES,
                t <= 32,
                base == 32 * (n - 1 - k),
                d@.len() == 32 * n,
                target == reversed_nodes(d@, n as int),
                out@ == target.subrange(0, 32 * k + t),
            decreases 32 - t,
        {
            let ghost b = 32 * k + t;
            assert(b / 32 == k && b % 32 == t);
            out.push(d[base + t]);
            t = t + 1;
            assert(out@ =~= target.subrange(0, 32 * k + t));
        }
        k = k + 1;
    }
    assert(out@ =~= target);
    out
}

fn encode_layer(g: &Graph, replica_id: &[u8; 32], data: &mut Vec<u8>, l: usize)
    requires
        g.wf(),
        old(data)@.len() == NODE_SIZE * g.nodes,
    ensures
        final(data)@ == layer_encoded(*g, replica_id@, old(data)@, l as int),
{
    if l % 2 == 0 {
        encode_nodes(g, replica_id, data);
    } else {
        let mut r = reverse_nodes(data, g.nodes);
        proof {
            lemma_encoded_len(*g, replica_id@, r@);
        }
        encode_nodes(g, replica_id, &mut r);
        *data = reverse_nodes(&r, g.nodes);
    }
}

fn decode_layer(g: &Graph, replica_id: &[u8; 32], r: &Vec<u8>, l: usize) -> (out: Vec<u8>)
    requires
        g.wf(),
        r@.len() == NODE_SIZE * g.nodes,
    ensures
        out@ == layer_decoded(*g, replica_id@, r@, l as int),
        out@.len() == r@.len(),
{
    if l % 2 == 0 {
        proof {
            lemma_decoded_len(*g, replica_id@, r@);
        }
        decode_nodes(g, replica_id, r)
    } else {
        let rr = reverse_nodes(r, g.nodes);
        let dd = decode_nodes(g, replica_id, &rr);
        proof {
            lemma_decoded_len(*g, replica_id@, rr@);
        }
        reverse_nodes(&dd, g.nodes)
    }
}

/// Replicates `data` in place over `layers` layers and returns the
/// commitments of the replication. A graph or a layer count out of range, or
/// a buffer that is not one node per graph node, is refused and the buffer
/// left as it is.
pub fn replicate(g: &Graph, replica_id: &[u8; 32], data: &mut Vec<u8>, layers: usize) -> (r:
    Result<ReplicaCommitments, Error>)
    ensures
        !(g.wf() && 1 <= layers <= MAX_LAYERS) ==> r == Err::<ReplicaCommitments, Error>(
            Error::ConfigMismatch,
        ) && final(data)@ == old(data)@,
        g.wf() && 1 <= layers <= MAX_LAYERS && old(data)@.len() != NODE_SIZE * g.nodes ==> r
            == Err::<ReplicaCommitments, Error>(Error::DataSizeMismatch)
            && final(data)@ == old(data)@,
        g.wf() && 1 <= layers <= MAX_LAYERS && old(data)@.len() == NODE_SIZE * g.nodes ==> r is Ok
            && final(data)@ == replicated(*g, replica_id@, old(data)@, layers as nat)
            && commitments_of(*g, replica_id@, old(data)@, layers as nat, r->Ok_0),
{
    if !(g.is_valid() && 1 <= layers && layers <= MAX_LAYERS) {
        return Err(Error::ConfigMismatch);
    }
    if data.len() != NODE_SIZE * g.nodes {
        return Err(Error::DataSizeMismatch);
    }
    Ok(replicate_layers(g, replica_id, data, layers))
}

/// Replicates `data` in place over `layers` layers and returns the
/// commitments of the replication.
pub(crate) fn replicate_layers(g: &Graph, replica_id: &[u8; 32], data: &mut Vec<u8>, layers: usize) -> (r:
    ReplicaCommitments)
    requires
        g.wf(),
        1 <= layers <= MAX_LAYERS,
        old(data)@.len() == NODE_SIZE * g.nodes,
    ensures
        final(data)@ == replicated(*g, replica_id@, old(data)@, layers as nat),
        commitments_of(*g, replica_id@, old(data)@, layers as nat, r),
{
    let ghost d0 = data@;
    let comm_d = merkle_root_of(data, g.nodes);
    let mut input: Vec<u8> = Vec::new();
    let mut t: usize = 0;
    while t < 32
        invariant
            t <= 32,
            input@ == replica_id@.subrange(0, t as int),
        decreases 32 - t,
    {
        input.push(replica_id[t]);
        t = t + 1;
        assert(input@ =~= replica_id@.subrange(0, t as int));
    }
    assert(replica_id@.subrange(0, 32) =~= replica_id@);
    assert(flatten(layer_roots(*g, replica_id@, d0, 0)) =~= Seq::<u8>::empty());
    assert(input@ =~= replica_id@ + flatten(layer_roots(*g, replica_id@, d0, 0)));
    let mut comm_r: Commitment = comm_d;
    let mut l: usize = 0;
    while l < layers
        invariant
            g.wf(),
            l <= layers <= MAX_LAYERS,
            d0.len() == 32 * g.nodes,
            data@ == replicated(*g, replica_id@, d0, l as nat),
            input@ == replica_id@ + flatten(layer_roots(*g, replica_id@, d0, l as nat)),
            input@.len() == 32 + 32 * l,
            l > 0 ==> comm_r@ == merkle_root(data@),
        decreases layers - l,
    {
        proof {
            lemma_replicated_len(*g, replica_id@, d0, l as nat);
        }
        encode_layer(g, replica_id, data, l);
        proof {
            lemma_replicated_len(*g, replica_id@, d0, (l + 1) as nat);
        }
        let root = merkle_root_of(data, g.nodes);
        let ghost before = input@;
        let mut t: usize = 0;
        while t < 32
            invariant
                t <= 32,
                input@ == before + root@.subrange(0, t as int),
            decreases 32 - t,
        {
            input.push(root[t]);
            t = t + 1;
            assert(input@ =~= before + root@.subrange(0, t as int));
        }
        assert(root@.subrange(0, 32) =~= root@);
        let ghost roots = layer_roots(*g, replica_id@, d0, (l + 1) as nat);
        assert(roots.drop_last() =~= layer_roots(*g, replica_id@, d0, l as nat));
        assert(input@ =~= replica_id@ + flatten(roots));
        comm_r = root;
        l = l + 1;
    }
    let mut star = sha256(&tagged(LAYERS_TAG, &input));
    trim_digest(&mut star);
    let comm_r_star = crate::merkle::to_commitment(&star);
    ReplicaCommitments { comm_d, comm_r, comm_r_star }
}

/// Undoes all `layers` layers of the replica. A graph or a layer count out
/// of range, or a buffer that is not one node per graph node, is refused.
pub fn extract_all(g: &Graph, replica_id: &[u8; 32], replica: &Vec<u8>, layers: usize) -> (r:
    Result<Vec<u8>, Error>)
    ensures
        !(g.wf() && 1 <= layers <= MAX_LAYERS) ==> r == Err::<Vec<u8>, Error>(
            Error::ConfigMismatch,
        ),
        g.wf() && 1 <= layers <= MAX_LAYERS && replica@.len() != NODE_SIZE * g.nodes ==> r
            == Err::<Vec<u8>, Error>(Error::DataSizeMismatch),
        g.wf() && 1 <= layers <= MAX_LAYERS && replica@.len() == NODE_SIZE * g.nodes ==> r is Ok
            && r->Ok_0@ == extracted(*g, replica_id@, replica@, layers as nat),
{
    if !(g.is_valid() && 1 <= layers && layers <= MAX_LAYERS) {
        return Err(Error::ConfigMismatch);
    }
    if replica.len() != NODE_SIZE * g.nodes {
        return Err(Error::DataSizeMismatch);
    }
    Ok(extract_layers(g, replica_id, replica, layers))
}

/// Undoes all `layers` layers of the replica.
pub(crate) fn extract_layers(g: &Graph, replica_id: &[u8; 32], replica: &Vec<u8>, layers: usize) -> (r:
    Vec<u8>)
    requires
        g.wf(),
        1 <= layers,
        replica@.len() == NODE_SIZE * g.nodes,
    ensures
        r@ == extracted(*g, replica_id@, replica@, layers as nat),
        r@.len() == replica@.len(),
{
    let mut cur = decode_layer(g, replica_id, replica, layers - 1);
    let mut l: usize = layers - 1;
    while l > 0
        invariant
            g.wf(),
            l < layers,
            cur@.len() == replica@.len(),
            replica@.len() == 32 * g.nodes,
            extracted(*g, replica_id@, replica@, layers as nat) == extracted(
                *g,
                replica_id@,
                cur@,
                l as nat,
            ),
        decreases l,
    {
        cur = decode_layer(g, replica_id, &cur, l - 1);
        l = l - 1;
    }
    cur
}

} // verus!
