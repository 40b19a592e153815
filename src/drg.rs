//! Sequential encoding of a sector over the parent graph, and its inverse.
//!
//! Node `i` is combined with a key derived from the replica identity and the
//! already encoded values of its parents, all of which come before it: the
//! pass cannot be shortcut, and decoding recomputes the same keys from the
//! replica.
use vstd::prelude::*;
use crate::error::Error;
use crate::fr32::{fr_trimmed, trim_digest, NODE_SIZE};
use crate::graph::{lemma_parents_precede, parents, sample_parents, Graph, MAX_DEGREE};
use crate::hash::{sha256, sha256_of, tagged, KEY_TAG, MAX_DIGEST_INPUT};

verus! {

/// The 32 bytes of node `i` of `d`.
pub open spec fn node_of(d: Seq<u8>, i: int) -> Seq<u8> {
    d.subrange(32 * i, 32 * i + 32)
}

/// The values of the nodes `ps`, one after the other.
pub open spec fn parents_bytes(d: Seq<u8>, ps: Seq<usize>) -> Seq<u8>
    decreases ps.len(),
{
    if ps.len() == 0 {
        Seq::empty()
    } else {
        parents_bytes(d, ps.drop_last()) + node_of(d, ps.last() as int)
    }
}

/// The key of node `i`: the trimmed digest of the replica identity followed
/// by the values of the node's parents in `d`.
pub open spec fn node_key(g: Graph, replica_id: Seq<u8>, d: Seq<u8>, i: int) -> Seq<u8> {
    fr_trimmed(sha256_of(seq![KEY_TAG] + (replica_id + parents_bytes(d, parents(g, i)))))
}

/// Byte-wise exclusive or of `a` with `k`.
pub open spec fn xor_bytes(a: Seq<u8>, k: Seq<u8>) -> Seq<u8> {
    Seq::new(a.len(), |j: int| a[j] ^ k[j])
}

/// `d` with node `i` replaced by `v`.
pub open spec fn with_node(d: Seq<u8>, i: int, v: Seq<u8>) -> Seq<u8> {
    d.subrange(0, 32 * i) + v + d.subrange(32 * i + 32, d.len() as int)
}

/// `d` after the first `n` nodes have been encoded, in increasing order.
pub open spec fn encode_prefix(g: Graph, replica_id: Seq<u8>, d: Seq<u8>, n: nat) -> Seq<u8>
    decreases n,
{
    if n == 0 {
        d
    } else {
        let p = encode_prefix(g, replica_id, d, (n - 1) as nat);
        let i = n - 1;
        with_node(p, i, xor_bytes(node_of(p, i), node_key(g, replica_id, p, i)))
    }
}

/// The replica of `d`: every node encoded.
pub open spec fn encoded(g: Graph, replica_id: Seq<u8>, d: Seq<u8>) -> Seq<u8> {
    encode_prefix(g, replica_id, d, g.nodes as nat)
}

/// The first `n` nodes decoded from the replica `r`.
pub open spec fn decode_prefix(g: Graph, replica_id: Seq<u8>, r: Seq<u8>, n: nat) -> Seq<u8>
    decreases n,
{
    if n == 0 {
        Seq::empty()
    } else {
        let i = n - 1;
        decode_prefix(g, replica_id, r, (n - 1) as nat) + xor_bytes(
            node_of(r, i),
            node_key(g, replica_id, r, i),
        )
    }
}

/// The data decoded from the replica `r`.
pub open spec fn decoded(g: Graph, replica_id: Seq<u8>, r: Seq<u8>) -> Seq<u8> {
    decode_prefix(g, replica_id, r, g.nodes as nat)
}

proof fn lemma_with_node(d: Seq<u8>, n: int, i: int, v: Seq<u8>)
    requires
        d.len() == 32 * n,
        0 <= i < n,
        v.len() == 32,
    ensures
        with_node(d, i, v).len() == d.len(),
        node_of(with_node(d, i, v), i) == v,
        forall|j: int| 0 <= j < n && j != i ==> node_of(with_node(d, i, v), j) == node_of(d, j),
{
    let w = with_node(d, i, v);
    assert(node_of(w, i) =~= v);
    assert forall|j: int| 0 <= j < n && j != i implies node_of(w, j) == node_of(d, j) by {
        assert(node_of(w, j) =~= node_of(d, j));
    }
}

/// The frame of the encoding pass: after `n` steps the nodes from `n` on are
/// untouched, and each earlier node holds what its own step wrote.
proof fn lemma_encode_frame(g: Graph, rid: Seq<u8>, d: Seq<u8>, n: nat)
    requires
        g.wf(),
        d.len() == 32 * g.nodes,
        n <= g.nodes,
    ensures
        encode_prefix(g, rid, d, n).len() == d.len(),
        forall|j: int|
            n <= j < g.nodes ==> node_of(encode_prefix(g, rid, d, n), j) == node_of(d, j),
        forall|j: int|
            0 <= j < n ==> node_of(encode_prefix(g, rid, d, n), j) == node_of(
                encode_prefix(g, rid, d, (j + 1) as nat),
                j,
            ),
    decreases n,
{
    if n > 0 {
        let m = (n - 1) as nat;
        lemma_encode_frame(g, rid, d, m);
        let p = encode_prefix(g, rid, d, m);
        let v = xor_bytes(node_of(p, m as int), node_key(g, rid, p, m as int));
        lemma_with_node(p, g.nodes as int, m as int, v);
        let w = encode_prefix(g, rid, d, n);
        assert(w == with_node(p, m as int, v));
        assert forall|j: int| 0 <= j < n implies node_of(w, j) == node_of(
            encode_prefix(g, rid, d, (j + 1) as nat),
            j,
        ) by {
            if j < m {
                assert(node_of(w, j) == node_of(p, j));
            } else {
                assert((j + 1) as nat == n);
            }
        }
    }
}

proof fn lemma_parents_bytes_agree(d1: Seq<u8>, d2: Seq<u8>, ps: Seq<usize>)
    requires
        forall|k: int| 0 <= k < ps.len() ==> node_of(d1, ps[k] as int) == node_of(d2, ps[k] as int),
    ensures
        parents_bytes(d1, ps) == parents_bytes(d2, ps),
    decreases ps.len(),
{
    if ps.len() > 0 {
        lemma_parents_bytes_agree(d1, d2, ps.drop_last());
    }
}

proof fn lemma_xor_twice(a: Seq<u8>, k: Seq<u8>)
    ensures
        xor_bytes(xor_bytes(a, k), k) == a,
{
    assert forall|j: int| 0 <= j < a.len() implies xor_bytes(xor_bytes(a, k), k)[j] == a[j] by {
        let x = a[j];
        let y = k[j];
        assert((x ^ y) ^ y == x) by (bit_vector);
    }
    assert(xor_bytes(xor_bytes(a, k), k) =~= a);
}

/// Decoding a replica gives back the data it was encoded from.
pub proof fn lemma_decode_encode(g: Graph, replica_id: Seq<u8>, data: Seq<u8>)
    requires
        g.wf(),
        data.len() == NODE_SIZE * g.nodes,
    ensures
        decoded(g, replica_id, encoded(g, replica_id, data)) == data,
{
    let e = encoded(g, replica_id, data);
    lemma_encode_frame(g, replica_id, data, g.nodes as nat);
    assert forall|n: nat| n <= g.nodes implies decode_prefix(g, replica_id, e, n) == data.subrange(
        0,
        32 * n as int,
    ) by {
        lemma_decode_prefix(g, replica_id, data, n);
    }
    assert(data.subrange(0, 32 * g.nodes) =~= data);
}

/// Node `i` of the replica is node `i` of the data combined with the key
/// that its step derived, and that key is the same when derived from the
/// finished replica.
proof fn lemma_encoded_node(g: Graph, rid: Seq<u8>, data: Seq<u8>, i: int)
    requires
        g.wf(),
        data.len() == 32 * g.nodes,
        0 <= i < g.nodes,
    ensures
        node_key(g, rid, encoded(g, rid, data), i) == node_key(
            g,
            rid,
            encode_prefix(g, rid, data, i as nat),
            i,
        ),
        node_of(encoded(g, rid, data), i) == xor_bytes(
            node_of(data, i),
            node_key(g, rid, encode_prefix(g, rid, data, i as nat), i),
        ),
{
    let e = encoded(g, rid, data);
    let p = encode_prefix(g, rid, data, i as nat);
    lemma_encode_frame(g, rid, data, g.nodes as nat);
    lemma_encode_frame(g, rid, data, i as nat);
    lemma_encode_frame(g, rid, data, (i + 1) as nat);
    lemma_parents_precede(g, i);
    let ps = parents(g, i);
    assert forall|k: int| 0 <= k < ps.len() implies node_of(e, ps[k] as int) == node_of(
        p,
        ps[k] as int,
    ) by {
        let q = ps[k] as int;
        assert(node_of(e, q) == node_of(encode_prefix(g, rid, data, (q + 1) as nat), q));
        assert(node_of(p, q) == node_of(encode_prefix(g, rid, data, (q + 1) as nat), q));
    }
    lemma_parents_bytes_agree(e, p, ps);
    let key = node_key(g, rid, p, i);
    let v = xor_bytes(node_of(p, i), key);
    lemma_with_node(p, g.nodes as int, i, v);
    assert(encode_prefix(g, rid, data, (i + 1) as nat) == with_node(p, i, v));
    assert(node_of(e, i) == node_of(encode_prefix(g, rid, data, (i + 1) as nat), i));
}

proof fn lemma_decode_prefix(g: Graph, rid: Seq<u8>, data: Seq<u8>, n: nat)
    requires
        g.wf(),
        data.len() == 32 * g.nodes,
        n <= g.nodes,
    ensures
        decode_prefix(g, rid, encoded(g, rid, data), n) == data.subrange(0, 32 * n as int),
    decreases n,
{
    if n > 0 {
        let i = n - 1;
        lemma_decode_prefix(g, rid, data, i as nat);
        lemma_encoded_node(g, rid, data, i);
        let key = node_key(g, rid, encode_prefix(g, rid, data, i as nat), i);
        lemma_xor_twice(node_of(data, i), key);
        assert(data.subrange(0, 32 * n as int) =~= data.subrange(0, 32 * i) + node_of(data, i));
    }
}

/// Encoding keeps the size of the buffer.
pub proof fn lemma_encoded_len(g: Graph, replica_id: Seq<u8>, data: Seq<u8>)
    requires
        g.wf(),
        data.len() == NODE_SIZE * g.nodes,
    ensures
        encoded(g, replica_id, data).len() == data.len(),
{
    lemma_encode_frame(g, replica_id, data, g.nodes as nat);
}

proof fn lemma_decode_prefix_len(g: Graph, replica_id: Seq<u8>, r: Seq<u8>, n: nat)
    requires
        g.wf(),
        r.len() == 32 * g.nodes,
        n <= g.nodes,
    ensures
        decode_prefix(g, replica_id, r, n).len() == 32 * n,
    decreases n,
{
    if n > 0 {
        lemma_decode_prefix_len(g, replica_id, r, (n - 1) as nat);
    }
}

/// Decoding keeps the size of the buffer.
pub proof fn lemma_decoded_len(g: Graph, replica_id: Seq<u8>, r: Seq<u8>)
    requires
        g.wf(),
        r.len() == NODE_SIZE * g.nodes,
    ensures
        decoded(g, replica_id, r).len() == r.len(),
{
    lemma_decode_prefix_len(g, replica_id, r, g.nodes as nat);
}

/// The key of node `i` of `g` over the bytes `d`.
fn derive_key(g: &Graph, replica_id: &[u8; 32], d: &Vec<u8>, i: usize) -> (r: Vec<u8>)
    requires
        g.wf(),
        i < g.nodes,
        d@.len() == 32 * g.nodes,
    ensures
        r@ == node_key(*g, replica_id@, d@, i as int),
        r@.len() == 32,
{
    let ps = sample_parents(g, i);
    proof {
        lemma_parents_precede(*g, i as int);
    }
    let mut input: Vec<u8> = Vec::new();
    let mut t: usize = 0;
    while t < 32
        invariant
            t <= 32,
            input@ == replica_id@.subrange(0, t as int),
        decreases 32 - t,
    {
        input.push(replica_id[t]);
        t = t + 1;
        assert(input@ =~= replica_id@.subrange(0, t as int));
    }
    assert(replica_id@.subrange(0, 32) =~= replica_id@);
    assert(ps@.subrange(0, 0) =~= Seq::<usize>::empty());
    let mut k: usize = 0;
    while k < ps.len()
        invariant
            g.wf(),
            i < g.nodes,
            d@.len() == 32 * g.nodes,
            ps@ == parents(*g, i as int),
            ps@.len() <= MAX_DEGREE,
            forall|j: int| 0 <= j < ps@.len() ==> ps@[j] < i,
            k <= ps@.len(),
            input@ == replica_id@ + parents_bytes(d@, ps@.subrange(0, k as int)),
            input@.len() == 32 + 32 * k,
        decreases ps.len() - k,
    {
        let p = ps[k];
        let base = p * 32;
        let ghost before = input@;
        let mut t: usize = 0;
        while t < 32
            invariant
                t <= 32,
                base + 32 <= d@.len(),
                base == 32 * p,
                input@ == before + node_of(d@, p as int).subrange(0, t as int),
            decreases 32 - t,
        {
            input.push(d[base + t]);
            t = t + 1;
            assert(input@ =~= before + node_of(d@, p as int).subrange(0, t as int));
        }
        assert(node_of(d@, p as int).subrange(0, 32) =~= node_of(d@, p as int));
        assert(ps@.subrange(0, k + 1).drop_last() =~= ps@.subrange(0, k as int));
        k = k + 1;
    }
    assert(ps@.subrange(0, ps@.len() as int) =~= ps@);
    assert(input@.len() + 1 <= MAX_DIGEST_INPUT);
    let mut key = sha256(&tagged(KEY_TAG, &input));
    trim_digest(&mut key);
    key
}

/// Encodes the sector `data` in place, node by node in increasing order;
/// a graph out of range or a buffer that is not one node per graph node is
/// refused and left as it is.
pub fn encode(g: &Graph, replica_id: &[u8; 32], data: &mut Vec<u8>) -> (r: Result<(), Error>)
    ensures
        !g.wf() ==> r == Err::<(), Error>(Error::ConfigMismatch) && final(data)@ == old(data)@,
        g.wf() && old(data)@.len() != NODE_SIZE * g.nodes ==> r == Err::<(), Error>(
            Error::DataSizeMismatch,
        ) && final(data)@ == old(data)@,
        g.wf() && old(data)@.len() == NODE_SIZE * g.nodes ==> r == Ok::<(), Error>(())
            && final(data)@ == encoded(*g, replica_id@, old(data)@),
{
    if !g.is_valid() {
        return Err(Error::ConfigMismatch);
    }
    if data.len() != NODE_SIZE * g.nodes {
        return Err(Error::DataSizeMismatch);
    }
    encode_nodes(g, replica_id, data);
    Ok(())
}

/// Encodes the sector `data` in place, node by node in increasing order.
pub(crate) fn encode_nodes(g: &Graph, replica_id: &[u8; 32], data: &mut Vec<u8>)
    requires
        g.wf(),
        old(data)@.len() == NODE_SIZE * g.nodes,
    ensures
        final(data)@ == encoded(*g, replica_id@, old(data)@),
{
    let ghost d0 = data@;
    let mut i: usize = 0;
    while i < g.nodes
        invariant
            g.wf(),
            i <= g.nodes,
            d0.len() == 32 * g.nodes,
            data@ == encode_prefix(*g, replica_id@, d0, i as nat),
        decreases g.nodes - i,
    {
        proof {
            lemma_encode_frame(*g, replica_id@, d0, i as nat);
        }
        let ghost prev = data@;
        let key = derive_key(g, replica_id, data, i);
        let base = i * 32;
        let mut j: usize = 0;
        while j < 32
            invariant
                j <= 32,
                base == 32 * i,
                i < g.nodes,
                prev.len() == 32 * g.nodes,
                key@.len() == 32,
                data@.len() == prev.len(),
                forall|k: int|
                    0 <= k < prev.len() ==> data@[k] == if base <= k < base + j {
                        prev[k] ^ key@[k - base]
                    } else {
                        prev[k]
                    },
            decreases 32 - j,
        {
            let b = data[base + j] ^ key[j];
            data.set(base + j, b);
            j = j + 1;
        }
        assert(data@ =~= with_node(prev, i as int, xor_bytes(node_of(prev, i as int), key@)));
        i = i + 1;
    }
}

/// Decodes the replica `replica` into the data it was encoded from; a graph
/// out of range or a buffer that is not one node per graph node is refused.
pub fn decode(g: &Graph, replica_id: &[u8; 32], replica: &Vec<u8>) -> (r: Result<Vec<u8>, Error>)
    ensures
        !g.wf() ==> r == Err::<Vec<u8>, Error>(Error::ConfigMismatch),
        g.wf() && replica@.len() != NODE_SIZE * g.nodes ==> r == Err::<Vec<u8>, Error>(
            Error::DataSizeMismatch,
        ),
        g.wf() && replica@.len() == NODE_SIZE * g.nodes ==> r is Ok && r->Ok_0@ == decoded(
            *g,
            replica_id@,
            replica@,
        ),
{
    if !g.is_valid() {
        return Err(Error::ConfigMismatch);
    }
    if replica.len() != NODE_SIZE * g.nodes {
        return Err(Error::DataSizeMismatch);
    }
    Ok(decode_nodes(g, replica_id, replica))
}

/// Decodes the replica `replica` into the data it was encoded from.
pub(crate) fn decode_nodes(g: &Graph, replica_id: &[u8; 32], replica: &Vec<u8>) -> (r: Vec<u8>)
    requires
        g.wf(),
        replica@.len() == NODE_SIZE * g.nodes,
    ensures
        r@ == decoded(*g, replica_id@, replica@),
{
    let mut out: Vec<u8> = Vec::new();
    let mut i: usize = 0;
    while i < g.nodes
        invariant
            g.wf(),
            i <= g.nodes,
            replica@.len() == 32 * g.nodes,
            out@ == decode_prefix(*g, replica_id@, replica@, i as nat),
        decreases g.nodes - i,
    {
        let key = derive_key(g, replica_id, replica, i);
        let base = i * 32;
        let ghost before = out@;
        let ghost v = xor_bytes(node_of(replica@, i as int), key@);
        let mut j: usize = 0;
        while j < 32
            invariant
                j <= 32,
                base == 32 * i,
                i < g.nodes,
                replica@.len() == 32 * g.nodes,
                key@.len() == 32,
                v == xor_bytes(node_of(replica@, i as int), key@),
                out@ == before + v.subrange(0, j as int),
            decreases 32 - j,
        {
            out.push(replica[base + j] ^ key[j]);
            j = j + 1;
            assert(out@ =~= before + v.subrange(0, j as int));
        }
        assert(v.subrange(0, 32) =~= v);
        i = i + 1;
    }
    out
}

} // verus!
