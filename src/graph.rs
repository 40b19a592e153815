//! The parent graph: each node's parents are sampled through a keyed Feistel
//! permutation, so that the graph never has to be held in memory.
use vstd::prelude::*;
use crate::hash::{sha256, sha256_of, tagged, ROUND_TAG};

verus! {

/// The most nodes a graph may have.
pub const MAX_NODES: usize = 0x0100_0000;

/// The largest number of parents per node.
pub const MAX_DEGREE: usize = 64;

/// Rounds of the Feistel network.
pub const FEISTEL_ROUNDS: usize = 4;

/// A graph over `nodes` nodes, with `degree` parents for every node but the
/// first, sampled under the key `seed`.
#[derive(Clone, Copy)]
pub struct Graph {
    pub nodes: usize,
    pub degree: usize,
    pub seed: [u8; 32],
}

impl Graph {
    pub open spec fn wf(&self) -> bool {
        1 <= self.nodes <= MAX_NODES && 1 <= self.degree <= MAX_DEGREE
    }

    /// Whether the sizes are in range.
    pub fn is_valid(&self) -> (r: bool)
        ensures
            r == self.wf(),
    {
        1 <= self.nodes && self.nodes <= MAX_NODES && 1 <= self.degree && self.degree <= MAX_DEGREE
    }

    /// Builds a graph, or `None` where the sizes are out of range.
    pub fn new(nodes: usize, degree: usize, seed: [u8; 32]) -> (r: Option<Graph>)
        ensures
            r matches Some(g) ==> g.wf() && g.nodes == nodes && g.degree == degree && g.seed
                == seed,
            r is None <==> !(1 <= nodes <= MAX_NODES && 1 <= degree <= MAX_DEGREE),
    {
        if 1 <= nodes && nodes <= MAX_NODES && 1 <= degree && degree <= MAX_DEGREE {
            Some(Graph { nodes, degree, seed })
        } else {
            None
        }
    }
}

/// The eight little-endian bytes of `x`.
pub open spec fn u64_le_bytes(x: u64) -> Seq<u8> {
    seq![
        (x & 0xff) as u8,
        ((x >> 8u64) & 0xff) as u8,
        ((x >> 16u64) & 0xff) as u8,
        ((x >> 24u64) & 0xff) as u8,
        ((x >> 32u64) & 0xff) as u8,
        ((x >> 40u64) & 0xff) as u8,
        ((x >> 48u64) & 0xff) as u8,
        ((x >> 56u64) & 0xff) as u8,
    ]
}

/// The little-endian `u64` held by the eight bytes of `s` from `o` on.
pub open spec fn le_u64_at(s: Seq<u8>, o: int) -> u64 {
    (s[o] as u64) | ((s[o + 1] as u64) << 8u64) | ((s[o + 2] as u64) << 16u64) | ((s[o + 3]
        as u64) << 24u64) | ((s[o + 4] as u64) << 32u64) | ((s[o + 5] as u64) << 40u64) | ((s[o
        + 6] as u64) << 48u64) | ((s[o + 7] as u64) << 56u64)
}

/// The key of Feistel round `round`: the round-th eight bytes of the seed.
pub open spec fn round_key(seed: Seq<u8>, round: int) -> u64 {
    le_u64_at(seed, 8 * round)
}

/// The round function: the low half of the digest of key and right half.
pub open spec fn round_value(key: u64, right: u32) -> u32 {
    (le_u64_at(sha256_of(seq![ROUND_TAG] + (u64_le_bytes(key) + u64_le_bytes(right as u64))), 0) & 0xffff_ffffu64)
        as u32
}

/// The halves `(left, right)` after the first `n` rounds.
pub open spec fn feistel_rounds(seed: Seq<u8>, left: u32, right: u32, n: nat) -> (u32, u32)
    decreases n,
{
    if n == 0 {
        (left, right)
    } else {
        let (l, r) = feistel_rounds(seed, left, right, (n - 1) as nat);
        (r, l ^ round_value(round_key(seed, n - 1), r))
    }
}

/// The Feistel permutation of 64-bit values keyed by `seed`.
pub open spec fn feistel(seed: Seq<u8>, x: u64) -> u64 {
    let (l, r) = feistel_rounds(
        seed,
        (x >> 32u64) as u32,
        (x & 0xffff_ffffu64) as u32,
        FEISTEL_ROUNDS as nat,
    );
    ((l as u64) << 32u64) | (r as u64)
}

/// The samples of node `i`: none for the first node; otherwise `degree`
/// values, the j-th being the permuted index `i * degree + j` reduced below `i`.
pub open spec fn samples(g: Graph, i: int) -> Seq<usize> {
    if i <= 0 {
        Seq::empty()
    } else {
        Seq::new(
            g.degree as nat,
            |j: int| (feistel(g.seed@, (i * g.degree + j) as u64) % (i as u64)) as usize,
        )
    }
}

/// `s` with `x` put in its place in increasing order, unless it is there
/// already.
pub open spec fn insert_sorted(s: Seq<usize>, x: usize) -> Seq<usize>
    decreases s.len(),
{
    if s.len() == 0 {
        seq![x]
    } else if s[0] == x {
        s
    } else if x < s[0] {
        seq![x] + s
    } else {
        seq![s[0]] + insert_sorted(s.drop_first(), x)
    }
}

/// The distinct values among the first `n` of `s`, in increasing order.
pub open spec fn sorted_set(s: Seq<usize>, n: nat) -> Seq<usize>
    decreases n,
{
    if n == 0 {
        Seq::empty()
    } else {
        insert_sorted(sorted_set(s, (n - 1) as nat), s[n - 1])
    }
}

/// Each value of `s` is below the next.
pub open spec fn strictly_increasing(s: Seq<usize>) -> bool {
    forall|a: int, b: int| 0 <= a < b < s.len() ==> s[a] < s[b]
}

/// The parents of node `i`: the distinct samples of the node, in increasing
/// order.
pub open spec fn parents(g: Graph, i: int) -> Seq<usize> {
    sorted_set(samples(g, i), samples(g, i).len())
}

proof fn lemma_insert_sorted(s: Seq<usize>, x: usize)
    requires
        strictly_increasing(s),
    ensures
        strictly_increasing(insert_sorted(s, x)),
        insert_sorted(s, x).len() <= s.len() + 1,
        forall|y: usize| #[trigger] insert_sorted(s, x).contains(y) <==> (s.contains(y) || y == x),
    decreases s.len(),
{
    let r = insert_sorted(s, x);
    if s.len() == 0 {
        assert(r[0] == x);
    } else if s[0] == x {
    } else if x < s[0] {
        assert forall|y: usize| r.contains(y) <==> (s.contains(y) || y == x) by {
            if s.contains(y) {
                let k = choose|k: int| 0 <= k < s.len() && s[k] == y;
                assert(r[k + 1] == y);
            }
            if y == x {
                assert(r[0] == x);
            }
            if r.contains(y) {
                let k = choose|k: int| 0 <= k < r.len() && r[k] == y;
                if k > 0 {
                    assert(s[k - 1] == y);
                }
            }
        }
    } else {
        let rest = s.drop_first();
        assert(strictly_increasing(rest));
        lemma_insert_sorted(rest, x);
        let t = insert_sorted(rest, x);
        assert forall|y: usize| r.contains(y) <==> (s.contains(y) || y == x) by {
            if s.contains(y) {
                let k = choose|k: int| 0 <= k < s.len() && s[k] == y;
                if k == 0 {
                    assert(r[0] == y);
                } else {
                    assert(rest[k - 1] == y);
                    assert(rest.contains(y));
                    assert(t.contains(y));
                    let q = choose|q: int| 0 <= q < t.len() && t[q] == y;
                    assert(r[q + 1] == y);
                }
            }
            if y == x {
                assert(t.contains(x));
                let q = choose|q: int| 0 <= q < t.len() && t[q] == x;
                assert(r[q + 1] == x);
            }
            if r.contains(y) {
                let k = choose|k: int| 0 <= k < r.len() && r[k] == y;
                if k > 0 {
                    assert(t[k - 1] == y);
                    assert(t.contains(y));
                    if rest.contains(y) {
                        let q = choose|q: int| 0 <= q < rest.len() && rest[q] == y;
                        assert(s[q + 1] == y);
                    }
                } else {
                    assert(s[0] == y);
                }
            }
        }
        assert forall|a: int, b: int| 0 <= a < b < r.len() implies r[a] < r[b] by {
            if a == 0 {
                assert(t.contains(r[b])) by {
                    assert(t[b - 1] == r[b]);
                }
                if rest.contains(r[b]) {
                    let q = choose|q: int| 0 <= q < rest.len() && rest[q] == r[b];
                    assert(s[q + 1] == r[b]);
                }
            } else {
                assert(r[a] == t[a - 1] && r[b] == t[b - 1]);
            }
        }
    }
}

proof fn lemma_sorted_set(s: Seq<usize>, n: nat)
    requires
        n <= s.len(),
    ensures
        strictly_increasing(sorted_set(s, n)),
        sorted_set(s, n).len() <= n,
        forall|y: usize|
            sorted_set(s, n).contains(y) <==> (exists|j: int| 0 <= j < n && s[j] == y),
    decreases n,
{
    if n > 0 {
        lemma_sorted_set(s, (n - 1) as nat);
        lemma_insert_sorted(sorted_set(s, (n - 1) as nat), s[n - 1]);
        assert forall|y: usize|
            sorted_set(s, n).contains(y) <==> (exists|j: int| 0 <= j < n && s[j] == y) by {
            if exists|j: int| 0 <= j < n && s[j] == y {
                let j = choose|j: int| 0 <= j < n && s[j] == y;
                if j < n - 1 {
                    assert(exists|j2: int| 0 <= j2 < n - 1 && s[j2] == y);
                }
            }
            if sorted_set(s, (n - 1) as nat).contains(y) {
                let j = choose|j: int| 0 <= j < n - 1 && s[j] == y;
                assert(0 <= j < n && s[j] == y);
            }
        }
    }
}

/// The parents of a node form an ordered set of distinct earlier nodes,
/// made of the node's samples: at least one for every node but the first,
/// at most `degree`.
pub proof fn lemma_parents_precede(g: Graph, i: int)
    requires
        g.wf(),
        0 <= i < g.nodes,
    ensures
        forall|j: int| 0 <= j < parents(g, i).len() ==> parents(g, i)[j] < i,
        strictly_increasing(parents(g, i)),
        parents(g, i).len() <= g.degree,
        i > 0 ==> parents(g, i).len() >= 1,
        i == 0 ==> parents(g, i).len() == 0,
        forall|y: usize| parents(g, i).contains(y) <==> samples(g, i).contains(y),
{
    let s = samples(g, i);
    lemma_sorted_set(s, s.len());
    assert forall|y: usize| parents(g, i).contains(y) <==> s.contains(y) by {
        if s.contains(y) {
            let j = choose|j: int| 0 <= j < s.len() && s[j] == y;
            assert(exists|j2: int| 0 <= j2 < s.len() && s[j2] == y);
        }
    }
    assert forall|j: int| 0 <= j < parents(g, i).len() implies parents(g, i)[j] < i by {
        assert(parents(g, i).contains(parents(g, i)[j]));
        let q = choose|q: int| 0 <= q < s.len() && s[q] == parents(g, i)[j];
    }
    if i > 0 {
        assert(parents(g, i).contains(s[0]));
    }
}

fn insert_sorted_exec(s: &Vec<usize>, x: usize) -> (r: Vec<usize>)
    ensures
        r@ == insert_sorted(s@, x),
{
    let mut out: Vec<usize> = Vec::new();
    let mut placed = false;
    let mut k: usize = 0;
    assert(s@.subrange(0, s@.len() as int) =~= s@);
    assert(out@ + insert_sorted(s@, x) =~= insert_sorted(s@, x));
    while k < s.len()
        invariant
            k <= s@.len(),
            insert_sorted(s@, x) == out@ + if placed {
                s@.subrange(k as int, s@.len() as int)
            } else {
                insert_sorted(s@.subrange(k as int, s@.len() as int), x)
            },
        decreases s@.len() - k,
    {
        let e = s[k];
        let ghost rest = s@.subrange(k as int, s@.len() as int);
        assert(rest[0] == e);
        assert(rest.drop_first() =~= s@.subrange(k + 1, s@.len() as int));
        if !placed && x < e {
            out.push(x);
            placed = true;
            assert(seq![x] + rest =~= seq![x] + seq![e] + s@.subrange(k + 1, s@.len() as int));
        } else if !placed && x == e {
            placed = true;
        }
        let ghost before = out@;
        out.push(e);
        assert(rest =~= seq![e] + s@.subrange(k + 1, s@.len() as int));
        assert(before.push(e) =~= before + seq![e]);
        k = k + 1;
    }
    if !placed {
        out.push(x);
    }
    assert(s@.subrange(s@.len() as int, s@.len() as int) =~= Seq::<usize>::empty());
    assert(out@ =~= insert_sorted(s@, x));
    out
}

pub(crate) fn push_u64_le(out: &mut Vec<u8>, x: u64)
    ensures
        final(out)@ == old(out)@ + u64_le_bytes(x),
{
    out.push((x & 0xff) as u8);
    out.push(((x >> 8) & 0xff) as u8);
    out.push(((x >> 16) & 0xff) as u8);
    out.push(((x >> 24) & 0xff) as u8);
    out.push(((x >> 32) & 0xff) as u8);
    out.push(((x >> 40) & 0xff) as u8);
    out.push(((x >> 48) & 0xff) as u8);
    out.push(((x >> 56) & 0xff) as u8);
    assert(out@ =~= old(out)@ + u64_le_bytes(x));
}

pub(crate) fn read_u64_le(s: &[u8], o: usize) -> (r: u64)
    requires
        o + 8 <= s@.len(),
    ensures
        r == le_u64_at(s@, o as int),
{
    (s[o] as u64) | ((s[o + 1] as u64) << 8) | ((s[o + 2] as u64) << 16) | ((s[o + 3] as u64)
        << 24) | ((s[o + 4] as u64) << 32) | ((s[o + 5] as u64) << 40) | ((s[o + 6] as u64) << 48)
        | ((s[o + 7] as u64) << 56)
}

fn round_function(key: u64, right: u32) -> (r: u32)
    ensures
        r == round_value(key, right),
{
    let mut input: Vec<u8> = Vec::new();
    push_u64_le(&mut input, key);
    push_u64_le(&mut input, right as u64);
    let d = sha256(&tagged(ROUND_TAG, &input));
    let v = read_u64_le(d.as_slice(), 0);
    (v & 0xffff_ffff) as u32
}

/// The Feistel permutation of `x` under `seed`.
pub fn feistel_permute(seed: &[u8; 32], x: u64) -> (r: u64)
    ensures
        r == feistel(seed@, x),
{
    let mut left: u32 = (x >> 32) as u32;
    let mut right: u32 = (x & 0xffff_ffff) as u32;
    let mut round: usize = 0;
    while round < FEISTEL_ROUNDS
        invariant
            round <= FEISTEL_ROUNDS,
            (left, right) == feistel_rounds(
                seed@,
                (x >> 32u64) as u32,
                (x & 0xffff_ffffu64) as u32,
                round as nat,
            ),
        decreases FEISTEL_ROUNDS - round,
    {
        let key = read_u64_le(seed.as_slice(), 8 * round);
        let next = left ^ round_function(key, right);
        left = right;
        right = next;
        round = round + 1;
    }
    ((left as u64) << 32) | (right as u64)
}

/// The samples of node `i` of `g`.
fn draw_samples(g: &Graph, i: usize) -> (r: Vec<usize>)
    requires
        g.wf(),
        i < g.nodes,
    ensures
        r@ == samples(*g, i as int),
{
    let mut drawn: Vec<usize> = Vec::new();
    if i > 0 {
        let mut j: usize = 0;
        while j < g.degree
            invariant
                g.wf(),
                0 < i < g.nodes,
                j <= g.degree,
                drawn@ =~= samples(*g, i as int).subrange(0, j as int),
            decreases g.degree - j,
        {
            assert(i * g.degree + j <= MAX_NODES * MAX_DEGREE) by (nonlinear_arith)
                requires
                    i < MAX_NODES,
                    j < g.degree,
                    g.degree <= MAX_DEGREE,
            ;
            let x: u64 = (i * g.degree + j) as u64;
            let p = feistel_permute(&g.seed, x);
            drawn.push((p % (i as u64)) as usize);
            j = j + 1;
        }
    }
    assert(drawn@ =~= samples(*g, i as int));
    drawn
}

/// The parents of node `i` of `g`: its distinct samples, in increasing order.
pub fn sample_parents(g: &Graph, i: usize) -> (r: Vec<usize>)
    requires
        g.wf(),
        i < g.nodes,
    ensures
        r@ == parents(*g, i as int),
{
    let drawn = draw_samples(g, i);
    let mut out: Vec<usize> = Vec::new();
    let mut j: usize = 0;
    while j < drawn.len()
        invariant
            j <= drawn@.len(),
            out@ == sorted_set(drawn@, j as nat),
        decreases drawn@.len() - j,
    {
        out = insert_sorted_exec(&out, drawn[j]);
        j = j + 1;
    }
    out
}

} // verus!
