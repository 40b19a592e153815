//! Merkle commitments over the nodes of a buffer.
use vstd::prelude::*;
use crate::drg::node_of;
use crate::fr32::{
    fr_canonical, fr_trimmed, lemma_trimmed_is_canonical, trim_digest, Commitment, NODE_SIZE,
};
use crate::graph::MAX_NODES;
use crate::hash::{sha256, sha256_of, tagged, NODE_TAG};

verus! {

/// The parent of two Merkle nodes: the trimmed digest of both, left first.
pub open spec fn hash_pair(a: Seq<u8>, b: Seq<u8>) -> Seq<u8> {
    fr_trimmed(sha256_of(seq![NODE_TAG] + (a + b)))
}

/// The level above `level`: pairs hashed together, a lone last node paired
/// with itself.
pub open spec fn next_level(level: Seq<Seq<u8>>) -> Seq<Seq<u8>> {
    Seq::new(
        ((level.len() + 1) / 2) as nat,
        |k: int|
            hash_pair(
                level[2 * k],
                if 2 * k + 1 < level.len() {
                    level[2 * k + 1]
                } else {
                    level[2 * k]
                },
            ),
    )
}

/// The root of the tree whose lowest level is `level`.
pub open spec fn root_of(level: Seq<Seq<u8>>) -> Seq<u8>
    decreases level.len(),
{
    if level.len() <= 1 {
        if level.len() == 1 {
            level[0]
        } else {
            Seq::empty()
        }
    } else {
        root_of(next_level(level))
    }
}

/// The nodes of `d` as the leaves of a tree.
pub open spec fn leaves(d: Seq<u8>) -> Seq<Seq<u8>> {
    Seq::new(d.len() / 32, |i: int| node_of(d, i))
}

/// The Merkle root over the nodes of `d`.
pub open spec fn merkle_root(d: Seq<u8>) -> Seq<u8> {
    root_of(leaves(d))
}

/// The root of a tree of two or more leaves is a digest, trimmed into the
/// field: as 32 bytes it is a canonical field element.
pub proof fn lemma_root_canonical(level: Seq<Seq<u8>>)
    requires
        level.len() >= 2,
    ensures
        fr_canonical(root_of(level)),
    decreases level.len(),
{
    let next = next_level(level);
    if next.len() >= 2 {
        lemma_root_canonical(next);
    } else {
        let r = root_of(level);
        assert(r == root_of(next));
        assert(root_of(next) == next[0]);
        let h = sha256_of(
            seq![NODE_TAG] + (level[0] + if 1 < level.len() {
                level[1]
            } else {
                level[0]
            }),
        );
        assert(r == fr_trimmed(h));
        lemma_trimmed_is_canonical(h);
    }
}

/// The views of a sequence of vectors.
pub open spec fn views(level: Seq<Vec<u8>>) -> Seq<Seq<u8>> {
    level.map_values(|v: Vec<u8>| v@)
}

fn hash_pair_exec(a: &Vec<u8>, b: &Vec<u8>) -> (r: Vec<u8>)
    requires
        a@.len() == 32,
        b@.len() == 32,
    ensures
        r@ == hash_pair(a@, b@),
        r@.len() == 32,
{
    let mut input: Vec<u8> = Vec::new();
    let mut t: usize = 0;
    while t < 32
        invariant
            t <= 32,
            a@.len() == 32,
            input@ == a@.subrange(0, t as int),
        decreases 32 - t,
    {
        input.push(a[t]);
        t = t + 1;
        assert(input@ =~= a@.subrange(0, t as int));
    }
    let mut t: usize = 0;
    while t < 32
        invariant
            t <= 32,
            a@.len() == 32,
            b@.len() == 32,
            input@ == a@ + b@.subrange(0, t as int),
        decreases 32 - t,
    {
        input.push(b[t]);
        t = t + 1;
        assert(input@ =~= a@ + b@.subrange(0, t as int));
    }
    assert(a@.subrange(0, 32) =~= a@);
    assert(b@.subrange(0, 32) =~= b@);
    let mut d = sha256(&tagged(NODE_TAG, &input));
    trim_digest(&mut d);
    d
}

/// The bytes of a 32-byte vector as a commitment.
pub(crate) fn to_commitment(v: &Vec<u8>) -> (r: Commitment)
    requires
        v@.len() == 32,
    ensures
        r@ == v@,
{
    let mut res: [u8; 32] = [0u8; 32];
    let mut i: usize = 0;
    while i < 32
        invariant
            i <= 32,
            v@.len() == 32,
            forall|k: int| 0 <= k < i ==> res@[k] == v@[k],
        decreases 32 - i,
    {
        res[i] = v[i];
        i = i + 1;
    }
    assert(res@ =~= v@);
    res
}

fn leaf_level(d: &Vec<u8>, nodes: usize) -> (r: Vec<Vec<u8>>)
    requires
        nodes <= MAX_NODES,
        d@.len() == NODE_SIZE * nodes,
    ensures
        views(r@) == leaves(d@),
        forall|k: int| 0 <= k < r@.len() ==> (#[trigger] r@[k])@.len() == 32,
{
    let mut out: Vec<Vec<u8>> = Vec::new();
    let mut i: usize = 0;
    while i < nodes
        invariant
            i <= nodes,
            nodes <= MAX_NODES,
            d@.len() == 32 * nodes,
            views(out@) =~= leaves(d@).subrange(0, i as int),
            forall|k: int| 0 <= k < out@.len() ==> (#[trigger] out@[k])@.len() == 32,
        decreases nodes - i,
    {
        let mut leaf: Vec<u8> = Vec::new();
        let base = 32 * i;
        let mut t: usize = 0;
        while t < 32
            invariant
                t <= 32,
                base == 32 * i,
                i < nodes,
                d@.len() == 32 * nodes,
                leaf@ == node_of(d@, i as int).subrange(0, t as int),
            decreases 32 - t,
        {
            leaf.push(d[base + t]);
            t = t + 1;
            assert(leaf@ =~= node_of(d@, i as int).subrange(0, t as int));
        }
        assert(node_of(d@, i as int).subrange(0, 32) =~= node_of(d@, i as int));
        let ghost prev = out@;
        out.push(leaf);
        assert(views(out@) =~= views(prev).push(node_of(d@, i as int)));
        i = i + 1;
    }
    out
}

/// The Merkle root over the `nodes` nodes of `d`.
pub fn merkle_root_of(d: &Vec<u8>, nodes: usize) -> (r: Commitment)
    requires
        1 <= nodes <= MAX_NODES,
        d@.len() == NODE_SIZE * nodes,
    ensures
        r@ == merkle_root(d@),
{
    let mut level = leaf_level(d, nodes);
    assert(views(level@).len() == level@.len());
    assert(d@.len() / 32 == nodes);
    while level.len() > 1
        invariant
            level@.len() >= 1,
            root_of(views(level@)) == merkle_root(d@),
            forall|k: int| 0 <= k < level@.len() ==> (#[trigger] level@[k])@.len() == 32,
        decreases level.len(),
    {
        let ghost lv = views(level@);
        let mut next: Vec<Vec<u8>> = Vec::new();
        let mut k: usize = 0;
        let n = level.len();
        while k < n / 2 + n % 2
            invariant
                n == level@.len(),
                n > 1,
                lv == views(level@),
                k <= (n + 1) / 2,
                views(next@) =~= next_level(lv).subrange(0, k as int),
                forall|q: int| 0 <= q < level@.len() ==> (#[trigger] level@[q])@.len() == 32,
                forall|q: int| 0 <= q < next@.len() ==> (#[trigger] next@[q])@.len() == 32,
            decreases (n + 1) / 2 - k,
        {
            let h = if 2 * k + 1 < n {
                hash_pair_exec(&level[2 * k], &level[2 * k + 1])
            } else {
                hash_pair_exec(&level[2 * k], &level[2 * k])
            };
            let ghost prev = next@;
            next.push(h);
            assert(views(next@) =~= views(prev).push(next_level(lv)[k as int]));
            k = k + 1;
        }
        assert(views(next@) =~= next_level(lv));
        level = next;
    }
    to_commitment(&level[0])
}

/// The node paired with node `k` of `level` on the way up.
pub open spec fn sibling(level: Seq<Seq<u8>>, k: int) -> Seq<u8> {
    if k % 2 == 0 {
        if k + 1 < level.len() {
            level[k + 1]
        } else {
            level[k]
        }
    } else {
        level[k - 1]
    }
}

/// The siblings of node `k` of `level`, from the bottom of the tree up.
pub open spec fn path_of(level: Seq<Seq<u8>>, k: int) -> Seq<Seq<u8>>
    decreases level.len(),
{
    if level.len() <= 1 {
        Seq::empty()
    } else {
        seq![sibling(level, k)] + path_of(next_level(level), k / 2)
    }
}

/// The root that the path `path` leads to from the value `leaf` at position
/// `k`.
pub open spec fn fold_path(leaf: Seq<u8>, k: int, path: Seq<Seq<u8>>) -> Seq<u8>
    decreases path.len(),
{
    if path.len() == 0 {
        leaf
    } else {
        let parent = if k % 2 == 0 {
            hash_pair(leaf, path[0])
        } else {
            hash_pair(path[0], leaf)
        };
        fold_path(parent, k / 2, path.drop_first())
    }
}

/// The path of every node leads from its value to the root.
pub proof fn lemma_path_leads_to_root(level: Seq<Seq<u8>>, k: int)
    requires
        0 <= k < level.len(),
    ensures
        fold_path(level[k], k, path_of(level, k)) == root_of(level),
    decreases level.len(),
{
    if level.len() > 1 {
        let next = next_level(level);
        let path = path_of(level, k);
        assert(path[0] == sibling(level, k));
        assert(path.drop_first() =~= path_of(next, k / 2));
        if k % 2 == 0 {
            assert(next[k / 2] == hash_pair(level[k], sibling(level, k)));
        } else {
            assert(2 * (k / 2) == k - 1);
            assert(next[k / 2] == hash_pair(level[k - 1], level[k]));
        }
        lemma_path_leads_to_root(next, k / 2);
    }
}

proof fn lemma_path_lengths(level: Seq<Seq<u8>>, k: int)
    requires
        forall|i: int| 0 <= i < level.len() ==> (#[trigger] level[i]).len() == 32,
        0 <= k < level.len(),
    ensures
        forall|q: int|
            0 <= q < path_of(level, k).len() ==> (#[trigger] path_of(level, k)[q]).len() == 32,
    decreases level.len(),
{
    if level.len() > 1 {
        let next = next_level(level);
        lemma_path_lengths(next, k / 2);
        let path = path_of(level, k);
        assert forall|q: int| 0 <= q < path.len() implies (#[trigger] path[q]).len() == 32 by {
            if q > 0 {
                assert(path[q] == path_of(next, k / 2)[q - 1]);
            }
        }
    }
}

/// The opening of any node of the tree over `d` passes verification
/// against the tree's root: the node and every sibling are 32 bytes, and the
/// path leads from the node to the root.
pub proof fn lemma_opening_verifies(d: Seq<u8>, k: int)
    requires
        0 <= k < d.len() / 32,
    ensures
        node_of(d, k).len() == 32,
        forall|q: int|
            0 <= q < path_of(leaves(d), k).len() ==> (#[trigger] path_of(leaves(d), k)[q]).len()
                == 32,
        fold_path(node_of(d, k), k, path_of(leaves(d), k)) == merkle_root(d),
{
    lemma_path_leads_to_root(leaves(d), k);
    lemma_path_lengths(leaves(d), k);
}

/// The siblings on the way from node `k` of the `nodes` nodes of `d` to the
/// root.
pub fn merkle_path(d: &Vec<u8>, nodes: usize, k: usize) -> (r: Vec<Vec<u8>>)
    requires
        1 <= nodes <= MAX_NODES,
        k < nodes,
        d@.len() == NODE_SIZE * nodes,
    ensures
        views(r@) == path_of(leaves(d@), k as int),
{
    let mut level = leaf_level(d, nodes);
    assert(views(level@).len() == level@.len());
    assert(d@.len() / 32 == nodes);
    let mut idx: usize = k;
    let mut path: Vec<Vec<u8>> = Vec::new();
    assert(views(path@) =~= Seq::<Seq<u8>>::empty());
    while level.len() > 1
        invariant
            level@.len() >= 1,
            idx < level@.len(),
            path_of(leaves(d@), k as int) =~= views(path@) + path_of(views(level@), idx as int),
            forall|q: int| 0 <= q < level@.len() ==> (#[trigger] level@[q])@.len() == 32,
            forall|q: int| 0 <= q < path@.len() ==> (#[trigger] path@[q])@.len() == 32,
        decreases level.len(),
    {
        let ghost lv = views(level@);
        let n = level.len();
        let sib: usize = if idx % 2 == 0 {
            if idx + 1 < n {
                idx + 1
            } else {
                idx
            }
        } else {
            idx - 1
        };
        let mut copy: Vec<u8> = Vec::new();
        let mut t: usize = 0;
        while t < 32
            invariant
                t <= 32,
                sib < level@.len(),
                level@[sib as int]@.len() == 32,
                copy@ == level@[sib as int]@.subrange(0, t as int),
            decreases 32 - t,
        {
            copy.push(level[sib][t]);
            t = t + 1;
            assert(copy@ =~= level@[sib as int]@.subrange(0, t as int));
        }
        assert(copy@ =~= sibling(lv, idx as int));
        let ghost before = views(path@);
        path.push(copy);
        assert(views(path@) =~= before.push(sibling(lv, idx as int)));
        let mut next: Vec<Vec<u8>> = Vec::new();
        let mut q: usize = 0;
        while q < n / 2 + n % 2
            invariant
                n == level@.len(),
                n > 1,
                lv == views(level@),
                q <= (n + 1) / 2,
                views(next@) =~= next_level(lv).subrange(0, q as int),
                forall|j: int| 0 <= j < level@.len() ==> (#[trigger] level@[j])@.len() == 32,
                forall|j: int| 0 <= j < next@.len() ==> (#[trigger] next@[j])@.len() == 32,
            decreases (n + 1) / 2 - q,
        {
            let h = if 2 * q + 1 < n {
                hash_pair_exec(&level[2 * q], &level[2 * q + 1])
            } else {
                hash_pair_exec(&level[2 * q], &level[2 * q])
            };
            let ghost prev = next@;
            next.push(h);
            assert(views(next@) =~= views(prev).push(next_level(lv)[q as int]));
            q = q + 1;
        }
        assert(views(next@) =~= next_level(lv));
        level = next;
        idx = idx / 2;
    }
    assert(views(path@) + path_of(views(level@), idx as int) =~= views(path@));
    path
}

/// Whether the path `path` leads from the value `leaf` at position `k` to
/// `root`; values that are not 32 bytes long never do.
pub fn verify_merkle_path(root: &Commitment, leaf: &Vec<u8>, k: usize, path: &Vec<Vec<u8>>) -> (r:
    bool)
    ensures
        r == (leaf@.len() == 32 && (forall|q: int|
            0 <= q < path@.len() ==> (#[trigger] path@[q])@.len() == 32) && fold_path(
            leaf@,
            k as int,
            views(path@),
        ) == root@),
{
    if leaf.len() != 32 {
        return false;
    }
    let mut q: usize = 0;
    while q < path.len()
        invariant
            q <= path@.len(),
            forall|j: int| 0 <= j < q ==> (#[trigger] path@[j])@.len() == 32,
        decreases path@.len() - q,
    {
        if path[q].len() != 32 {
            return false;
        }
        q = q + 1;
    }
    let ghost p = views(path@);
    let mut cur: Vec<u8> = Vec::new();
    let mut t: usize = 0;
    while t < 32
        invariant
            t <= 32,
            leaf@.len() == 32,
            cur@ == leaf@.subrange(0, t as int),
        decreases 32 - t,
    {
        cur.push(leaf[t]);
        t = t + 1;
        assert(cur@ =~= leaf@.subrange(0, t as int));
    }
    assert(cur@ =~= leaf@);
    assert(p.subrange(0, p.len() as int) =~= p);
    let mut idx: usize = k;
    let mut i: usize = 0;
    while i < path.len()
        invariant
            i <= path@.len(),
            p == views(path@),
            forall|j: int| 0 <= j < path@.len() ==> (#[trigger] path@[j])@.len() == 32,
            cur@.len() == 32,
            fold_path(leaf@, k as int, p) == fold_path(
                cur@,
                idx as int,
                p.subrange(i as int, p.len() as int),
            ),
        decreases path@.len() - i,
    {
        let ghost rest = p.subrange(i as int, p.len() as int);
        assert(rest[0] == path@[i as int]@);
        assert(rest.drop_first() =~= p.subrange(i + 1, p.len() as int));
        if idx % 2 == 0 {
            cur = hash_pair_exec(&cur, &path[i]);
        } else {
            cur = hash_pair_exec(&path[i], &cur);
        }
        idx = idx / 2;
        i = i + 1;
    }
    assert(p.subrange(path@.len() as int, p.len() as int) =~= Seq::<Seq<u8>>::empty());
    let mut same = true;
    assert(cur@.subrange(0, 0) =~= root@.subrange(0, 0));
    let mut t: usize = 0;
    while t < 32
        invariant
            t <= 32,
            cur@.len() == 32,
            same == (cur@.subrange(0, t as int) == root@.subrange(0, t as int)),
        decreases 32 - t,
    {
        if cur[t] != root[t] {
            same = false;
            assert(cur@.subrange(0, t + 1)[t as int] != root@.subrange(0, t + 1)[t as int]);
        } else if same {
            assert(cur@.subrange(0, t + 1) =~= root@.subrange(0, t + 1));
        } else {
            assert(cur@.subrange(0, t + 1).subrange(0, t as int) =~= cur@.subrange(0, t as int));
            assert(root@.subrange(0, t + 1).subrange(0, t as int) =~= root@.subrange(0, t as int));
        }
        t = t + 1;
    }
    assert(cur@.subrange(0, 32) =~= cur@);
    assert(root@.subrange(0, 32) =~= root@);
    same
}

} // verus!
