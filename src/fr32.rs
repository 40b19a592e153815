//! Field-safe byte strings: 31 free bytes padded to 32, canonical encodings
//! of field elements, and the trimming of 32 bytes into the field.
use vstd::prelude::*;

verus! {

/// Bytes of one node: one field element.
pub const NODE_SIZE: usize = 32;

/// The largest whole number of bytes that never overflows the field.
pub type FrSafe = [u8; 31];

/// A 32-byte little-endian field element.
pub type Fr32Ary = [u8; 32];

/// A commitment: the bytes of a field element.
pub type Commitment = Fr32Ary;

/// A challenge seed as handed in by a caller.
pub type ChallengeSeed = Fr32Ary;

/// The bytes of `unpadded`, followed by one zero byte.
pub open spec fn padded_fr(unpadded: Seq<u8>) -> Seq<u8> {
    unpadded.push(0u8)
}

/// Zero-pads 31 bytes to a 32-byte field element.
pub fn pad_safe_fr(unpadded: &FrSafe) -> (r: Fr32Ary)
    ensures
        r@ == padded_fr(unpadded@),
{
    let mut res: [u8; 32] = [0u8; 32];
    let mut i: usize = 0;
    while i < 31
        invariant
            i <= 31,
            forall|k: int| 0 <= k < i ==> res@[k] == unpadded@[k],
            forall|k: int| i <= k < 32 ==> res@[k] == 0u8,
        decreases 31 - i,
    {
        res[i] = unpadded[i];
        i = i + 1;
    }
    assert(res@ =~= padded_fr(unpadded@));
    res
}

/// The scalar field's modulus, little-endian.
pub open spec fn fr_modulus_le() -> Seq<u8> {
    seq![
        0x01u8, 0x00u8, 0x00u8, 0x00u8, 0xffu8, 0xffu8, 0xffu8, 0xffu8,
        0xfeu8, 0x5bu8, 0xfeu8, 0xffu8, 0x02u8, 0xa4u8, 0xbdu8, 0x53u8,
        0x05u8, 0xd8u8, 0xa1u8, 0x09u8, 0x08u8, 0xd8u8, 0x39u8, 0x33u8,
        0x48u8, 0x7du8, 0x9du8, 0x29u8, 0x53u8, 0xa7u8, 0xedu8, 0x73u8,
    ]
}

fn fr_modulus() -> (r: [u8; 32])
    ensures
        r@ == fr_modulus_le(),
{
    let r: [u8; 32] = [
        0x01, 0x00, 0x00, 0x00, 0xff, 0xff, 0xff, 0xff,
        0xfe, 0x5b, 0xfe, 0xff, 0x02, 0xa4, 0xbd, 0x53,
        0x05, 0xd8, 0xa1, 0x09, 0x08, 0xd8, 0x39, 0x33,
        0x48, 0x7d, 0x9d, 0x29, 0x53, 0xa7, 0xed, 0x73,
    ];
    assert(r@ =~= fr_modulus_le());
    r
}

/// The little-endian numbers held by the first `n` bytes of `a` and `b`
/// compare as `a < b`: at the most significant byte where they differ, `a`'s
/// byte is the smaller.
pub open spec fn le_below(a: Seq<u8>, b: Seq<u8>, n: nat) -> bool
    decreases n,
{
    if n == 0 {
        false
    } else {
        a[n - 1] < b[n - 1] || (a[n - 1] == b[n - 1] && le_below(a, b, (n - 1) as nat))
    }
}

/// The 32 bytes encode a field element canonically: as a little-endian
/// number they are below the modulus.
pub open spec fn fr_canonical(bytes: Seq<u8>) -> bool {
    bytes.len() == 32 && le_below(bytes, fr_modulus_le(), 32)
}

/// The first 32 bytes with the two top bits of the most significant byte
/// cleared.
pub open spec fn fr_trimmed(bytes: Seq<u8>) -> Seq<u8> {
    Seq::new(32, |i: int| if i == 31 { bytes[31] & 0x3fu8 } else { bytes[i] })
}

/// Every trimmed byte string is a canonical field element.
pub proof fn lemma_trimmed_is_canonical(bytes: Seq<u8>)
    ensures
        fr_canonical(fr_trimmed(bytes)),
{
    let b = bytes[31];
    assert(b & 0x3fu8 <= 0x3fu8) by (bit_vector);
    reveal_with_fuel(le_below, 2);
}

/// Whether the bytes are the canonical encoding of a field element.
pub fn is_canonical_fr(bytes: &Fr32Ary) -> (r: bool)
    ensures
        r == fr_canonical(bytes@),
{
    let m = fr_modulus();
    let mut i: usize = 32;
    while i > 0
        invariant
            i <= 32,
            m@ == fr_modulus_le(),
            forall|k: int| i <= k < 32 ==> bytes@[k] == m@[k],
            le_below(bytes@, m@, 32) == le_below(bytes@, m@, i as nat),
        decreases i,
    {
        i = i - 1;
        if bytes[i] < m[i] {
            return true;
        }
        if bytes[i] > m[i] {
            return false;
        }
    }
    false
}

/// Clears the two top bits of a challenge seed, so that it reduces
/// canonically into the field.
pub fn safe_challenge_seed(seed: &ChallengeSeed) -> (r: Fr32Ary)
    ensures
        r@ == fr_trimmed(seed@),
        fr_canonical(r@),
{
    let mut cs: [u8; 32] = *seed;
    cs[31] = cs[31] & 0x3f;
    assert(cs@ =~= fr_trimmed(seed@));
    proof {
        lemma_trimmed_is_canonical(seed@);
    }
    cs
}

/// Clears the two top bits of the last byte of a 32-byte digest.
pub(crate) fn trim_digest(d: &mut Vec<u8>)
    requires
        old(d)@.len() == 32,
    ensures
        final(d)@ == fr_trimmed(old(d)@),
{
    let b = d[31] & 0x3f;
    d.set(31, b);
    assert(d@ =~= fr_trimmed(old(d)@));
}

/// Bit `p` of `s`, counting from the least significant bit of the first byte.
pub open spec fn bit_of(s: Seq<u8>, p: int) -> u8 {
    (s[p / 8] >> ((p % 8) as u8)) & 1u8
}

/// Bit `k` of `data`, zero past its end.
pub open spec fn data_bit(data: Seq<u8>, k: int) -> u8 {
    if 0 <= k < 8 * data.len() {
        bit_of(data, k)
    } else {
        0u8
    }
}

/// Bit `p` of `data` laid out in nodes: each node of 256 bits carries 254
/// bits of data, and its two top bits are zero.
pub open spec fn padded_bit(data: Seq<u8>, p: int) -> u8 {
    if p % 256 < 254 {
        data_bit(data, 254 * (p / 256) + p % 256)
    } else {
        0u8
    }
}

/// The byte with the bits `b0` (least significant) to `b7`.
pub open spec fn bits_byte(b0: u8, b1: u8, b2: u8, b3: u8, b4: u8, b5: u8, b6: u8, b7: u8) -> u8 {
    b0 | (b1 << 1u8) | (b2 << 2u8) | (b3 << 3u8) | (b4 << 4u8) | (b5 << 5u8) | (b6 << 6u8) | (b7
        << 7u8)
}

/// Bytes of data that `nodes` nodes carry: 254 bits each, whole bytes.
pub open spec fn unpadded_capacity(nodes: int) -> int {
    254 * nodes / 8
}

/// `data` laid out over `nodes` nodes, 254 bits of data in each, with zeros
/// after the end of the data.
pub open spec fn padded_sector(data: Seq<u8>, nodes: int) -> Seq<u8> {
    Seq::new(
        (32 * nodes) as nat,
        |j: int|
            bits_byte(
                padded_bit(data, 8 * j),
                padded_bit(data, 8 * j + 1),
                padded_bit(data, 8 * j + 2),
                padded_bit(data, 8 * j + 3),
                padded_bit(data, 8 * j + 4),
                padded_bit(data, 8 * j + 5),
                padded_bit(data, 8 * j + 6),
                padded_bit(data, 8 * j + 7),
            ),
    )
}

/// Data bit `k` of the padded buffer `p`.
pub open spec fn unpadded_bit(p: Seq<u8>, k: int) -> u8 {
    bit_of(p, 256 * (k / 254) + k % 254)
}

/// The data bytes of the padded buffer `p`: the low 254 bits of every node.
pub open spec fn unpadded(p: Seq<u8>) -> Seq<u8> {
    Seq::new(
        unpadded_capacity((p.len() / 32) as int) as nat,
        |i: int|
            bits_byte(
                unpadded_bit(p, 8 * i),
                unpadded_bit(p, 8 * i + 1),
                unpadded_bit(p, 8 * i + 2),
                unpadded_bit(p, 8 * i + 3),
                unpadded_bit(p, 8 * i + 4),
                unpadded_bit(p, 8 * i + 5),
                unpadded_bit(p, 8 * i + 6),
                unpadded_bit(p, 8 * i + 7),
            ),
    )
}

proof fn lemma_bits_byte_bit(b0: u8, b1: u8, b2: u8, b3: u8, b4: u8, b5: u8, b6: u8, b7: u8, t: u8)
    requires
        b0 <= 1 && b1 <= 1 && b2 <= 1 && b3 <= 1 && b4 <= 1 && b5 <= 1 && b6 <= 1 && b7 <= 1,
        t < 8,
    ensures
        (bits_byte(b0, b1, b2, b3, b4, b5, b6, b7) >> t) & 1u8 == if t == 0 {
            b0
        } else if t == 1 {
            b1
        } else if t == 2 {
            b2
        } else if t == 3 {
            b3
        } else if t == 4 {
            b4
        } else if t == 5 {
            b5
        } else if t == 6 {
            b6
        } else {
            b7
        },
{
    assert((b0 | (b1 << 1u8) | (b2 << 2u8) | (b3 << 3u8) | (b4 << 4u8) | (b5 << 5u8) | (b6 << 6u8)
        | (b7 << 7u8)) >> t & 1u8 == if t == 0 {
        b0
    } else if t == 1 {
        b1
    } else if t == 2 {
        b2
    } else if t == 3 {
        b3
    } else if t == 4 {
        b4
    } else if t == 5 {
        b5
    } else if t == 6 {
        b6
    } else {
        b7
    }) by (bit_vector)
        requires
            b0 <= 1 && b1 <= 1 && b2 <= 1 && b3 <= 1 && b4 <= 1 && b5 <= 1 && b6 <= 1 && b7 <= 1,
            t < 8,
    ;
}

proof fn lemma_byte_of_bits(x: u8)
    ensures
        bits_byte(
            (x >> 0u8) & 1u8,
            (x >> 1u8) & 1u8,
            (x >> 2u8) & 1u8,
            (x >> 3u8) & 1u8,
            (x >> 4u8) & 1u8,
            (x >> 5u8) & 1u8,
            (x >> 6u8) & 1u8,
            (x >> 7u8) & 1u8,
        ) == x,
{
    assert(((x >> 0u8) & 1u8) | (((x >> 1u8) & 1u8) << 1u8) | (((x >> 2u8) & 1u8) << 2u8) | (((x
        >> 3u8) & 1u8) << 3u8) | (((x >> 4u8) & 1u8) << 4u8) | (((x >> 5u8) & 1u8) << 5u8) | (((x
        >> 6u8) & 1u8) << 6u8) | (((x >> 7u8) & 1u8) << 7u8) == x) by (bit_vector);
}

proof fn lemma_bit_small(x: u8, t: u8)
    ensures
        (x >> t) & 1u8 <= 1,
{
    assert((x >> t) & 1u8 <= 1) by (bit_vector);
}

/// Bit `p` of a padded sector is the padded bit `p`.
proof fn lemma_padded_bit(data: Seq<u8>, nodes: int, p: int)
    requires
        0 <= p < 256 * nodes,
    ensures
        bit_of(padded_sector(data, nodes), p) == padded_bit(data, p),
{
    let j = p / 8;
    let t = p % 8;
    assert(8 * j + t == p);
    let bs = Seq::new(8, |u: int| padded_bit(data, 8 * j + u));
    assert forall|u: int| 0 <= u < 8 implies bs[u] <= 1 by {
        let k = 254 * ((8 * j + u) / 256) + (8 * j + u) % 256;
        if (8 * j + u) % 256 < 254 && 0 <= k < 8 * data.len() {
            lemma_bit_small(data[k / 8], (k % 8) as u8);
        }
    }
    lemma_bits_byte_bit(bs[0], bs[1], bs[2], bs[3], bs[4], bs[5], bs[6], bs[7], t as u8);
}

proof fn lemma_node_position(k: int)
    requires
        0 <= k,
    ensures
        ({
            let pos = 256 * (k / 254) + k % 254;
            &&& pos % 256 == k % 254
            &&& pos / 256 == k / 254
            &&& 254 * (pos / 256) + pos % 256 == k
        }),
{
}

proof fn lemma_byte_position(k: int, i: int)
    requires
        8 * i <= k < 8 * i + 8,
    ensures
        k / 8 == i,
        k % 8 == k - 8 * i,
{
}

proof fn lemma_unpadded_bit_of_padded(data: Seq<u8>, nodes: int, i: int, k: int)
    requires
        0 <= nodes,
        data.len() <= unpadded_capacity(nodes),
        0 <= i < data.len(),
        8 * i <= k < 8 * i + 8,
    ensures
        unpadded_bit(padded_sector(data, nodes), k) == (data[i] >> ((k - 8 * i) as u8)) & 1u8,
{
    let pos = 256 * (k / 254) + k % 254;
    lemma_node_position(k);
    lemma_byte_position(k, i);
    assert(k < 8 * data.len());
    assert(k / 254 < nodes);
    lemma_padded_bit(data, nodes, pos);
    assert(padded_bit(data, pos) == data_bit(data, k));
}

proof fn lemma_unpadded_bit_past_data(data: Seq<u8>, nodes: int, k: int)
    requires
        0 <= nodes,
        8 * data.len() <= k < 8 * unpadded_capacity(nodes),
    ensures
        unpadded_bit(padded_sector(data, nodes), k) == 0,
{
    let pos = 256 * (k / 254) + k % 254;
    lemma_node_position(k);
    assert(k / 254 < nodes);
    lemma_padded_bit(data, nodes, pos);
    assert(padded_bit(data, pos) == data_bit(data, k));
}

/// Past the data, the padded buffer holds only zero bytes of data.
pub proof fn lemma_unpad_pad_tail(data: Seq<u8>, nodes: int)
    requires
        0 <= nodes,
        data.len() <= unpadded_capacity(nodes),
    ensures
        forall|i: int|
            data.len() <= i < unpadded_capacity(nodes) ==> #[trigger] unpadded(
                padded_sector(data, nodes),
            )[i] == 0,
{
    let p = padded_sector(data, nodes);
    assert(p.len() / 32 == nodes);
    assert forall|i: int| data.len() <= i < unpadded_capacity(nodes) implies #[trigger] unpadded(
        p,
    )[i] == 0 by {
        lemma_unpadded_bit_past_data(data, nodes, 8 * i);
        lemma_unpadded_bit_past_data(data, nodes, 8 * i + 1);
        lemma_unpadded_bit_past_data(data, nodes, 8 * i + 2);
        lemma_unpadded_bit_past_data(data, nodes, 8 * i + 3);
        lemma_unpadded_bit_past_data(data, nodes, 8 * i + 4);
        lemma_unpadded_bit_past_data(data, nodes, 8 * i + 5);
        lemma_unpadded_bit_past_data(data, nodes, 8 * i + 6);
        lemma_unpadded_bit_past_data(data, nodes, 8 * i + 7);
        assert((0u8 | (0u8 << 1u8) | (0u8 << 2u8) | (0u8 << 3u8) | (0u8 << 4u8) | (0u8 << 5u8) | (0u8
            << 6u8) | (0u8 << 7u8)) == 0u8) by (bit_vector);
    }
}

/// Removing the padding gives back the data.
#[verifier::rlimit(40)]
pub proof fn lemma_unpad_pad(data: Seq<u8>, nodes: int)
    requires
        0 <= nodes,
        data.len() <= unpadded_capacity(nodes),
    ensures
        unpadded(padded_sector(data, nodes)).len() == unpadded_capacity(nodes),
        unpadded(padded_sector(data, nodes)).subrange(0, data.len() as int) == data,
{
    let p = padded_sector(data, nodes);
    assert(p.len() / 32 == nodes);
    let u = unpadded(p);
    assert forall|i: int| 0 <= i < data.len() implies u[i] == data[i] by {
        lemma_unpadded_bit_of_padded(data, nodes, i, 8 * i);
        lemma_unpadded_bit_of_padded(data, nodes, i, 8 * i + 1);
        lemma_unpadded_bit_of_padded(data, nodes, i, 8 * i + 2);
        lemma_unpadded_bit_of_padded(data, nodes, i, 8 * i + 3);
        lemma_unpadded_bit_of_padded(data, nodes, i, 8 * i + 4);
        lemma_unpadded_bit_of_padded(data, nodes, i, 8 * i + 5);
        lemma_unpadded_bit_of_padded(data, nodes, i, 8 * i + 6);
        lemma_unpadded_bit_of_padded(data, nodes, i, 8 * i + 7);
        lemma_byte_of_bits(data[i]);
    }
    assert(u.subrange(0, data.len() as int) =~= data);
}

proof fn lemma_data_bit_in_node(k: int, n: int)
    requires
        0 <= k < 8 * unpadded_capacity(n),
    ensures
        256 * (k / 254) + k % 254 < 256 * n,
{
    assert(k / 254 < n);
}

fn padded_bit_exec(data: &Vec<u8>, p: u64) -> (r: u8)
    ensures
        r == padded_bit(data@, p as int),
{
    if p % 256 < 254 {
        let k: u64 = 254 * (p / 256) + p % 256;
        if k / 8 < data.len() as u64 {
            (data[(k / 8) as usize] >> ((k % 8) as u8)) & 1
        } else {
            0
        }
    } else {
        0
    }
}

fn unpadded_bit_exec(p: &Vec<u8>, k: u64) -> (r: u8)
    requires
        p@.len() <= 0x2000_0000,
        256 * (k / 254) + k % 254 < 8 * p@.len(),
    ensures
        r == unpadded_bit(p@, k as int),
{
    let pos: u64 = 256 * (k / 254) + k % 254;
    (p[(pos / 8) as usize] >> ((pos % 8) as u8)) & 1
}

/// Lays `data` out over `nodes` nodes of 32 bytes, 254 bits of data in each.
pub fn pad_sector(data: &Vec<u8>, nodes: usize) -> (r: Vec<u8>)
    requires
        nodes <= 0x0100_0000,
        data@.len() <= unpadded_capacity(nodes as int),
    ensures
        r@ == padded_sector(data@, nodes as int),
{
    let ghost target = padded_sector(data@, nodes as int);
    let mut out: Vec<u8> = Vec::new();
    let mut j: usize = 0;
    while j < 32 * nodes
        invariant
            j <= 32 * nodes,
            nodes <= 0x0100_0000,
            target == padded_sector(data@, nodes as int),
            out@ == target.subrange(0, j as int),
        decreases 32 * nodes - j,
    {
        let b: u64 = 8 * j as u64;
        let v = padded_bit_exec(data, b) | (padded_bit_exec(data, b + 1) << 1) | (padded_bit_exec(
            data,
            b + 2,
        ) << 2) | (padded_bit_exec(data, b + 3) << 3) | (padded_bit_exec(data, b + 4) << 4) | (
        padded_bit_exec(data, b + 5) << 5) | (padded_bit_exec(data, b + 6) << 6) | (
        padded_bit_exec(data, b + 7) << 7);
        out.push(v);
        j = j + 1;
        assert(out@ =~= target.subrange(0, j as int));
    }
    out
}

fn unpadded_byte(p: &Vec<u8>, i: usize) -> (r: u8)
    requires
        p@.len() <= 0x2000_0000,
        i < unpadded(p@).len(),
    ensures
        r == unpadded(p@)[i as int],
{
    let b: u64 = 8 * i as u64;
    proof {
        let n = (p@.len() / 32) as int;
        lemma_data_bit_in_node(b as int, n);
        lemma_data_bit_in_node(b + 1, n);
        lemma_data_bit_in_node(b + 2, n);
        lemma_data_bit_in_node(b + 3, n);
        lemma_data_bit_in_node(b + 4, n);
        lemma_data_bit_in_node(b + 5, n);
        lemma_data_bit_in_node(b + 6, n);
        lemma_data_bit_in_node(b + 7, n);
    }
    unpadded_bit_exec(p, b) | (unpadded_bit_exec(p, b + 1) << 1) | (unpadded_bit_exec(p, b + 2)
        << 2) | (unpadded_bit_exec(p, b + 3) << 3) | (unpadded_bit_exec(p, b + 4) << 4) | (
    unpadded_bit_exec(p, b + 5) << 5) | (unpadded_bit_exec(p, b + 6) << 6) | (unpadded_bit_exec(
        p,
        b + 7,
    ) << 7)
}

/// The data bytes `[start, end)` of the padded buffer `p`.
pub fn unpad_range(p: &Vec<u8>, start: usize, end: usize) -> (r: Vec<u8>)
    requires
        p@.len() <= 0x2000_0000,
        start <= end <= unpadded(p@).len(),
    ensures
        r@ == unpadded(p@).subrange(start as int, end as int),
{
    let ghost u = unpadded(p@);
    let mut out: Vec<u8> = Vec::new();
    let mut i: usize = start;
    while i < end
        invariant
            start <= i <= end <= u.len(),
            p@.len() <= 0x2000_0000,
            u == unpadded(p@),
            out@ == u.subrange(start as int, i as int),
        decreases end - i,
    {
        let v = unpadded_byte(p, i);
        out.push(v);
        i = i + 1;
        assert(out@ =~= u.subrange(start as int, i as int));
    }
    out
}

} // verus!
