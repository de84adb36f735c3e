//! SHA-256 (FIPS 180-4) of a string's UTF-8 bytes, written as lowercase
//! hexadecimal: the checksum stored beside patches and reviews.
use crate::text::{hex_digits, push_hex_fixed};
use vstd::prelude::*;

verus! {

// ---------------------------------------------------------------------------
// The function, as the standard defines it
// ---------------------------------------------------------------------------

/// Addition modulo 2^32.
pub open spec fn add32(x: u32, y: u32) -> u32 {
    vstd::wrapping::u32_specs::wrapping_add(x, y)
}

/// Rotation right by `n` bits, `0 < n < 32`.
pub open spec fn rotr(x: u32, n: u32) -> u32 {
    (x >> n) | (x << ((32 - n) as u32))
}

pub open spec fn ch(e: u32, f: u32, g: u32) -> u32 {
    (e & f) ^ ((!e) & g)
}

pub open spec fn maj(a: u32, b: u32, c: u32) -> u32 {
    (a & b) ^ (a & c) ^ (b & c)
}

pub open spec fn big_sigma0(a: u32) -> u32 {
    rotr(a, 2) ^ rotr(a, 13) ^ rotr(a, 22)
}

pub open spec fn big_sigma1(e: u32) -> u32 {
    rotr(e, 6) ^ rotr(e, 11) ^ rotr(e, 25)
}

pub open spec fn small_sigma0(x: u32) -> u32 {
    rotr(x, 7) ^ rotr(x, 18) ^ (x >> 3u32)
}

pub open spec fn small_sigma1(x: u32) -> u32 {
    rotr(x, 17) ^ rotr(x, 19) ^ (x >> 10u32)
}

/// The round constants.
pub open spec fn k_table() -> Seq<u32> {
    seq![
        0x428a2f98u32, 0x71374491u32, 0xb5c0fbcfu32, 0xe9b5dba5u32, 0x3956c25bu32, 0x59f111f1u32,
        0x923f82a4u32, 0xab1c5ed5u32, 0xd807aa98u32, 0x12835b01u32, 0x243185beu32, 0x550c7dc3u32,
        0x72be5d74u32, 0x80deb1feu32, 0x9bdc06a7u32, 0xc19bf174u32, 0xe49b69c1u32, 0xefbe4786u32,
        0x0fc19dc6u32, 0x240ca1ccu32, 0x2de92c6fu32, 0x4a7484aau32, 0x5cb0a9dcu32, 0x76f988dau32,
        0x983e5152u32, 0xa831c66du32, 0xb00327c8u32, 0xbf597fc7u32, 0xc6e00bf3u32, 0xd5a79147u32,
        0x06ca6351u32, 0x14292967u32, 0x27b70a85u32, 0x2e1b2138u32, 0x4d2c6dfcu32, 0x53380d13u32,
        0x650a7354u32, 0x766a0abbu32, 0x81c2c92eu32, 0x92722c85u32, 0xa2bfe8a1u32, 0xa81a664bu32,
        0xc24b8b70u32, 0xc76c51a3u32, 0xd192e819u32, 0xd6990624u32, 0xf40e3585u32, 0x106aa070u32,
        0x19a4c116u32, 0x1e376c08u32, 0x2748774cu32, 0x34b0bcb5u32, 0x391c0cb3u32, 0x4ed8aa4au32,
        0x5b9cca4fu32, 0x682e6ff3u32, 0x748f82eeu32, 0x78a5636fu32, 0x84c87814u32, 0x8cc70208u32,
        0x90befffau32, 0xa4506cebu32, 0xbef9a3f7u32, 0xc67178f2u32,
    ]
}

/// The initial hash value.
pub open spec fn h_init() -> Seq<u32> {
    seq![
        0x6a09e667u32, 0xbb67ae85u32, 0x3c6ef372u32, 0xa54ff53au32, 0x510e527fu32, 0x9b05688cu32,
        0x1f83d9abu32, 0x5be0cd19u32,
    ]
}

/// The big-endian word of the four bytes at `at`.
pub open spec fn be_word(b: Seq<u8>, at: int) -> u32 {
    ((b[at] as u32) << 24u32) | ((b[at + 1] as u32) << 16u32) | ((b[at + 2] as u32) << 8u32) | (b[at
        + 3] as u32)
}

/// Word `i` of the message schedule of the block at `at`.
pub open spec fn schedule(b: Seq<u8>, at: int, i: nat) -> u32
    decreases i,
{
    if i < 16 {
        be_word(b, at + 4 * i)
    } else {
        add32(
            add32(
                add32(schedule(b, at, (i - 16) as nat), small_sigma0(schedule(b, at, (i - 15) as nat))),
                schedule(b, at, (i - 7) as nat),
            ),
            small_sigma1(schedule(b, at, (i - 2) as nat)),
        )
    }
}

/// One round on the working variables `a..h`.
pub open spec fn round(st: Seq<u32>, k: u32, w: u32) -> Seq<u32> {
    let t1 = add32(add32(add32(add32(st[7], big_sigma1(st[4])), ch(st[4], st[5], st[6])), k), w);
    let t2 = add32(big_sigma0(st[0]), maj(st[0], st[1], st[2]));
    seq![add32(t1, t2), st[0], st[1], st[2], add32(st[3], t1), st[4], st[5], st[6]]
}

/// The working variables after `n` rounds on the block at `at`.
pub open spec fn rounds(h: Seq<u32>, b: Seq<u8>, at: int, n: nat) -> Seq<u32>
    decreases n,
{
    if n == 0 {
        h
    } else {
        round(rounds(h, b, at, (n - 1) as nat), k_table()[n - 1], schedule(b, at, (n - 1) as nat))
    }
}

/// The hash value after processing the block at `at`.
pub open spec fn compress(h: Seq<u32>, b: Seq<u8>, at: int) -> Seq<u32> {
    let s = rounds(h, b, at, 64);
    Seq::new(8, |i: int| add32(h[i], s[i]))
}

/// The hash value after the first `n` blocks.
pub open spec fn hash_blocks(b: Seq<u8>, n: nat) -> Seq<u32>
    decreases n,
{
    if n == 0 {
        h_init()
    } else {
        compress(hash_blocks(b, (n - 1) as nat), b, 64 * (n - 1))
    }
}

/// Zero bytes of padding after the `0x80` byte for a message of `len` bytes.
pub open spec fn pad_zero_count(len: nat) -> nat {
    let m = (len + 1) % 64;
    if m <= 56 {
        (56 - m) as nat
    } else {
        (120 - m) as nat
    }
}

/// Big-endian bytes of a 64-bit value.
pub open spec fn be64(x: u64) -> Seq<u8> {
    Seq::new(8, |i: int| ((x >> ((56 - 8 * i) as u64)) & 0xffu64) as u8)
}

/// The padded message: `0x80`, zeros up to 56 modulo 64, the bit length
/// (modulo 2^64).
pub open spec fn padded(msg: Seq<u8>) -> Seq<u8> {
    msg + seq![0x80u8] + Seq::new(pad_zero_count(msg.len()), |i: int| 0u8) + be64((msg.len() * 8) as u64)
}

/// SHA-256 of a byte sequence, as eight words.
pub open spec fn sha256(msg: Seq<u8>) -> Seq<u32> {
    hash_blocks(padded(msg), padded(msg).len() / 64)
}

/// Words written as eight lowercase hex digits each.
pub open spec fn hex_words(ws: Seq<u32>) -> Seq<char>
    decreases ws.len(),
{
    if ws.len() == 0 {
        Seq::empty()
    } else {
        hex_words(ws.drop_last()) + hex_digits(ws.last() as nat, 8)
    }
}

/// The checksum of a text: SHA-256 of its UTF-8 bytes in lowercase hex.
pub open spec fn checksum_text(s: Seq<char>) -> Seq<char> {
    hex_words(sha256(vstd::utf8::encode_utf8(s)))
}

// ---------------------------------------------------------------------------
// Computing it
// ---------------------------------------------------------------------------

fn rotr_e(x: u32, n: u32) -> (r: u32)
    requires
        0 < n < 32,
    ensures
        r == rotr(x, n),
{
    (x >> n) | (x << (32 - n))
}

fn k_vec() -> (k: Vec<u32>)
    ensures
        k@ == k_table(),
{
    let k = vec![
        0x428a2f98u32, 0x71374491u32, 0xb5c0fbcfu32, 0xe9b5dba5u32, 0x3956c25bu32, 0x59f111f1u32,
        0x923f82a4u32, 0xab1c5ed5u32, 0xd807aa98u32, 0x12835b01u32, 0x243185beu32, 0x550c7dc3u32,
        0x72be5d74u32, 0x80deb1feu32, 0x9bdc06a7u32, 0xc19bf174u32, 0xe49b69c1u32, 0xefbe4786u32,
        0x0fc19dc6u32, 0x240ca1ccu32, 0x2de92c6fu32, 0x4a7484aau32, 0x5cb0a9dcu32, 0x76f988dau32,
        0x983e5152u32, 0xa831c66du32, 0xb00327c8u32, 0xbf597fc7u32, 0xc6e00bf3u32, 0xd5a79147u32,
        0x06ca6351u32, 0x14292967u32, 0x27b70a85u32, 0x2e1b2138u32, 0x4d2c6dfcu32, 0x53380d13u32,
        0x650a7354u32, 0x766a0abbu32, 0x81c2c92eu32, 0x92722c85u32, 0xa2bfe8a1u32, 0xa81a664bu32,
        0xc24b8b70u32, 0xc76c51a3u32, 0xd192e819u32, 0xd6990624u32, 0xf40e3585u32, 0x106aa070u32,
        0x19a4c116u32, 0x1e376c08u32, 0x2748774cu32, 0x34b0bcb5u32, 0x391c0cb3u32, 0x4ed8aa4au32,
        0x5b9cca4fu32, 0x682e6ff3u32, 0x748f82eeu32, 0x78a5636fu32, 0x84c87814u32, 0x8cc70208u32,
        0x90befffau32, 0xa4506cebu32, 0xbef9a3f7u32, 0xc67178f2u32,
    ];
    assert(k@ =~= k_table());
    k
}

/// The hash value after the block at `at`.
fn compress_block(h: &Vec<u32>, m: &Vec<u8>, at: usize, k: &Vec<u32>) -> (r: Vec<u32>)
    requires
        h@.len() == 8,
        at + 64 <= m@.len(),
        m@.len() <= usize::MAX,
        k@ == k_table(),
    ensures
        r@ == compress(h@, m@, at as int),
{
    let mut w: Vec<u32> = Vec::new();
    let mut i: usize = 0;
    while i < 16
        invariant
            at + 64 <= m@.len(),
            m@.len() <= usize::MAX,
            i <= 16,
            w@.len() == i,
            forall|j: int| 0 <= j < i ==> w@[j] == schedule(m@, at as int, j as nat),
        decreases 16 - i,
    {
        let p = at + 4 * i;
        let word = ((m[p] as u32) << 24u32) | ((m[p + 1] as u32) << 16u32) | ((m[p + 2] as u32) << 8u32)
            | (m[p + 3] as u32);
        w.push(word);
        i = i + 1;
    }
    while i < 64
        invariant
            16 <= i <= 64,
            w@.len() == i,
            forall|j: int| 0 <= j < i ==> w@[j] == schedule(m@, at as int, j as nat),
        decreases 64 - i,
    {
        let x15 = w[i - 15];
        let x2 = w[i - 2];
        let s0 = rotr_e(x15, 7) ^ rotr_e(x15, 18) ^ (x15 >> 3u32);
        let s1 = rotr_e(x2, 17) ^ rotr_e(x2, 19) ^ (x2 >> 10u32);
        let v = w[i - 16].wrapping_add(s0).wrapping_add(w[i - 7]).wrapping_add(s1);
        w.push(v);
        i = i + 1;
    }
    let mut a = h[0];
    let mut b = h[1];
    let mut c = h[2];
    let mut d = h[3];
    let mut e = h[4];
    let mut f = h[5];
    let mut g = h[6];
    let mut hh = h[7];
    let mut i: usize = 0;
    assert(seq![a, b, c, d, e, f, g, hh] =~= rounds(h@, m@, at as int, 0));
    while i < 64
        invariant
            i <= 64,
            h@.len() == 8,
            k@ == k_table(),
            w@.len() == 64,
            forall|j: int| 0 <= j < 64 ==> w@[j] == schedule(m@, at as int, j as nat),
            seq![a, b, c, d, e, f, g, hh] == rounds(h@, m@, at as int, i as nat),
        decreases 64 - i,
    {
        let s1 = rotr_e(e, 6) ^ rotr_e(e, 11) ^ rotr_e(e, 25);
        let chv = (e & f) ^ ((!e) & g);
        let temp1 = hh.wrapping_add(s1).wrapping_add(chv).wrapping_add(k[i]).wrapping_add(w[i]);
        let s0 = rotr_e(a, 2) ^ rotr_e(a, 13) ^ rotr_e(a, 22);
        let mj = (a & b) ^ (a & c) ^ (b & c);
        let temp2 = s0.wrapping_add(mj);
        let ghost before = seq![a, b, c, d, e, f, g, hh];
        hh = g;
        g = f;
        f = e;
        e = d.wrapping_add(temp1);
        d = c;
        c = b;
        b = a;
        a = temp1.wrapping_add(temp2);
        i = i + 1;
        assert(seq![a, b, c, d, e, f, g, hh] =~= round(before, k_table()[i - 1], schedule(m@, at as int, (i - 1) as nat)));
    }
    let r = vec![
        h[0].wrapping_add(a),
        h[1].wrapping_add(b),
        h[2].wrapping_add(c),
        h[3].wrapping_add(d),
        h[4].wrapping_add(e),
        h[5].wrapping_add(f),
        h[6].wrapping_add(g),
        h[7].wrapping_add(hh),
    ];
    assert(r@ =~= compress(h@, m@, at as int));
    r
}

/// The padded message of `bytes`.
fn pad(bytes: &[u8]) -> (m: Vec<u8>)
    ensures
        m@ == padded(bytes@),
{
    let mut m: Vec<u8> = Vec::new();
    let mut i: usize = 0;
    while i < bytes.len()
        invariant
            i <= bytes@.len(),
            m@ == bytes@.take(i as int),
        decreases bytes.len() - i,
    {
        m.push(bytes[i]);
        i = i + 1;
        assert(m@ =~= bytes@.take(i as int));
    }
    assert(bytes@.take(i as int) =~= bytes@);
    m.push(0x80u8);
    let len = bytes.len();
    let r = (len % 64 + 1) % 64;
    assert(r == (len + 1) % 64) by (nonlinear_arith)
        requires
            r == (len % 64 + 1) % 64,
    ;
    let z: usize = if r <= 56 {
        56 - r
    } else {
        120 - r
    };
    let ghost head = m@;
    let mut j: usize = 0;
    while j < z
        invariant
            j <= z,
            m@ == head + Seq::new(j as nat, |q: int| 0u8),
        decreases z - j,
    {
        m.push(0u8);
        j = j + 1;
        assert(m@ =~= head + Seq::new(j as nat, |q: int| 0u8));
    }
    let bit_len: u64 = ((len as u128) * 8) as u64;
    let ghost body = m@;
    let mut q: usize = 0;
    while q < 8
        invariant
            q <= 8,
            m@ == body + be64(bit_len).take(q as int),
        decreases 8 - q,
    {
        let sh: u64 = (56 - 8 * q) as u64;
        m.push(((bit_len >> sh) & 0xffu64) as u8);
        q = q + 1;
        assert(m@ =~= body + be64(bit_len).take(q as int));
    }
    assert(be64(bit_len).take(8) =~= be64(bit_len));
    assert(m@ =~= padded(bytes@));
    m
}

/// SHA-256 of the text's UTF-8 bytes, in lowercase hexadecimal.
pub fn checksum_str(v: &str) -> (r: String)
    ensures
        r@ == checksum_text(v@),
{
    let bytes = v.as_bytes();
    let m = pad(bytes);
    let k = k_vec();
    let mut h: Vec<u32> = vec![
        0x6a09e667u32, 0xbb67ae85u32, 0x3c6ef372u32, 0xa54ff53au32, 0x510e527fu32, 0x9b05688cu32,
        0x1f83d9abu32, 0x5be0cd19u32,
    ];
    assert(h@ =~= h_init());
    let ml = m.len();
    let nb = ml / 64;
    let mut blk: usize = 0;
    while blk < nb
        invariant
            blk <= nb,
            nb == m@.len() / 64,
            ml == m@.len(),
            k@ == k_table(),
            h@ == hash_blocks(m@, blk as nat),
            h@.len() == 8,
        decreases nb - blk,
    {
        assert(blk * 64 + 64 <= m@.len()) by (nonlinear_arith)
            requires
                blk < nb,
                nb == m@.len() / 64,
        ;
        h = compress_block(&h, &m, blk * 64, &k);
        blk = blk + 1;
    }
    let mut out = String::new();
    let mut i: usize = 0;
    while i < 8
        invariant
            i <= 8,
            h@ == sha256(vstd::utf8::encode_utf8(v@)),
            out@ == hex_words(h@.take(i as int)),
        decreases 8 - i,
    {
        push_hex_fixed(&mut out, h[i] as u64, 8);
        i = i + 1;
        assert(h@.take(i as int).drop_last() =~= h@.take(i - 1));
    }
    assert(h@.take(8) =~= h@);
    out
}

/// Hex words hold only hexadecimal digits, eight per word.
pub proof fn lemma_hex_words_clean(ws: Seq<u32>)
    ensures
        crate::text::no_cr(hex_words(ws)),
        crate::text::no_nl(hex_words(ws)),
        hex_words(ws).len() == 8 * ws.len(),
    decreases ws.len(),
{
    if ws.len() > 0 {
        lemma_hex_words_clean(ws.drop_last());
        crate::text::lemma_hex_clean(ws.last() as nat, 8);
        crate::text::lemma_clean_concat(hex_words(ws.drop_last()), hex_digits(ws.last() as nat, 8));
    }
}

/// A checksum is 64 hexadecimal digits.
pub proof fn lemma_checksum_clean(s: Seq<char>)
    ensures
        crate::text::no_cr(checksum_text(s)),
        crate::text::no_nl(checksum_text(s)),
        checksum_text(s).len() == 64,
{
    lemma_hash_len(padded(vstd::utf8::encode_utf8(s)), padded(vstd::utf8::encode_utf8(s)).len() / 64);
    lemma_hex_words_clean(sha256(vstd::utf8::encode_utf8(s)));
}

proof fn lemma_hash_len(b: Seq<u8>, n: nat)
    ensures
        hash_blocks(b, n).len() == 8,
    decreases n,
{
    if n > 0 {
        lemma_hash_len(b, (n - 1) as nat);
    }
}

} // verus!
