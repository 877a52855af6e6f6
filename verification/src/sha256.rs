//! SHA-256 (FIPS 180-4), the content hash of the compilation cache.
//!
//! The digest is stated as spec functions that follow the standard: the
//! padding, the message schedule, the 64 rounds of compression and the
//! chaining over 64-byte blocks. The executable code is proved to compute
//! exactly them.
use vstd::prelude::*;
use vstd::string::StringSliceAdditionalSpecFns;

verus! {

pub open spec fn rotr(x: u32, n: u32) -> u32
    recommends
        0 < n < 32,
{
    (x >> n) | (x << ((32 - n) as u32))
}

pub open spec fn big_sigma0(x: u32) -> u32 {
    rotr(x, 2) ^ rotr(x, 13) ^ rotr(x, 22)
}

pub open spec fn big_sigma1(x: u32) -> u32 {
    rotr(x, 6) ^ rotr(x, 11) ^ rotr(x, 25)
}

pub open spec fn small_sigma0(x: u32) -> u32 {
    rotr(x, 7) ^ rotr(x, 18) ^ (x >> 3)
}

pub open spec fn small_sigma1(x: u32) -> u32 {
    rotr(x, 17) ^ rotr(x, 19) ^ (x >> 10)
}

pub open spec fn ch(e: u32, f: u32, g: u32) -> u32 {
    (e & f) ^ (!e & g)
}

pub open spec fn maj(a: u32, b: u32, c: u32) -> u32 {
    (a & b) ^ (a & c) ^ (b & c)
}

pub open spec fn wadd(x: u32, y: u32) -> u32 {
    vstd::wrapping::u32_specs::wrapping_add(x, y)
}

/// The round constants.
pub open spec fn round_constants() -> Seq<u32> {
    seq![
        0x428a2f98u32, 0x71374491u32, 0xb5c0fbcfu32, 0xe9b5dba5u32, 0x3956c25bu32, 0x59f111f1u32, 0x923f82a4u32, 0xab1c5ed5u32,
        0xd807aa98u32, 0x12835b01u32, 0x243185beu32, 0x550c7dc3u32, 0x72be5d74u32, 0x80deb1feu32, 0x9bdc06a7u32, 0xc19bf174u32,
        0xe49b69c1u32, 0xefbe4786u32, 0x0fc19dc6u32, 0x240ca1ccu32, 0x2de92c6fu32, 0x4a7484aau32, 0x5cb0a9dcu32, 0x76f988dau32,
        0x983e5152u32, 0xa831c66du32, 0xb00327c8u32, 0xbf597fc7u32, 0xc6e00bf3u32, 0xd5a79147u32, 0x06ca6351u32, 0x14292967u32,
        0x27b70a85u32, 0x2e1b2138u32, 0x4d2c6dfcu32, 0x53380d13u32, 0x650a7354u32, 0x766a0abbu32, 0x81c2c92eu32, 0x92722c85u32,
        0xa2bfe8a1u32, 0xa81a664bu32, 0xc24b8b70u32, 0xc76c51a3u32, 0xd192e819u32, 0xd6990624u32, 0xf40e3585u32, 0x106aa070u32,
        0x19a4c116u32, 0x1e376c08u32, 0x2748774cu32, 0x34b0bcb5u32, 0x391c0cb3u32, 0x4ed8aa4au32, 0x5b9cca4fu32, 0x682e6ff3u32,
        0x748f82eeu32, 0x78a5636fu32, 0x84c87814u32, 0x8cc70208u32, 0x90befffau32, 0xa4506cebu32, 0xbef9a3f7u32, 0xc67178f2u32,
    ]
}

/// The initial hash value.
pub open spec fn initial_hash() -> Seq<u32> {
    seq![0x6a09e667u32, 0xbb67ae85u32, 0x3c6ef372u32, 0xa54ff53au32, 0x510e527fu32, 0x9b05688cu32, 0x1f83d9abu32, 0x5be0cd19u32]
}

/// The big-endian word at byte `i` of `bs`.
pub open spec fn be_word(bs: Seq<u8>, i: int) -> u32 {
    ((bs[i] as u32) << 24u32) | ((bs[i + 1] as u32) << 16u32) | ((bs[i + 2] as u32) << 8u32) | (bs[i + 3] as u32)
}

/// Word `t` of the message schedule of the block at byte `off` of `m`.
pub open spec fn schedule(m: Seq<u8>, off: int, t: int) -> u32
    decreases t,
{
    if t < 16 {
        be_word(m, off + 4 * t)
    } else {
        wadd(wadd(wadd(small_sigma1(schedule(m, off, t - 2)), schedule(m, off, t - 7)), small_sigma0(schedule(m, off, t - 15))),
            schedule(m, off, t - 16))
    }
}

/// The working variables after `t` rounds on the block at byte `off`.
pub open spec fn rounds(h: Seq<u32>, m: Seq<u8>, off: int, t: int) -> Seq<u32>
    decreases t,
{
    if t <= 0 {
        h
    } else {
        let s = rounds(h, m, off, t - 1);
        let t1 = wadd(wadd(wadd(wadd(s[7], big_sigma1(s[4])), ch(s[4], s[5], s[6])), round_constants()[t - 1]),
            schedule(m, off, t - 1));
        let t2 = wadd(big_sigma0(s[0]), maj(s[0], s[1], s[2]));
        seq![wadd(t1, t2), s[0], s[1], s[2], wadd(s[3], t1), s[4], s[5], s[6]]
    }
}

/// The hash value after the block at byte `off`.
pub open spec fn compress(h: Seq<u32>, m: Seq<u8>, off: int) -> Seq<u32> {
    let r = rounds(h, m, off, 64);
    Seq::new(8, |i: int| wadd(h[i], r[i]))
}

/// The hash value after the first `n` blocks of the padded message `m`.
pub open spec fn hash_blocks(m: Seq<u8>, n: int) -> Seq<u32>
    decreases n,
{
    if n <= 0 {
        initial_hash()
    } else {
        compress(hash_blocks(m, n - 1), m, 64 * (n - 1))
    }
}

/// The number of zero bytes that bring a message of `len` bytes, with its
/// `0x80` byte, to 56 bytes modulo 64.
pub open spec fn zero_count(len: int) -> int {
    (119 - len % 64) % 64
}

/// The message length in bits (modulo 2^64), as eight big-endian bytes.
pub open spec fn length_bytes(len: nat) -> Seq<u8> {
    let bits = vstd::wrapping::u64_specs::wrapping_mul(len as u64, 8);
    Seq::new(8, |j: int| ((bits >> ((56 - 8 * j) as u64)) & 0xff) as u8)
}

/// The padded message: the bytes, `0x80`, zeros, and the bit length.
pub open spec fn padded(bs: Seq<u8>) -> Seq<u8> {
    bs + seq![0x80u8] + Seq::new(zero_count(bs.len() as int) as nat, |j: int| 0u8) + length_bytes(bs.len())
}

/// The digest as 64 lowercase hexadecimal digits.
pub open spec fn digest_hex(h: Seq<u32>) -> Seq<char> {
    hex8(h, 8)
}

pub open spec fn hex8(h: Seq<u32>, n: int) -> Seq<char>
    decreases n,
{
    if n <= 0 {
        Seq::empty()
    } else {
        hex8(h, n - 1) + crate::text::hex_fixed(h[n - 1] as nat, 8)
    }
}

/// The SHA-256 digest of a byte sequence, in hexadecimal.
pub open spec fn sha256_spec(bs: Seq<u8>) -> Seq<char> {
    let m = padded(bs);
    digest_hex(hash_blocks(m, (m.len() / 64) as int))
}

fn rotr_exec(x: u32, n: u32) -> (r: u32)
    requires
        0 < n < 32,
    ensures
        r == rotr(x, n),
{
    (x >> n) | (x << (32 - n))
}

#[verifier::rlimit(100)]
fn k_table() -> (k: Vec<u32>)
    ensures
        k@ == round_constants(),
{
    let mut k: Vec<u32> = Vec::new();
    k.push(0x428a2f98);
    k.push(0x71374491);
    k.push(0xb5c0fbcf);
    k.push(0xe9b5dba5);
    k.push(0x3956c25b);
    k.push(0x59f111f1);
    k.push(0x923f82a4);
    k.push(0xab1c5ed5);
    k.push(0xd807aa98);
    k.push(0x12835b01);
    k.push(0x243185be);
    k.push(0x550c7dc3);
    k.push(0x72be5d74);
    k.push(0x80deb1fe);
    k.push(0x9bdc06a7);
    k.push(0xc19bf174);
    k.push(0xe49b69c1);
    k.push(0xefbe4786);
    k.push(0x0fc19dc6);
    k.push(0x240ca1cc);
    k.push(0x2de92c6f);
    k.push(0x4a7484aa);
    k.push(0x5cb0a9dc);
    k.push(0x76f988da);
    k.push(0x983e5152);
    k.push(0xa831c66d);
    k.push(0xb00327c8);
    k.push(0xbf597fc7);
    k.push(0xc6e00bf3);
    k.push(0xd5a79147);
    k.push(0x06ca6351);
    k.push(0x14292967);
    k.push(0x27b70a85);
    k.push(0x2e1b2138);
    k.push(0x4d2c6dfc);
    k.push(0x53380d13);
    k.push(0x650a7354);
    k.push(0x766a0abb);
    k.push(0x81c2c92e);
    k.push(0x92722c85);
    k.push(0xa2bfe8a1);
    k.push(0xa81a664b);
    k.push(0xc24b8b70);
    k.push(0xc76c51a3);
    k.push(0xd192e819);
    k.push(0xd6990624);
    k.push(0xf40e3585);
    k.push(0x106aa070);
    k.push(0x19a4c116);
    k.push(0x1e376c08);
    k.push(0x2748774c);
    k.push(0x34b0bcb5);
    k.push(0x391c0cb3);
    k.push(0x4ed8aa4a);
    k.push(0x5b9cca4f);
    k.push(0x682e6ff3);
    k.push(0x748f82ee);
    k.push(0x78a5636f);
    k.push(0x84c87814);
    k.push(0x8cc70208);
    k.push(0x90befffa);
    k.push(0xa4506ceb);
    k.push(0xbef9a3f7);
    k.push(0xc67178f2);
    assert(k@ =~= round_constants());
    k
}

fn iv_table() -> (h: Vec<u32>)
    ensures
        h@ == initial_hash(),
{
    let mut h: Vec<u32> = Vec::new();
    h.push(0x6a09e667);
    h.push(0xbb67ae85);
    h.push(0x3c6ef372);
    h.push(0xa54ff53a);
    h.push(0x510e527f);
    h.push(0x9b05688c);
    h.push(0x1f83d9ab);
    h.push(0x5be0cd19);
    assert(h@ =~= initial_hash());
    h
}

/// One block: `h` becomes `compress(h, m, off)`.
#[verifier::rlimit(50)]
fn compress_exec(h: &Vec<u32>, m: &Vec<u8>, off: usize, k: &Vec<u32>) -> (r: Vec<u32>)
    requires
        h@.len() == 8,
        off + 64 <= m@.len(),
        k@ == round_constants(),
    ensures
        r@ == compress(h@, m@, off as int),
        r@.len() == 8,
{
    let ml = m.len();
    let mut w: Vec<u32> = Vec::new();
    let mut t: usize = 0;
    while t < 64
        invariant
            t <= 64,
            ml == m@.len(),
            off + 64 <= m@.len(),
            w@.len() == t,
            forall|j: int| 0 <= j < t ==> #[trigger] w@[j] == schedule(m@, off as int, j),
        decreases 64 - t,
    {
        let v = if t < 16 {
            let i = off + 4 * t;
            ((m[i] as u32) << 24u32) | ((m[i + 1] as u32) << 16u32) | ((m[i + 2] as u32) << 8u32) | (m[i + 3] as u32)
        } else {
            let w2 = w[t - 2];
            let w15 = w[t - 15];
            let s1 = rotr_exec(w2, 17) ^ rotr_exec(w2, 19) ^ (w2 >> 10);
            let s0 = rotr_exec(w15, 7) ^ rotr_exec(w15, 18) ^ (w15 >> 3);
            s1.wrapping_add(w[t - 7]).wrapping_add(s0).wrapping_add(w[t - 16])
        };
        w.push(v);
        t = t + 1;
    }
    let mut a = h[0];
    let mut b = h[1];
    let mut c = h[2];
    let mut d = h[3];
    let mut e = h[4];
    let mut f = h[5];
    let mut g = h[6];
    let mut hh = h[7];
    let mut t: usize = 0;
    proof {
        assert(seq![a, b, c, d, e, f, g, hh] =~= rounds(h@, m@, off as int, 0));
    }
    while t < 64
        invariant
            t <= 64,
            h@.len() == 8,
            w@.len() == 64,
            k@ == round_constants(),
            forall|j: int| 0 <= j < 64 ==> #[trigger] w@[j] == schedule(m@, off as int, j),
            seq![a, b, c, d, e, f, g, hh] == rounds(h@, m@, off as int, t as int),
        decreases 64 - t,
    {
        let s1 = rotr_exec(e, 6) ^ rotr_exec(e, 11) ^ rotr_exec(e, 25);
        let chv = (e & f) ^ (!e & g);
        let t1 = hh.wrapping_add(s1).wrapping_add(chv).wrapping_add(k[t]).wrapping_add(w[t]);
        let s0 = rotr_exec(a, 2) ^ rotr_exec(a, 13) ^ rotr_exec(a, 22);
        let mj = (a & b) ^ (a & c) ^ (b & c);
        let t2 = s0.wrapping_add(mj);
        hh = g;
        g = f;
        f = e;
        e = d.wrapping_add(t1);
        d = c;
        c = b;
        b = a;
        a = t1.wrapping_add(t2);
        t = t + 1;
        proof {
            assert(seq![a, b, c, d, e, f, g, hh] =~= rounds(h@, m@, off as int, t as int));
        }
    }
    let vals = [a, b, c, d, e, f, g, hh];
    let mut r: Vec<u32> = Vec::new();
    let mut i: usize = 0;
    let ghost fin = seq![a, b, c, d, e, f, g, hh];
    while i < 8
        invariant
            i <= 8,
            h@.len() == 8,
            r@.len() == i,
            fin == rounds(h@, m@, off as int, 64),
            vals@ == fin,
            forall|j: int| 0 <= j < i ==> #[trigger] r@[j] == wadd(h@[j], fin[j]),
        decreases 8 - i,
    {
        r.push(h[i].wrapping_add(vals[i]));
        i = i + 1;
    }
    assert(r@ =~= compress(h@, m@, off as int));
    r
}

/// The padded message (see `padded`).
fn pad(bs: &[u8]) -> (m: Vec<u8>)
    requires
        bs@.len() + 72 <= usize::MAX,
    ensures
        m@ == padded(bs@),
        m@.len() % 64 == 0,
{
    let mut m: Vec<u8> = Vec::new();
    let mut i: usize = 0;
    while i < bs.len()
        invariant
            i <= bs@.len(),
            m@ == bs@.take(i as int),
        decreases bs.len() - i,
    {
        m.push(bs[i]);
        i = i + 1;
        assert(m@ =~= bs@.take(i as int));
    }
    assert(bs@.take(bs@.len() as int) =~= bs@);
    m.push(0x80);
    let zeros: usize = (119 - bs.len() % 64) % 64;
    let mut z: usize = 0;
    while z < zeros
        invariant
            z <= zeros,
            zeros == zero_count(bs@.len() as int),
            m@ == bs@ + seq![0x80u8] + Seq::new(z as nat, |j: int| 0u8),
        decreases zeros - z,
    {
        m.push(0);
        z = z + 1;
        assert(m@ =~= bs@ + seq![0x80u8] + Seq::new(z as nat, |j: int| 0u8));
    }
    let bits: u64 = (bs.len() as u64).wrapping_mul(8);
    let mut j: usize = 0;
    let ghost base = m@;
    while j < 8
        invariant
            j <= 8,
            bits == vstd::wrapping::u64_specs::wrapping_mul(bs@.len() as u64, 8),
            base == bs@ + seq![0x80u8] + Seq::new(zero_count(bs@.len() as int) as nat, |q: int| 0u8),
            m@ == base + length_bytes(bs@.len()).take(j as int),
        decreases 8 - j,
    {
        let shift: u64 = (56 - 8 * j) as u64;
        m.push(((bits >> shift) & 0xff) as u8);
        j = j + 1;
        assert(m@ =~= base + length_bytes(bs@.len()).take(j as int));
    }
    assert(length_bytes(bs@.len()).take(8) =~= length_bytes(bs@.len()));
    assert((bs@.len() + 1 + zero_count(bs@.len() as int) + 8) % 64 == 0);
    m
}

/// The SHA-256 digest of the bytes of a text, as 64 lowercase hexadecimal
/// digits.
pub fn sha256_hex(s: &str) -> (r: String)
    requires
        s.spec_bytes().len() + 72 <= usize::MAX,
    ensures
        r@ == sha256_spec(s.spec_bytes()),
{
    let bs = s.as_bytes();
    let m = pad(bs);
    let k = k_table();
    let mut h = iv_table();
    let n = m.len() / 64;
    let mut b: usize = 0;
    while b < n
        invariant
            b <= n,
            n == m@.len() / 64,
            m@.len() <= usize::MAX,
            m@.len() % 64 == 0,
            k@ == round_constants(),
            h@ == hash_blocks(m@, b as int),
            h@.len() == 8,
        decreases n - b,
    {
        proof {
            assert(64 * b + 64 <= m@.len()) by (nonlinear_arith)
                requires
                    b < n,
                    n == m@.len() / 64,
            ;
        }
        h = compress_exec(&h, &m, 64 * b, &k);
        b = b + 1;
    }
    let mut out = String::new();
    let mut i: usize = 0;
    while i < 8
        invariant
            i <= 8,
            h@.len() == 8,
            out@ == hex8(h@, i as int),
        decreases 8 - i,
    {
        out.append(crate::text::u32_to_hex8(h[i]).as_str());
        i = i + 1;
    }
    out
}

proof fn lemma_hex_fixed_len(n: nat, w: nat)
    ensures
        crate::text::hex_fixed(n, w).len() == w,
    decreases w,
{
    if w > 0 {
        lemma_hex_fixed_len(n / 16, (w - 1) as nat);
    }
}

proof fn lemma_hex8_len(h: Seq<u32>, n: int)
    requires
        0 <= n <= h.len(),
    ensures
        hex8(h, n).len() == 8 * n,
    decreases n,
{
    if n > 0 {
        lemma_hex8_len(h, n - 1);
        lemma_hex_fixed_len(h[n - 1] as nat, 8);
    }
}

proof fn lemma_hash_blocks_len(m: Seq<u8>, n: int)
    ensures
        hash_blocks(m, n).len() == 8,
    decreases n,
{
    if n > 0 {
        lemma_hash_blocks_len(m, n - 1);
    }
}

/// Every digest is 64 hexadecimal digits, whatever the message.
pub proof fn law_digest_is_64_hex_digits(bs: Seq<u8>)
    ensures
        sha256_spec(bs).len() == 64,
{
    let m = padded(bs);
    lemma_hash_blocks_len(m, (m.len() / 64) as int);
    lemma_hex8_len(hash_blocks(m, (m.len() / 64) as int), 8);
}

} // verus!
