use vstd::prelude::*;
use crate::color::{opaque, Rgba};
use vstd::string::StringSliceAdditionalSpecFns;

verus! {

/// The SHA-256 digest of a byte string.
pub uninterp spec fn sha256_of(data: Seq<u8>) -> Seq<u8>;

/// Relies on `sha2::Sha256::digest`: the SHA-256 digest of `data`, 32 bytes.
#[verifier::external_body]
fn sha256(data: &[u8]) -> (r: Vec<u8>)
    ensures
        r@ == sha256_of(data@),
        r@.len() == 32,
{
    <sha2::Sha256 as sha2::Digest>::digest(data).to_vec()
}

/// Seed used in place of an all-zero one, which the generator cannot leave.
pub const ZERO_SEED_REPLACEMENT: u64 = 0x9e37_79b9_7f4a_7c15;

/// Bytes `off .. off + n` of `d` read as a big-endian number.
pub open spec fn be_bytes(d: Seq<u8>, off: int, n: nat) -> int
    decreases n,
{
    if n == 0 {
        0
    } else {
        be_bytes(d, off, (n - 1) as nat) * 256 + d[off + n - 1]
    }
}

/// The `i`-th 64-bit big-endian word of a digest.
pub open spec fn digest_word(d: Seq<u8>, i: int) -> u64 {
    be_bytes(d, 8 * i, 8) as u64
}

/// The generator's seed: the four 64-bit words of the 256-bit digest folded
/// together by exclusive or.
pub open spec fn seed_of(d: Seq<u8>) -> u64 {
    let s = digest_word(d, 0) ^ digest_word(d, 1) ^ digest_word(d, 2) ^ digest_word(d, 3);
    if s == 0 {
        ZERO_SEED_REPLACEMENT
    } else {
        s
    }
}

/// One step of the xorshift64 generator (shifts 13, 7, 17).
pub open spec fn xorshift(x: u64) -> u64 {
    let a = x ^ ((x << 13u64) as u64);
    let b = a ^ (a >> 7u64);
    b ^ ((b << 17u64) as u64)
}

/// The byte drawn from a generator state: its top eight bits.
pub open spec fn top_byte(x: u64) -> u8 {
    (x >> 56u64) as u8
}

/// Three bytes drawn in turn from the generator seeded by a digest.
pub open spec fn rgb_of_digest(d: Seq<u8>) -> (u8, u8, u8) {
    let s1 = xorshift(seed_of(d));
    let s2 = xorshift(s1);
    let s3 = xorshift(s2);
    (top_byte(s1), top_byte(s2), top_byte(s3))
}

/// Decimal digits of `n`.
pub open spec fn digits(n: nat) -> Seq<u8>
    decreases n,
{
    if n < 10 {
        seq![(48 + n) as u8]
    } else {
        digits(n / 10) + seq![(48 + n % 10) as u8]
    }
}

/// Decimal text of `n`, with a leading `-` when negative.
pub open spec fn decimal(n: int) -> Seq<u8> {
    if n < 0 {
        seq![45u8] + digits((-n) as nat)
    } else {
        digits(n as nat)
    }
}

/// The key `"<name>_(<x>,<y>)"` from which a region's colour is derived.
pub open spec fn spec_color_key(name: Seq<u8>, x: int, y: int) -> Seq<u8> {
    name + seq![95u8, 40u8] + decimal(x) + seq![44u8] + decimal(y) + seq![41u8]
}

/// Colour of region `name` seeded at cell `(x, y)`.
pub open spec fn spec_region_color(name: Seq<u8>, x: int, y: int) -> Rgba {
    let c = rgb_of_digest(sha256_of(spec_color_key(name, x, y)));
    opaque(c.0, c.1, c.2)
}

fn xorshift_step(x: u64) -> (r: u64)
    ensures
        r == xorshift(x),
{
    let a = x ^ (x << 13u64);
    let b = a ^ (a >> 7u64);
    b ^ (b << 17u64)
}

spec fn pow256(n: nat) -> int
    decreases n,
{
    if n == 0 {
        1
    } else {
        pow256((n - 1) as nat) * 256
    }
}

proof fn lemma_pow256_mono(a: nat, b: nat)
    requires
        a <= b,
    ensures
        1 <= pow256(a) <= pow256(b),
    decreases b,
{
    if b > a {
        lemma_pow256_mono(a, (b - 1) as nat);
    } else if a > 0 {
        lemma_pow256_mono((a - 1) as nat, (a - 1) as nat);
    }
}

/// The big-endian 64-bit word at bytes `off .. off + 8`.
fn read_be_u64(d: &[u8], off: usize) -> (r: u64)
    requires
        off + 8 <= d.len(),
    ensures
        r == be_bytes(d@, off as int, 8),
{
    let mut acc: u64 = 0;
    let mut i: usize = 0;
    while i < 8
        invariant
            i <= 8,
            off + 8 <= d.len(),
            acc == be_bytes(d@, off as int, i as nat),
            0 <= be_bytes(d@, off as int, i as nat) < pow256(i as nat),
        decreases 8 - i,
    {
        proof {
            assert(be_bytes(d@, off as int, (i + 1) as nat) == be_bytes(d@, off as int, i as nat) * 256 + d@[off + i]);
            assert(pow256((i + 1) as nat) == pow256(i as nat) * 256);
            assert(be_bytes(d@, off as int, i as nat) * 256 + d@[off + i] < pow256(i as nat) * 256) by (nonlinear_arith)
                requires
                    be_bytes(d@, off as int, i as nat) < pow256(i as nat),
                    d@[off + i] < 256,
            ;
            assert(pow256(8) == 0x1_0000_0000_0000_0000) by {
                reveal_with_fuel(pow256, 9);
            }
            lemma_pow256_mono(i as nat + 1, 8);
        }
        acc = acc * 256 + d[off + i] as u64;
        i = i + 1;
    }
    acc
}

/// The three colour bytes drawn from the generator seeded by `digest`.
pub fn color_from_digest(digest: &[u8]) -> (r: (u8, u8, u8))
    requires
        digest.len() >= 32,
    ensures
        r == rgb_of_digest(digest@),
{
    let folded = read_be_u64(digest, 0) ^ read_be_u64(digest, 8) ^ read_be_u64(digest, 16) ^ read_be_u64(digest, 24);
    let seed = if folded == 0 { ZERO_SEED_REPLACEMENT } else { folded };
    let s1 = xorshift_step(seed);
    let s2 = xorshift_step(s1);
    let s3 = xorshift_step(s2);
    ((s1 >> 56u64) as u8, (s2 >> 56u64) as u8, (s3 >> 56u64) as u8)
}

/// Derives a colour from a key string: its SHA-256 digest seeds a
/// deterministic generator, which draws red, green and blue in turn.
pub fn generate_random_color(key: &[u8]) -> (r: (u8, u8, u8))
    ensures
        r == rgb_of_digest(sha256_of(key@)),
{
    let digest = sha256(key);
    color_from_digest(digest.as_slice())
}

/// Appends the decimal digits of `n`.
fn push_digits(n: u64, out: &mut Vec<u8>)
    ensures
        final(out)@ == old(out)@ + digits(n as nat),
    decreases n,
{
    if n >= 10 {
        push_digits(n / 10, out);
    }
    out.push(48 + (n % 10) as u8);
    proof {
        assert(final(out)@ =~= old(out)@ + digits(n as nat));
    }
}

/// Appends the decimal text of `n`.
fn push_decimal(n: i32, out: &mut Vec<u8>)
    ensures
        final(out)@ == old(out)@ + decimal(n as int),
{
    if n < 0 {
        out.push(45);
        push_digits((0 - (n as i64)) as u64, out);
    } else {
        push_digits(n as u64, out);
    }
    proof {
        assert(final(out)@ =~= old(out)@ + decimal(n as int));
    }
}

/// The key `"<name>_(<x>,<y>)"`, as UTF-8 bytes.
pub fn color_key(name: &str, x: i32, y: i32) -> (r: Vec<u8>)
    ensures
        r@ == spec_color_key(name.spec_bytes(), x as int, y as int),
{
    let bytes = name.as_bytes();
    let mut out: Vec<u8> = Vec::new();
    let mut i: usize = 0;
    while i < bytes.len()
        invariant
            i <= bytes@.len(),
            bytes@ == name.spec_bytes(),
            out@ == bytes@.subrange(0, i as int),
        decreases bytes.len() - i,
    {
        out.push(bytes[i]);
        i = i + 1;
        assert(out@ =~= bytes@.subrange(0, i as int));
    }
    assert(out@ =~= name.spec_bytes());
    out.push(95);
    out.push(40);
    push_decimal(x, &mut out);
    out.push(44);
    push_decimal(y, &mut out);
    out.push(41);
    assert(out@ =~= spec_color_key(name.spec_bytes(), x as int, y as int));
    out
}

/// The colour of region `name` seeded at cell `(x, y)`: fixed by the name
/// and the coordinates alone.
pub fn region_color(name: &str, x: i32, y: i32) -> (c: Rgba)
    ensures
        c == spec_region_color(name.spec_bytes(), x as int, y as int),
{
    let key = color_key(name, x, y);
    let (r, g, b) = generate_random_color(key.as_slice());
    Rgba { r, g, b, a: 255 }
}

/// Deriving the colour twice from the same name and coordinates gives the
/// same colour.
pub proof fn lemma_region_color_deterministic(n1: Seq<u8>, n2: Seq<u8>, x: int, y: int)
    requires
        n1 == n2,
    ensures
        spec_region_color(n1, x, y) == spec_region_color(n2, x, y),
{
}

} // verus!
