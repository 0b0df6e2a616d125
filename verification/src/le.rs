use vstd::prelude::*;

verus! {

/// The number whose little-endian bytes are the first four of `s`.
pub open spec fn le_u32_value(s: Seq<u8>) -> int {
    s[0] + 256 * s[1] + 65536 * s[2] + 16777216 * s[3]
}

/// The four little-endian bytes of `x`.
pub open spec fn spec_u32_le_bytes(x: u32) -> Seq<u8> {
    seq![
        (x % 256) as u8,
        ((x / 256) % 256) as u8,
        ((x / 65536) % 256) as u8,
        ((x / 16777216) % 256) as u8,
    ]
}

/// Reads the little-endian `u32` stored at `b[at..at + 4]`.
pub fn u32_from_le_at(b: &[u8], at: usize) -> (x: u32)
    requires
        at + 4 <= b@.len(),
    ensures
        x == le_u32_value(b@.subrange(at as int, at + 4)),
{
    let b0 = b[at] as u32;
    let b1 = b[at + 1] as u32;
    let b2 = b[at + 2] as u32;
    let b3 = b[at + 3] as u32;
    b0 + 256 * b1 + 65536 * b2 + 16777216 * b3
}

/// The little-endian bytes of `x`.
pub fn u32_le_bytes(x: u32) -> (r: [u8; 4])
    ensures
        r@ == spec_u32_le_bytes(x),
{
    let r = [(x % 256) as u8, ((x / 256) % 256) as u8, ((x / 65536) % 256) as u8, ((x / 16777216) % 256) as u8];
    assert(r@ =~= spec_u32_le_bytes(x));
    r
}

/// Appends the little-endian bytes of `x` to `v`.
pub fn push_u32_le(v: &mut Vec<u8>, x: u32)
    ensures
        final(v)@ == old(v)@ + spec_u32_le_bytes(x),
{
    let bytes = u32_le_bytes(x);
    v.push(bytes[0]);
    v.push(bytes[1]);
    v.push(bytes[2]);
    v.push(bytes[3]);
    assert(v@ =~= old(v)@ + spec_u32_le_bytes(x));
}

/// Writing a number as little-endian bytes and reading them back gives the
/// number; reading four bytes and writing the number back gives the bytes.
pub proof fn lemma_le_roundtrip(x: u32, s: Seq<u8>)
    ensures
        spec_u32_le_bytes(x).len() == 4,
        le_u32_value(spec_u32_le_bytes(x)) == x,
        s.len() == 4 ==> 0 <= le_u32_value(s) <= u32::MAX,
        s.len() == 4 ==> spec_u32_le_bytes(le_u32_value(s) as u32) == s,
{
    let b = spec_u32_le_bytes(x);
    let xi = x as int;
    assert(xi == xi % 256 + 256 * ((xi / 256) % 256) + 65536 * ((xi / 65536) % 256) + 16777216 * ((xi / 16777216) % 256)) by (nonlinear_arith)
        requires 0 <= xi < 0x1_0000_0000;
    if s.len() == 4 {
        let v = le_u32_value(s);
        let (s0, s1, s2, s3) = (s[0] as int, s[1] as int, s[2] as int, s[3] as int);
        assert(v == s0 + 256 * s1 + 65536 * s2 + 16777216 * s3);
        assert(0 <= v <= u32::MAX && v % 256 == s0 && (v / 256) % 256 == s1 && (v / 65536) % 256 == s2
            && (v / 16777216) % 256 == s3) by (nonlinear_arith)
            requires
                v == s0 + 256 * s1 + 65536 * s2 + 16777216 * s3,
                0 <= s0 < 256, 0 <= s1 < 256, 0 <= s2 < 256, 0 <= s3 < 256;
        assert(spec_u32_le_bytes(v as u32) =~= s);
    }
}

} // verus!
