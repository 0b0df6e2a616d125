use vstd::prelude::*;
use crate::errors::BESLinkError;
use crate::le::{le_u32_value, lemma_le_roundtrip, push_u32_le, spec_u32_le_bytes, u32_from_le_at, u32_le_bytes};
use crate::message::{BesMessage, MessageTypes, BES_SYNC, spec_checksum};

verus! {

/// Entry addresses below this bound belong to chips whose flash is mapped at
/// `0x3C00_0000`; the others map it at `0x2C00_0000`.
pub open spec fn spec_default_flash_address(entry_address: u32) -> u32 {
    if entry_address < 0x2005_0000 { 0x3C00_0000 } else { 0x2C00_0000 }
}

/// The flash base address to use when none was given, chosen from the
/// programmer's entry address.
pub fn detect_default_flash_address(entry_address: u32) -> (addr: u32)
    ensures
        addr == spec_default_flash_address(entry_address),
        entry_address < 0x2005_0000 ==> addr == 0x3C00_0000,
        entry_address >= 0x2005_0000 ==> addr == 0x2C00_0000,
{
    if entry_address < 0x2005_0000 {
        0x3C00_0000
    } else {
        0x2C00_0000
    }
}

/// The flash base address: the one given, else the default for the entry
/// address.
pub fn resolve_flash_base(start_address: Option<u32>, entry_address: u32) -> (addr: u32)
    ensures
        addr == match start_address {
            Some(a) => a,
            None => spec_default_flash_address(entry_address),
        },
        start_address is None && entry_address < 0x2005_0000 ==> addr == 0x3C00_0000,
        start_address is None && entry_address >= 0x2005_0000 ==> addr == 0x2C00_0000,
{
    match start_address {
        Some(a) => a,
        None => detect_default_flash_address(entry_address),
    }
}

/// The default flash base has a single threshold: every entry address
/// below `0x2005_0000` maps the flash at `0x3C00_0000`, every other one at
/// `0x2C00_0000`; so the choice is monotone in the entry address.
pub proof fn lemma_default_flash_threshold(e1: u32, e2: u32)
    ensures
        e1 < 0x2005_0000 ==> spec_default_flash_address(e1) == 0x3C00_0000,
        e1 >= 0x2005_0000 ==> spec_default_flash_address(e1) == 0x2C00_0000,
        e1 <= e2 && spec_default_flash_address(e1) == 0x2C00_0000 ==> spec_default_flash_address(e2)
            == 0x2C00_0000,
        e1 <= e2 && spec_default_flash_address(e2) == 0x3C00_0000 ==> spec_default_flash_address(e1)
            == 0x3C00_0000,
        spec_default_flash_address(e1) == 0x3C00_0000 || spec_default_flash_address(e1) == 0x2C00_0000,
{
}

/// What a programmer blob announces to the boot ROM before it is streamed.
#[derive(Debug, Clone, Copy)]
pub struct ProgrammerBlobInfo {
    pub entry_address: u32,
    pub payload_offset: usize,
    pub payload_length: u32,
    pub start_crc32: u32,
    pub leader_seed: [u8; 4],
}

/// One bit step of the reflected CRC-32 register; `0xEDB8_8320` is the
/// polynomial `0x04C11DB7` with its bits reversed.
pub open spec fn crc32_bit_step(c: u32) -> u32 {
    if c & 1 == 1 {
        (c >> 1) ^ 0xEDB8_8320u32
    } else {
        c >> 1
    }
}

/// The register after byte `b` entered it: `b` is xored into the low byte,
/// then eight bit steps follow.
pub open spec fn crc32_byte_step(c: u32, b: u8) -> u32 {
    crc32_bit_step(
        crc32_bit_step(
            crc32_bit_step(
                crc32_bit_step(
                    crc32_bit_step(
                        crc32_bit_step(crc32_bit_step(crc32_bit_step(c ^ (b as u32)))),
                    ),
                ),
            ),
        ),
    )
}

/// The register after all bytes of `data` entered it, starting from
/// `0xFFFF_FFFF`.
pub open spec fn crc32_register(data: Seq<u8>) -> u32
    decreases data.len(),
{
    if data.len() == 0 {
        0xFFFF_FFFF
    } else {
        crc32_byte_step(crc32_register(data.drop_last()), data.last())
    }
}

/// The CRC-32 with the ISO-HDLC parameters (width 32, polynomial
/// `0x04C11DB7`, reflected input and output, initial value and final xor
/// `0xFFFF_FFFF`), the `CRC_32_ISO_HDLC` algorithm of the `crc` crate.
pub open spec fn crc32_iso_hdlc(data: Seq<u8>) -> u32 {
    crc32_register(data) ^ 0xFFFF_FFFFu32
}

fn crc32_bit(c: u32) -> (r: u32)
    ensures
        r == crc32_bit_step(c),
{
    if c & 1 == 1 {
        (c >> 1) ^ 0xEDB8_8320
    } else {
        c >> 1
    }
}

/// The CRC-32 (ISO-HDLC parameters) of `data`, computed bit by bit.
fn crc32_iso_hdlc_checksum(data: &[u8]) -> (r: u32)
    ensures
        r == crc32_iso_hdlc(data@),
{
    let mut c: u32 = 0xFFFF_FFFF;
    let mut i: usize = 0;
    while i < data.len()
        invariant
            i <= data@.len(),
            c == crc32_register(data@.take(i as int)),
        decreases data@.len() - i,
    {
        let b = data[i];
        let mut x: u32 = c ^ (b as u32);
        x = crc32_bit(x);
        x = crc32_bit(x);
        x = crc32_bit(x);
        x = crc32_bit(x);
        x = crc32_bit(x);
        x = crc32_bit(x);
        x = crc32_bit(x);
        x = crc32_bit(x);
        proof {
            assert(data@.take(i + 1).drop_last() =~= data@.take(i as int));
        }
        c = x;
        i = i + 1;
    }
    proof {
        assert(data@.take(i as int) =~= data@);
    }
    c ^ 0xFFFF_FFFF
}

/// The CRC-32 grows byte by byte: the checksum of `s` followed by `b` is
/// the checksum of `s` with its final xor undone, one byte step for `b`,
/// and the final xor again.
pub proof fn lemma_crc32_push(s: Seq<u8>, b: u8)
    ensures
        crc32_iso_hdlc(s.push(b)) == crc32_byte_step(crc32_iso_hdlc(s) ^ 0xFFFF_FFFFu32, b)
            ^ 0xFFFF_FFFFu32,
{
    let c = crc32_register(s);
    assert(s.push(b).drop_last() =~= s);
    assert((c ^ 0xFFFF_FFFFu32) ^ 0xFFFF_FFFFu32 == c) by (bit_vector);
}


/// The catalogue check value of CRC-32/ISO-HDLC: the checksum of the ASCII
/// text `123456789` is `0xCBF4_3926`.
pub proof fn lemma_crc32_check_value()
    ensures
        crc32_iso_hdlc(seq![0x31u8, 0x32u8, 0x33u8, 0x34u8, 0x35u8, 0x36u8, 0x37u8, 0x38u8, 0x39u8])
            == 0xCBF4_3926u32,
{
    let d = seq![0x31u8, 0x32u8, 0x33u8, 0x34u8, 0x35u8, 0x36u8, 0x37u8, 0x38u8, 0x39u8];
    assert(crc32_byte_step(0xFFFF_FFFFu32, 0x31u8) == 0x7c231048u32) by (bit_vector);
    assert(crc32_byte_step(0x7c231048u32, 0x32u8) == 0xb0acbb32u32) by (bit_vector);
    assert(crc32_byte_step(0xb0acbb32u32, 0x33u8) == 0x77b79c2du32) by (bit_vector);
    assert(crc32_byte_step(0x77b79c2du32, 0x34u8) == 0x641c1f5cu32) by (bit_vector);
    assert(crc32_byte_step(0x641c1f5cu32, 0x35u8) == 0x340ac5e3u32) by (bit_vector);
    assert(crc32_byte_step(0x340ac5e3u32, 0x36u8) == 0xf68d2c9eu32) by (bit_vector);
    assert(crc32_byte_step(0xf68d2c9eu32, 0x37u8) == 0xaffc9660u32) by (bit_vector);
    assert(crc32_byte_step(0xaffc9660u32, 0x38u8) == 0x651f2550u32) by (bit_vector);
    assert(crc32_byte_step(0x651f2550u32, 0x39u8) == 0x340bc6d9u32) by (bit_vector);
    assert(0x340bc6d9u32 ^ 0xFFFF_FFFFu32 == 0xCBF4_3926u32) by (bit_vector);
    assert(d.take(0).len() == 0);
    assert(crc32_register(d.take(0)) == 0xFFFF_FFFFu32);
    assert(d.take(1).drop_last() =~= d.take(0));
    assert(crc32_register(d.take(1)) == 0x7c231048u32);
    assert(d.take(2).drop_last() =~= d.take(1));
    assert(crc32_register(d.take(2)) == 0xb0acbb32u32);
    assert(d.take(3).drop_last() =~= d.take(2));
    assert(crc32_register(d.take(3)) == 0x77b79c2du32);
    assert(d.take(4).drop_last() =~= d.take(3));
    assert(crc32_register(d.take(4)) == 0x641c1f5cu32);
    assert(d.take(5).drop_last() =~= d.take(4));
    assert(crc32_register(d.take(5)) == 0x340ac5e3u32);
    assert(d.take(6).drop_last() =~= d.take(5));
    assert(crc32_register(d.take(6)) == 0xf68d2c9eu32);
    assert(d.take(7).drop_last() =~= d.take(6));
    assert(crc32_register(d.take(7)) == 0xaffc9660u32);
    assert(d.take(8).drop_last() =~= d.take(7));
    assert(crc32_register(d.take(8)) == 0x651f2550u32);
    assert(d.take(9).drop_last() =~= d.take(8));
    assert(crc32_register(d.take(9)) == 0x340bc6d9u32);
    assert(d.take(9) =~= d);
}

/// Every byte counts: changing the last byte of the data changes its
/// CRC-32, whatever came before.
pub proof fn lemma_crc32_last_byte_matters(s: Seq<u8>, b1: u8, b2: u8)
    requires
        b1 != b2,
    ensures
        crc32_iso_hdlc(s.push(b1)) != crc32_iso_hdlc(s.push(b2)),
{
    let c = crc32_register(s);
    assert(s.push(b1).drop_last() =~= s);
    assert(s.push(b2).drop_last() =~= s);
    assert(b1 != b2 ==> crc32_byte_step(c, b1) != crc32_byte_step(c, b2)) by (bit_vector);
    assert(crc32_byte_step(c, b1) != crc32_byte_step(c, b2) ==> crc32_byte_step(c, b1)
        ^ 0xFFFF_FFFFu32 != crc32_byte_step(c, b2) ^ 0xFFFF_FFFFu32) by (bit_vector);
}

/// The entry address of a blob: the little-endian `u32` in its last four bytes.
pub open spec fn spec_entry_address(b: Seq<u8>) -> u32 {
    le_u32_value(b.subrange(b.len() - 4, b.len() as int)) as u32
}

/// At `p` starts a 12-byte window of eight zero bytes followed by the
/// little-endian bytes of the entry address.
pub open spec fn window_matches(b: Seq<u8>, p: int) -> bool {
    let entry = spec_u32_le_bytes(spec_entry_address(b));
    &&& 0 <= p
    &&& p + 12 <= b.len()
    &&& forall|i: int| 0 <= i < 8 ==> #[trigger] b[p + i] == 0
    &&& forall|i: int| 0 <= i < 4 ==> #[trigger] b[p + 8 + i] == entry[i]
}

/// The first matching window at or after `p`.
pub open spec fn first_window_from(b: Seq<u8>, p: int) -> Option<int>
    decreases b.len() - p,
{
    if p < 0 || p + 12 > b.len() {
        None
    } else if window_matches(b, p) {
        Some(p)
    } else {
        first_window_from(b, p + 1)
    }
}

/// Where the payload of a programmer blob starts: eight bytes after the
/// first matching window, provided the blob has at least 16 bytes, the
/// window leaves four bytes before it for the leader seed, and the payload
/// starts before the trailing entry address.
pub open spec fn spec_payload_offset(b: Seq<u8>) -> Option<int> {
    if b.len() < 16 {
        None
    } else {
        match first_window_from(b, 0) {
            None => None,
            Some(p) => if p + 8 < 12 || p + 8 >= b.len() - 4 {
                None
            } else {
                Some(p + 8)
            },
        }
    }
}

/// The length announced for a blob whose payload starts at `off`: the bytes
/// from the payload up to the trailing entry address, plus twelve, as a
/// `u32` (taken modulo 2^32).
pub open spec fn spec_payload_length(b: Seq<u8>, off: int) -> u32 {
    ((b.len() - 4 - off + 12) % 0x1_0000_0000) as u32
}

/// The bytes streamed to the boot ROM for a blob whose payload starts at
/// `off`: from the leader seed up to the trailing entry address.
pub open spec fn streamed_range(b: Seq<u8>, off: int) -> Seq<u8> {
    b.subrange(off - 12, b.len() - 4)
}

/// The information read from a blob whose payload starts at `off`, with
/// `crc` the checksum of the streamed bytes.
pub open spec fn spec_blob_info(b: Seq<u8>, off: int, crc: u32, info: ProgrammerBlobInfo) -> bool {
    &&& info.entry_address == spec_entry_address(b)
    &&& info.payload_offset == off
    &&& info.payload_length == spec_payload_length(b, off)
    &&& info.start_crc32 == crc
    &&& info.leader_seed@ == b.subrange(off - 12, off - 8)
}

fn window_at(b: &[u8], p: usize, entry: &[u8; 4]) -> (r: bool)
    requires
        p + 12 <= b@.len(),
        entry@ == spec_u32_le_bytes(spec_entry_address(b@)),
    ensures
        r == window_matches(b@, p as int),
{
    let n = b.len();
    let mut i: usize = 0;
    while i < 8
        invariant
            n == b@.len(),
            p + 12 <= b@.len(),
            i <= 8,
            forall|j: int| 0 <= j < i ==> #[trigger] b@[p + j] == 0,
        decreases 8 - i,
    {
        if b[p + i] != 0 {
            return false;
        }
        i = i + 1;
    }
    let mut k: usize = 0;
    while k < 4
        invariant
            n == b@.len(),
            p + 12 <= b@.len(),
            k <= 4,
            entry@ == spec_u32_le_bytes(spec_entry_address(b@)),
            forall|j: int| 0 <= j < 8 ==> #[trigger] b@[p + j] == 0,
            forall|j: int| 0 <= j < k ==> #[trigger] b@[p + 8 + j] == entry@[j],
        decreases 4 - k,
    {
        if b[p + 8 + k] != entry[k] {
            return false;
        }
        k = k + 1;
    }
    true
}

/// Finds where the payload of a programmer blob starts (see
/// `spec_payload_offset`); a blob where it cannot be found is refused with
/// `InvalidArgs`.
pub fn locate_programmer_payload(programmer_binary: &[u8]) -> (r: Result<usize, BESLinkError>)
    ensures
        match spec_payload_offset(programmer_binary@) {
            Some(off) => r == Ok::<usize, BESLinkError>(off as usize),
            None => r matches Err(e) && e is InvalidArgs,
        },
{
    let n = programmer_binary.len();
    if n < 16 {
        return Err(BESLinkError::InvalidArgs);
    }
    let entry_address = u32_from_le_at(programmer_binary, n - 4);
    let entry_bytes = u32_le_bytes(entry_address);
    let mut p: usize = 0;
    while p <= n - 12
        invariant
            n == programmer_binary@.len(),
            n >= 16,
            p <= n - 11,
            entry_bytes@ == spec_u32_le_bytes(spec_entry_address(programmer_binary@)),
            first_window_from(programmer_binary@, 0) == first_window_from(programmer_binary@, p as int),
        decreases n - p,
    {
        if window_at(programmer_binary, p, &entry_bytes) {
            let payload_offset = p + 8;
            if payload_offset < 12 || payload_offset >= n - 4 {
                return Err(BESLinkError::InvalidArgs);
            }
            return Ok(payload_offset);
        }
        p = p + 1;
    }
    Err(BESLinkError::InvalidArgs)
}

/// Builds the blob information from a blob, the start of its payload and
/// the CRC-32 of its streamed bytes.
pub fn blob_info_from_crc(programmer_binary: &[u8], payload_offset: usize, start_crc32: u32) -> (info: ProgrammerBlobInfo)
    requires
        spec_payload_offset(programmer_binary@) == Some(payload_offset as int),
    ensures
        spec_blob_info(programmer_binary@, payload_offset as int, start_crc32, info),
{
    let n = programmer_binary.len();
    let entry_address = u32_from_le_at(programmer_binary, n - 4);
    let payload_len: usize = n - 4 - payload_offset;
    let announced: u64 = payload_len as u64 + 0x0C;
    let payload_length = (announced % 0x1_0000_0000) as u32;
    let leader_seed = [
        programmer_binary[payload_offset - 12],
        programmer_binary[payload_offset - 11],
        programmer_binary[payload_offset - 10],
        programmer_binary[payload_offset - 9],
    ];
    proof {
        lemma_le_roundtrip(0, programmer_binary@.subrange(n - 4, n as int));
        assert(leader_seed@ =~= programmer_binary@.subrange(payload_offset - 12, payload_offset - 8));
    }
    ProgrammerBlobInfo { entry_address, payload_offset, payload_length, start_crc32, leader_seed }
}

/// Reads what a programmer blob announces: its entry address (last four
/// bytes), where its payload starts, the announced length and the CRC-32 of
/// the bytes that will be streamed. A blob without a payload is refused
/// with `InvalidArgs`.
pub fn parse_programmer_blob(programmer_binary: &[u8]) -> (r: Result<ProgrammerBlobInfo, BESLinkError>)
    ensures
        match spec_payload_offset(programmer_binary@) {
            Some(off) => r matches Ok(info) && spec_blob_info(
                programmer_binary@,
                off,
                crc32_iso_hdlc(streamed_range(programmer_binary@, off)),
                info,
            ),
            None => r matches Err(e) && e is InvalidArgs,
        },
        r matches Ok(info) ==> parsed_blob_shape(programmer_binary@, info),
{
    proof {
        lemma_parsed_blob_shape(programmer_binary@);
    }
    let payload_offset = locate_programmer_payload(programmer_binary)?;
    let n = programmer_binary.len();
    let start_crc_slice = vstd::slice::slice_subrange(programmer_binary, payload_offset - 12, n - 4);
    let start_crc32 = crc32_iso_hdlc_checksum(start_crc_slice);
    Ok(blob_info_from_crc(programmer_binary, payload_offset, start_crc32))
}

/// Eight zero bytes at `q`, followed by the four bytes with which `b` ends.
pub open spec fn zeros_then_tail_at(b: Seq<u8>, q: int) -> bool {
    &&& 0 <= q
    &&& q + 12 <= b.len()
    &&& forall|i: int| 0 <= i < 8 ==> #[trigger] b[q + i] == 0
    &&& forall|i: int| 0 <= i < 4 ==> #[trigger] b[q + 8 + i] == b[b.len() - 4 + i]
}

proof fn lemma_window_is_zeros_then_tail(b: Seq<u8>, q: int)
    requires
        b.len() >= 4,
    ensures
        window_matches(b, q) == zeros_then_tail_at(b, q),
{
    let tail = b.subrange(b.len() - 4, b.len() as int);
    lemma_le_roundtrip(0, tail);
    assert(spec_u32_le_bytes(spec_entry_address(b)) == tail);
    if 0 <= q && q + 12 <= b.len() {
        assert forall|i: int| 0 <= i < 4 implies tail[i] == b[b.len() - 4 + i] by {}
    }
}

proof fn lemma_first_window_from_below(b: Seq<u8>, q: int, p: int)
    requires
        b.len() >= 4,
        0 <= q <= p,
        zeros_then_tail_at(b, p),
        forall|r: int| 0 <= r < p ==> !#[trigger] zeros_then_tail_at(b, r),
    ensures
        first_window_from(b, q) == Some(p),
    decreases p - q,
{
    lemma_window_is_zeros_then_tail(b, q);
    if q < p {
        assert(!zeros_then_tail_at(b, q));
        lemma_first_window_from_below(b, q + 1, p);
    }
}

/// The payload search finds every well-formed blob: when eight zero bytes
/// followed by the blob's last four bytes start at `p`, with at least four
/// bytes before them and the payload starting before the trailing entry
/// address, and no such window starts earlier, the payload starts at
/// `p + 8`, whatever the blob's length.
pub proof fn lemma_payload_found(b: Seq<u8>, p: int)
    requires
        4 <= p,
        p + 12 < b.len(),
        zeros_then_tail_at(b, p),
        forall|r: int| 0 <= r < p ==> !#[trigger] zeros_then_tail_at(b, r),
    ensures
        spec_payload_offset(b) == Some(p + 8),
{
    lemma_first_window_from_below(b, 0, p);
}

/// A blob laid out as a four-byte leader seed (whose last byte is not
/// zero), eight zero bytes, the entry address, any body and the entry
/// address again is accepted, whatever its length: its payload starts at
/// 12, its entry address is `e`, and the announced length is its length
/// less four (modulo 2^32).
pub proof fn lemma_well_formed_blob_accepted(seed: Seq<u8>, e: u32, body: Seq<u8>)
    requires
        seed.len() == 4,
        seed[3] != 0,
    ensures
        ({
            let b = seed + Seq::new(8, |i: int| 0u8) + spec_u32_le_bytes(e) + body + spec_u32_le_bytes(e);
            &&& spec_payload_offset(b) == Some(12int)
            &&& spec_entry_address(b) == e
            &&& spec_payload_length(b, 12) == ((b.len() - 4) % 0x1_0000_0000) as u32
            &&& b.subrange(0, 4) == seed
        }),
{
    let z = Seq::new(8, |i: int| 0u8);
    let le = spec_u32_le_bytes(e);
    let b = seed + z + le + body + le;
    lemma_le_roundtrip(e, le);
    let n = b.len();
    assert(b.subrange(n - 4, n as int) =~= le);
    assert(b.subrange(0, 4) =~= seed);
    assert forall|i: int| 0 <= i < 4 implies #[trigger] b[4 + 8 + i] == b[n - 4 + i] by {
        assert(b[12 + i] == le[i]);
        assert(b[n - 4 + i] == le[i]);
    }
    assert forall|i: int| 0 <= i < 8 implies #[trigger] b[4 + i] == 0 by {
        assert(b[4 + i] == z[i]);
    }
    assert(zeros_then_tail_at(b, 4));
    assert forall|r: int| 0 <= r < 4 implies !#[trigger] zeros_then_tail_at(b, r) by {
        if zeros_then_tail_at(b, r) {
            assert(b[r + (3 - r)] == 0);
            assert(b[3] == seed[3]);
        }
    }
    lemma_payload_found(b, 4);
}

/// What an accepted blob looks like around the information read from it:
/// the payload starts after at least twelve bytes and before the trailing
/// entry address; the eight bytes before the payload are zero, and the
/// payload begins with the trailing entry address, which is the entry
/// address read; no earlier place has that pattern; the leader seed is the
/// four bytes before the zeros; the announced length is
/// the count of bytes from the seed up to the trailing entry address
/// (modulo 2^32); and the CRC-32 is that of exactly those bytes.
pub open spec fn parsed_blob_shape(b: Seq<u8>, info: ProgrammerBlobInfo) -> bool {
    let off = info.payload_offset as int;
    let n = b.len() as int;
    &&& 12 <= off
    &&& off + 4 < n
    &&& forall|i: int| off - 8 <= i < off ==> #[trigger] b[i] == 0
    &&& b.subrange(off, off + 4) == b.subrange(n - 4, n)
    &&& le_u32_value(b.subrange(n - 4, n)) == info.entry_address
    &&& forall|r: int| 0 <= r < off - 8 ==> !#[trigger] zeros_then_tail_at(b, r)
    &&& info.leader_seed@ == b.subrange(off - 12, off - 8)
    &&& info.payload_length as int == (n - 4 - (off - 12)) % 0x1_0000_0000
    &&& info.start_crc32 == crc32_iso_hdlc(b.subrange(off - 12, n - 4))
}

proof fn lemma_first_window_found(b: Seq<u8>, q: int)
    requires
        b.len() >= 4,
        0 <= q,
    ensures
        first_window_from(b, q) matches Some(p) ==> {
            &&& q <= p
            &&& zeros_then_tail_at(b, p)
            &&& forall|r: int| q <= r < p ==> !#[trigger] zeros_then_tail_at(b, r)
        },
    decreases b.len() - q,
{
    lemma_window_is_zeros_then_tail(b, q);
    if q + 12 <= b.len() && !window_matches(b, q) {
        lemma_first_window_found(b, q + 1);
    }
}

/// Every blob information that parsing accepts has the shape
/// `parsed_blob_shape` describes.
pub proof fn lemma_parsed_blob_shape(b: Seq<u8>)
    ensures
        forall|info: ProgrammerBlobInfo|
            spec_payload_offset(b) is Some && #[trigger] spec_blob_info(
                b,
                spec_payload_offset(b)->0,
                crc32_iso_hdlc(streamed_range(b, spec_payload_offset(b)->0)),
                info,
            ) ==> parsed_blob_shape(b, info),
{
    if spec_payload_offset(b) is Some {
        let off = spec_payload_offset(b)->0;
        lemma_first_window_found(b, 0);
        let p = off - 8;
        assert(zeros_then_tail_at(b, p));
        let n = b.len() as int;
        assert forall|info: ProgrammerBlobInfo| #[trigger] spec_blob_info(
            b,
            off,
            crc32_iso_hdlc(streamed_range(b, off)),
            info,
        ) implies parsed_blob_shape(b, info) by {
            assert forall|i: int| off - 8 <= i < off implies #[trigger] b[i] == 0 by {
                assert(b[p + (i - p)] == 0);
            }
            assert forall|i: int| 0 <= i < 4 implies #[trigger] b.subrange(off, off + 4)[i] == b.subrange(n - 4, n)[i] by {
                assert(b[p + 8 + i] == b[n - 4 + i]);
            }
            assert(b.subrange(off, off + 4) =~= b.subrange(n - 4, n));
            lemma_le_roundtrip(0, b.subrange(n - 4, n));
        }
    }
}

} // verus!
