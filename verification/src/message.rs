use vstd::prelude::*;
use crate::errors::BESLinkError;

verus! {

/// The byte that starts every packet on the link.
pub const BES_SYNC: u8 = 0xBE;

/// Baud rate used while the boot ROM and the programmer are talked to.
pub const BES_PROGRAMMING_BAUDRATE: u32 = 921600;

/// Size of the buffer used when reading bulk flash data.
pub const FLASH_BUFFER_SIZE: usize = 32768;

/// The packet types of the link; each has a one-byte code on the wire,
/// given by `code()` (a cast with `as` gives the declaration index, not
/// the wire code).
#[derive(Debug, PartialEq, Eq, Clone, Copy, Structural)]
pub enum MessageTypes {
    DeviceCommand,
    FlashRead,
    Sync,
    StartProgrammer,
    ProgrammerRunning,
    ProgrammerStart,
    ProgrammerInit,
    EraseBurnStart,
    FlashBurnData,
    FlashCommand,
    UnknownORInfo,
}

impl MessageTypes {
    /// The wire code of a packet type.
    pub open spec fn spec_code(self) -> u8 {
        match self {
            MessageTypes::DeviceCommand => 0x00,
            MessageTypes::FlashRead => 0x03,
            MessageTypes::Sync => 0x50,
            MessageTypes::StartProgrammer => 0x53,
            MessageTypes::ProgrammerRunning => 0x54,
            MessageTypes::ProgrammerStart => 0x55,
            MessageTypes::ProgrammerInit => 0x60,
            MessageTypes::EraseBurnStart => 0x61,
            MessageTypes::FlashBurnData => 0x62,
            MessageTypes::FlashCommand => 0x65,
            MessageTypes::UnknownORInfo => 0x66,
        }
    }

    /// The packet type that a wire code stands for, if any.
    pub open spec fn spec_from_code(v: u8) -> Option<MessageTypes> {
        if v == 0x50 {
            Some(MessageTypes::Sync)
        } else if v == 0x53 {
            Some(MessageTypes::StartProgrammer)
        } else if v == 0x54 {
            Some(MessageTypes::ProgrammerRunning)
        } else if v == 0x60 {
            Some(MessageTypes::ProgrammerInit)
        } else if v == 0x55 {
            Some(MessageTypes::ProgrammerStart)
        } else if v == 0x65 {
            Some(MessageTypes::FlashCommand)
        } else if v == 0x61 {
            Some(MessageTypes::EraseBurnStart)
        } else if v == 0x62 {
            Some(MessageTypes::FlashBurnData)
        } else if v == 0x03 {
            Some(MessageTypes::FlashRead)
        } else if v == 0x66 {
            Some(MessageTypes::UnknownORInfo)
        } else if v == 0x00 {
            Some(MessageTypes::DeviceCommand)
        } else {
            None
        }
    }

    /// The wire code of this packet type.
    pub fn code(self) -> (b: u8)
        ensures
            b == self.spec_code(),
    {
        match self {
            MessageTypes::DeviceCommand => 0x00,
            MessageTypes::FlashRead => 0x03,
            MessageTypes::Sync => 0x50,
            MessageTypes::StartProgrammer => 0x53,
            MessageTypes::ProgrammerRunning => 0x54,
            MessageTypes::ProgrammerStart => 0x55,
            MessageTypes::ProgrammerInit => 0x60,
            MessageTypes::EraseBurnStart => 0x61,
            MessageTypes::FlashBurnData => 0x62,
            MessageTypes::FlashCommand => 0x65,
            MessageTypes::UnknownORInfo => 0x66,
        }
    }

    /// Decodes a wire code; `None` for a code that no packet type has.
    pub fn from_code(v: u8) -> (r: Option<MessageTypes>)
        ensures
            r == Self::spec_from_code(v),
    {
        if v == 0x50 {
            Some(MessageTypes::Sync)
        } else if v == 0x53 {
            Some(MessageTypes::StartProgrammer)
        } else if v == 0x54 {
            Some(MessageTypes::ProgrammerRunning)
        } else if v == 0x60 {
            Some(MessageTypes::ProgrammerInit)
        } else if v == 0x55 {
            Some(MessageTypes::ProgrammerStart)
        } else if v == 0x65 {
            Some(MessageTypes::FlashCommand)
        } else if v == 0x61 {
            Some(MessageTypes::EraseBurnStart)
        } else if v == 0x62 {
            Some(MessageTypes::FlashBurnData)
        } else if v == 0x03 {
            Some(MessageTypes::FlashRead)
        } else if v == 0x66 {
            Some(MessageTypes::UnknownORInfo)
        } else if v == 0x00 {
            Some(MessageTypes::DeviceCommand)
        } else {
            None
        }
    }
}

impl TryFrom<u8> for MessageTypes {
    type Error = ();

    fn try_from(v: u8) -> (r: Result<Self, Self::Error>) {
        match MessageTypes::from_code(v) {
            Some(t) => Ok(t),
            None => Err(()),
        }
    }
}

impl vstd::std_specs::convert::TryFromSpecImpl<u8> for MessageTypes {
    open spec fn obeys_try_from_spec() -> bool {
        true
    }

    open spec fn try_from_spec(v: u8) -> Result<Self, ()> {
        match MessageTypes::spec_from_code(v) {
            Some(t) => Ok(t),
            None => Err(()),
        }
    }
}

/// Every packet type survives a trip through its wire code, and a code that
/// decodes to a type is that type's code.
pub proof fn lemma_code_roundtrip(t: MessageTypes, v: u8)
    ensures
        MessageTypes::spec_from_code(t.spec_code()) == Some(t),
        MessageTypes::spec_from_code(v) matches Some(u) ==> u.spec_code() == v,
{
}

/// Sum of the bytes of `s`, as an unbounded number.
pub open spec fn byte_sum(s: Seq<u8>) -> nat
    decreases s.len(),
{
    if s.len() == 0 {
        0
    } else {
        byte_sum(s.drop_last()) + s.last() as nat
    }
}

/// The checksum byte of the bytes `s`: `0xFF` minus their sum modulo 256.
pub open spec fn spec_checksum(s: Seq<u8>) -> u8 {
    (255 - byte_sum(s) % 256) as u8
}

/// A packet (at least one byte) whose last byte is the checksum of the others.
pub open spec fn checksum_is_valid(packet: Seq<u8>) -> bool {
    &&& packet.len() >= 1
    &&& packet.last() == spec_checksum(packet.drop_last())
}

/// One packet of the link: a sync byte, a type, a payload and a checksum.
#[derive(Debug, PartialEq, Clone)]
pub struct BesMessage {
    pub sync: u8,
    pub type1: MessageTypes,
    pub payload: Vec<u8>,
    pub checksum: u8,
}

impl BesMessage {
    /// The bytes that the checksum covers: sync byte, type code and payload.
    pub open spec fn spec_body(self) -> Seq<u8> {
        seq![self.sync, self.type1.spec_code()] + self.payload@
    }

    /// The bytes of the message on the wire.
    pub open spec fn spec_bytes(self) -> Seq<u8> {
        self.spec_body().push(self.checksum)
    }

    /// The checksum field is the checksum of the body.
    pub open spec fn has_valid_checksum(self) -> bool {
        self.checksum == spec_checksum(self.spec_body())
    }

    /// The bytes of the message on the wire, in order: sync, type code,
    /// payload, checksum.
    pub fn to_vec(&self) -> (result: Vec<u8>)
        ensures
            result@ == self.spec_bytes(),
    {
        let mut result: Vec<u8> = Vec::new();
        result.push(self.sync);
        result.push(self.type1.code());
        let mut payload = self.payload.clone();
        result.append(&mut payload);
        result.push(self.checksum);
        proof {
            assert(result@ =~= self.spec_bytes());
        }
        result
    }

    /// Sets the checksum field to the checksum of the other fields.
    pub fn set_checksum(&mut self)
        ensures
            final(self).sync == old(self).sync,
            final(self).type1 == old(self).type1,
            final(self).payload@ == old(self).payload@,
            final(self).checksum == spec_checksum(old(self).spec_body()),
            final(self).has_valid_checksum(),
    {
        let mut v = self.to_vec();
        v.pop();
        proof {
            assert(v@ =~= self.spec_body());
        }
        self.checksum = calculate_message_checksum(v.as_slice());
    }

    /// The message that a received packet of at least three bytes stands
    /// for: first byte the sync byte, second the type (`Sync` when the code
    /// is unknown), last the checksum, the bytes between them the payload.
    pub open spec fn spec_from_packet(d: Seq<u8>) -> (u8, MessageTypes, Seq<u8>, u8) {
        (
            d[0],
            match MessageTypes::spec_from_code(d[1]) {
                Some(t) => t,
                None => MessageTypes::Sync,
            },
            d.subrange(2, d.len() - 1),
            d[d.len() - 1],
        )
    }

    /// The fields of a message as plain values: sync, type, payload, checksum.
    pub open spec fn view_parts(self) -> (u8, MessageTypes, Seq<u8>, u8) {
        (self.sync, self.type1, self.payload@, self.checksum)
    }

    /// Splits a received packet into a message (see `spec_from_packet`).
    pub fn from_packet(d: Vec<u8>) -> (msg: BesMessage)
        requires
            d@.len() >= 3,
        ensures
            msg.view_parts() == Self::spec_from_packet(d@),
    {
        let n = d.len();
        let type1 = match MessageTypes::from_code(d[1]) {
            Some(t) => t,
            None => MessageTypes::Sync,
        };
        let payload = vstd::slice::slice_to_vec(vstd::slice::slice_subrange(d.as_slice(), 2, n - 1));
        BesMessage { sync: d[0], type1, payload, checksum: d[n - 1] }
    }
}

/// Every message survives a trip to its wire bytes and back.
pub proof fn lemma_message_bytes_roundtrip(msg: BesMessage)
    ensures
        msg.spec_bytes().len() >= 3,
        BesMessage::spec_from_packet(msg.spec_bytes()) == msg.view_parts(),
{
    let b = msg.spec_bytes();
    lemma_code_roundtrip(msg.type1, 0);
    assert(b.subrange(2, b.len() - 1) =~= msg.payload@);
}

/// A packet of at least three bytes whose type byte is a known code is
/// exactly the bytes of the message it stands for.
pub proof fn lemma_packet_bytes_roundtrip(d: Seq<u8>)
    requires
        d.len() >= 3,
        MessageTypes::spec_from_code(d[1]) is Some,
    ensures
        ({
            let v = BesMessage::spec_from_packet(d);
            seq![v.0, v.1.spec_code()] + v.2 + seq![v.3] == d
        }),
{
    let v = BesMessage::spec_from_packet(d);
    lemma_code_roundtrip(v.1, d[1]);
    assert(seq![v.0, v.1.spec_code()] + v.2 + seq![v.3] =~= d);
}

proof fn lemma_byte_sum_push(s: Seq<u8>, b: u8)
    ensures
        byte_sum(s.push(b)) == byte_sum(s) + b,
{
    assert(s.push(b).drop_last() =~= s);
}

/// Checksum of a byte sequence: `0xFF` minus the sum of the bytes modulo 256.
pub fn calculate_message_checksum(packet: &[u8]) -> (r: u8)
    ensures
        r == spec_checksum(packet@),
{
    let mut sum: u32 = 0;
    let mut i: usize = 0;
    while i < packet.len()
        invariant
            i <= packet@.len(),
            sum == byte_sum(packet@.take(i as int)) % 256,
        decreases packet@.len() - i,
    {
        let b = packet[i];
        let ghost old_sum = sum;
        sum = sum + b as u32;
        let ghost t: u32 = sum;
        sum = sum & 0xFF;
        proof {
            assert(packet@.take(i + 1) =~= packet@.take(i as int).push(b));
            lemma_byte_sum_push(packet@.take(i as int), b);
            assert(t & 0xFF == t % 256) by (bit_vector);
            vstd::arithmetic::div_mod::lemma_add_mod_noop(
                byte_sum(packet@.take(i as int)) as int,
                b as int,
                256,
            );
        }
        i = i + 1;
    }
    proof {
        assert(packet@.take(i as int) =~= packet@);
    }
    (0xFF - sum) as u8
}

/// Checks that the last byte of `packet` is the checksum of the others.
pub fn validate_packet_checksum(packet: &[u8]) -> (r: Result<(), BESLinkError>)
    requires
        packet@.len() >= 1,
    ensures
        r is Ok <==> checksum_is_valid(packet@),
        r matches Err(e) ==> e matches BESLinkError::BadChecksumError { failed_packet, got, wanted }
            && failed_packet@ == packet@
            && got == packet@.last()
            && wanted == spec_checksum(packet@.drop_last()),
{
    let n = packet.len();
    let checksum = calculate_message_checksum(vstd::slice::slice_subrange(packet, 0, n - 1));
    proof {
        assert(packet@.subrange(0, n - 1) =~= packet@.drop_last());
    }
    if checksum == packet[n - 1] {
        return Ok(());
    }
    Err(BESLinkError::BadChecksumError {
        failed_packet: vstd::slice::slice_to_vec(packet),
        got: packet[n - 1],
        wanted: checksum,
    })
}

/// A packet passes the checksum check exactly when all of its bytes,
/// checksum included, add up to `0xFF` modulo 256.
pub proof fn lemma_checksum_valid_iff_sum(packet: Seq<u8>)
    requires
        packet.len() >= 1,
    ensures
        checksum_is_valid(packet) <==> byte_sum(packet) % 256 == 255,
{
    let body = packet.drop_last();
    assert(body.push(packet.last()) =~= packet);
    lemma_byte_sum_push(body, packet.last());
    let s = byte_sum(body) as int;
    let c = packet.last() as int;
    vstd::arithmetic::div_mod::lemma_add_mod_noop(s, c, 256);
    vstd::arithmetic::div_mod::lemma_mod_bound(s, 256);
    assert(0 <= c < 256);
    if (s % 256 + c) % 256 == 255 {
        // c must be 255 - s % 256
        vstd::arithmetic::div_mod::lemma_small_mod((s % 256 + c) as nat, 256);
        if s % 256 + c >= 256 {
            vstd::arithmetic::div_mod::lemma_mod_sub_multiples_vanish((s % 256 + c) - 256, 256);
            vstd::arithmetic::div_mod::lemma_small_mod((s % 256 + c - 256) as nat, 256);
        }
    }
    if c == 255 - s % 256 {
        vstd::arithmetic::div_mod::lemma_small_mod(255, 256);
    }
}

/// The bytes of a message whose checksum was set pass the checksum check.
pub proof fn lemma_set_checksum_validates(msg: BesMessage)
    requires
        msg.has_valid_checksum(),
    ensures
        checksum_is_valid(msg.spec_bytes()),
{
    assert(msg.spec_bytes().drop_last() =~= msg.spec_body());
}

/// Sum over the byte values below `k` of each value times how often it
/// occurs in `m`.
pub open spec fn weighted_count(m: vstd::multiset::Multiset<u8>, k: nat) -> int
    decreases k,
{
    if k == 0 {
        0
    } else {
        weighted_count(m, (k - 1) as nat) + (k - 1) * m.count((k - 1) as u8)
    }
}

proof fn lemma_weighted_count_empty(k: nat)
    requires
        k <= 256,
    ensures
        weighted_count(vstd::multiset::Multiset::empty(), k) == 0,
    decreases k,
{
    if k > 0 {
        lemma_weighted_count_empty((k - 1) as nat);
    }
}

proof fn lemma_weighted_count_insert(m: vstd::multiset::Multiset<u8>, x: u8, k: nat)
    requires
        k <= 256,
    ensures
        weighted_count(m.insert(x), k) == weighted_count(m, k) + (if x < k { x as int } else { 0 }),
    decreases k,
{
    broadcast use vstd::multiset::group_multiset_axioms;

    if k > 0 {
        lemma_weighted_count_insert(m, x, (k - 1) as nat);
        let y = (k - 1) as u8;
        let c = m.count(y) as int;
        let j = (k - 1) as int;
        if y == x {
            assert(m.insert(x).count(y) == c + 1);
            assert(j * (c + 1) == j * c + j) by (nonlinear_arith);
        } else {
            assert(m.insert(x).count(y) == c);
        }
    }
}

proof fn lemma_byte_sum_weighted(s: Seq<u8>)
    ensures
        byte_sum(s) == weighted_count(s.to_multiset(), 256),
    decreases s.len(),
{
    broadcast use vstd::seq_lib::group_to_multiset_ensures;

    if s.len() == 0 {
        assert(s.to_multiset() =~= vstd::multiset::Multiset::empty());
        lemma_weighted_count_empty(256);
    } else {
        let init = s.drop_last();
        lemma_byte_sum_weighted(init);
        assert(init.push(s.last()) =~= s);
        lemma_byte_sum_push(init, s.last());
        lemma_weighted_count_insert(init.to_multiset(), s.last(), 256);
    }
}

/// The checksum does not depend on the order of the bytes: two byte
/// sequences that are permutations of each other (hold the same bytes the
/// same number of times) have the same checksum; and zero bytes added at
/// the end change nothing.
pub proof fn lemma_checksum_order_independent(p: Seq<u8>, q: Seq<u8>, zeros: nat)
    requires
        p.to_multiset() =~= q.to_multiset(),
    ensures
        spec_checksum(p) == spec_checksum(q),
        spec_checksum(p + Seq::new(zeros, |i: int| 0u8)) == spec_checksum(p),
    decreases zeros,
{
    lemma_byte_sum_weighted(p);
    lemma_byte_sum_weighted(q);
    if zeros > 0 {
        let z = Seq::new(zeros, |i: int| 0u8);
        let shorter = Seq::new((zeros - 1) as nat, |i: int| 0u8);
        lemma_checksum_order_independent(p, q, (zeros - 1) as nat);
        assert(p + z =~= (p + shorter).push(0u8));
        lemma_byte_sum_push(p + shorter, 0u8);
    } else {
        assert(p + Seq::new(zeros, |i: int| 0u8) =~= p);
    }
}

} // verus!
