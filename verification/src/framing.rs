use vstd::prelude::*;
use crate::errors::BESLinkError;
use crate::message::{
    BesMessage, MessageTypes, BES_SYNC, checksum_is_valid, spec_checksum, validate_packet_checksum,
    lemma_set_checksum_validates, lemma_message_bytes_roundtrip,
};

verus! {

/// How many bytes the packet that starts with `p` has in all: four until
/// the length byte (the fourth) has arrived, then five plus that byte,
/// taken modulo 256 as the byte arithmetic of the link does.
pub open spec fn spec_expected_len(p: Seq<u8>) -> int {
    if p.len() < 4 {
        4
    } else {
        ((5 + p[3] as int) % 256) as int
    }
}

/// The bytes gathered so far make up a whole packet.
pub open spec fn frame_is_complete(p: Seq<u8>) -> bool {
    p.len() >= spec_expected_len(p)
}

/// The packet after byte `b` arrived: bytes before the first sync byte
/// are dropped, every later byte is kept.
pub open spec fn spec_accept(p: Seq<u8>, b: u8) -> Seq<u8> {
    if p.len() == 0 && b != BES_SYNC {
        p
    } else {
        p.push(b)
    }
}

/// The packet after the bytes of `input` arrived one by one, stopping as
/// soon as the packet is whole.
pub open spec fn spec_feed(p: Seq<u8>, input: Seq<u8>) -> Seq<u8>
    decreases input.len(),
{
    if frame_is_complete(p) || input.len() == 0 {
        p
    } else {
        spec_feed(spec_accept(p, input[0]), input.drop_first())
    }
}

/// How many bytes of `input` are taken before the packet is whole.
pub open spec fn spec_feed_consumed(p: Seq<u8>, input: Seq<u8>) -> nat
    decreases input.len(),
{
    if frame_is_complete(p) || input.len() == 0 {
        0
    } else {
        1 + spec_feed_consumed(spec_accept(p, input[0]), input.drop_first())
    }
}

/// Gathers the bytes of one packet as they come off the link.
pub struct PacketAssembler {
    packet: Vec<u8>,
}

impl View for PacketAssembler {
    type V = Seq<u8>;

    closed spec fn view(&self) -> Seq<u8> {
        self.packet@
    }
}

impl PacketAssembler {
    /// An assembler that has seen no byte yet.
    pub fn new() -> (r: PacketAssembler)
        ensures
            r@ == Seq::<u8>::empty(),
    {
        PacketAssembler { packet: Vec::new() }
    }

    /// The bytes gathered so far.
    pub fn bytes(&self) -> (r: &Vec<u8>)
        ensures
            r@ == self@,
    {
        &self.packet
    }

    /// How many bytes the packet will have (see `spec_expected_len`).
    pub fn expected_len(&self) -> (n: usize)
        ensures
            n == spec_expected_len(self@),
    {
        if self.packet.len() < 4 {
            4
        } else {
            ((5u16 + self.packet[3] as u16) % 256) as usize
        }
    }

    /// Whether the packet is whole.
    pub fn is_complete(&self) -> (r: bool)
        ensures
            r == frame_is_complete(self@),
    {
        self.packet.len() >= self.expected_len()
    }

    /// Takes one byte from the link (see `spec_accept`).
    pub fn push_byte(&mut self, b: u8)
        ensures
            final(self)@ == spec_accept(old(self)@, b),
    {
        if !(self.packet.len() == 0 && b != BES_SYNC) {
            self.packet.push(b);
        }
    }

    /// Checks the checksum of a whole packet and splits it into a message.
    pub fn finish(self) -> (r: Result<BesMessage, BESLinkError>)
        requires
            frame_is_complete(self@),
        ensures
            r is Ok <==> checksum_is_valid(self@),
            r matches Ok(m) ==> m.view_parts() == BesMessage::spec_from_packet(self@),
            r matches Err(e) ==> e matches BESLinkError::BadChecksumError { failed_packet, got, wanted }
                && failed_packet@ == self@
                && got == self@.last()
                && wanted == spec_checksum(self@.drop_last()),
    {
        match validate_packet_checksum(self.packet.as_slice()) {
            Ok(_) => Ok(BesMessage::from_packet(self.packet)),
            Err(e) => Err(e),
        }
    }
}

/// A message that the link frames as one packet: it starts with the sync
/// byte and its second payload byte counts the payload bytes after it
/// (at most 250, so that the packet length fits the byte arithmetic).
pub open spec fn is_well_framed(msg: BesMessage) -> bool {
    &&& msg.sync == BES_SYNC
    &&& 2 <= msg.payload@.len() <= 252
    &&& msg.payload@[1] as int == msg.payload@.len() - 2
}

/// No byte of `s` is the sync byte.
pub open spec fn free_of_sync(s: Seq<u8>) -> bool {
    forall|i: int| 0 <= i < s.len() ==> s[i] != BES_SYNC
}

proof fn lemma_feed_skips_noise(noise: Seq<u8>, rest: Seq<u8>)
    requires
        free_of_sync(noise),
    ensures
        spec_feed(Seq::empty(), noise + rest) == spec_feed(Seq::empty(), rest),
        spec_feed_consumed(Seq::empty(), noise + rest) == noise.len() + spec_feed_consumed(
            Seq::empty(),
            rest,
        ),
    decreases noise.len(),
{
    if noise.len() > 0 {
        let e = Seq::<u8>::empty();
        assert((noise + rest)[0] == noise[0]);
        assert((noise + rest).drop_first() =~= noise.drop_first() + rest);
        assert(spec_accept(e, noise[0]) == e);
        lemma_feed_skips_noise(noise.drop_first(), rest);
    } else {
        assert(noise + rest =~= rest);
    }
}

proof fn lemma_feed_prefix(bytes: Seq<u8>, k: int, rest: Seq<u8>)
    requires
        0 <= k <= bytes.len(),
        bytes.len() >= 4,
        bytes[0] == BES_SYNC,
        spec_expected_len(bytes) == bytes.len(),
    ensures
        spec_feed(bytes.take(k), bytes.skip(k) + rest) == bytes,
        spec_feed_consumed(bytes.take(k), bytes.skip(k) + rest) == bytes.len() - k,
    decreases bytes.len() - k,
{
    let p = bytes.take(k);
    let input = bytes.skip(k) + rest;
    if k == bytes.len() {
        assert(p =~= bytes);
    } else {
        // the packet is not whole before its last byte
        if k >= 4 {
            assert(p[3] == bytes[3]);
            assert(spec_expected_len(p) == spec_expected_len(bytes));
        }
        assert(!frame_is_complete(p));
        assert(input[0] == bytes[k]);
        assert(spec_accept(p, bytes[k]) =~= bytes.take(k + 1));
        assert(input.drop_first() =~= bytes.skip(k + 1) + rest);
        lemma_feed_prefix(bytes, k + 1, rest);
    }
}

/// What a read gives back of a write: the bytes of a well-framed message
/// with a valid checksum, fed to an empty assembler after any bytes that
/// hold no sync byte and before any further bytes, make up exactly that
/// message's packet, taken in full and nothing past it; the packet passes
/// the checksum check and splits back into the message.
pub proof fn lemma_assemble_sent_message(msg: BesMessage, noise: Seq<u8>, rest: Seq<u8>)
    requires
        is_well_framed(msg),
        msg.has_valid_checksum(),
        free_of_sync(noise),
    ensures
        spec_feed(Seq::empty(), noise + msg.spec_bytes() + rest) == msg.spec_bytes(),
        spec_feed_consumed(Seq::empty(), noise + msg.spec_bytes() + rest) == noise.len()
            + msg.spec_bytes().len(),
        frame_is_complete(msg.spec_bytes()),
        checksum_is_valid(msg.spec_bytes()),
        BesMessage::spec_from_packet(msg.spec_bytes()) == msg.view_parts(),
{
    let bytes = msg.spec_bytes();
    assert(bytes[3] == msg.payload@[1]);
    assert(bytes.len() == msg.payload@.len() + 3);
    vstd::arithmetic::div_mod::lemma_small_mod((5 + bytes[3]) as nat, 256);
    assert(bytes.take(0) =~= Seq::<u8>::empty());
    assert(bytes.skip(0) =~= bytes);
    lemma_feed_prefix(bytes, 0, rest);
    assert(noise + bytes + rest =~= noise + (bytes + rest));
    lemma_feed_skips_noise(noise, bytes + rest);
    lemma_set_checksum_validates(msg);
    lemma_message_bytes_roundtrip(msg);
}

/// A reply to a flash read must be of type `FlashRead`; any other type is
/// refused with `InvalidArgs`.
pub fn check_flash_read_reply(reply: &BesMessage) -> (r: Result<(), BESLinkError>)
    ensures
        r is Ok <==> reply.type1 == MessageTypes::FlashRead,
        r matches Err(e) ==> e is InvalidArgs,
{
    if reply.type1 != MessageTypes::FlashRead {
        return Err(BESLinkError::InvalidArgs);
    }
    Ok(())
}

/// The data that follows a flash read reply, gathered chunk by chunk as it
/// comes off the link until at least the expected number of bytes arrived.
pub struct TrailingData {
    data: Vec<u8>,
    expected: usize,
}

impl View for TrailingData {
    type V = (Seq<u8>, nat);

    /// The bytes gathered so far and how many are expected.
    closed spec fn view(&self) -> (Seq<u8>, nat) {
        (self.data@, self.expected as nat)
    }
}

impl TrailingData {
    /// Nothing gathered yet; `expected` bytes are awaited.
    pub fn new(expected: usize) -> (r: TrailingData)
        ensures
            r@ == (Seq::<u8>::empty(), expected as nat),
    {
        TrailingData { data: Vec::new(), expected }
    }

    /// Whether at least the expected number of bytes arrived.
    pub fn is_complete(&self) -> (r: bool)
        ensures
            r == (self@.0.len() >= self@.1),
    {
        self.data.len() >= self.expected
    }

    /// Adds the bytes of one read (possibly none) after those gathered.
    pub fn push_chunk(&mut self, chunk: &[u8])
        ensures
            final(self)@ == (old(self)@.0 + chunk@, old(self)@.1),
    {
        let mut i: usize = 0;
        let ghost start = self.data@;
        while i < chunk.len()
            invariant
                i <= chunk@.len(),
                self.data@ == start + chunk@.take(i as int),
                self.expected == old(self).expected,
                start == old(self).data@,
            decreases chunk@.len() - i,
        {
            self.data.push(chunk[i]);
            assert(chunk@.take(i + 1) =~= chunk@.take(i as int).push(chunk@[i as int]));
            i = i + 1;
        }
        assert(chunk@.take(i as int) =~= chunk@);
    }

    /// The bytes gathered.
    pub fn into_data(self) -> (r: Vec<u8>)
        ensures
            r@ == self@.0,
    {
        self.data
    }
}

/// A reply waited for by its type: the one of type `wanted` ends the wait,
/// a reply of any other type is skipped.
pub fn is_awaited_reply(wanted: MessageTypes, reply: &BesMessage) -> (r: bool)
    ensures
        r == (reply.type1 == wanted),
{
    reply.type1 == wanted
}

} // verus!
