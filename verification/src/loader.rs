use vstd::prelude::*;
use crate::errors::BESLinkError;
use crate::framing::is_well_framed;
use crate::le::{le_u32_value, lemma_le_roundtrip, spec_u32_le_bytes, push_u32_le};
use crate::message::{BesMessage, MessageTypes, BES_SYNC, byte_sum, spec_checksum};
use crate::programmer::{
    ProgrammerBlobInfo, crc32_iso_hdlc, parse_programmer_blob, parsed_blob_shape, spec_blob_info, spec_payload_offset,
    spec_payload_length, streamed_range,
};

verus! {

/// A message with the sync byte, the given type and payload, and a valid
/// checksum.
pub open spec fn is_message(m: BesMessage, t: MessageTypes, payload: Seq<u8>) -> bool {
    &&& m.sync == BES_SYNC
    &&& m.type1 == t
    &&& m.payload@ == payload
    &&& m.has_valid_checksum()
}

/// The payload announcing a programmer: `00 0C`, then the entry address,
/// the payload length and the CRC-32, each as four little-endian bytes.
pub open spec fn start_programmer_payload(info: ProgrammerBlobInfo) -> Seq<u8> {
    seq![0x00u8, 0x0Cu8] + spec_u32_le_bytes(info.entry_address) + spec_u32_le_bytes(
        info.payload_length,
    ) + spec_u32_le_bytes(info.start_crc32)
}

/// The payload that opens the stream of programmer bytes.
pub open spec fn stream_start_payload() -> Seq<u8> {
    seq![0xA2u8, 0x03u8, 0x00u8, 0x00u8, 0x00u8]
}

fn new_message(type1: MessageTypes, payload: Vec<u8>) -> (m: BesMessage)
    ensures
        is_message(m, type1, payload@),
{
    let mut m = BesMessage { sync: BES_SYNC, type1, payload, checksum: 0x00 };
    m.set_checksum();
    m
}

/// The `StartProgrammer` message that announces a programmer blob.
pub fn start_programmer_message(info: &ProgrammerBlobInfo) -> (m: BesMessage)
    ensures
        is_message(m, MessageTypes::StartProgrammer, start_programmer_payload(*info)),
        is_well_framed(m),
        m.payload@.len() == 14,
        m.payload@[0] == 0x00 && m.payload@[1] == 0x0C,
        le_u32_value(m.payload@.subrange(2, 6)) == info.entry_address,
        le_u32_value(m.payload@.subrange(6, 10)) == info.payload_length,
        le_u32_value(m.payload@.subrange(10, 14)) == info.start_crc32,
{
    let mut payload: Vec<u8> = Vec::new();
    payload.push(0x00);
    payload.push(0x0C);
    push_u32_le(&mut payload, info.entry_address);
    push_u32_le(&mut payload, info.payload_length);
    push_u32_le(&mut payload, info.start_crc32);
    proof {
        assert(payload@ =~= start_programmer_payload(*info));
        lemma_announcement_carries_info(*info);
    }
    new_message(MessageTypes::StartProgrammer, payload)
}

/// The `ProgrammerRunning` message sent before the programmer bytes.
pub fn programmer_stream_start_message() -> (m: BesMessage)
    ensures
        is_message(m, MessageTypes::ProgrammerRunning, stream_start_payload()),
        is_well_framed(m),
{
    let payload = vec![0xA2, 0x03, 0x00, 0x00, 0x00];
    proof {
        assert(payload@ =~= stream_start_payload());
    }
    new_message(MessageTypes::ProgrammerRunning, payload)
}

/// The acknowledgement of a runtime sync for stage `stage`.
pub fn get_sync_ack_message(stage: u8) -> (m: BesMessage)
    ensures
        is_message(m, MessageTypes::Sync, seq![stage, 0x01u8, 0x01u8]),
        is_well_framed(m),
{
    let payload = vec![stage, 0x01, 0x01];
    proof {
        assert(payload@ =~= seq![stage, 0x01u8, 0x01u8]);
    }
    new_message(MessageTypes::Sync, payload)
}

/// The sync message sent while trying to catch the boot loader; its
/// checksum is the constant `0xEF`, which is the valid one.
pub fn bootloader_sync_message() -> (m: BesMessage)
    ensures
        is_message(m, MessageTypes::Sync, seq![0x00u8, 0x01u8, 0x01u8]),
        is_well_framed(m),
        m.checksum == 0xEF,
{
    let payload = vec![0x00, 0x01, 0x01];
    let m = BesMessage { sync: BES_SYNC, type1: MessageTypes::Sync, payload, checksum: 0xEF };
    proof {
        assert(m.payload@ =~= seq![0x00u8, 0x01u8, 0x01u8]);
        assert(m.spec_body() =~= seq![0xBEu8, 0x50u8, 0x00u8, 0x01u8, 0x01u8]);
        reveal_with_fuel(byte_sum, 6);
        assert(spec_checksum(seq![0xBEu8, 0x50u8, 0x00u8, 0x01u8, 0x01u8]) == 0xEF);
    }
    m
}

/// The `ProgrammerStart` message that starts a loaded programmer; its
/// checksum is the constant `0xEB`, which is the valid one.
pub fn programmer_start_message() -> (m: BesMessage)
    ensures
        is_message(m, MessageTypes::ProgrammerStart, seq![0x01u8, 0x00u8]),
        is_well_framed(m),
        m.checksum == 0xEB,
{
    let payload = vec![0x01, 0x00];
    let m = BesMessage {
        sync: BES_SYNC,
        type1: MessageTypes::ProgrammerStart,
        payload,
        checksum: 0xEB,
    };
    proof {
        assert(m.payload@ =~= seq![0x01u8, 0x00u8]);
        assert(m.spec_body() =~= seq![0xBEu8, 0x55u8, 0x01u8, 0x00u8]);
        reveal_with_fuel(byte_sum, 5);
        assert(spec_checksum(seq![0xBEu8, 0x55u8, 0x01u8, 0x00u8]) == 0xEB);
    }
    m
}

/// A runtime sync that asks to be acknowledged: a `Sync` message with at
/// least three payload bytes whose third (the state) is zero.
pub open spec fn wants_sync_ack(reply: BesMessage) -> bool {
    &&& reply.type1 == MessageTypes::Sync
    &&& reply.payload@.len() >= 3
    &&& reply.payload@[2] == 0
}

/// The acknowledgement owed to a reply, if it is a runtime sync that asks
/// for one; it echoes the stage (the first payload byte).
pub fn runtime_sync_ack(reply: &BesMessage) -> (r: Option<BesMessage>)
    ensures
        r is Some <==> wants_sync_ack(*reply),
        r matches Some(ack) ==> is_message(ack, MessageTypes::Sync, seq![reply.payload@[0], 0x01u8, 0x01u8]),
{
    if reply.type1 == MessageTypes::Sync && reply.payload.len() >= 3 {
        let stage = reply.payload[0];
        let state = reply.payload[2];
        if state == 0x00 {
            return Some(get_sync_ack_message(stage));
        }
    }
    None
}

/// The error for a reply whose status byte is not the expected one.
pub open spec fn is_bad_response(r: Result<bool, BESLinkError>, reply: BesMessage, got: u8, wanted: u8) -> bool {
    r matches Err(BESLinkError::BadResponseCode { failed_packet, got: g, wanted: w })
        && failed_packet@ == reply.spec_bytes() && g == got && w == wanted
}

/// Where loading a programmer stands.
#[derive(Debug, Clone, Copy, PartialEq, Eq, Structural)]
pub enum LoadPhase {
    /// The programmer was announced; waiting for the boot ROM's answer.
    AwaitStartReply,
    /// The programmer bytes were streamed; waiting for the boot ROM to
    /// confirm them.
    AwaitRunningReply,
    /// Loading is over.
    Finished,
}

/// What the link should do next while a programmer is loaded.
#[derive(Debug)]
pub enum LoadAction {
    /// Read the next message and hand it to `on_reply`.
    ReadNext,
    /// Send this acknowledgement, then read the next message.
    AckThenReadNext(BesMessage),
    /// Send `message`, write the blob bytes `start..end` as they are, then
    /// sync for a `ProgrammerRunning` reply and hand it to `on_reply`.
    StreamProgrammer { message: BesMessage, start: usize, end: usize },
    /// Loading is over: `Ok(true)` if the programmer was already running,
    /// `Ok(false)` if it was loaded now.
    Finish(Result<bool, BESLinkError>),
}

/// The decisions taken while a programmer blob is loaded into the boot ROM.
#[derive(Debug)]
pub struct ProgrammerLoader {
    phase: LoadPhase,
    info: ProgrammerBlobInfo,
    image_len: usize,
}

impl ProgrammerLoader {
    #[verifier::type_invariant]
    spec fn well_formed(self) -> bool {
        &&& self.info.payload_offset >= 12
        &&& self.info.payload_offset + 4 < self.image_len
    }

    /// Where loading stands.
    pub closed spec fn spec_phase(self) -> LoadPhase {
        self.phase
    }

    /// What the blob announced.
    pub closed spec fn spec_info(self) -> ProgrammerBlobInfo {
        self.info
    }

    /// The length of the blob.
    pub closed spec fn spec_image_len(self) -> int {
        self.image_len as int
    }

    /// Where loading stands.
    pub fn phase(&self) -> (p: LoadPhase)
        ensures
            p == self.spec_phase(),
    {
        self.phase
    }

    /// What the blob announced.
    pub fn info(&self) -> (i: ProgrammerBlobInfo)
        ensures
            i == self.spec_info(),
    {
        self.info
    }

    /// Parses the blob and gives the loader with the `StartProgrammer`
    /// message to send first. A blob without a payload is refused with
    /// `InvalidArgs`.
    pub fn begin(programmer_binary: &[u8]) -> (r: Result<(ProgrammerLoader, BesMessage), BESLinkError>)
        ensures
            match spec_payload_offset(programmer_binary@) {
                Some(off) => r matches Ok((loader, msg)) && {
                    &&& loader.spec_phase() == LoadPhase::AwaitStartReply
                    &&& loader.spec_image_len() == programmer_binary@.len()
                    &&& spec_blob_info(
                        programmer_binary@,
                        off,
                        crc32_iso_hdlc(streamed_range(programmer_binary@, off)),
                        loader.spec_info(),
                    )
                    &&& is_message(
                        msg,
                        MessageTypes::StartProgrammer,
                        start_programmer_payload(loader.spec_info()),
                    )
                    &&& parsed_blob_shape(programmer_binary@, loader.spec_info())
                    &&& le_u32_value(msg.payload@.subrange(2, 6)) == loader.spec_info().entry_address
                    &&& le_u32_value(msg.payload@.subrange(6, 10)) == loader.spec_info().payload_length
                    &&& le_u32_value(msg.payload@.subrange(10, 14)) == loader.spec_info().start_crc32
                },
                None => r matches Err(e) && e is InvalidArgs,
            },
    {
        let info = parse_programmer_blob(programmer_binary)?;
        let msg = start_programmer_message(&info);
        let loader = ProgrammerLoader {
            phase: LoadPhase::AwaitStartReply,
            info,
            image_len: programmer_binary.len(),
        };
        Ok((loader, msg))
    }

    /// Takes the next reply of the boot ROM and says what to do.
    ///
    /// While the start reply is awaited: a `StartProgrammer` reply with
    /// status 0 leads to streaming the programmer; one with another status,
    /// or none, ends with `BadResponseCode` (wanted 0); `ProgrammerInit`
    /// means the programmer already runs; a runtime sync that asks for it is
    /// acknowledged; anything else is ignored. The reply to the stream must
    /// start with `A2 01`, else loading ends with `BadResponseCode` (wanted 1,
    /// got the second payload byte or 0).
    pub fn on_reply(&mut self, reply: &BesMessage) -> (action: LoadAction)
        requires
            old(self).spec_phase() != LoadPhase::Finished,
        ensures
            final(self).spec_info() == old(self).spec_info(),
            final(self).spec_image_len() == old(self).spec_image_len(),
            old(self).spec_phase() == LoadPhase::AwaitStartReply ==> {
                let p = reply.payload@;
                if reply.type1 == MessageTypes::StartProgrammer {
                    if p.len() > 0 && p[0] == 0 {
                        &&& final(self).spec_phase() == LoadPhase::AwaitRunningReply
                        &&& action matches LoadAction::StreamProgrammer { message, start, end }
                        &&& is_message(message, MessageTypes::ProgrammerRunning, stream_start_payload())
                        &&& start == old(self).spec_info().payload_offset - 12
                        &&& end == old(self).spec_image_len() - 4
                    } else {
                        &&& final(self).spec_phase() == LoadPhase::Finished
                        &&& action matches LoadAction::Finish(res)
                        &&& is_bad_response(res, *reply, if p.len() > 0 { p[0] } else { 0 }, 0)
                    }
                } else if reply.type1 == MessageTypes::ProgrammerInit {
                    &&& final(self).spec_phase() == LoadPhase::Finished
                    &&& action matches LoadAction::Finish(Ok(true))
                } else if wants_sync_ack(*reply) {
                    &&& final(self).spec_phase() == LoadPhase::AwaitStartReply
                    &&& action matches LoadAction::AckThenReadNext(ack)
                    &&& is_message(ack, MessageTypes::Sync, seq![p[0], 0x01u8, 0x01u8])
                } else {
                    &&& final(self).spec_phase() == LoadPhase::AwaitStartReply
                    &&& action matches LoadAction::ReadNext
                }
            },
            old(self).spec_phase() == LoadPhase::AwaitRunningReply ==> {
                let p = reply.payload@;
                &&& final(self).spec_phase() == LoadPhase::Finished
                &&& if p.len() >= 2 && p[0] == 0xA2 && p[1] == 0x01 {
                    action matches LoadAction::Finish(Ok(false))
                } else {
                    action matches LoadAction::Finish(res)
                        && is_bad_response(res, *reply, if p.len() >= 2 { p[1] } else { 0 }, 1)
                }
            },
    {
        proof {
            use_type_invariant(&*self);
        }
        match self.phase {
            LoadPhase::AwaitStartReply => {
                if reply.type1 == MessageTypes::StartProgrammer {
                    if reply.payload.len() == 0 || reply.payload[0] != 0x00 {
                        let got = if reply.payload.len() > 0 { reply.payload[0] } else { 0 };
                        self.phase = LoadPhase::Finished;
                        return LoadAction::Finish(Err(BESLinkError::BadResponseCode {
                            failed_packet: reply.to_vec(),
                            got,
                            wanted: 0,
                        }));
                    }
                    self.phase = LoadPhase::AwaitRunningReply;
                    LoadAction::StreamProgrammer {
                        message: programmer_stream_start_message(),
                        start: self.info.payload_offset - 12,
                        end: self.image_len - 4,
                    }
                } else if reply.type1 == MessageTypes::ProgrammerInit {
                    self.phase = LoadPhase::Finished;
                    LoadAction::Finish(Ok(true))
                } else {
                    match runtime_sync_ack(reply) {
                        Some(ack) => LoadAction::AckThenReadNext(ack),
                        None => LoadAction::ReadNext,
                    }
                }
            },
            LoadPhase::AwaitRunningReply => {
                self.phase = LoadPhase::Finished;
                if reply.payload.len() < 2 || reply.payload[0] != 0xA2 || reply.payload[1] != 0x01 {
                    let got = if reply.payload.len() >= 2 { reply.payload[1] } else { 0 };
                    return LoadAction::Finish(Err(BESLinkError::BadResponseCode {
                        failed_packet: reply.to_vec(),
                        got,
                        wanted: 0x01,
                    }));
                }
                LoadAction::Finish(Ok(false))
            },
            LoadPhase::Finished => LoadAction::ReadNext,
        }
    }
}

/// The bytes that the loader streams are exactly the bytes whose CRC-32 it
/// announced, they run from the leader seed up to the trailing entry
/// address, and their count is the announced payload length (modulo 2^32).
pub proof fn lemma_stream_matches_announcement(b: Seq<u8>, crc: u32, info: ProgrammerBlobInfo)
    requires
        spec_payload_offset(b) is Some,
        spec_blob_info(b, spec_payload_offset(b)->0, crc, info),
    ensures
        ({
            let off = info.payload_offset as int;
            let streamed = b.subrange(off - 12, b.len() - 4);
            &&& 12 <= off < b.len() - 4
            &&& streamed == streamed_range(b, off)
            &&& streamed.len() % 0x1_0000_0000 == info.payload_length as int
            &&& streamed.subrange(0, 4) == info.leader_seed@
        }),
{
    let off = info.payload_offset as int;
    let streamed = b.subrange(off - 12, b.len() - 4);
    assert(streamed.subrange(0, 4) =~= b.subrange(off - 12, off - 8));
}

/// What to do with a reply while a started programmer initialises.
#[derive(Debug)]
pub enum StartReplyAction {
    /// The programmer reported `ProgrammerInit`: starting is done.
    Initialized,
    /// Send this acknowledgement, then read the next message.
    AckThenReadNext(BesMessage),
    /// Ignore the reply and read the next message.
    ReadNext,
}

/// Decides on a reply received after the `ProgrammerStart` message:
/// `ProgrammerInit` ends the wait, a runtime sync that asks for it is
/// acknowledged, anything else is ignored.
pub fn programmer_start_reply(reply: &BesMessage) -> (r: StartReplyAction)
    ensures
        reply.type1 == MessageTypes::ProgrammerInit ==> r is Initialized,
        reply.type1 != MessageTypes::ProgrammerInit && wants_sync_ack(*reply) ==> (r matches StartReplyAction::AckThenReadNext(ack)
            && is_message(ack, MessageTypes::Sync, seq![reply.payload@[0], 0x01u8, 0x01u8])),
        reply.type1 != MessageTypes::ProgrammerInit && !wants_sync_ack(*reply) ==> r is ReadNext,
{
    if reply.type1 == MessageTypes::ProgrammerInit {
        return StartReplyAction::Initialized;
    }
    match runtime_sync_ack(reply) {
        Some(ack) => StartReplyAction::AckThenReadNext(ack),
        None => StartReplyAction::ReadNext,
    }
}

/// How many sync messages are sent before giving up on the boot loader.
pub const BOOTLOADER_SYNC_ATTEMPTS: u32 = 100;

/// The outcome of one attempt to catch the boot loader.
#[derive(Debug)]
pub enum BootloaderSyncStep {
    /// The boot loader answered with a `Sync` message.
    Synced,
    /// Send the sync message again; this is the number of the next attempt.
    TryAgain(u32),
    /// All attempts failed.
    GiveUp(BESLinkError),
}

/// The decision after attempt `attempt`, given the type of the reply that
/// was read, or `None` when reading failed: a `Sync` reply means success;
/// otherwise the next attempt follows, up to `BOOTLOADER_SYNC_ATTEMPTS`,
/// after which the sync fails with `InvalidArgs`.
pub open spec fn spec_sync_step(attempt: int, reply: Option<MessageTypes>) -> BootloaderSyncStep {
    if reply == Some(MessageTypes::Sync) {
        BootloaderSyncStep::Synced
    } else if attempt < BOOTLOADER_SYNC_ATTEMPTS {
        BootloaderSyncStep::TryAgain((attempt + 1) as u32)
    } else {
        BootloaderSyncStep::GiveUp(BESLinkError::InvalidArgs)
    }
}

/// Decides after attempt `attempt` (counted from 1); see `spec_sync_step`.
pub fn bootloader_sync_step(attempt: u32, reply: Option<MessageTypes>) -> (r: BootloaderSyncStep)
    requires
        1 <= attempt <= BOOTLOADER_SYNC_ATTEMPTS,
    ensures
        r == spec_sync_step(attempt as int, reply),
{
    match reply {
        Some(MessageTypes::Sync) => BootloaderSyncStep::Synced,
        _ => {
            if attempt < BOOTLOADER_SYNC_ATTEMPTS {
                BootloaderSyncStep::TryAgain(attempt + 1)
            } else {
                BootloaderSyncStep::GiveUp(BESLinkError::InvalidArgs)
            }
        },
    }
}

/// Runs the sync decisions from attempt `attempt` on, with `replies[k - 1]`
/// the reply read after attempt `k`: `Some(k)` if attempt `k` catches the
/// boot loader, `None` if the sync gives up (or the replies run out).
pub open spec fn sync_run(replies: Seq<Option<MessageTypes>>, attempt: int) -> Option<int>
    decreases BOOTLOADER_SYNC_ATTEMPTS + 1 - attempt,
{
    if attempt < 1 || attempt > BOOTLOADER_SYNC_ATTEMPTS || attempt > replies.len() {
        None
    } else {
        match spec_sync_step(attempt, replies[attempt - 1]) {
            BootloaderSyncStep::Synced => Some(attempt),
            BootloaderSyncStep::TryAgain(next) => sync_run(replies, next as int),
            BootloaderSyncStep::GiveUp(_) => None,
        }
    }
}

/// Catching the boot loader succeeds at the first attempt whose reply is a
/// `Sync` message, if that attempt is one of the first
/// `BOOTLOADER_SYNC_ATTEMPTS`; otherwise the sync gives up.
pub proof fn lemma_sync_run_first_sync(replies: Seq<Option<MessageTypes>>, attempt: int)
    requires
        1 <= attempt,
    ensures
        sync_run(replies, attempt) matches Some(k) ==> {
            &&& attempt <= k <= BOOTLOADER_SYNC_ATTEMPTS
            &&& replies[k - 1] == Some(MessageTypes::Sync)
            &&& forall|i: int| attempt - 1 <= i < k - 1 ==> #[trigger] replies[i] != Some(MessageTypes::Sync)
        },
        sync_run(replies, attempt) is None ==> forall|i: int|
            attempt - 1 <= i < BOOTLOADER_SYNC_ATTEMPTS && i < replies.len() ==> #[trigger] replies[i] != Some(
                MessageTypes::Sync,
            ),
    decreases BOOTLOADER_SYNC_ATTEMPTS + 1 - attempt,
{
    if attempt <= BOOTLOADER_SYNC_ATTEMPTS && attempt <= replies.len() {
        lemma_sync_run_first_sync(replies, attempt + 1);
    }
}

/// The announcement carries the blob information unchanged: its payload is
/// `00 0C` followed by three little-endian numbers, which read back as the
/// entry address, the payload length and the CRC-32, for every blob
/// information.
pub proof fn lemma_announcement_carries_info(info: ProgrammerBlobInfo)
    ensures
        ({
            let p = start_programmer_payload(info);
            &&& p.len() == 14
            &&& p[0] == 0x00 && p[1] == 0x0C
            &&& le_u32_value(p.subrange(2, 6)) == info.entry_address
            &&& le_u32_value(p.subrange(6, 10)) == info.payload_length
            &&& le_u32_value(p.subrange(10, 14)) == info.start_crc32
        }),
{
    let p = start_programmer_payload(info);
    lemma_le_roundtrip(info.entry_address, Seq::empty());
    lemma_le_roundtrip(info.payload_length, Seq::empty());
    lemma_le_roundtrip(info.start_crc32, Seq::empty());
    assert(p.subrange(2, 6) =~= spec_u32_le_bytes(info.entry_address));
    assert(p.subrange(6, 10) =~= spec_u32_le_bytes(info.payload_length));
    assert(p.subrange(10, 14) =~= spec_u32_le_bytes(info.start_crc32));
}

} // verus!
