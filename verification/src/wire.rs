//! The wire protocol: framed messages and the payloads of each message type.

use crate::bytes;
use crate::error;
use crate::error::CoreError;
use crate::hash;
use crate::hash::Hash32;
use crate::text;
use vstd::prelude::*;
use vstd::slice::{slice_subrange, slice_to_vec};
use vstd::string::StringExecFns;

verus! {

/// Mainnet magic bytes.
pub const MAGIC: [u8; 4] = [0xC4, 0x48, 0x52, 0x4F];

/// Testnet magic bytes.
pub const TESTNET_MAGIC: [u8; 4] = [0xC4, 0x54, 0x45, 0x53];

/// Regtest magic bytes.
pub const REGTEST_MAGIC: [u8; 4] = [0xC4, 0x52, 0x54, 0x54];

/// Largest payload that a frame may announce.
pub const MAX_MESSAGE_SIZE: usize = 4_194_304;

/// Bytes of a frame before its payload: magic, type, length and checksum.
pub const HEADER_SIZE: usize = 13;

/// Most entries that one Inv or GetData message may hold.
pub const MAX_INV_ENTRIES: usize = 100_000;

/// Most inventory entries that are acted upon per message. Decoding accepts up to
/// `MAX_INV_ENTRIES`, but the work that follows is capped here.
pub const MAX_INV_FOLLOW: usize = 500;

/// What a frame carries.
#[derive(Clone, Copy, PartialEq, Eq, Debug, Hash, Structural)]
pub enum MessageType {
    Version,
    VerAck,
    Ping,
    Pong,
    GetAddr,
    Addr,
    GetHeaders,
    Headers,
    Inv,
    GetData,
    Tx,
    Block,
    NotFound,
    Reject,
}

impl View for MessageType {
    type V = MessageType;

    open spec fn view(&self) -> MessageType {
        *self
    }
}

impl MessageType {
    /// The type's byte in a frame header.
    pub open spec fn code(self) -> u8 {
        match self {
            MessageType::Version => 0x01,
            MessageType::VerAck => 0x02,
            MessageType::Ping => 0x03,
            MessageType::Pong => 0x04,
            MessageType::GetAddr => 0x05,
            MessageType::Addr => 0x06,
            MessageType::GetHeaders => 0x07,
            MessageType::Headers => 0x08,
            MessageType::Inv => 0x09,
            MessageType::GetData => 0x0A,
            MessageType::Tx => 0x0B,
            MessageType::Block => 0x0C,
            MessageType::NotFound => 0x0D,
            MessageType::Reject => 0x0E,
        }
    }

    /// The type with the byte `v`, or the text of the error.
    pub open spec fn parse(v: u8) -> Result<MessageType, Seq<char>> {
        if exists|t: MessageType| t.code() == v {
            Ok(choose|t: MessageType| t.code() == v)
        } else {
            Err("unknown message type: 0x"@ + text::hex_byte(v))
        }
    }

    pub fn from_u8(v: u8) -> (res: Result<Self, CoreError>)
        ensures
            error::decoded(res, MessageType::parse(v)),
            res matches Ok(t) ==> t.code() == v,
            res is Err <==> !(1 <= v <= 0x0E),
    {
        let found: Option<MessageType> = match v {
            0x01 => Some(MessageType::Version),
            0x02 => Some(MessageType::VerAck),
            0x03 => Some(MessageType::Ping),
            0x04 => Some(MessageType::Pong),
            0x05 => Some(MessageType::GetAddr),
            0x06 => Some(MessageType::Addr),
            0x07 => Some(MessageType::GetHeaders),
            0x08 => Some(MessageType::Headers),
            0x09 => Some(MessageType::Inv),
            0x0A => Some(MessageType::GetData),
            0x0B => Some(MessageType::Tx),
            0x0C => Some(MessageType::Block),
            0x0D => Some(MessageType::NotFound),
            0x0E => Some(MessageType::Reject),
            _ => None,
        };
        match found {
            Some(t) => {
                assert(t.code() == v);
                Ok(t)
            },
            None => {
                let mut text = "unknown message type: 0x".to_string();
                text::push_hex_byte(&mut text, v);
                Err(CoreError::Serialization(text))
            },
        }
    }

    /// The type's byte in a frame header.
    pub fn as_u8(self) -> (v: u8)
        ensures
            v == self.code(),
    {
        match self {
            MessageType::Version => 0x01,
            MessageType::VerAck => 0x02,
            MessageType::Ping => 0x03,
            MessageType::Pong => 0x04,
            MessageType::GetAddr => 0x05,
            MessageType::Addr => 0x06,
            MessageType::GetHeaders => 0x07,
            MessageType::Headers => 0x08,
            MessageType::Inv => 0x09,
            MessageType::GetData => 0x0A,
            MessageType::Tx => 0x0B,
            MessageType::Block => 0x0C,
            MessageType::NotFound => 0x0D,
            MessageType::Reject => 0x0E,
        }
    }
}

/// What an inventory entry names.
#[derive(Clone, Copy, PartialEq, Eq, Debug, Hash, Structural)]
pub enum InvType {
    Block,
    Tx,
}

impl View for InvType {
    type V = InvType;

    open spec fn view(&self) -> InvType {
        *self
    }
}

impl InvType {
    /// The type's byte in an inventory entry.
    pub open spec fn code(self) -> u8 {
        match self {
            InvType::Block => 0x01,
            InvType::Tx => 0x02,
        }
    }

    /// The type with the byte `v`, or the text of the error.
    pub open spec fn parse(v: u8) -> Result<InvType, Seq<char>> {
        if v == 1 {
            Ok(InvType::Block)
        } else if v == 2 {
            Ok(InvType::Tx)
        } else {
            Err("unknown inv type: "@ + text::decimal(v as nat))
        }
    }

    pub fn from_u8(v: u8) -> (res: Result<Self, CoreError>)
        ensures
            error::decoded(res, InvType::parse(v)),
    {
        match v {
            0x01 => Ok(InvType::Block),
            0x02 => Ok(InvType::Tx),
            _ => Err(CoreError::Serialization(text::with_number("unknown inv type: ", v as u64))),
        }
    }

    /// The type's byte in an inventory entry.
    pub fn as_u8(self) -> (v: u8)
        ensures
            v == self.code(),
    {
        match self {
            InvType::Block => 0x01,
            InvType::Tx => 0x02,
        }
    }
}


/// A framed message.
#[derive(Clone, Debug)]
pub struct Message {
    pub msg_type: MessageType,
    pub payload: Vec<u8>,
    pub magic: [u8; 4],
}

/// The contents of a framed message.
pub struct MessageView {
    pub msg_type: MessageType,
    pub payload: Seq<u8>,
    pub magic: Seq<u8>,
}

impl View for Message {
    type V = MessageView;

    open spec fn view(&self) -> MessageView {
        MessageView { msg_type: self.msg_type, payload: self.payload@, magic: self.magic@ }
    }
}

/// The checksum of a payload: the first four bytes of its digest.
pub open spec fn checksum(payload: Seq<u8>) -> Seq<u8> {
    hash::blake3_digest(payload)@.subrange(0, 4)
}

impl MessageView {
    /// The bytes of the frame with the given checksum.
    pub open spec fn frame_with(self, sum: Seq<u8>) -> Seq<u8> {
        self.magic + seq![self.msg_type.code()] + bytes::le_bytes(self.payload.len(), 4) + sum
            + self.payload
    }

    /// The bytes of the frame.
    pub open spec fn frame(self) -> Seq<u8> {
        self.frame_with(checksum(self.payload))
    }

    /// The message at the start of `data` and the checksum that its header holds, or the
    /// text of the error.
    pub open spec fn split(data: Seq<u8>, magic: Seq<u8>) -> Result<
        (MessageView, Seq<u8>),
        Seq<char>,
    > {
        if data.len() < HEADER_SIZE {
            Err("message: header too short"@)
        } else if data.subrange(0, 4) != magic {
            Err("message: bad magic"@)
        } else {
            match MessageType::parse(data[4]) {
                Err(text) => Err(text),
                Ok(msg_type) => {
                    let len = bytes::le_value(data.subrange(5, 9));
                    let payload = data.subrange(HEADER_SIZE as int, HEADER_SIZE + len);
                    if len > MAX_MESSAGE_SIZE {
                        Err("message: payload too large: "@ + text::decimal(len))
                    } else if data.len() < HEADER_SIZE + len {
                        Err("message: payload truncated"@)
                    } else {
                        Ok((MessageView { msg_type, payload, magic }, data.subrange(9, 13)))
                    }
                },
            }
        }
    }

    /// The message and the length of its frame if the checksum of its header starts the
    /// payload's digest, else the text of the error.
    pub open spec fn confirmed(self, sum: Seq<u8>, digest: Seq<u8>) -> Result<
        (MessageView, usize),
        Seq<char>,
    > {
        if sum == digest.subrange(0, 4) {
            Ok((self, (HEADER_SIZE + self.payload.len()) as usize))
        } else {
            Err("message: checksum mismatch"@)
        }
    }

    /// The frame at the start of `data` and its length, or the text of the error.
    pub open spec fn parse(data: Seq<u8>, magic: Seq<u8>) -> Result<
        (MessageView, usize),
        Seq<char>,
    > {
        match MessageView::split(data, magic) {
            Err(text) => Err(text),
            Ok((m, sum)) => m.confirmed(sum, hash::blake3_digest(m.payload)@),
        }
    }
}

/// A message whose checksum has not been compared yet.
pub struct UncheckedMessage {
    pub message: Message,
    pub checksum: [u8; 4],
}

impl View for UncheckedMessage {
    type V = (MessageView, Seq<u8>);

    open spec fn view(&self) -> (MessageView, Seq<u8>) {
        (self.message@, self.checksum@)
    }
}

impl UncheckedMessage {
    /// The message, if its checksum starts `digest`, the digest of its payload; the second
    /// part is the length of the frame.
    pub fn confirm(self, digest: &Hash32) -> (res: Result<(Message, usize), CoreError>)
        requires
            self.message.payload@.len() <= MAX_MESSAGE_SIZE,
        ensures
            error::decoded(res, self.message@.confirmed(self.checksum@, digest.0@)),
    {
        if !bytes::same_bytes(&self.checksum, slice_subrange(&digest.0, 0, 4)) {
            return Err(error::serialization("message: checksum mismatch"));
        }
        let total: usize = HEADER_SIZE + self.message.payload.len();
        Ok((self.message, total))
    }
}

impl Message {
    /// A message for mainnet.
    pub fn new(msg_type: MessageType, payload: Vec<u8>) -> (msg: Self)
        ensures
            msg.msg_type == msg_type,
            msg.payload == payload,
            msg.magic@ == MAGIC@,
    {
        Message { msg_type, payload, magic: MAGIC }
    }

    pub fn with_magic(msg_type: MessageType, payload: Vec<u8>, magic: [u8; 4]) -> (msg: Self)
        ensures
            msg.msg_type == msg_type,
            msg.payload == payload,
            msg.magic == magic,
    {
        Message { msg_type, payload, magic }
    }

    /// The bytes of the frame.
    pub fn encode(&self) -> (buf: Vec<u8>)
        ensures
            buf@ == self@.frame(),
    {
        let digest: Hash32 = Hash32::digest(self.payload.as_slice());
        self.encode_with_digest(&digest)
    }

    /// The bytes of the frame, where the digest of the payload is known.
    pub fn encode_with_digest(&self, digest: &Hash32) -> (buf: Vec<u8>)
        ensures
            buf@ == self@.frame_with(digest.0@.subrange(0, 4)),
    {
        let mut buf: Vec<u8> = Vec::new();
        bytes::append_bytes(&mut buf, &self.magic);
        buf.push(self.msg_type.as_u8());
        bytes::push_le(&mut buf, self.payload.len() as u64, 4);
        bytes::append_bytes(&mut buf, slice_subrange(&digest.0, 0, 4));
        bytes::append_bytes(&mut buf, self.payload.as_slice());
        assert(buf@ =~= self@.frame_with(digest.0@.subrange(0, 4)));
        buf
    }

    /// Decodes the mainnet frame at the start of `data`.
    pub fn decode(data: &[u8]) -> (res: Result<(Message, usize), CoreError>)
        ensures
            error::decoded(res, MessageView::parse(data@, MAGIC@)),
    {
        Self::decode_with_magic(data, MAGIC)
    }

    /// Decodes the frame at the start of `data`; the second part is its length.
    pub fn decode_with_magic(data: &[u8], expected_magic: [u8; 4]) -> (res: Result<
        (Message, usize),
        CoreError,
    >)
        ensures
            error::decoded(res, MessageView::parse(data@, expected_magic@)),
    {
        match Self::split(data, expected_magic) {
            Ok(unchecked) => {
                let digest: Hash32 = Hash32::digest(unchecked.message.payload.as_slice());
                unchecked.confirm(&digest)
            },
            Err(e) => Err(e),
        }
    }

    /// Decodes the frame at the start of `data` up to the comparison of its checksum.
    pub fn split(data: &[u8], expected_magic: [u8; 4]) -> (res: Result<UncheckedMessage, CoreError>)
        ensures
            error::decoded(res, MessageView::split(data@, expected_magic@)),
            res matches Ok(m) ==> m.message.payload@.len() <= MAX_MESSAGE_SIZE,
    {
        if data.len() < HEADER_SIZE {
            return Err(error::serialization("message: header too short"));
        }
        if !bytes::same_bytes(slice_subrange(data, 0, 4), &expected_magic) {
            return Err(error::serialization("message: bad magic"));
        }
        let msg_type: MessageType = match MessageType::from_u8(data[4]) {
            Ok(t) => t,
            Err(e) => {
                return Err(e);
            },
        };
        let announced: u64 = bytes::read_le(data, 5, 4);
        proof {
            bytes::lemma_pow256();
        }
        let len: usize = announced as usize;
        if len > MAX_MESSAGE_SIZE {
            return Err(
                CoreError::Serialization(
                    text::with_number("message: payload too large: ", announced),
                ),
            );
        }
        let total: usize = HEADER_SIZE + len;
        if data.len() < total {
            return Err(error::serialization("message: payload truncated"));
        }
        let payload: Vec<u8> = slice_to_vec(slice_subrange(data, HEADER_SIZE, total));
        let checksum: [u8; 4] = [data[9], data[10], data[11], data[12]];
        assert(checksum@ =~= data@.subrange(9, 13));
        Ok(
            UncheckedMessage {
                message: Message { msg_type, payload, magic: expected_magic },
                checksum,
            },
        )
    }
}

/// The first message of a handshake.
#[derive(Clone, Debug)]
pub struct VersionMessage {
    pub version: u32,
    pub services: u64,
    pub timestamp: u64,
    pub height: u32,
    pub nonce: u64,
}

impl View for VersionMessage {
    type V = VersionMessage;

    open spec fn view(&self) -> VersionMessage {
        *self
    }
}

impl VersionMessage {
    /// The payload of the message.
    pub open spec fn payload(self) -> Seq<u8> {
        bytes::le_bytes(self.version as nat, 4) + bytes::le_bytes(self.services as nat, 8)
            + bytes::le_bytes(self.timestamp as nat, 8) + bytes::le_bytes(self.height as nat, 4)
            + bytes::le_bytes(self.nonce as nat, 8)
    }

    /// The message in a payload, or the text of the error.
    pub open spec fn parse(data: Seq<u8>) -> Result<VersionMessage, Seq<char>> {
        if data.len() < 32 {
            Err("version: too short"@)
        } else {
            Ok(
                VersionMessage {
                    version: bytes::le_value(data.subrange(0, 4)) as u32,
                    services: bytes::le_value(data.subrange(4, 12)) as u64,
                    timestamp: bytes::le_value(data.subrange(12, 20)) as u64,
                    height: bytes::le_value(data.subrange(20, 24)) as u32,
                    nonce: bytes::le_value(data.subrange(24, 32)) as u64,
                },
            )
        }
    }

    pub fn encode(&self) -> (buf: Vec<u8>)
        ensures
            buf@ == self.payload(),
    {
        let mut buf: Vec<u8> = Vec::new();
        bytes::push_le(&mut buf, self.version as u64, 4);
        bytes::push_le(&mut buf, self.services, 8);
        bytes::push_le(&mut buf, self.timestamp, 8);
        bytes::push_le(&mut buf, self.height as u64, 4);
        bytes::push_le(&mut buf, self.nonce, 8);
        assert(buf@ =~= self.payload());
        buf
    }

    pub fn decode(data: &[u8]) -> (res: Result<Self, CoreError>)
        ensures
            error::decoded(res, VersionMessage::parse(data@)),
    {
        if data.len() < 32 {
            return Err(error::serialization("version: too short"));
        }
        proof {
            bytes::lemma_pow256();
        }
        Ok(
            VersionMessage {
                version: bytes::read_le(data, 0, 4) as u32,
                services: bytes::read_le(data, 4, 8),
                timestamp: bytes::read_le(data, 12, 8),
                height: bytes::read_le(data, 20, 4) as u32,
                nonce: bytes::read_le(data, 24, 8),
            },
        )
    }
}

/// A keep-alive probe; the reply carries the same nonce.
#[derive(Clone, Debug)]
pub struct PingMessage {
    pub nonce: u64,
}

impl View for PingMessage {
    type V = PingMessage;

    open spec fn view(&self) -> PingMessage {
        *self
    }
}

impl PingMessage {
    /// The payload of the message.
    pub open spec fn payload(self) -> Seq<u8> {
        bytes::le_bytes(self.nonce as nat, 8)
    }

    /// The message in a payload, or the text of the error.
    pub open spec fn parse(data: Seq<u8>) -> Result<PingMessage, Seq<char>> {
        if data.len() < 8 {
            Err("ping: too short"@)
        } else {
            Ok(PingMessage { nonce: bytes::le_value(data.subrange(0, 8)) as u64 })
        }
    }

    pub fn encode(&self) -> (buf: Vec<u8>)
        ensures
            buf@ == self.payload(),
    {
        let mut buf: Vec<u8> = Vec::new();
        bytes::push_le(&mut buf, self.nonce, 8);
        assert(buf@ =~= self.payload());
        buf
    }

    pub fn decode(data: &[u8]) -> (res: Result<Self, CoreError>)
        ensures
            error::decoded(res, PingMessage::parse(data@)),
    {
        if data.len() < 8 {
            return Err(error::serialization("ping: too short"));
        }
        Ok(PingMessage { nonce: bytes::read_le(data, 0, 8) })
    }
}

/// A request for the headers after a known block.
#[derive(Clone, Debug)]
pub struct GetHeadersMessage {
    pub start_hash: Hash32,
    pub stop_hash: Hash32,
}

impl View for GetHeadersMessage {
    type V = (Seq<u8>, Seq<u8>);

    open spec fn view(&self) -> (Seq<u8>, Seq<u8>) {
        (self.start_hash.0@, self.stop_hash.0@)
    }
}

impl GetHeadersMessage {
    /// The payload of the message.
    pub open spec fn payload(self) -> Seq<u8> {
        self.start_hash.0@ + self.stop_hash.0@
    }

    /// The start and the stop hash in a payload, or the text of the error.
    pub open spec fn parse(data: Seq<u8>) -> Result<(Seq<u8>, Seq<u8>), Seq<char>> {
        if data.len() < 64 {
            Err("getheaders: too short"@)
        } else {
            Ok((data.subrange(0, 32), data.subrange(32, 64)))
        }
    }

    pub fn encode(&self) -> (buf: Vec<u8>)
        ensures
            buf@ == self.payload(),
    {
        let mut buf: Vec<u8> = Vec::new();
        bytes::append_bytes(&mut buf, &self.start_hash.0);
        bytes::append_bytes(&mut buf, &self.stop_hash.0);
        assert(buf@ =~= self.payload());
        buf
    }

    pub fn decode(data: &[u8]) -> (res: Result<Self, CoreError>)
        ensures
            error::decoded(res, GetHeadersMessage::parse(data@)),
    {
        if data.len() < 64 {
            return Err(error::serialization("getheaders: too short"));
        }
        Ok(
            GetHeadersMessage {
                start_hash: hash::read_hash(data, 0),
                stop_hash: hash::read_hash(data, 32),
            },
        )
    }
}

/// One block or transaction that a peer has or wants.
#[derive(Clone, Copy, Debug)]
pub struct InvEntry {
    pub inv_type: InvType,
    pub hash: Hash32,
}

/// Bytes of one inventory entry: its type and its hash.
pub const INV_ENTRY_SIZE: usize = 33;

impl InvEntry {
    /// The bytes of one entry.
    pub open spec fn payload(self) -> Seq<u8> {
        seq![self.inv_type.code()] + self.hash.0@
    }

    /// The entry number `i` of the inventory that `data` holds, if its type is known.
    pub open spec fn stands_at(self, data: Seq<u8>, i: int) -> bool {
        data.subrange(4 + INV_ENTRY_SIZE * i, 4 + INV_ENTRY_SIZE * (i + 1)) == self.payload()
    }
}

/// The bytes of a list of entries, one after the other.
pub open spec fn entries_payload(inventory: Seq<InvEntry>) -> Seq<u8>
    decreases inventory.len(),
{
    if inventory.len() == 0 {
        Seq::empty()
    } else {
        entries_payload(inventory.drop_last()) + inventory.last().payload()
    }
}

/// The payload of an inventory: the count of the entries, then the entries.
pub open spec fn inventory_payload(inventory: Seq<InvEntry>) -> Seq<u8> {
    bytes::le_bytes(inventory.len(), 4) + entries_payload(inventory)
}

/// The first of the entries `from..count` whose type byte is unknown; `count` if there is none.
pub open spec fn first_unknown_entry(data: Seq<u8>, from: nat, count: nat) -> nat
    decreases count - from,
{
    if from >= count {
        count
    } else if InvType::parse(data[4 + INV_ENTRY_SIZE * from]) is Err {
        from
    } else {
        first_unknown_entry(data, from + 1, count)
    }
}

/// What decoding an inventory gives: `inventory` on success, else the text of the error.
/// `label` names the message.
pub open spec fn inventory_parsed(
    label: Seq<char>,
    data: Seq<u8>,
    res: Result<Seq<InvEntry>, Seq<char>>,
) -> bool {
    let count = bytes::le_value(data.subrange(0, 4));
    if data.len() < 4 {
        res == Err::<Seq<InvEntry>, Seq<char>>(label + ": too short"@)
    } else if count > MAX_INV_ENTRIES {
        res == Err::<Seq<InvEntry>, Seq<char>>(label + ": count exceeds limit"@)
    } else if data.len() < 4 + INV_ENTRY_SIZE * count {
        res == Err::<Seq<InvEntry>, Seq<char>>(label + ": truncated"@)
    } else {
        let bad = first_unknown_entry(data, 0, count);
        if bad < count {
            res == Err::<Seq<InvEntry>, Seq<char>>(
                "unknown inv type: "@ + text::decimal(data[4 + INV_ENTRY_SIZE * bad] as nat),
            )
        } else {
            &&& res matches Ok(inventory)
            &&& inventory.len() == count
            &&& forall|i: int| 0 <= i < count ==> (#[trigger] inventory[i]).stands_at(data, i)
        }
    }
}

/// The contents or the error text of a decoded inventory.
pub open spec fn inventory_result<T: View<V = Seq<InvEntry>>>(
    res: Result<T, CoreError>,
) -> Result<Seq<InvEntry>, Seq<char>> {
    match res {
        Ok(msg) => Ok(msg@),
        Err(CoreError::Serialization(text)) => Err(text@),
        Err(_) => Err(Seq::empty()),
    }
}

fn encode_inventory(inventory: &Vec<InvEntry>) -> (buf: Vec<u8>)
    ensures
        buf@ == inventory_payload(inventory@),
{
    let mut buf: Vec<u8> = Vec::new();
    bytes::push_le(&mut buf, inventory.len() as u64, 4);
    let ghost count = bytes::le_bytes(inventory@.len(), 4);
    assert(buf@ =~= count + entries_payload(inventory@.take(0)));
    let mut i: usize = 0;
    while i < inventory.len()
        invariant
            i <= inventory@.len(),
            buf@ == count + entries_payload(inventory@.take(i as int)),
        decreases inventory.len() - i,
    {
        let ghost before = buf@;
        let entry: InvEntry = inventory[i];
        buf.push(entry.inv_type.as_u8());
        bytes::append_bytes(&mut buf, &entry.hash.0);
        proof {
            let next = inventory@.take(i + 1);
            assert(next.drop_last() =~= inventory@.take(i as int));
            assert(buf@ =~= before + entry.payload());
            assert(buf@ =~= count + entries_payload(next));
        }
        i += 1;
    }
    assert(inventory@.take(i as int) =~= inventory@);
    buf
}

fn labelled(label: &str, what: &str) -> (e: CoreError)
    ensures
        e matches CoreError::Serialization(s) && s@ == label@ + what@,
{
    let mut text = label.to_string();
    text.append(what);
    CoreError::Serialization(text)
}

fn decode_inventory(label: &str, data: &[u8]) -> (res: Result<Vec<InvEntry>, CoreError>)
    ensures
        res matches Err(e) ==> e is Serialization,
        inventory_parsed(label@, data@, inventory_result(res)),
{
    if data.len() < 4 {
        return Err(labelled(label, ": too short"));
    }
    let announced: u64 = bytes::read_le(data, 0, 4);
    proof {
        bytes::lemma_pow256();
    }
    let count: usize = announced as usize;
    if count > MAX_INV_ENTRIES {
        return Err(labelled(label, ": count exceeds limit"));
    }
    let expected: usize = 4 + count * INV_ENTRY_SIZE;
    if data.len() < expected {
        return Err(labelled(label, ": truncated"));
    }
    let mut inventory: Vec<InvEntry> = Vec::new();
    let mut i: usize = 0;
    while i < count
        invariant
            i <= count <= MAX_INV_ENTRIES,
            count == announced == bytes::le_value(data@.subrange(0, 4)),
            4 + count * INV_ENTRY_SIZE <= data@.len(),
            inventory@.len() == i,
            first_unknown_entry(data@, 0, count as nat) == first_unknown_entry(
                data@,
                i as nat,
                count as nat,
            ),
            forall|k: int| 0 <= k < i ==> (#[trigger] inventory@[k]).stands_at(data@, k),
        decreases count - i,
    {
        let pos: usize = 4 + i * INV_ENTRY_SIZE;
        let inv_type: InvType = match InvType::from_u8(data[pos]) {
            Ok(t) => t,
            Err(e) => {
                return Err(e);
            },
        };
        let entry = InvEntry { inv_type, hash: hash::read_hash(data, pos + 1) };
        assert(data@.subrange(pos as int, pos + 33) =~= entry.payload());
        assert(entry.stands_at(data@, i as int));
        inventory.push(entry);
        i += 1;
    }
    Ok(inventory)
}

/// Announces blocks and transactions.
#[derive(Clone, Debug)]
pub struct InvMessage {
    pub inventory: Vec<InvEntry>,
}

impl View for InvMessage {
    type V = Seq<InvEntry>;

    open spec fn view(&self) -> Seq<InvEntry> {
        self.inventory@
    }
}

impl InvMessage {
    pub fn encode(&self) -> (buf: Vec<u8>)
        ensures
            buf@ == inventory_payload(self@),
    {
        encode_inventory(&self.inventory)
    }

    pub fn decode(data: &[u8]) -> (res: Result<Self, CoreError>)
        ensures
            res matches Err(e) ==> e is Serialization,
            inventory_parsed("inv"@, data@, inventory_result(res)),
    {
        match decode_inventory("inv", data) {
            Ok(inventory) => Ok(InvMessage { inventory }),
            Err(e) => Err(e),
        }
    }
}

/// Asks for blocks and transactions.
#[derive(Clone, Debug)]
pub struct GetDataMessage {
    pub inventory: Vec<InvEntry>,
}

impl View for GetDataMessage {
    type V = Seq<InvEntry>;

    open spec fn view(&self) -> Seq<InvEntry> {
        self.inventory@
    }
}

impl GetDataMessage {
    pub fn encode(&self) -> (buf: Vec<u8>)
        ensures
            buf@ == inventory_payload(self@),
    {
        encode_inventory(&self.inventory)
    }

    pub fn decode(data: &[u8]) -> (res: Result<Self, CoreError>)
        ensures
            res matches Err(e) ==> e is Serialization,
            inventory_parsed("getdata"@, data@, inventory_result(res)),
    {
        match decode_inventory("getdata", data) {
            Ok(inventory) => Ok(GetDataMessage { inventory }),
            Err(e) => Err(e),
        }
    }
}

/// Tells a peer why one of its messages was refused.
#[derive(Clone, Debug)]
pub struct RejectMessage {
    pub message: String,
    pub code: u8,
    pub reason: String,
}

/// The contents of a reject message.
pub struct RejectView {
    pub message: Seq<char>,
    pub code: u8,
    pub reason: Seq<char>,
}

impl View for RejectMessage {
    type V = RejectView;

    open spec fn view(&self) -> RejectView {
        RejectView { message: self.message@, code: self.code, reason: self.reason@ }
    }
}

/// A text as its length in bytes, cut to the low eight bits, and its UTF-8 bytes.
pub open spec fn short_text(s: Seq<char>) -> Seq<u8> {
    let utf8 = vstd::utf8::encode_utf8(s);
    seq![(utf8.len() % 256) as u8] + utf8
}

impl RejectView {
    /// The payload of the message.
    pub open spec fn payload(self) -> Seq<u8> {
        short_text(self.message) + seq![self.code] + short_text(self.reason)
    }

    /// The message in a payload, or the text of the error.
    pub open spec fn parse(data: Seq<u8>) -> Result<RejectView, Seq<char>> {
        let msg_len = data[0] as int;
        let reason_start = 2 + msg_len;
        let reason_len = data[reason_start] as int;
        if data.len() < 3 {
            Err("reject: too short"@)
        } else if data.len() < 2 + msg_len {
            Err("reject: message truncated"@)
        } else if data.len() < reason_start + 1 {
            Err("reject: reason length missing"@)
        } else if data.len() < reason_start + 1 + reason_len {
            Err("reject: reason truncated"@)
        } else {
            Ok(
                RejectView {
                    message: text::utf8_lossy(data.subrange(1, 1 + msg_len)),
                    code: data[1 + msg_len],
                    reason: text::utf8_lossy(
                        data.subrange(reason_start + 1, reason_start + 1 + reason_len),
                    ),
                },
            )
        }
    }
}

fn push_short_text(buf: &mut Vec<u8>, s: &str)
    ensures
        final(buf)@ == old(buf)@ + short_text(s@),
{
    let utf8: &[u8] = s.as_bytes();
    buf.push((utf8.len() % 256) as u8);
    bytes::append_bytes(buf, utf8);
    assert(buf@ =~= old(buf)@ + short_text(s@));
}

impl RejectMessage {
    pub fn encode(&self) -> (buf: Vec<u8>)
        ensures
            buf@ == self@.payload(),
    {
        let mut buf: Vec<u8> = Vec::new();
        push_short_text(&mut buf, self.message.as_str());
        buf.push(self.code);
        push_short_text(&mut buf, self.reason.as_str());
        assert(buf@ =~= self@.payload());
        buf
    }

    pub fn decode(data: &[u8]) -> (res: Result<Self, CoreError>)
        ensures
            error::decoded(res, RejectView::parse(data@)),
    {
        if data.len() < 3 {
            return Err(error::serialization("reject: too short"));
        }
        let msg_len: usize = data[0] as usize;
        if data.len() < 2 + msg_len {
            return Err(error::serialization("reject: message truncated"));
        }
        let message: String = text::from_utf8_lossy(slice_subrange(data, 1, 1 + msg_len));
        let code: u8 = data[1 + msg_len];
        let reason_start: usize = 2 + msg_len;
        if data.len() < reason_start + 1 {
            return Err(error::serialization("reject: reason length missing"));
        }
        let reason_len: usize = data[reason_start] as usize;
        let reason_end: usize = reason_start + 1 + reason_len;
        if data.len() < reason_end {
            return Err(error::serialization("reject: reason truncated"));
        }
        let reason: String = text::from_utf8_lossy(
            slice_subrange(data, reason_start + 1, reason_end),
        );
        Ok(RejectMessage { message, code, reason })
    }
}

} // verus!
