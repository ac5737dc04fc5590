//! What holds between encoding and decoding.

use crate::bytes;
use crate::hash;
use crate::text;
use crate::wire;
use crate::wire::{
    GetHeadersMessage, InvEntry, InvType, MessageType, MessageView, PingMessage, RejectView,
    VersionMessage, HEADER_SIZE, INV_ENTRY_SIZE, MAX_INV_ENTRIES, MAX_MESSAGE_SIZE,
};
use vstd::prelude::*;

verus! {

/// Every message type is the one that its byte stands for.
pub proof fn message_type_round_trip(t: MessageType)
    ensures
        MessageType::parse(t.code()) == Ok::<MessageType, Seq<char>>(t),
{
    let found = choose|u: MessageType| u.code() == t.code();
    assert(found.code() == t.code());
}

/// Every inventory type is the one that its byte stands for.
pub proof fn inv_type_round_trip(t: InvType)
    ensures
        InvType::parse(t.code()) == Ok::<InvType, Seq<char>>(t),
{
}

proof fn lemma_frame_parts(m: MessageView, rest: Seq<u8>)
    requires
        m.magic.len() == 4,
    ensures
        m.frame().len() == HEADER_SIZE + m.payload.len(),
        (m.frame() + rest).subrange(0, 4) == m.magic,
        (m.frame() + rest)[4] == m.msg_type.code(),
        (m.frame() + rest).subrange(5, 9) == bytes::le_bytes(m.payload.len(), 4),
        (m.frame() + rest).subrange(9, 13) == wire::checksum(m.payload),
        (m.frame() + rest).subrange(HEADER_SIZE as int, HEADER_SIZE + m.payload.len()) == m.payload,
{
    bytes::lemma_le_bytes_len(m.payload.len(), 4);
    let data = m.frame() + rest;
    assert(data.subrange(0, 4) =~= m.magic);
    assert(data.subrange(5, 9) =~= bytes::le_bytes(m.payload.len(), 4));
    assert(data.subrange(9, 13) =~= wire::checksum(m.payload));
    assert(data.subrange(HEADER_SIZE as int, HEADER_SIZE + m.payload.len()) =~= m.payload);
}

/// Decoding gives back every message that was encoded with a payload within the limit,
/// and its length, whatever bytes follow the frame.
pub proof fn message_round_trip(m: MessageView, rest: Seq<u8>)
    requires
        m.magic.len() == 4,
        m.payload.len() <= MAX_MESSAGE_SIZE,
    ensures
        MessageView::parse(m.frame() + rest, m.magic) == Ok::<(MessageView, usize), Seq<char>>(
            (m, m.frame().len() as usize),
        ),
{
    lemma_frame_parts(m, rest);
    bytes::lemma_pow256();
    bytes::lemma_le_value_of_bytes(m.payload.len(), 4);
    message_type_round_trip(m.msg_type);
}

/// A message whose payload exceeds the limit is encoded, but no decoder takes the frame
/// as long as the length fits the header.
pub proof fn oversized_message_refused(m: MessageView, rest: Seq<u8>)
    requires
        m.magic.len() == 4,
        MAX_MESSAGE_SIZE < m.payload.len() < 0x1_0000_0000,
    ensures
        MessageView::parse(m.frame() + rest, m.magic) == Err::<(MessageView, usize), Seq<char>>(
            "message: payload too large: "@ + text::decimal(m.payload.len()),
        ),
{
    lemma_frame_parts(m, rest);
    bytes::lemma_pow256();
    bytes::lemma_le_value_of_bytes(m.payload.len(), 4);
    message_type_round_trip(m.msg_type);
}

/// A decoded message is the one whose frame the data starts with.
pub proof fn decoded_message_is_framed(data: Seq<u8>, magic: Seq<u8>)
    requires
        MessageView::parse(data, magic) is Ok,
    ensures
        ({
            let (m, n) = MessageView::parse(data, magic)->Ok_0;
            &&& n <= data.len()
            &&& data.subrange(0, n as int) == m.frame()
            &&& m.magic == magic
            &&& m.payload.len() <= MAX_MESSAGE_SIZE
        }),
{
    let (m, n) = MessageView::parse(data, magic)->Ok_0;
    let len = bytes::le_value(data.subrange(5, 9));
    bytes::lemma_le_bytes_of_value(data.subrange(5, 9));
    assert(exists|t: MessageType| t.code() == data[4]);
    assert(m.msg_type.code() == data[4]);
    assert(m.payload.len() == len);
    assert(data.subrange(0, n as int) =~= data.subrange(0, 4) + seq![data[4]] + data.subrange(5, 9)
        + data.subrange(9, 13) + data.subrange(13, n as int));
}

/// A frame of one network is refused on every other one.
pub proof fn networks_are_isolated(m: MessageView, rest: Seq<u8>, magic: Seq<u8>)
    requires
        m.magic.len() == 4,
        magic != m.magic,
    ensures
        MessageView::parse(m.frame() + rest, magic) == Err::<(MessageView, usize), Seq<char>>(
            "message: bad magic"@,
        ),
{
    lemma_frame_parts(m, rest);
}

/// The three networks have different magic bytes.
pub proof fn magic_bytes_differ()
    ensures
        wire::MAGIC@ != wire::TESTNET_MAGIC@,
        wire::MAGIC@ != wire::REGTEST_MAGIC@,
        wire::TESTNET_MAGIC@ != wire::REGTEST_MAGIC@,
{
    assert(wire::MAGIC@[1] == 0x48);
    assert(wire::TESTNET_MAGIC@[1] == 0x54);
    assert(wire::REGTEST_MAGIC@[1] == 0x52);
}

/// No proper prefix of a frame decodes.
pub proof fn truncated_frame_refused(m: MessageView, n: int)
    requires
        m.magic.len() == 4,
        m.payload.len() <= MAX_MESSAGE_SIZE,
        0 <= n < m.frame().len(),
    ensures
        MessageView::parse(m.frame().subrange(0, n), m.magic) == Err::<
            (MessageView, usize),
            Seq<char>,
        >(
            if n < HEADER_SIZE {
                "message: header too short"@
            } else {
                "message: payload truncated"@
            },
        ),
{
    lemma_frame_parts(m, Seq::empty());
    bytes::lemma_pow256();
    bytes::lemma_le_value_of_bytes(m.payload.len(), 4);
    message_type_round_trip(m.msg_type);
    let data = m.frame().subrange(0, n);
    let whole = m.frame() + Seq::<u8>::empty();
    if n >= HEADER_SIZE {
        assert(data.subrange(0, 4) =~= whole.subrange(0, 4));
        assert(data.subrange(5, 9) =~= whole.subrange(5, 9));
    }
}

/// A version payload decodes to the message it encodes, whatever follows it.
pub proof fn version_round_trip(m: VersionMessage, rest: Seq<u8>)
    ensures
        VersionMessage::parse(m.payload() + rest) == Ok::<VersionMessage, Seq<char>>(m),
        m.payload().len() == 32,
{
    bytes::lemma_le_bytes_len(m.version as nat, 4);
    bytes::lemma_le_bytes_len(m.services as nat, 8);
    bytes::lemma_le_bytes_len(m.timestamp as nat, 8);
    bytes::lemma_le_bytes_len(m.height as nat, 4);
    bytes::lemma_le_bytes_len(m.nonce as nat, 8);
    bytes::lemma_pow256();
    bytes::lemma_le_value_of_bytes(m.version as nat, 4);
    bytes::lemma_le_value_of_bytes(m.services as nat, 8);
    bytes::lemma_le_value_of_bytes(m.timestamp as nat, 8);
    bytes::lemma_le_value_of_bytes(m.height as nat, 4);
    bytes::lemma_le_value_of_bytes(m.nonce as nat, 8);
    let data = m.payload() + rest;
    assert(data.subrange(0, 4) =~= bytes::le_bytes(m.version as nat, 4));
    assert(data.subrange(4, 12) =~= bytes::le_bytes(m.services as nat, 8));
    assert(data.subrange(12, 20) =~= bytes::le_bytes(m.timestamp as nat, 8));
    assert(data.subrange(20, 24) =~= bytes::le_bytes(m.height as nat, 4));
    assert(data.subrange(24, 32) =~= bytes::le_bytes(m.nonce as nat, 8));
}

/// A ping payload decodes to the message it encodes, whatever follows it.
pub proof fn ping_round_trip(m: PingMessage, rest: Seq<u8>)
    ensures
        PingMessage::parse(m.payload() + rest) == Ok::<PingMessage, Seq<char>>(m),
{
    bytes::lemma_le_bytes_len(m.nonce as nat, 8);
    bytes::lemma_pow256();
    bytes::lemma_le_value_of_bytes(m.nonce as nat, 8);
    assert((m.payload() + rest).subrange(0, 8) =~= m.payload());
}

/// A header request decodes to the message it encodes, whatever follows it.
pub proof fn get_headers_round_trip(m: GetHeadersMessage, rest: Seq<u8>)
    ensures
        GetHeadersMessage::parse(m.payload() + rest) == Ok::<(Seq<u8>, Seq<u8>), Seq<char>>(m@),
{
    let data = m.payload() + rest;
    assert(data.subrange(0, 32) =~= m.start_hash.0@);
    assert(data.subrange(32, 64) =~= m.stop_hash.0@);
}

proof fn lemma_entries_payload(inventory: Seq<InvEntry>)
    ensures
        wire::entries_payload(inventory).len() == INV_ENTRY_SIZE * inventory.len(),
        forall|i: int|
            0 <= i < inventory.len() ==> #[trigger] wire::entries_payload(inventory).subrange(
                INV_ENTRY_SIZE * i,
                INV_ENTRY_SIZE * (i + 1),
            ) == inventory[i].payload(),
    decreases inventory.len(),
{
    if inventory.len() > 0 {
        let front = inventory.drop_last();
        lemma_entries_payload(front);
        let all = wire::entries_payload(inventory);
        assert forall|i: int| 0 <= i < inventory.len() implies #[trigger] all.subrange(
            INV_ENTRY_SIZE * i,
            INV_ENTRY_SIZE * (i + 1),
        ) == inventory[i].payload() by {
            if i < front.len() {
                assert(all.subrange(INV_ENTRY_SIZE * i, INV_ENTRY_SIZE * (i + 1))
                    =~= wire::entries_payload(front).subrange(
                    INV_ENTRY_SIZE * i,
                    INV_ENTRY_SIZE * (i + 1),
                ));
            } else {
                assert(all.subrange(INV_ENTRY_SIZE * i, INV_ENTRY_SIZE * (i + 1))
                    =~= inventory[i].payload());
            }
        }
    }
}

proof fn lemma_entry_from_payload(a: InvEntry, b: InvEntry)
    requires
        a.payload() == b.payload(),
    ensures
        a == b,
{
    assert(a.payload()[0] == a.inv_type.code() && b.payload()[0] == b.inv_type.code());
    assert forall|i: int| 0 <= i < 32 implies a.hash.0@[i] == b.hash.0@[i] by {
        assert(a.payload()[i + 1] == a.hash.0@[i] && b.payload()[i + 1] == b.hash.0@[i]);
    }
    assert(a.hash.0 =~= b.hash.0);
}

proof fn lemma_no_unknown_entry(data: Seq<u8>, from: nat, count: nat)
    requires
        forall|i: int|
            from <= i < count ==> InvType::parse(#[trigger] data[4 + INV_ENTRY_SIZE * i]) is Ok,
    ensures
        from <= count ==> wire::first_unknown_entry(data, from, count) == count,
    decreases count - from,
{
    if from < count {
        assert(InvType::parse(data[4 + INV_ENTRY_SIZE * from]) is Ok);
        lemma_no_unknown_entry(data, from + 1, count);
    }
}

/// An inventory within the limit decodes to the entries it encodes, whatever follows it.
/// This holds of Inv and of GetData payloads.
pub proof fn inventory_round_trip(
    label: Seq<char>,
    inventory: Seq<InvEntry>,
    rest: Seq<u8>,
    res: Result<Seq<InvEntry>, Seq<char>>,
)
    requires
        inventory.len() <= MAX_INV_ENTRIES,
        wire::inventory_parsed(label, wire::inventory_payload(inventory) + rest, res),
    ensures
        res == Ok::<Seq<InvEntry>, Seq<char>>(inventory),
{
    let data = wire::inventory_payload(inventory) + rest;
    let count = inventory.len();
    bytes::lemma_le_bytes_len(count, 4);
    bytes::lemma_pow256();
    bytes::lemma_le_value_of_bytes(count, 4);
    assert(data.subrange(0, 4) =~= bytes::le_bytes(count, 4));
    lemma_entries_payload(inventory);
    assert forall|i: int| 0 <= i < count implies #[trigger] data.subrange(
        4 + INV_ENTRY_SIZE * i,
        4 + INV_ENTRY_SIZE * (i + 1),
    ) == inventory[i].payload() by {
        assert(data.subrange(4 + INV_ENTRY_SIZE * i, 4 + INV_ENTRY_SIZE * (i + 1))
            =~= wire::entries_payload(inventory).subrange(
            INV_ENTRY_SIZE * i,
            INV_ENTRY_SIZE * (i + 1),
        ));
    }
    assert forall|i: int| 0 <= i < count implies InvType::parse(
        #[trigger] data[4 + INV_ENTRY_SIZE * i],
    ) is Ok by {
        let part = data.subrange(4 + INV_ENTRY_SIZE * i, 4 + INV_ENTRY_SIZE * (i + 1));
        assert(part == inventory[i].payload());
        assert(part[0] == data[4 + INV_ENTRY_SIZE * i]);
        inv_type_round_trip(inventory[i].inv_type);
    }
    lemma_no_unknown_entry(data, 0, count);
    let got = res->Ok_0;
    assert forall|i: int| 0 <= i < count implies got[i] == inventory[i] by {
        assert(got[i].stands_at(data, i));
        assert(data.subrange(4 + INV_ENTRY_SIZE * i, 4 + INV_ENTRY_SIZE * (i + 1))
            == inventory[i].payload());
        lemma_entry_from_payload(got[i], inventory[i]);
    }
    assert(got =~= inventory);
}

/// A reject message whose texts take at most 255 bytes each decodes to what was encoded,
/// whatever follows it.
pub proof fn reject_round_trip(m: RejectView, rest: Seq<u8>)
    requires
        vstd::utf8::encode_utf8(m.message).len() <= 255,
        vstd::utf8::encode_utf8(m.reason).len() <= 255,
    ensures
        RejectView::parse(m.payload() + rest) == Ok::<RejectView, Seq<char>>(m),
{
    broadcast use vstd::utf8::encode_utf8_valid_utf8;
    broadcast use vstd::utf8::encode_utf8_decode_utf8;

    let data = m.payload() + rest;
    let message = vstd::utf8::encode_utf8(m.message);
    let reason = vstd::utf8::encode_utf8(m.reason);
    assert(data[0] == message.len());
    assert(data.subrange(1, 1 + message.len() as int) =~= message);
    assert(data[1 + message.len() as int] == m.code);
    assert(data[2 + message.len() as int] == reason.len());
    assert(data.subrange(3 + message.len() as int, 3 + message.len() as int + reason.len() as int) =~= reason);
}

} // verus!
