//! Where each byte of a message stands.

use crate::bytes;
use crate::error::{IoError, Reason};
use crate::frame;
use crate::frame::{FrameStep, StepView};
use crate::hash;
use crate::noise_transport;
use crate::text;
use crate::wire;
use crate::wire::{
    GetHeadersMessage, InvEntry, InvType, MessageType, MessageView, PingMessage, RejectView,
    VersionMessage,
};
use crate::wire_laws;
use vstd::prelude::*;

verus! {

/// The number that four bytes stand for, the first of them the least.
pub open spec fn four(s: Seq<u8>, at: int) -> int {
    s[at] + 0x100 * s[at + 1] + 0x1_0000 * s[at + 2] + 0x100_0000 * s[at + 3]
}

/// The number that eight bytes stand for, the first of them the least.
pub open spec fn eight(s: Seq<u8>, at: int) -> int {
    four(s, at) + 0x1_0000_0000 * four(s, at + 4)
}

/// Numbers are read with their least byte first.
pub proof fn numbers_have_their_least_byte_first(s: Seq<u8>, at: int)
    requires
        0 <= at,
    ensures
        at + 2 <= s.len() ==> bytes::le_value(s.subrange(at, at + 2)) == s[at] + 0x100 * s[at + 1],
        at + 4 <= s.len() ==> bytes::le_value(s.subrange(at, at + 4)) == four(s, at),
        at + 8 <= s.len() ==> bytes::le_value(s.subrange(at, at + 8)) == eight(s, at),
{
    if at + 2 <= s.len() {
        lemma_value_from(s, at, 2);
        lemma_value_from(s, at + 1, 1);
        lemma_value_from(s, at + 2, 0);
    }
    if at + 4 <= s.len() {
        lemma_four(s, at);
    }
    if at + 8 <= s.len() {
        lemma_value_from(s, at, 8);
        lemma_value_from(s, at + 1, 7);
        lemma_value_from(s, at + 2, 6);
        lemma_value_from(s, at + 3, 5);
        lemma_four(s, at + 4);
    }
}

proof fn lemma_four(s: Seq<u8>, at: int)
    requires
        0 <= at,
        at + 4 <= s.len(),
    ensures
        bytes::le_value(s.subrange(at, at + 4)) == four(s, at),
{
    lemma_value_from(s, at, 4);
    lemma_value_from(s, at + 1, 3);
    lemma_value_from(s, at + 2, 2);
    lemma_value_from(s, at + 3, 1);
    lemma_value_from(s, at + 4, 0);
}

proof fn lemma_value_from(s: Seq<u8>, at: int, n: int)
    requires
        0 <= at,
        0 <= n,
        at + n <= s.len(),
    ensures
        n == 0 ==> bytes::le_value(s.subrange(at, at + n)) == 0,
        n > 0 ==> bytes::le_value(s.subrange(at, at + n)) == s[at] + 256 * bytes::le_value(
            s.subrange(at + 1, at + n),
        ),
{
    let part = s.subrange(at, at + n);
    if n > 0 {
        assert(part.subrange(1, part.len() as int) =~= s.subrange(at + 1, at + n));
    }
}

/// Numbers are written with their least byte first, each in its fixed width.
pub proof fn numbers_are_written_least_byte_first(x: nat)
    ensures
        bytes::le_bytes(x, 2).len() == 2,
        bytes::le_bytes(x, 4).len() == 4,
        bytes::le_bytes(x, 8).len() == 8,
        x < 0x1_0000 ==> bytes::le_bytes(x, 2)[0] + 0x100 * bytes::le_bytes(x, 2)[1] == x,
        x < 0x1_0000_0000 ==> four(bytes::le_bytes(x, 4), 0) == x,
        x < 0x1_0000_0000_0000_0000 ==> eight(bytes::le_bytes(x, 8), 0) == x,
{
    bytes::lemma_le_bytes_len(x, 2);
    bytes::lemma_le_bytes_len(x, 4);
    bytes::lemma_le_bytes_len(x, 8);
    bytes::lemma_pow256();
    reveal_with_fuel(bytes::pow256, 3);
    if x < 0x1_0000 {
        bytes::lemma_le_value_of_bytes(x, 2);
        numbers_have_their_least_byte_first(bytes::le_bytes(x, 2), 0);
        assert(bytes::le_bytes(x, 2).subrange(0, 2) =~= bytes::le_bytes(x, 2));
    }
    if x < 0x1_0000_0000 {
        bytes::lemma_le_value_of_bytes(x, 4);
        numbers_have_their_least_byte_first(bytes::le_bytes(x, 4), 0);
        assert(bytes::le_bytes(x, 4).subrange(0, 4) =~= bytes::le_bytes(x, 4));
    }
    if x < 0x1_0000_0000_0000_0000 {
        bytes::lemma_le_value_of_bytes(x, 8);
        numbers_have_their_least_byte_first(bytes::le_bytes(x, 8), 0);
        assert(bytes::le_bytes(x, 8).subrange(0, 8) =~= bytes::le_bytes(x, 8));
    }
}

/// Every type of message has its own byte, and every other byte is refused.
pub proof fn message_types_have_their_bytes(v: u8)
    ensures
        MessageType::Version.code() == 1,
        MessageType::VerAck.code() == 2,
        MessageType::Ping.code() == 3,
        MessageType::Pong.code() == 4,
        MessageType::GetAddr.code() == 5,
        MessageType::Addr.code() == 6,
        MessageType::GetHeaders.code() == 7,
        MessageType::Headers.code() == 8,
        MessageType::Inv.code() == 9,
        MessageType::GetData.code() == 10,
        MessageType::Tx.code() == 11,
        MessageType::Block.code() == 12,
        MessageType::NotFound.code() == 13,
        MessageType::Reject.code() == 14,
        MessageType::parse(v) is Ok <==> 1 <= v && v <= 14,
        MessageType::parse(v) is Ok ==> MessageType::parse(v)->Ok_0.code() == v,
        InvType::Block.code() == 1,
        InvType::Tx.code() == 2,
        InvType::parse(v) is Ok <==> v == 1 || v == 2,
        InvType::parse(v) is Ok ==> InvType::parse(v)->Ok_0.code() == v,
{
    if 1 <= v && v <= 14 {
        assert(exists|t: MessageType| t.code() == v) by {
            let t = if v == 1 {
                MessageType::Version
            } else if v == 2 {
                MessageType::VerAck
            } else if v == 3 {
                MessageType::Ping
            } else if v == 4 {
                MessageType::Pong
            } else if v == 5 {
                MessageType::GetAddr
            } else if v == 6 {
                MessageType::Addr
            } else if v == 7 {
                MessageType::GetHeaders
            } else if v == 8 {
                MessageType::Headers
            } else if v == 9 {
                MessageType::Inv
            } else if v == 10 {
                MessageType::GetData
            } else if v == 11 {
                MessageType::Tx
            } else if v == 12 {
                MessageType::Block
            } else if v == 13 {
                MessageType::NotFound
            } else {
                MessageType::Reject
            };
            assert(t.code() == v);
        }
    } else {
        assert forall|t: MessageType| t.code() != v by {}
    }
}

/// A frame is the magic of the network, the byte of its type, the length of its payload in four
/// bytes, the first four bytes of the payload's digest, and the payload.
pub proof fn frame_layout(m: MessageView)
    requires
        m.magic.len() == 4,
        m.payload.len() < 0x1_0000_0000,
    ensures
        ({
            let f = m.frame();
            &&& f.len() == 13 + m.payload.len()
            &&& f.subrange(0, 4) == m.magic
            &&& f[4] == m.msg_type.code()
            &&& four(f, 5) == m.payload.len()
            &&& f.subrange(9, 13) == hash::blake3_digest(m.payload)@.subrange(0, 4)
            &&& f.subrange(13, f.len() as int) == m.payload
        }),
{
    let f = m.frame();
    numbers_are_written_least_byte_first(m.payload.len());
    let len = bytes::le_bytes(m.payload.len(), 4);
    assert(f.subrange(0, 4) =~= m.magic);
    assert(f[5] == len[0] && f[6] == len[1] && f[7] == len[2] && f[8] == len[3]);
    assert(f.subrange(9, 13) =~= hash::blake3_digest(m.payload)@.subrange(0, 4));
    assert(f.subrange(13, f.len() as int) =~= m.payload);
}

/// What bytes amount to is said by the bytes of the frame at their start: as long as it is not
/// whole more are waited for; a foreign magic, an unknown type, a length of more than four
/// mebibytes and a wrong checksum break the stream; and every other frame is handed out as it
/// stands there.
pub proof fn stream_is_judged_by_its_bytes(buf: Seq<u8>, magic: Seq<u8>)
    ensures
        ({
            let (step, rest) = frame::frame_step(buf, magic);
            let len = four(buf, 5);
            let own = buf.subrange(0, 4) == magic;
            let typed = 1 <= buf[4] && buf[4] <= 14;
            let whole = buf.len() >= 13 + len;
            let payload = buf.subrange(13, 13 + len);
            let summed = buf.subrange(9, 13) == hash::blake3_digest(payload)@.subrange(0, 4);
            &&& buf.len() < 13 ==> step is NeedMore && rest == buf
            &&& buf.len() >= 13 && (!own || !typed || len > 4_194_304) ==> step is Broken && rest
                == buf
            &&& buf.len() >= 13 && own && typed && len <= 4_194_304 && !whole ==> step is NeedMore
                && rest == buf
            &&& buf.len() >= 13 && own && typed && len <= 4_194_304 && whole ==> {
                &&& rest == buf.skip(13 + len)
                &&& !summed ==> step is Broken
                &&& summed ==> {
                    &&& step matches StepView::Frame(t, p)
                    &&& t.code() == buf[4]
                    &&& p == payload
                }
            }
        }),
{
    if buf.len() >= 13 {
        numbers_have_their_least_byte_first(buf, 5);
        message_types_have_their_bytes(buf[4]);
        let len = four(buf, 5);
        if buf.len() >= 13 + len {
            assert(buf.skip(13 + len) =~= buf.subrange(13 + len, buf.len() as int));
        }
    }
}

/// A frame in bytes decodes exactly when its magic, its type, its length and its checksum are in
/// order, and to what stands there.
pub proof fn frames_decode_by_their_bytes(data: Seq<u8>, magic: Seq<u8>)
    ensures
        ({
            let res = MessageView::parse(data, magic);
            let len = four(data, 5);
            let payload = data.subrange(13, 13 + len);
            &&& res is Ok <==> {
                &&& data.len() >= 13
                &&& data.subrange(0, 4) == magic
                &&& 1 <= data[4] && data[4] <= 14
                &&& len <= 4_194_304
                &&& data.len() >= 13 + len
                &&& data.subrange(9, 13) == hash::blake3_digest(payload)@.subrange(0, 4)
            }
            &&& res is Ok ==> {
                &&& res->Ok_0.0.msg_type.code() == data[4]
                &&& res->Ok_0.0.payload == payload
                &&& res->Ok_0.0.magic == magic
                &&& res->Ok_0.1 == 13 + len
            }
        }),
{
    if data.len() >= 13 {
        numbers_have_their_least_byte_first(data, 5);
        message_types_have_their_bytes(data[4]);
    }
}

/// A version is its protocol number, services, time, height and nonce, in 4, 8, 8, 4 and 8 bytes,
/// and is read from them, as long as all of them are there.
pub proof fn version_layout(m: VersionMessage, data: Seq<u8>)
    ensures
        ({
            let p = m.payload();
            &&& p.len() == 32
            &&& four(p, 0) == m.version
            &&& eight(p, 4) == m.services
            &&& eight(p, 12) == m.timestamp
            &&& four(p, 20) == m.height
            &&& eight(p, 24) == m.nonce
        }),
        VersionMessage::parse(data) is Ok <==> data.len() >= 32,
        data.len() >= 32 ==> {
            let v = VersionMessage::parse(data)->Ok_0;
            &&& v.version == four(data, 0)
            &&& v.services == eight(data, 4)
            &&& v.timestamp == eight(data, 12)
            &&& v.height == four(data, 20)
            &&& v.nonce == eight(data, 24)
        },
{
    if data.len() >= 32 {
        numbers_have_their_least_byte_first(data, 0);
        numbers_have_their_least_byte_first(data, 4);
        numbers_have_their_least_byte_first(data, 12);
        numbers_have_their_least_byte_first(data, 20);
        numbers_have_their_least_byte_first(data, 24);
    }
    let p = m.payload();
    wire_laws::version_round_trip(m, Seq::empty());
    assert(p + Seq::<u8>::empty() =~= p);
    numbers_have_their_least_byte_first(p, 0);
    numbers_have_their_least_byte_first(p, 4);
    numbers_have_their_least_byte_first(p, 12);
    numbers_have_their_least_byte_first(p, 20);
    numbers_have_their_least_byte_first(p, 24);
}

/// A ping or pong is its nonce in eight bytes.
pub proof fn ping_layout(m: PingMessage, data: Seq<u8>)
    ensures
        m.payload().len() == 8,
        eight(m.payload(), 0) == m.nonce,
        PingMessage::parse(data) is Ok <==> data.len() >= 8,
        data.len() >= 8 ==> PingMessage::parse(data)->Ok_0.nonce == eight(data, 0),
{
    numbers_are_written_least_byte_first(m.nonce as nat);
    if data.len() >= 8 {
        numbers_have_their_least_byte_first(data, 0);
    }
}

/// A request for headers is the hash after which they are asked for and the one at which to stop.
pub proof fn get_headers_layout(m: GetHeadersMessage, data: Seq<u8>)
    ensures
        m.payload().len() == 64,
        m.payload().subrange(0, 32) == m.start_hash.0@,
        m.payload().subrange(32, 64) == m.stop_hash.0@,
        GetHeadersMessage::parse(data) is Ok <==> data.len() >= 64,
        data.len() >= 64 ==> GetHeadersMessage::parse(data)->Ok_0 == (
            data.subrange(0, 32),
            data.subrange(32, 64),
        ),
{
    assert(m.payload().subrange(0, 32) =~= m.start_hash.0@);
    assert(m.payload().subrange(32, 64) =~= m.stop_hash.0@);
}

/// An inventory is how many entries there are in four bytes, and of each entry the byte of its
/// type and its hash.
pub proof fn inventory_layout(inventory: Seq<InvEntry>, i: int)
    requires
        inventory.len() < 0x1_0000_0000,
        0 <= i < inventory.len(),
    ensures
        ({
            let p = wire::inventory_payload(inventory);
            &&& p.len() == 4 + 33 * inventory.len()
            &&& four(p, 0) == inventory.len()
            &&& p[4 + 33 * i] == inventory[i].inv_type.code()
            &&& p.subrange(5 + 33 * i, 37 + 33 * i) == inventory[i].hash.0@
        }),
{
    let p = wire::inventory_payload(inventory);
    let body = wire::entries_payload(inventory);
    numbers_are_written_least_byte_first(inventory.len());
    let count = bytes::le_bytes(inventory.len(), 4);
    assert(p[0] == count[0] && p[1] == count[1] && p[2] == count[2] && p[3] == count[3]);
    lemma_entry_stands(inventory, i);
    assert(p[4 + 33 * i] == body[33 * i]);
    assert(p.subrange(5 + 33 * i, 37 + 33 * i) =~= body.subrange(1 + 33 * i, 33 + 33 * i));
}

proof fn lemma_entry_stands(inventory: Seq<InvEntry>, i: int)
    requires
        0 <= i < inventory.len(),
    ensures
        ({
            let body = wire::entries_payload(inventory);
            &&& body.len() == 33 * inventory.len()
            &&& body[33 * i] == inventory[i].inv_type.code()
            &&& body.subrange(1 + 33 * i, 33 + 33 * i) == inventory[i].hash.0@
        }),
    decreases inventory.len(),
{
    let front = inventory.drop_last();
    let before = wire::entries_payload(front);
    let body = wire::entries_payload(inventory);
    if front.len() > 0 {
        lemma_entry_stands(
            front,
            if i < front.len() {
                i
            } else {
                0
            },
        );
    }
    assert(body == before + inventory.last().payload());
    if i < front.len() {
        assert(body.subrange(1 + 33 * i, 33 + 33 * i) =~= before.subrange(1 + 33 * i, 33 + 33 * i));
    } else {
        assert(body.subrange(1 + 33 * i, 33 + 33 * i) =~= inventory[i].hash.0@);
    }
}

/// An inventory is read exactly when its count is at most a hundred thousand, all its entries are
/// there, and each has a known type; and then each entry is what stands there.
pub proof fn inventories_decode_by_their_bytes(
    label: Seq<char>,
    data: Seq<u8>,
    res: Result<Seq<InvEntry>, Seq<char>>,
)
    requires
        wire::inventory_parsed(label, data, res),
    ensures
        res is Ok <==> {
            &&& data.len() >= 4
            &&& four(data, 0) <= 100_000
            &&& data.len() >= 4 + 33 * four(data, 0)
            &&& forall|i: int|
                0 <= i < four(data, 0) ==> {
                    let t = #[trigger] data[4 + 33 * i];
                    t == 1 || t == 2
                }
        },
        res is Ok ==> res->Ok_0.len() == four(data, 0),
        res is Ok ==> forall|i: int|
            0 <= i < res->Ok_0.len() ==> (#[trigger] res->Ok_0[i]).inv_type.code() == data[4 + 33
                * i] && res->Ok_0[i].hash.0@ == data.subrange(5 + 33 * i, 37 + 33 * i),
{
    if data.len() >= 4 {
        numbers_have_their_least_byte_first(data, 0);
        let count = four(data, 0);
        lemma_first_unknown(data, 0, count as nat);
        if res is Ok {
            let got = res->Ok_0;
            assert forall|i: int| 0 <= i < count implies (#[trigger] got[i]).inv_type.code()
                == data[4 + 33 * i] && got[i].hash.0@ == data.subrange(
                5 + 33 * i,
                37 + 33 * i,
            ) by {
                assert(got[i].stands_at(data, i));
                let part = data.subrange(4 + 33 * i, 4 + 33 * (i + 1));
                assert(part == got[i].payload());
                assert(part[0] == data[4 + 33 * i]);
                assert(got[i].hash.0@ =~= part.subrange(1, 33));
                assert(part.subrange(1, 33) =~= data.subrange(5 + 33 * i, 37 + 33 * i));
            }
        }
    }
}

proof fn lemma_first_unknown(data: Seq<u8>, from: nat, count: nat)
    ensures
        from <= count ==> {
            let bad = wire::first_unknown_entry(data, from, count);
            &&& from <= bad <= count
            &&& bad < count ==> {
                let t = data[4 + 33 * bad as int];
                t != 1 && t != 2
            }
            &&& forall|i: int|
                from <= i < bad ==> {
                    let t = #[trigger] data[4 + 33 * i];
                    t == 1 || t == 2
                }
        },
    decreases count - from,
{
    if from < count && InvType::parse(data[4 + 33 * from as int]) is Ok {
        lemma_first_unknown(data, from + 1, count);
    }
}

/// A refusal is the length and the bytes of its message, its code, and the length and the bytes of
/// its reason.
pub proof fn reject_layout(m: RejectView)
    ensures
        ({
            let message = vstd::utf8::encode_utf8(m.message);
            let reason = vstd::utf8::encode_utf8(m.reason);
            let p = m.payload();
            &&& p.len() == 3 + message.len() + reason.len()
            &&& p[0] == message.len() % 256
            &&& p.subrange(1, 1 + message.len() as int) == message
            &&& p[1 + message.len() as int] == m.code
            &&& p[2 + message.len() as int] == reason.len() % 256
            &&& p.subrange(3 + message.len() as int, p.len() as int) == reason
        }),
{
    let message = vstd::utf8::encode_utf8(m.message);
    let reason = vstd::utf8::encode_utf8(m.reason);
    let p = m.payload();
    assert(p.subrange(1, 1 + message.len() as int) =~= message);
    assert(p.subrange(3 + message.len() as int, p.len() as int) =~= reason);
}

/// A handshake message is framed with its length in two bytes, and an encrypted chunk in four.
pub proof fn transport_layout(msg: Seq<u8>)
    ensures
        msg.len() < 0x1_0000 ==> {
            let f = noise_transport::handshake_frame_of(msg);
            &&& f.len() == 2 + msg.len()
            &&& f[0] + 0x100 * f[1] == msg.len()
            &&& f.subrange(2, f.len() as int) == msg
        },
        msg.len() < 0x1_0000_0000 ==> {
            let f = noise_transport::chunk_frame_of(msg);
            &&& f.len() == 4 + msg.len()
            &&& four(f, 0) == msg.len()
            &&& f.subrange(4, f.len() as int) == msg
        },
        noise_transport::handshake_len_ok(msg.len() as int) <==> 1 <= msg.len() <= 2048,
        noise_transport::chunk_len_ok(msg.len() as int) <==> 1 <= msg.len() <= 65_535,
{
    numbers_are_written_least_byte_first(msg.len());
    if msg.len() < 0x1_0000 {
        let f = noise_transport::handshake_frame_of(msg);
        let len = bytes::le_bytes(msg.len(), 2);
        assert(f[0] == len[0] && f[1] == len[1]);
        assert(f.subrange(2, f.len() as int) =~= msg);
    }
    if msg.len() < 0x1_0000_0000 {
        let f = noise_transport::chunk_frame_of(msg);
        let len = bytes::le_bytes(msg.len(), 4);
        assert(f[0] == len[0] && f[1] == len[1] && f[2] == len[2] && f[3] == len[3]);
        assert(f.subrange(4, f.len() as int) =~= msg);
    }
}

/// A plaintext goes out in as few chunks as may be: all but the last are full.
pub proof fn plaintext_chunks_are_full(plaintext: Seq<u8>, i: int)
    requires
        0 <= i < noise_transport::plaintext_parts(plaintext).len(),
    ensures
        ({
            let parts = noise_transport::plaintext_parts(plaintext);
            let end = if 32_768 * (i + 1) < plaintext.len() {
                32_768 * (i + 1)
            } else {
                plaintext.len() as int
            };
            &&& parts[i] == plaintext.subrange(32_768 * i, end)
            &&& parts.len() == (plaintext.len() + 32_767) / 32_768
        }),
    decreases plaintext.len(),
{
    let parts = noise_transport::plaintext_parts(plaintext);
    if plaintext.len() <= 32_768 {
        assert(parts[i] =~= plaintext.subrange(0, plaintext.len() as int));
    } else {
        let rest = plaintext.skip(32_768);
        let later = noise_transport::plaintext_parts(rest);
        assert(later.len() > 0);
        plaintext_chunks_are_full(
            rest,
            if i > 0 {
                i - 1
            } else {
                0
            },
        );
        if i == 0 {
            assert(parts[0] =~= plaintext.subrange(0, 32_768));
        } else {
            let end = if 32_768 * (i + 1) < plaintext.len() {
                32_768 * (i + 1)
            } else {
                plaintext.len() as int
            };
            assert(parts[i] == later[i - 1]);
            assert(later[i - 1] =~= plaintext.subrange(32_768 * i, end));
        }
    }
}

/// The value of decimal digits.
pub open spec fn digits_value(s: Seq<char>) -> int
    decreases s.len(),
{
    if s.len() == 0 {
        0
    } else {
        10 * digits_value(s.drop_last()) + (s.last() as int - 48)
    }
}

/// A number is written in decimal digits that have its value, without a zero in front.
pub proof fn decimal_has_its_value(n: nat)
    ensures
        digits_value(text::decimal(n)) == n,
        forall|i: int|
            0 <= i < text::decimal(n).len() ==> 48 <= (#[trigger] text::decimal(n)[i]) as int <= 57,
        text::decimal(n).len() >= 1,
        n > 0 ==> text::decimal(n)[0] as int != 48,
    decreases n,
{
    let s = text::decimal(n);
    if n >= 10 {
        decimal_has_its_value(n / 10);
        assert(s.drop_last() =~= text::decimal(n / 10));
        assert(s.last() as int == 48 + n % 10);
        assert forall|i: int| 0 <= i < s.len() implies 48 <= (#[trigger] s[i]) as int <= 57 by {
            if i < s.len() - 1 {
                assert(s[i] == text::decimal(n / 10)[i]);
            }
        }
    } else {
        assert(s.drop_last() =~= Seq::empty());
        assert(digits_value(s.drop_last()) == 0);
        assert(s.last() as int == 48 + n);
    }
}

/// A byte is written as two hexadecimal digits, the higher one first.
pub proof fn hex_text_has_its_value(data: Seq<u8>, i: int)
    requires
        0 <= i < data.len(),
    ensures
        text::hex_text(data).len() == 2 * data.len(),
        ({
            let value = |c: char| -> int {
                if c as int <= 57 {
                    c as int - 48
                } else {
                    c as int - 87
                }
            };
            let high = text::hex_text(data)[2 * i];
            let low = text::hex_text(data)[2 * i + 1];
            &&& 16 * value(high) + value(low) == data[i]
            &&& 48 <= high as int <= 57 || 97 <= high as int <= 102
            &&& 48 <= low as int <= 57 || 97 <= low as int <= 102
        }),
{
}

/// A hash is zero exactly when each of its bytes is.
pub proof fn zero_hash_is_all_zeros(h: hash::Hash32)
    ensures
        h.is_zero() <==> h.0@ == Seq::new(32, |i: int| 0u8),
{
    let zeros = Seq::new(32, |i: int| 0u8);
    if h.is_zero() {
        assert(h.0@ =~= zeros);
    } else {
        assert forall|i: int| 0 <= i < 32 && h.0@ == zeros implies h.0@[i] == 0 by {
            assert(zeros[i] == 0u8);
        }
    }
}

/// What breaks a stream is told: a foreign magic, a length beyond the limit with that length, and a
/// wrong checksum.
pub proof fn broken_streams_tell_why(buf: Seq<u8>, magic: Seq<u8>)
    requires
        buf.len() >= 13,
    ensures
        ({
            let step = frame::frame_step(buf, magic).0;
            let own = buf.subrange(0, 4) == magic;
            let typed = 1 <= buf[4] && buf[4] <= 14;
            let len = four(buf, 5);
            &&& !own ==> step == StepView::Broken(Reason::Exactly("bad magic"@))
            &&& own && !typed ==> step == StepView::Broken(
                Reason::Codec("unknown message type: 0x"@ + text::hex_byte(buf[4])),
            )
            &&& own && typed && len > 4_194_304 ==> step == StepView::Broken(
                Reason::Exactly("payload too large: "@ + text::decimal(len as nat)),
            )
            &&& own && typed && len <= 4_194_304 && step is Broken ==> step == StepView::Broken(
                Reason::Exactly("checksum mismatch"@),
            )
        }),
{
    numbers_have_their_least_byte_first(buf, 5);
    message_types_have_their_bytes(buf[4]);
}

/// What is handed out of a stream is what is expected: to wait, the type and the bytes of a frame,
/// or a protocol error for the reason; and never one for the other.
pub proof fn steps_are_what_is_expected(step: FrameStep, expected: StepView)
    ensures
        frame::step_is(step, expected) <==> match expected {
            StepView::NeedMore => step is NeedMore,
            StepView::Frame(t, payload) => step is Frame && step->Frame_0 == t && step->Frame_1@
                == payload,
            StepView::Broken(Reason::Exactly(words)) => step is Broken && step->Broken_0 is Protocol
                && step->Broken_0->Protocol_0@ == words,
            StepView::Broken(Reason::Codec(words)) => step is Broken && step->Broken_0 is Protocol
                && exists|before: Seq<char>, after: Seq<char>|
                step->Broken_0->Protocol_0@ == #[trigger] (before + words + after),
        },
{
}

/// The errors of the encrypted transport are what they are called.
pub proof fn transport_errors_are_what_they_are_called(
    e: noise_transport::HandshakeError,
    io: IoError,
    words: Seq<char>,
)
    ensures
        noise_transport::is_crypto(e, words) <==> e is Crypto && e->Crypto_0@ == words,
        noise_transport::is_framing(e, words) <==> e is Framing && e->Framing_0@ == words,
        noise_transport::is_invalid_data(io, words) <==> !io.eof && io.message@ == words
            && io.kind@ == "invalid data"@,
        noise_transport::is_unexpected_eof(io) <==> io.eof && io.message@ == "noise frame truncated"@
            && io.kind@ == "unexpected end of file"@,
{
}

} // verus!
