//! The encrypted transport: its handshake messages, and the framing of encrypted chunks.
//!
//! There is no way from here to a connection in the clear: any failure ends the connection.

use crate::bytes;
use crate::error;
use crate::error::IoError;
use crate::time::Instant;
use vstd::prelude::*;
use vstd::slice::{slice_subrange, slice_to_vec};

verus! {

/// The suite that every connection uses.
pub const NOISE_PARAMS: &'static str = "Noise_XX_25519_ChaChaPoly_BLAKE2s";

/// Time for a whole handshake.
pub const NOISE_HANDSHAKE_TIMEOUT_SECS: u64 = 10;

/// Most bytes of one handshake message.
pub const NOISE_HANDSHAKE_MSG_CAP: usize = 2048;

/// Most bytes of one encrypted chunk.
pub const NOISE_FRAME_LEN_MAX: usize = 65_535;

/// Bytes of plaintext in one chunk.
pub const NOISE_PLAINTEXT_CHUNK: usize = 32_768;

/// Room for a handshake message that carries no payload.
pub const HANDSHAKE_SCRATCH: usize = 512;

/// Why a handshake failed. No key and no message contents are in it.
#[derive(Clone, Debug)]
pub enum HandshakeError {
    Io(IoError),
    Timeout,
    Crypto(&'static str),
    Framing(&'static str),
}

/// The text of an error.
pub open spec fn handshake_text(e: HandshakeError) -> Seq<char> {
    match e {
        HandshakeError::Io(io) => "noise handshake io: "@ + io.kind@,
        HandshakeError::Timeout => "noise handshake timed out"@,
        HandshakeError::Crypto(m) => "noise handshake crypto: "@ + m@,
        HandshakeError::Framing(m) => "noise handshake framing: "@ + m@,
    }
}

/// `e` is the cryptographic failure with the given text.
pub open spec fn is_crypto(e: HandshakeError, text: Seq<char>) -> bool {
    e matches HandshakeError::Crypto(m) && m@ == text
}

/// `e` is the framing failure with the given text.
pub open spec fn is_framing(e: HandshakeError, text: Seq<char>) -> bool {
    e matches HandshakeError::Framing(m) && m@ == text
}

impl HandshakeError {
    /// The text of the error.
    pub fn to_string(&self) -> (text: String)
        ensures
            text@ == handshake_text(*self),
    {
        match self {
            HandshakeError::Io(io) => error::prefixed("noise handshake io: ", io.kind.as_str()),
            HandshakeError::Timeout => "noise handshake timed out".to_string(),
            HandshakeError::Crypto(m) => error::prefixed("noise handshake crypto: ", m),
            HandshakeError::Framing(m) => error::prefixed("noise handshake framing: ", m),
        }
    }

    /// What a failed read amounts to: the end of the stream is a framing failure.
    pub fn from_read(io: IoError) -> (e: HandshakeError)
        ensures
            if io.eof {
                is_framing(e, "unexpected EOF during handshake"@)
            } else {
                e == HandshakeError::Io(io)
            },
    {
        if io.eof {
            HandshakeError::Framing("unexpected EOF during handshake")
        } else {
            HandshakeError::Io(io)
        }
    }
}

/// The nanoseconds that are left until the deadline; `Timeout` where none are.
pub fn remaining(deadline: Instant, now: Instant) -> (left: Result<u64, HandshakeError>)
    ensures
        match left {
            Ok(nanos) => nanos == deadline.nanos - now.nanos && nanos > 0,
            Err(e) => deadline.nanos <= now.nanos && e == HandshakeError::Timeout,
        },
{
    if deadline.nanos > now.nanos {
        Ok(deadline.nanos - now.nanos)
    } else {
        Err(HandshakeError::Timeout)
    }
}

/// A handshake message may have this length.
pub open spec fn handshake_len_ok(len: int) -> bool {
    0 < len <= NOISE_HANDSHAKE_MSG_CAP
}

/// The length of the handshake message that two bytes announce.
pub fn handshake_body_len(announced: &[u8; 2]) -> (len: Result<usize, HandshakeError>)
    ensures
        match len {
            Ok(n) => n == bytes::le_value(announced@) && handshake_len_ok(n as int),
            Err(e) => !handshake_len_ok(bytes::le_value(announced@) as int) && is_framing(
                e,
                "bad handshake frame length"@,
            ),
        },
{
    let n: u64 = bytes::read_le(announced, 0, 2);
    assert(announced@.subrange(0, 2) =~= announced@);
    if n == 0 || n > NOISE_HANDSHAKE_MSG_CAP as u64 {
        return Err(HandshakeError::Framing("bad handshake frame length"));
    }
    Ok(n as usize)
}

/// The frame of a handshake message: its length in two bytes, and the message.
pub open spec fn handshake_frame_of(msg: Seq<u8>) -> Seq<u8> {
    bytes::le_bytes(msg.len(), 2) + msg
}

/// The frame of a handshake message, if it may have its length.
pub fn handshake_frame(msg: &[u8]) -> (frame: Result<Vec<u8>, HandshakeError>)
    ensures
        match frame {
            Ok(f) => handshake_len_ok(msg@.len() as int) && f@ == handshake_frame_of(msg@),
            Err(e) => !handshake_len_ok(msg@.len() as int) && is_framing(
                e,
                "bad handshake frame length"@,
            ),
        },
{
    if msg.len() == 0 || msg.len() > NOISE_HANDSHAKE_MSG_CAP {
        return Err(HandshakeError::Framing("bad handshake frame length"));
    }
    let mut frame: Vec<u8> = Vec::new();
    bytes::push_le(&mut frame, msg.len() as u64, 2);
    bytes::append_bytes(&mut frame, msg);
    assert(frame@ =~= handshake_frame_of(msg@));
    Ok(frame)
}

/// Which side of a handshake a node is: the one that dials begins.
#[derive(Clone, Copy, Debug, PartialEq, Eq, Structural)]
pub enum HandshakeRole {
    Initiator,
    Responder,
}

/// What a handshake waits for.
#[derive(Clone, Copy, Debug, PartialEq, Eq, Structural)]
pub enum NoiseStep {
    /// The responder waits for the first message.
    AwaitFirst,
    /// The initiator waits for the second message.
    AwaitSecond,
    /// The responder waits for the third message.
    AwaitThird,
    Finished,
}

/// `snow::HandshakeState`: one side of a handshake under way. Nothing is seen inside it: it is
/// known only by how it was built and by the messages it wrote and took.
#[verifier::external_type_specification]
#[verifier::external_body]
pub struct ExHandshakeState(snow::HandshakeState);

/// `snow::Error`: why a step of a handshake failed. It is carried through, and nothing is
/// claimed of it.
#[verifier::external_type_specification]
#[verifier::external_body]
pub struct ExSnowError(snow::Error);

/// `snow::params::NoiseParams`: a parsed suite. Nothing is seen inside it: it is known only by the
/// text that it was parsed from.
#[verifier::external_type_specification]
#[verifier::external_body]
pub struct ExNoiseParams(snow::params::NoiseParams);

/// What `str::parse` makes of the name of a suite that it knows.
pub uninterp spec fn parsed(suite: Seq<char>) -> snow::params::NoiseParams;

/// `str::parse` into `snow::params::NoiseParams`: what comes out is a function of the text, and
/// the suite that every connection uses is one that it knows. Which other texts it knows is not
/// stated.
#[verifier::external_body]
fn parse_suite(suite: &str) -> (res: Result<snow::params::NoiseParams, snow::Error>)
    ensures
        suite@ == NOISE_PARAMS@ ==> res is Ok,
        res is Ok ==> res->Ok_0 == parsed(suite@),
{
    suite.parse()
}

/// What `snow::Builder::build_initiator` makes of a suite and a static private key. The key of
/// its own that a handshake draws at random is not drawn yet.
pub uninterp spec fn initiator_of(
    params: snow::params::NoiseParams,
    key: Seq<u8>,
) -> snow::HandshakeState;

/// `snow::Builder::build_initiator` with a static private key: the side that sends first. What
/// comes out is a function of the suite and the key, and for the suite that every connection
/// uses it succeeds with every key of 32 bytes. Success for other suites is not stated.
#[verifier::external_body]
fn build_initiator(params: snow::params::NoiseParams, key: &[u8; 32]) -> (res: Result<
    snow::HandshakeState,
    snow::Error,
>)
    ensures
        params == parsed(NOISE_PARAMS@) ==> res is Ok,
        res is Ok ==> res->Ok_0 == initiator_of(params, key@),
{
    snow::Builder::new(params).local_private_key(key).build_initiator()
}

/// What `snow::Builder::build_responder` makes of a suite and a static private key. The key of
/// its own that a handshake draws at random is not drawn yet.
pub uninterp spec fn responder_of(
    params: snow::params::NoiseParams,
    key: Seq<u8>,
) -> snow::HandshakeState;

/// `snow::Builder::build_responder` with a static private key: the side that receives first. What
/// comes out is a function of the suite and the key, and for the suite that every connection
/// uses it succeeds with every key of 32 bytes. Success for other suites is not stated.
#[verifier::external_body]
fn build_responder(params: snow::params::NoiseParams, key: &[u8; 32]) -> (res: Result<
    snow::HandshakeState,
    snow::Error,
>)
    ensures
        params == parsed(NOISE_PARAMS@) ==> res is Ok,
        res is Ok ==> res->Ok_0 == responder_of(params, key@),
{
    snow::Builder::new(params).local_private_key(key).build_responder()
}

/// What `snow::HandshakeState::write_message` may do without a payload and with a buffer of the
/// scratch size: from the state `before` it may write `msg` and come to the state `after`. There
/// may be many such messages to one state, since keys are drawn at random.
pub uninterp spec fn writes(
    before: snow::HandshakeState,
    msg: Seq<u8>,
    after: snow::HandshakeState,
) -> bool;

/// What `snow::HandshakeState::read_message` comes to, with a buffer of the scratch size for the
/// payload: the state after the message, or none where the message is refused.
pub uninterp spec fn taken(
    hs: snow::HandshakeState,
    msg: Seq<u8>,
) -> Option<snow::HandshakeState>;

/// The state of an initiator, built with the given key, that has sent nothing yet.
pub open spec fn fresh_initiator(key: Seq<u8>) -> snow::HandshakeState {
    initiator_of(parsed(NOISE_PARAMS@), key)
}

/// The state of a responder, built with the given key, that has received nothing yet.
pub open spec fn fresh_responder(key: Seq<u8>) -> snow::HandshakeState {
    responder_of(parsed(NOISE_PARAMS@), key)
}

/// The state is that of an initiator that has sent nothing yet.
pub open spec fn writes_first(hs: snow::HandshakeState) -> bool {
    exists|key: Seq<u8>| key.len() == 32 && hs == #[trigger] fresh_initiator(key)
}

/// The state is that of a responder that has received the first message.
pub open spec fn writes_second(hs: snow::HandshakeState) -> bool {
    exists|key: Seq<u8>, first: Seq<u8>|
        key.len() == 32 && #[trigger] taken(fresh_responder(key), first) == Some(hs)
}

/// The state is that of an initiator that has sent the first message and received the second.
pub open spec fn writes_third(hs: snow::HandshakeState) -> bool {
    exists|key: Seq<u8>, first: Seq<u8>, sent: snow::HandshakeState, second: Seq<u8>|
        key.len() == 32 && #[trigger] writes(fresh_initiator(key), first, sent)
            && #[trigger] taken(sent, second) == Some(hs)
}

/// Bytes of the first message: a public key.
pub const FIRST_MSG_LEN: usize = 32;

/// Bytes of the second message: a public key, an encrypted public key and an empty payload,
/// each encrypted part with its tag.
pub const SECOND_MSG_LEN: usize = 96;

/// Bytes of the third message: an encrypted public key and an empty payload, each with its tag.
pub const THIRD_MSG_LEN: usize = 64;

/// `snow::HandshakeState::write_message` without a payload, into a buffer of the scratch size:
/// the message fits the buffer, and it and the state after it are ones that may come of the
/// state before. On a handshake of the suite that every connection uses, each message is written
/// when its turn has come, and has its fixed length. The message holds a key that is drawn at
/// random, so nothing more is claimed of its bytes, nor of success in other states. That the
/// system has random bytes to give is taken for granted: without them the call panics.
#[verifier::external_body]
fn write_message(hs: &mut snow::HandshakeState) -> (res: Result<Vec<u8>, snow::Error>)
    ensures
        res is Ok ==> res->Ok_0@.len() <= HANDSHAKE_SCRATCH,
        res is Ok ==> writes(*old(hs), res->Ok_0@, *final(hs)),
        writes_first(*old(hs)) ==> res is Ok && res->Ok_0@.len() == FIRST_MSG_LEN,
        writes_second(*old(hs)) ==> res is Ok && res->Ok_0@.len() == SECOND_MSG_LEN,
        writes_third(*old(hs)) ==> res is Ok && res->Ok_0@.len() == THIRD_MSG_LEN,
{
    let mut scratch = vec![0u8; HANDSHAKE_SCRATCH];
    let n = hs.write_message(&[], &mut scratch)?;
    scratch.truncate(n);
    Ok(scratch)
}

/// `snow::HandshakeState::read_message`, whose payload is dropped: whether a message is taken,
/// and the state after one that is, are functions of the state and the message. A message of
/// more than 65535 bytes is refused. Of the state after a refusal nothing is claimed.
#[verifier::external_body]
fn read_message(hs: &mut snow::HandshakeState, msg: &[u8]) -> (res: Result<(), snow::Error>)
    ensures
        res is Ok == taken(*old(hs), msg@) is Some,
        res is Ok ==> taken(*old(hs), msg@) == Some(*final(hs)),
        res is Ok ==> msg@.len() <= 65535,
{
    let mut scratch = vec![0u8; HANDSHAKE_SCRATCH];
    hs.read_message(msg, &mut scratch).map(|_| ())
}

/// The text for a message that could not be read.
pub open spec fn read_label(step: NoiseStep) -> Seq<char> {
    match step {
        NoiseStep::AwaitFirst => "read e"@,
        NoiseStep::AwaitSecond => "read ee"@,
        _ => "read se"@,
    }
}

/// The text for a message that could not be written after one was read.
pub open spec fn write_label(step: NoiseStep) -> Seq<char> {
    match step {
        NoiseStep::AwaitFirst => "write ee"@,
        _ => "write se"@,
    }
}

/// What a message leads to.
pub enum Progress {
    /// The handshake goes on to this step, and this frame is sent, if there is one.
    Next(NoiseStep, Option<Vec<u8>>),
    Failed(HandshakeError),
}

/// What a message that was waited for at `step` leads to, given whether it could be read and
/// what was written then.
pub open spec fn progress_is(
    progress: Progress,
    step: NoiseStep,
    read: bool,
    written: Option<Seq<u8>>,
) -> bool {
    if !read {
        progress matches Progress::Failed(e) && is_crypto(e, read_label(step))
    } else if step == NoiseStep::AwaitThird {
        progress == Progress::Next(NoiseStep::Finished, None)
    } else {
        match written {
            None => progress matches Progress::Failed(e) && is_crypto(e, write_label(step)),
            Some(msg) => if handshake_len_ok(msg.len() as int) {
                &&& progress matches Progress::Next(next, Some(frame))
                &&& next == if step == NoiseStep::AwaitFirst {
                    NoiseStep::AwaitThird
                } else {
                    NoiseStep::Finished
                }
                &&& frame@ == handshake_frame_of(msg)
            } else {
                progress matches Progress::Failed(e) && is_framing(e, "bad handshake frame length"@)
            },
        }
    }
}

/// The contents of what was written, if anything was.
pub open spec fn written_view(written: Option<Vec<u8>>) -> Option<Seq<u8>> {
    match written {
        Some(msg) => Some(msg@),
        None => None,
    }
}

/// What a message that was waited for at `step` leads to, given whether it could be read and
/// what was written then.
pub fn progress(step: NoiseStep, read: bool, written: &Option<Vec<u8>>) -> (p: Progress)
    requires
        step != NoiseStep::Finished,
    ensures
        progress_is(p, step, read, written_view(*written)),
{
    if !read {
        return Progress::Failed(
            HandshakeError::Crypto(
                match step {
                    NoiseStep::AwaitFirst => "read e",
                    NoiseStep::AwaitSecond => "read ee",
                    _ => "read se",
                },
            ),
        );
    }
    let next: NoiseStep = match step {
        NoiseStep::AwaitFirst => NoiseStep::AwaitThird,
        NoiseStep::AwaitSecond => NoiseStep::Finished,
        _ => {
            return Progress::Next(NoiseStep::Finished, None);
        },
    };
    match written {
        Some(msg) => match handshake_frame(msg.as_slice()) {
            Ok(frame) => Progress::Next(next, Some(frame)),
            Err(e) => Progress::Failed(e),
        },
        None => Progress::Failed(
            HandshakeError::Crypto(
                match step {
                    NoiseStep::AwaitFirst => "write ee",
                    _ => "write se",
                },
            ),
        ),
    }
}

/// What an answer to a message amounts to, given the step after it.
pub open spec fn answer(
    res: Result<Option<Vec<u8>>, HandshakeError>,
    step: NoiseStep,
) -> Progress {
    match res {
        Ok(frame) => Progress::Next(step, frame),
        Err(e) => Progress::Failed(e),
    }
}

/// One side of a handshake under way.
pub struct NoiseHandshake {
    pub state: snow::HandshakeState,
    pub step: NoiseStep,
}

/// How a handshake with the given key begins: the responder waits, and the initiator sends the
/// frame of its first message.
pub open spec fn start_is(
    role: HandshakeRole,
    key: Seq<u8>,
    hs: NoiseHandshake,
    frame: Option<Seq<u8>>,
) -> bool {
    match role {
        HandshakeRole::Initiator => {
            &&& hs.step == NoiseStep::AwaitSecond
            &&& exists|first: Seq<u8>|
                {
                    &&& #[trigger] writes(fresh_initiator(key), first, hs.state)
                    &&& first.len() == FIRST_MSG_LEN
                    &&& frame == Some(handshake_frame_of(first))
                }
        },
        HandshakeRole::Responder => {
            &&& hs.step == NoiseStep::AwaitFirst
            &&& hs.state == fresh_responder(key)
            &&& frame is None
        },
    }
}

/// The state after an answer was written, from the state in which it was due.
pub open spec fn answered(
    before: snow::HandshakeState,
    written: Option<Seq<u8>>,
    after: snow::HandshakeState,
) -> bool {
    written matches Some(msg) ==> writes(before, msg, after)
}

impl NoiseHandshake {
    /// The handshake was begun with `start` and has come to its step by messages that were taken.
    pub open spec fn wf(self) -> bool {
        match self.step {
            NoiseStep::AwaitFirst => exists|key: Seq<u8>|
                key.len() == 32 && self.state == #[trigger] fresh_responder(key),
            NoiseStep::AwaitSecond => exists|key: Seq<u8>, first: Seq<u8>|
                key.len() == 32 && #[trigger] writes(fresh_initiator(key), first, self.state),
            NoiseStep::AwaitThird => exists|before: snow::HandshakeState, second: Seq<u8>|
                writes_second(before) && #[trigger] writes(before, second, self.state),
            NoiseStep::Finished => true,
        }
    }

    /// Begins a handshake with this node's static private key: the frame to send, which the
    /// initiator has and the responder has not.
    pub fn start(role: HandshakeRole, static_key: &[u8; 32]) -> (res: Result<
        (NoiseHandshake, Option<Vec<u8>>),
        HandshakeError,
    >)
        ensures
            res matches Ok((hs, frame)) && hs.wf() && start_is(
                role,
                static_key@,
                hs,
                written_view(frame),
            ),
    {
        let params = match parse_suite(NOISE_PARAMS) {
            Ok(params) => params,
            Err(_) => {
                return Err(HandshakeError::Crypto("bad noise params"));
            },
        };
        match role {
            HandshakeRole::Initiator => {
                let mut state = match build_initiator(params, static_key) {
                    Ok(state) => state,
                    Err(_) => {
                        return Err(HandshakeError::Crypto("initiate"));
                    },
                };
                assert(state == fresh_initiator(static_key@));
                let msg: Vec<u8> = match write_message(&mut state) {
                    Ok(msg) => msg,
                    Err(_) => {
                        return Err(HandshakeError::Crypto("write e"));
                    },
                };
                let frame: Vec<u8> = match handshake_frame(msg.as_slice()) {
                    Ok(frame) => frame,
                    Err(e) => {
                        return Err(e);
                    },
                };
                let hs = NoiseHandshake { state, step: NoiseStep::AwaitSecond };
                assert(static_key@.len() == 32);
                assert(writes(fresh_initiator(static_key@), msg@, hs.state));
                Ok((hs, Some(frame)))
            },
            HandshakeRole::Responder => {
                let state = match build_responder(params, static_key) {
                    Ok(state) => state,
                    Err(_) => {
                        return Err(HandshakeError::Crypto("respond"));
                    },
                };
                assert(state == fresh_responder(static_key@));
                Ok((NoiseHandshake { state, step: NoiseStep::AwaitFirst }, None))
            },
        }
    }

    /// Takes the message that is waited for: the frame to send, if there is one. A handshake
    /// that was begun with `start` goes on exactly when the message can be read.
    pub fn on_message(&mut self, msg: &[u8]) -> (res: Result<Option<Vec<u8>>, HandshakeError>)
        requires
            old(self).step != NoiseStep::Finished,
        ensures
            ({
                let there = taken(old(self).state, msg@);
                exists|written: Option<Seq<u8>>|
                    {
                        &&& #[trigger] progress_is(
                            answer(res, final(self).step),
                            old(self).step,
                            there is Some,
                            written,
                        )
                        &&& there is Some ==> answered(there->0, written, final(self).state)
                    }
            }),
            old(self).step == NoiseStep::AwaitThird && res is Ok ==> taken(old(self).state, msg@)
                == Some(final(self).state),
            res is Err ==> final(self).step == old(self).step,
            old(self).wf() ==> (res is Ok <==> taken(old(self).state, msg@) is Some),
            old(self).wf() && res is Ok ==> final(self).wf(),
    {
        let read: bool = read_message(&mut self.state, msg).is_ok();
        let ghost there = self.state;
        proof {
            if old(self).wf() && read {
                lemma_turn(*old(self), msg@, there);
            }
        }
        let mut written: Option<Vec<u8>> = None;
        if read && self.step != NoiseStep::AwaitThird {
            written = match write_message(&mut self.state) {
                Ok(msg) => Some(msg),
                Err(_) => None,
            };
        }
        let p: Progress = progress(self.step, read, &written);
        assert(progress_is(p, old(self).step, read, written_view(written)));
        assert(answered(there, written_view(written), self.state));
        match p {
            Progress::Next(next, frame) => {
                self.step = next;
                proof {
                    if old(self).wf() && next == NoiseStep::AwaitThird {
                        assert(writes(there, written->0@, self.state));
                    }
                }
                Ok(frame)
            },
            Progress::Failed(e) => Err(e),
        }
    }
}

/// Once a message was taken it is the turn of the next one.
proof fn lemma_turn(hs: NoiseHandshake, msg: Seq<u8>, there: snow::HandshakeState)
    requires
        hs.wf(),
        taken(hs.state, msg) == Some(there),
    ensures
        hs.step == NoiseStep::AwaitFirst ==> writes_second(there),
        hs.step == NoiseStep::AwaitSecond ==> writes_third(there),
{
}

/// The peer's static public key after a handshake, which must be there and have its length.
pub fn remote_static_key(remote: Option<&[u8]>) -> (key: Result<[u8; 32], HandshakeError>)
    ensures
        match key {
            Ok(k) => remote matches Some(r) && r@ == k@,
            Err(e) => is_crypto(e, "missing remote static"@) && (remote matches Some(r) ==> r@.len()
                != 32),
        },
{
    match remote {
        Some(r) => {
            if r.len() != 32 {
                return Err(HandshakeError::Crypto("missing remote static"));
            }
            let key = crate::hash::read_hash(r, 0);
            assert(r@.subrange(0, 32) =~= r@);
            Ok(key.0)
        },
        None => Err(HandshakeError::Crypto("missing remote static")),
    }
}

/// `e` is the error for bytes that are not as they must be, with the given text.
pub open spec fn is_invalid_data(e: IoError, text: Seq<char>) -> bool {
    !e.eof && e.kind@ == "invalid data"@ && e.message@ == text
}

/// `e` is the error for a stream that ends inside a chunk.
pub open spec fn is_unexpected_eof(e: IoError) -> bool {
    e.eof && e.kind@ == "unexpected end of file"@ && e.message@ == "noise frame truncated"@
}

/// The error for bytes that are not as they must be.
pub fn invalid_data(msg: &'static str) -> (e: IoError)
    ensures
        is_invalid_data(e, msg@),
{
    IoError { eof: false, kind: "invalid data".to_string(), message: msg.to_string() }
}

/// The error for a stream that ends inside a chunk.
pub fn unexpected_eof() -> (e: IoError)
    ensures
        is_unexpected_eof(e),
{
    IoError {
        eof: true,
        kind: "unexpected end of file".to_string(),
        message: "noise frame truncated".to_string(),
    }
}

/// An encrypted chunk may have this length.
pub open spec fn chunk_len_ok(len: int) -> bool {
    0 < len <= NOISE_FRAME_LEN_MAX
}

/// The frame of an encrypted chunk: its length in four bytes, and the chunk.
pub open spec fn chunk_frame_of(chunk: Seq<u8>) -> Seq<u8> {
    bytes::le_bytes(chunk.len(), 4) + chunk
}

/// The frame of an encrypted chunk.
pub fn chunk_frame(chunk: &[u8]) -> (frame: Vec<u8>)
    ensures
        frame@ == chunk_frame_of(chunk@),
{
    let mut frame: Vec<u8> = Vec::new();
    bytes::push_le(&mut frame, chunk.len() as u64, 4);
    bytes::append_bytes(&mut frame, chunk);
    assert(frame@ =~= chunk_frame_of(chunk@));
    frame
}

/// The plaintext, so many bytes to a chunk.
pub open spec fn plaintext_parts(plaintext: Seq<u8>) -> Seq<Seq<u8>>
    decreases plaintext.len(),
{
    if plaintext.len() == 0 {
        Seq::empty()
    } else if plaintext.len() <= NOISE_PLAINTEXT_CHUNK {
        seq![plaintext]
    } else {
        seq![plaintext.take(NOISE_PLAINTEXT_CHUNK as int)] + plaintext_parts(
            plaintext.skip(NOISE_PLAINTEXT_CHUNK as int),
        )
    }
}

/// The plaintext chunks that are encrypted one by one. Empty plaintext makes no chunk.
pub fn plaintext_chunks(plaintext: &[u8]) -> (chunks: Vec<Vec<u8>>)
    ensures
        chunks@.map_values(|c: Vec<u8>| c@) == plaintext_parts(plaintext@),
{
    let mut chunks: Vec<Vec<u8>> = Vec::new();
    let mut pos: usize = 0;
    assert(plaintext@.skip(0) =~= plaintext@);
    assert(chunks@.map_values(|c: Vec<u8>| c@) + plaintext_parts(plaintext@) =~= plaintext_parts(
        plaintext@,
    ));
    while pos < plaintext.len()
        invariant
            pos <= plaintext@.len(),
            chunks@.map_values(|c: Vec<u8>| c@) + plaintext_parts(plaintext@.skip(pos as int))
                == plaintext_parts(plaintext@),
        decreases plaintext.len() - pos,
    {
        let ghost before = chunks@.map_values(|c: Vec<u8>| c@);
        let ghost rest = plaintext@.skip(pos as int);
        let end: usize = if plaintext.len() - pos > NOISE_PLAINTEXT_CHUNK {
            pos + NOISE_PLAINTEXT_CHUNK
        } else {
            plaintext.len()
        };
        let chunk: &[u8] = slice_subrange(plaintext, pos, end);
        chunks.push(slice_to_vec(chunk));
        proof {
            let next = plaintext@.skip(end as int);
            assert(chunks@.map_values(|c: Vec<u8>| c@) =~= before.push(chunk@));
            if rest.len() > NOISE_PLAINTEXT_CHUNK {
                assert(chunk@ =~= rest.take(NOISE_PLAINTEXT_CHUNK as int));
                assert(next =~= rest.skip(NOISE_PLAINTEXT_CHUNK as int));
            } else {
                assert(chunk@ =~= rest);
                assert(next.len() == 0);
            }
            assert(chunks@.map_values(|c: Vec<u8>| c@) + plaintext_parts(next) =~= before
                + plaintext_parts(rest));
        }
        pos = end;
    }
    assert(plaintext_parts(plaintext@.skip(pos as int)) =~= Seq::empty());
    assert(chunks@.map_values(|c: Vec<u8>| c@) =~= plaintext_parts(plaintext@));
    chunks
}

/// Puts encrypted chunks together from a stream, and hands out their plaintext.
pub struct ChunkReader {
    /// The bytes of the current frame that have come: its length, and then the chunk.
    pub partial: Vec<u8>,
    /// Plaintext that has not been handed out yet.
    pub backlog: Vec<u8>,
    /// How much of the backlog was handed out.
    pub backpos: usize,
}

/// The contents of a reader.
#[verifier::ext_equal]
pub struct ReaderView {
    pub partial: Seq<u8>,
    pub backlog: Seq<u8>,
}

/// What bytes of the stream amount to.
pub enum Fed {
    /// More bytes are needed.
    More,
    /// A whole encrypted chunk, to be decrypted.
    Chunk(Vec<u8>),
}

/// The length that a frame announces.
pub open spec fn announced(partial: Seq<u8>) -> int {
    bytes::le_value(partial.subrange(0, 4)) as int
}

/// The stream is broken: a length has come that is not allowed.
pub open spec fn broken(partial: Seq<u8>) -> bool {
    partial.len() >= 4 && !chunk_len_ok(announced(partial))
}

/// The bytes that have come of a frame are fewer than its own, or they are a length that is not
/// allowed.
pub open spec fn partial_ok(partial: Seq<u8>) -> bool {
    partial.len() >= 4 ==> if broken(partial) {
        partial.len() == 4
    } else {
        partial.len() < 4 + announced(partial)
    }
}

/// How many bytes are needed next: the rest of the length, or the rest of the chunk. Where the
/// stream is broken none are.
pub open spec fn needed(partial: Seq<u8>) -> int {
    if partial.len() < 4 {
        4 - partial.len()
    } else if broken(partial) {
        0
    } else {
        4 + announced(partial) - partial.len()
    }
}

/// What bytes of the stream amount to, with those before them.
pub enum FedView {
    More,
    Chunk(Seq<u8>),
    Broken,
}

/// What bytes of the stream amount to after `partial`, and what is kept of them.
pub open spec fn fed(partial: Seq<u8>, data: Seq<u8>) -> (FedView, Seq<u8>) {
    let now = partial + data;
    if broken(now) {
        (FedView::Broken, now)
    } else if now.len() >= 4 && now.len() == 4 + announced(now) {
        (FedView::Chunk(now.skip(4)), Seq::empty())
    } else {
        (FedView::More, now)
    }
}

impl View for ChunkReader {
    type V = ReaderView;

    open spec fn view(&self) -> ReaderView {
        ReaderView {
            partial: self.partial@,
            backlog: self.backlog@.subrange(self.backpos as int, self.backlog@.len() as int),
        }
    }
}

impl ChunkReader {
    pub open spec fn wf(self) -> bool {
        partial_ok(self.partial@) && self.backpos <= self.backlog@.len()
    }

    pub fn new() -> (reader: Self)
        ensures
            reader.wf(),
            reader@ == (ReaderView { partial: Seq::empty(), backlog: Seq::empty() }),
    {
        let reader = ChunkReader { partial: Vec::new(), backlog: Vec::new(), backpos: 0 };
        assert(reader@ =~= ReaderView { partial: Seq::empty(), backlog: Seq::empty() });
        reader
    }

    /// Plaintext is there to be handed out.
    pub fn has_backlog(&self) -> (there: bool)
        requires
            self.wf(),
        ensures
            there == (self@.backlog.len() > 0),
    {
        self.backpos < self.backlog.len()
    }

    /// Hands out up to `max` bytes of plaintext.
    pub fn take(&mut self, max: usize) -> (out: Vec<u8>)
        requires
            old(self).wf(),
        ensures
            final(self).wf(),
            ({
                let there = old(self)@.backlog;
                let n = if max < there.len() {
                    max as int
                } else {
                    there.len() as int
                };
                &&& out@ == there.take(n)
                &&& final(self)@ == (ReaderView { backlog: there.skip(n), ..old(self)@ })
            }),
    {
        let avail: usize = self.backlog.len() - self.backpos;
        let n: usize = if max < avail {
            max
        } else {
            avail
        };
        let ghost there = self@.backlog;
        let end: usize = self.backpos + n;
        let out: Vec<u8> = slice_to_vec(slice_subrange(self.backlog.as_slice(), self.backpos, end));
        assert(out@ =~= there.take(n as int));
        self.backpos = end;
        if self.backpos >= self.backlog.len() {
            self.backlog.clear();
            self.backpos = 0;
        }
        assert(self@.backlog =~= there.skip(n as int));
        assert(self@ =~= ReaderView { backlog: there.skip(n as int), ..old(self)@ });
        out
    }

    /// How many bytes to read next, at most: what is left of a length or of a chunk, and none
    /// once the stream is broken.
    pub fn wanted(&self) -> (n: usize)
        requires
            self.wf(),
        ensures
            n == needed(self@.partial),
            n == 0 <==> broken(self@.partial),
    {
        if self.partial.len() < 4 {
            return 4 - self.partial.len();
        }
        let len: u64 = bytes::read_le(self.partial.as_slice(), 0, 4);
        if len == 0 || len > NOISE_FRAME_LEN_MAX as u64 {
            return 0;
        }
        4 + len as usize - self.partial.len()
    }

    /// Takes bytes of the stream, no more than were wanted. A length that is not allowed breaks
    /// the stream before any room is made for the chunk: nothing more is wanted then.
    pub fn feed(&mut self, data: &[u8]) -> (res: Result<Fed, IoError>)
        requires
            old(self).wf(),
            0 < data@.len() <= needed(old(self)@.partial),
        ensures
            final(self).wf(),
            final(self)@ == (ReaderView {
                partial: fed(old(self)@.partial, data@).1,
                ..old(self)@
            }),
            match fed(old(self)@.partial, data@).0 {
                FedView::More => res == Ok::<Fed, IoError>(Fed::More),
                FedView::Chunk(chunk) => res matches Ok(Fed::Chunk(c)) && c@ == chunk,
                FedView::Broken => res matches Err(e) && is_invalid_data(
                    e,
                    "bad noise frame length"@,
                ),
            },
    {
        let ghost before = self.partial@;
        bytes::append_bytes(&mut self.partial, data);
        let ghost now = self.partial@;
        if self.partial.len() < 4 {
            assert(self@ =~= ReaderView { partial: now, ..old(self)@ });
            return Ok(Fed::More);
        }
        proof {
            if before.len() >= 4 {
                assert(now.subrange(0, 4) =~= before.subrange(0, 4));
            }
        }
        let len: u64 = bytes::read_le(self.partial.as_slice(), 0, 4);
        if len == 0 || len > NOISE_FRAME_LEN_MAX as u64 {
            assert(self@ =~= ReaderView { partial: now, ..old(self)@ });
            return Err(invalid_data("bad noise frame length"));
        }
        if self.partial.len() < 4 + len as usize {
            assert(self@ =~= ReaderView { partial: now, ..old(self)@ });
            return Ok(Fed::More);
        }
        let chunk: Vec<u8> = self.partial.split_off(4);
        self.partial.clear();
        assert(chunk@ =~= now.skip(4));
        assert(self@ =~= ReaderView { partial: Seq::empty(), ..old(self)@ });
        Ok(Fed::Chunk(chunk))
    }

    /// What the end of the stream amounts to: between frames it is a proper end.
    pub fn at_end(&self) -> (res: Result<(), IoError>)
        ensures
            match res {
                Ok(_) => self@.partial.len() == 0,
                Err(e) => self@.partial.len() > 0 && is_unexpected_eof(e),
            },
    {
        if self.partial.len() == 0 {
            Ok(())
        } else {
            Err(unexpected_eof())
        }
    }

    /// Takes the plaintext of a chunk, which is never empty.
    pub fn decrypted(&mut self, plaintext: Vec<u8>) -> (res: Result<(), IoError>)
        requires
            old(self).wf(),
            old(self)@.backlog.len() == 0,
        ensures
            final(self).wf(),
            match res {
                Ok(_) => plaintext@.len() > 0 && final(self)@ == (ReaderView {
                    backlog: plaintext@,
                    ..old(self)@
                }),
                Err(e) => plaintext@.len() == 0 && final(self)@ == old(self)@ && is_invalid_data(
                    e,
                    "empty noise plaintext"@,
                ),
            },
    {
        if plaintext.len() == 0 {
            return Err(invalid_data("empty noise plaintext"));
        }
        self.backlog = plaintext;
        self.backpos = 0;
        assert(self@ =~= ReaderView { backlog: plaintext@, ..old(self)@ });
        Ok(())
    }
}

/// What a peer reads of the frame of a chunk is the chunk: as long as bytes are missing more
/// are asked for, and the last of them completes it, however the stream is cut.
pub proof fn framed_chunk_is_read_back(chunk: Seq<u8>, got: int, more: int)
    requires
        chunk_len_ok(chunk.len() as int),
        0 <= got,
        0 < more,
        got + more <= chunk_frame_of(chunk).len(),
    ensures
        ({
            let frame = chunk_frame_of(chunk);
            let partial = frame.take(got);
            let data = frame.subrange(got, got + more);
            &&& partial_ok(partial)
            &&& got < 4 || needed(partial) == frame.len() - got
            &&& partial + data == frame.take(got + more)
            &&& got + more >= 4 ==> announced(partial + data) == chunk.len()
            &&& got + more == frame.len() ==> (partial + data).skip(4) == chunk
        }),
{
    let frame = chunk_frame_of(chunk);
    let partial = frame.take(got);
    let data = frame.subrange(got, got + more);
    bytes::lemma_le_bytes_len(chunk.len(), 4);
    bytes::lemma_pow256();
    bytes::lemma_le_value_of_bytes(chunk.len(), 4);
    assert(partial + data =~= frame.take(got + more));
    if got >= 4 {
        assert(partial.subrange(0, 4) =~= bytes::le_bytes(chunk.len(), 4));
    }
    if got + more >= 4 {
        assert((partial + data).subrange(0, 4) =~= bytes::le_bytes(chunk.len(), 4));
    }
    if got + more == frame.len() {
        assert((partial + data).skip(4) =~= chunk);
    }
}

/// The bytes of all pieces.
pub open spec fn joined(pieces: Seq<Seq<u8>>) -> Seq<u8>
    decreases pieces.len(),
{
    if pieces.len() == 0 {
        Seq::empty()
    } else {
        joined(pieces.drop_last()) + pieces.last()
    }
}

/// The stream that carries encrypted chunks: their frames, one after the other.
pub open spec fn chunk_stream(chunks: Seq<Seq<u8>>) -> Seq<u8>
    decreases chunks.len(),
{
    if chunks.len() == 0 {
        Seq::empty()
    } else {
        chunk_stream(chunks.drop_last()) + chunk_frame_of(chunks.last())
    }
}

/// The chunks that come out of a stream that is read in pieces, and what is kept of it.
pub open spec fn read_stream(pieces: Seq<Seq<u8>>) -> (Seq<Seq<u8>>, Seq<u8>)
    decreases pieces.len(),
{
    if pieces.len() == 0 {
        (Seq::empty(), Seq::empty())
    } else {
        let (chunks, partial) = read_stream(pieces.drop_last());
        let (res, kept) = fed(partial, pieces.last());
        match res {
            FedView::Chunk(chunk) => (chunks.push(chunk), kept),
            _ => (chunks, kept),
        }
    }
}

/// No piece is empty, and none is longer than what was wanted at its turn.
pub open spec fn cut_as_wanted(pieces: Seq<Seq<u8>>) -> bool {
    forall|i: int|
        0 <= i < pieces.len() ==> 0 < (#[trigger] pieces[i]).len() <= needed(
            read_stream(pieces.take(i)).1,
        )
}

/// The chunks that a peer has framed come out of the stream as they went in, in their order, and
/// nothing else does, however many they are and however the stream is cut: as far as the stream
/// has come, its whole frames are out and the start of the next is kept, and after all of it all
/// chunks are out and nothing is kept.
#[verifier::rlimit(50)]
#[verifier::spinoff_prover]
pub proof fn framed_chunks_are_read_back(chunks: Seq<Seq<u8>>, pieces: Seq<Seq<u8>>)
    requires
        forall|i: int| 0 <= i < chunks.len() ==> chunk_len_ok((#[trigger] chunks[i]).len() as int),
        cut_as_wanted(pieces),
        joined(pieces).is_prefix_of(chunk_stream(chunks)),
    ensures
        ({
            let (out, kept) = read_stream(pieces);
            &&& out.len() <= chunks.len()
            &&& out == chunks.take(out.len() as int)
            &&& chunk_stream(out) + kept == joined(pieces)
            &&& partial_ok(kept) && !broken(kept)
            &&& out.len() < chunks.len() ==> kept.len() < chunk_frame_of(
                chunks[out.len() as int],
            ).len()
            &&& joined(pieces) == chunk_stream(chunks) ==> out == chunks && kept.len() == 0
        }),
    decreases pieces.len(),
{
    let whole = chunk_stream(chunks);
    if pieces.len() == 0 {
        assert(chunks.take(0) =~= Seq::empty());
        assert(chunk_stream(Seq::<Seq<u8>>::empty()) + Seq::<u8>::empty() =~= joined(pieces));
        if chunks.len() > 0 {
            lemma_stream_starts(chunks, 1);
            lemma_stream_grows(chunks, 0);
            bytes::lemma_le_bytes_len(chunks[0].len(), 4);
        }
    } else {
        let front = pieces.drop_last();
        let data = pieces.last();
        assert forall|i: int| 0 <= i < front.len() implies 0 < (#[trigger] front[i]).len() <= needed(
            read_stream(front.take(i)).1,
        ) by {
            assert(front[i] == pieces[i]);
            assert(front.take(i) =~= pieces.take(i));
        }
        assert(joined(front).is_prefix_of(whole)) by {
            assert(joined(front) =~= whole.subrange(0, joined(front).len() as int));
        }
        framed_chunks_are_read_back(chunks, front);
        let (out, partial) = read_stream(front);
        assert(pieces.take(pieces.len() - 1) =~= front);
        assert(pieces[pieces.len() - 1] == data);
        let k = out.len() as int;
        let now = partial + data;
        assert(joined(pieces) =~= chunk_stream(out) + now);
        if k == chunks.len() {
            assert(out =~= chunks);
        }
        let chunk = chunks[k];
        let frame = chunk_frame_of(chunk);
        let base = chunk_stream(out).len() as int;
        bytes::lemma_le_bytes_len(chunk.len(), 4);
        lemma_stream_grows(chunks, k);
        lemma_stream_starts(chunks, k + 1);
        assert forall|j: int| 0 <= j < frame.len() implies frame[j] == whole[base + j] by {
            let upto = chunk_stream(chunks.take(k + 1));
            assert(upto[base + j] == whole[base + j]);
        }
        assert forall|j: int| 0 <= j < now.len() implies now[j] == whole[base + j] by {
            assert(joined(pieces)[base + j] == whole[base + j]);
        }
        let got = partial.len() as int;
        assert(partial =~= frame.take(got)) by {
            assert forall|j: int| 0 <= j < got implies partial[j] == frame[j] by {
                assert(now[j] == partial[j]);
            }
        }
        framed_chunk_is_read_back(chunk, got, frame.len() - got);
        assert(now.len() <= frame.len());
        assert(data =~= frame.subrange(got, got + data.len())) by {
            assert forall|j: int| 0 <= j < data.len() implies data[j] == frame[got + j] by {
                assert(now[got + j] == data[j]);
            }
        }
        framed_chunk_is_read_back(chunk, got, data.len() as int);
        let (next, kept) = read_stream(pieces);
        if now.len() == frame.len() {
            assert(next =~= chunks.take(k + 1));
            assert(chunk_stream(next) + kept =~= joined(pieces)) by {
                assert(now =~= frame);
            }
            if k + 1 < chunks.len() {
                bytes::lemma_le_bytes_len(chunks[k + 1].len(), 4);
                lemma_stream_grows(chunks, k + 1);
                lemma_stream_starts(chunks, k + 2);
            } else {
                assert(next =~= chunks);
            }
        }
    }
}

proof fn lemma_stream_grows(chunks: Seq<Seq<u8>>, k: int)
    requires
        0 <= k < chunks.len(),
    ensures
        chunk_stream(chunks.take(k + 1)) == chunk_stream(chunks.take(k)) + chunk_frame_of(chunks[k]),
{
    assert(chunks.take(k + 1).drop_last() =~= chunks.take(k));
}

proof fn lemma_stream_starts(chunks: Seq<Seq<u8>>, k: int)
    requires
        0 <= k <= chunks.len(),
    ensures
        chunk_stream(chunks.take(k)).is_prefix_of(chunk_stream(chunks)),
    decreases chunks.len(),
{
    if k == chunks.len() {
        assert(chunks.take(k) =~= chunks);
        assert(chunk_stream(chunks) =~= chunk_stream(chunks).subrange(
            0,
            chunk_stream(chunks).len() as int,
        ));
    } else {
        let front = chunks.drop_last();
        lemma_stream_starts(front, k);
        assert(front.take(k) =~= chunks.take(k));
        let n = chunk_stream(chunks.take(k)).len() as int;
        assert(chunk_stream(chunks).subrange(0, n) =~= chunk_stream(front).subrange(0, n));
    }
}

/// The chunks of a plaintext make it up, in order, and none is empty or too long.
pub proof fn chunks_make_up_plaintext(plaintext: Seq<u8>)
    ensures
        plaintext_parts(plaintext).flatten() == plaintext,
        forall|i: int|
            0 <= i < plaintext_parts(plaintext).len() ==> 0 < (#[trigger] plaintext_parts(
                plaintext,
            )[i]).len() <= NOISE_PLAINTEXT_CHUNK,
    decreases plaintext.len(),
{
    let parts = plaintext_parts(plaintext);
    if plaintext.len() == 0 {
        assert(parts.flatten() =~= Seq::empty());
    } else if plaintext.len() <= NOISE_PLAINTEXT_CHUNK {
        assert(parts.drop_first() =~= Seq::empty());
        assert(Seq::<Seq<u8>>::empty().flatten() =~= Seq::<u8>::empty());
        assert(parts.flatten() == plaintext + Seq::<u8>::empty());
        assert(plaintext + Seq::<u8>::empty() =~= plaintext);
    } else {
        let first = plaintext.take(NOISE_PLAINTEXT_CHUNK as int);
        let rest = plaintext.skip(NOISE_PLAINTEXT_CHUNK as int);
        chunks_make_up_plaintext(rest);
        assert(parts.drop_first() =~= plaintext_parts(rest));
        assert(first + rest =~= plaintext);
        assert forall|i: int| 0 <= i < parts.len() implies 0 < (#[trigger] parts[i]).len()
            <= NOISE_PLAINTEXT_CHUNK by {
            if i > 0 {
                assert(parts[i] == plaintext_parts(rest)[i - 1]);
            }
        }
    }
}

/// The frame of a handshake message announces its length to the peer, which accepts it.
pub proof fn handshake_frame_is_accepted(msg: Seq<u8>)
    requires
        handshake_len_ok(msg.len() as int),
    ensures
        bytes::le_value(handshake_frame_of(msg).subrange(0, 2)) == msg.len(),
        handshake_frame_of(msg).skip(2) == msg,
{
    bytes::lemma_le_bytes_len(msg.len(), 2);
    reveal_with_fuel(bytes::pow256, 3);
    bytes::lemma_le_value_of_bytes(msg.len(), 2);
    assert(handshake_frame_of(msg).subrange(0, 2) =~= bytes::le_bytes(msg.len(), 2));
    assert(handshake_frame_of(msg).skip(2) =~= msg);
}

} // verus!
