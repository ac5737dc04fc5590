//! Errors of the chain rules and of the wire codecs.

use vstd::prelude::*;
use vstd::string::StringExecFns;

verus! {

/// What a chain rule or a codec found wrong.
#[derive(Clone, Debug)]
pub enum CoreError {
    Serialization(String),
    InvalidTransaction(String),
    InvalidBlock(String),
    InvalidSignature(String),
    InvalidProofOfWork,
    InvalidStateRoot,
    InvalidMerkleRoot,
    BlockSizeExceeded,
    TransactionSizeExceeded,
    SupplyInvariant,
    Overflow,
    /// Anything else, with its own text.
    Other(String),
}

/// `part` stands somewhere in `whole`.
pub open spec fn contains_text(whole: Seq<char>, part: Seq<char>) -> bool {
    exists|before: Seq<char>, after: Seq<char>| whole == #[trigger] (before + part + after)
}

/// `text` tells of the error: where the error has a text of its own, that stands in it. The words
/// that name the kind of error are not fixed.
pub open spec fn tells_of(text: Seq<char>, e: CoreError) -> bool {
    match e {
        CoreError::Serialization(own) => contains_text(text, own@),
        CoreError::InvalidTransaction(own) => contains_text(text, own@),
        CoreError::InvalidBlock(own) => contains_text(text, own@),
        CoreError::InvalidSignature(own) => contains_text(text, own@),
        CoreError::Other(own) => text == own@,
        _ => text.len() > 0,
    }
}

impl CoreError {
    /// The text of the error: what kind it is and, where there is one, its own text.
    pub fn to_string(&self) -> (text: String)
        ensures
            tells_of(text@, *self),
    {
        proof {
            reveal_strlit("invalid proof of work");
            reveal_strlit("invalid state root");
            reveal_strlit("invalid merkle root");
            reveal_strlit("block size exceeded");
            reveal_strlit("transaction size exceeded");
            reveal_strlit("supply invariant violated");
            reveal_strlit("overflow");
        }
        match self {
            CoreError::Serialization(own) => labelled("serialization error: ", own.as_str()),
            CoreError::InvalidTransaction(own) => labelled("invalid transaction: ", own.as_str()),
            CoreError::InvalidBlock(own) => labelled("invalid block: ", own.as_str()),
            CoreError::InvalidSignature(own) => labelled("invalid signature: ", own.as_str()),
            CoreError::InvalidProofOfWork => "invalid proof of work".to_string(),
            CoreError::InvalidStateRoot => "invalid state root".to_string(),
            CoreError::InvalidMerkleRoot => "invalid merkle root".to_string(),
            CoreError::BlockSizeExceeded => "block size exceeded".to_string(),
            CoreError::TransactionSizeExceeded => "transaction size exceeded".to_string(),
            CoreError::SupplyInvariant => "supply invariant violated".to_string(),
            CoreError::Overflow => "overflow".to_string(),
            CoreError::Other(own) => own.as_str().to_string(),
        }
    }
}

/// `prefix` followed by `text`.
pub fn prefixed(prefix: &str, text: &str) -> (whole: String)
    ensures
        whole@ == prefix@ + text@,
{
    let mut whole = prefix.to_string();
    whole.append(text);
    whole
}

/// `label` followed by `own`.
fn labelled(label: &str, own: &str) -> (whole: String)
    ensures
        contains_text(whole@, own@),
{
    let whole: String = prefixed(label, own);
    assert(whole@ =~= label@ + own@ + Seq::<char>::empty());
    whole
}

/// A failed read or write, or the end of a stream.
#[derive(Clone, Debug)]
pub struct IoError {
    /// The stream has ended.
    pub eof: bool,
    /// What kind of failure it is, in words.
    pub kind: String,
    pub message: String,
}

/// Why a connection is given up.
#[derive(Clone, Debug)]
pub enum P2pError {
    Io(IoError),
    Protocol(String),
}

/// The text of an error.
pub open spec fn p2p_text(e: P2pError) -> Seq<char> {
    match e {
        P2pError::Io(io) => "io: "@ + io.message@,
        P2pError::Protocol(text) => "protocol: "@ + text@,
    }
}

impl P2pError {
    /// The text of the error.
    pub fn to_string(&self) -> (text: String)
        ensures
            text@ == p2p_text(*self),
    {
        match self {
            P2pError::Io(io) => prefixed("io: ", io.message.as_str()),
            P2pError::Protocol(text) => prefixed("protocol: ", text.as_str()),
        }
    }

    /// A protocol error with the given text.
    pub fn protocol(text: &str) -> (e: P2pError)
        ensures
            is_protocol(e, text@),
    {
        P2pError::Protocol(text.to_string())
    }

    /// The protocol error for what a chain rule or a codec found wrong.
    pub fn from_core(e: &CoreError) -> (res: P2pError)
        ensures
            res matches P2pError::Protocol(text) && tells_of(text@, *e),
    {
        P2pError::Protocol(e.to_string())
    }
}

/// `e` is the protocol error with the given text.
pub open spec fn is_protocol(e: P2pError, text: Seq<char>) -> bool {
    e matches P2pError::Protocol(s) && s@ == text
}

/// What the text of a protocol error is.
pub enum Reason {
    /// This text.
    Exactly(Seq<char>),
    /// Some text in which this one, the text of a codec, stands.
    Codec(Seq<char>),
}

/// `e` is a protocol error for the given reason.
pub open spec fn is_protocol_for(e: P2pError, reason: Reason) -> bool {
    match reason {
        Reason::Exactly(text) => is_protocol(e, text),
        Reason::Codec(text) => e matches P2pError::Protocol(s) && contains_text(s@, text),
    }
}

/// `res` is what `expected` says: the value with that view, or a
/// serialization error with that text.
pub open spec fn decoded<T: View>(
    res: Result<T, CoreError>,
    expected: Result<T::V, Seq<char>>,
) -> bool {
    match (res, expected) {
        (Ok(value), Ok(view)) => value@ == view,
        (Err(CoreError::Serialization(text)), Err(expected_text)) => text@ == expected_text,
        _ => false,
    }
}

/// A serialization error with the given text.
pub fn serialization(text: &str) -> (e: CoreError)
    ensures
        e matches CoreError::Serialization(s) && s@ == text@,
{
    CoreError::Serialization(text.to_string())
}

} // verus!
