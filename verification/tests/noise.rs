//! The encrypted transport.

use chroma_p2p::error::IoError;
use chroma_p2p::noise_transport::{
    chunk_frame, handshake_body_len, handshake_frame, plaintext_chunks, progress, remaining,
    remote_static_key, unexpected_eof, ChunkReader, Fed, HandshakeError, HandshakeRole,
    NoiseHandshake, NoiseStep, Progress, FIRST_MSG_LEN, HANDSHAKE_SCRATCH, NOISE_FRAME_LEN_MAX,
    NOISE_HANDSHAKE_MSG_CAP, NOISE_PARAMS, NOISE_PLAINTEXT_CHUNK, SECOND_MSG_LEN, THIRD_MSG_LEN,
};
use chroma_p2p::time::Instant;

const EXPECTED_SUITE: &str = "Noise_XX_25519_ChaChaPoly_BLAKE2s";

#[test]
fn test_suite_pinned() {
    assert_eq!(
        NOISE_PARAMS, EXPECTED_SUITE,
        "transport suite must stay Noise_XX_25519_ChaChaPoly_BLAKE2s"
    );
}

/// The body of a handshake frame, as the other side reads it.
fn body(frame: Vec<u8>) -> Vec<u8> {
    let len = handshake_body_len(&[frame[0], frame[1]]).unwrap();
    assert_eq!(frame.len(), 2 + len);
    frame[2..].to_vec()
}

fn keypair() -> (Vec<u8>, [u8; 32]) {
    let pair = snow::Builder::new(NOISE_PARAMS.parse().unwrap()).generate_keypair().unwrap();
    let mut private = [0u8; 32];
    private.copy_from_slice(&pair.private);
    (pair.public, private)
}

/// Two sides that have finished a handshake.
fn sessions() -> (NoiseHandshake, NoiseHandshake, Vec<u8>, Vec<u8>) {
    let (public_a, key_a) = keypair();
    let (public_b, key_b) = keypair();
    let (mut a, first) = NoiseHandshake::start(HandshakeRole::Initiator, &key_a).unwrap();
    let (mut b, none) = NoiseHandshake::start(HandshakeRole::Responder, &key_b).unwrap();
    assert!(none.is_none());
    assert_eq!((a.step, b.step), (NoiseStep::AwaitSecond, NoiseStep::AwaitFirst));
    let second = b.on_message(&body(first.unwrap())).unwrap().unwrap();
    let third = a.on_message(&body(second)).unwrap().unwrap();
    assert!(b.on_message(&body(third)).unwrap().is_none());
    assert_eq!((a.step, b.step), (NoiseStep::Finished, NoiseStep::Finished));
    (a, b, public_a, public_b)
}

#[test]
fn each_side_learns_the_other_key() {
    let (a, b, public_a, public_b) = sessions();
    assert_eq!(remote_static_key(a.state.get_remote_static()).unwrap().to_vec(), public_b);
    assert_eq!(remote_static_key(b.state.get_remote_static()).unwrap().to_vec(), public_a);
}

#[test]
fn handshake_messages_have_fixed_lengths() {
    for key in [[0u8; 32], [255; 32], keypair().1] {
        let (mut a, first) = NoiseHandshake::start(HandshakeRole::Initiator, &key).unwrap();
        let (mut b, _) = NoiseHandshake::start(HandshakeRole::Responder, &key).unwrap();
        let first = body(first.unwrap());
        assert_eq!(first.len(), FIRST_MSG_LEN);
        let second = body(b.on_message(&first).unwrap().unwrap());
        assert_eq!(second.len(), SECOND_MSG_LEN);
        let third = body(a.on_message(&second).unwrap().unwrap());
        assert_eq!(third.len(), THIRD_MSG_LEN);
        assert!(b.on_message(&third).unwrap().is_none());
    }
    assert_eq!((FIRST_MSG_LEN, SECOND_MSG_LEN, THIRD_MSG_LEN), (32, 96, 64));
}

#[test]
fn first_message_decides_whether_a_responder_goes_on() {
    let start = || NoiseHandshake::start(HandshakeRole::Responder, &[7; 32]).unwrap().0;
    for len in [0, FIRST_MSG_LEN - 1, FIRST_MSG_LEN + HANDSHAKE_SCRATCH + 1, 65_536] {
        let mut b = start();
        let e = b.on_message(&vec![9; len]).unwrap_err();
        assert_eq!(e.to_string(), "noise handshake crypto: read e");
        assert_eq!(b.step, NoiseStep::AwaitFirst);
    }
    for len in [FIRST_MSG_LEN, FIRST_MSG_LEN + HANDSHAKE_SCRATCH] {
        let mut b = start();
        assert!(b.on_message(&vec![9; len]).unwrap().is_some());
        assert_eq!(b.step, NoiseStep::AwaitThird);
        assert_eq!(
            b.on_message(&[1; THIRD_MSG_LEN]).unwrap_err().to_string(),
            "noise handshake crypto: read se"
        );
    }
}

#[test]
fn missing_static_key_is_refused() {
    for remote in [None, Some(&[1u8; 31][..]), Some(&[1u8; 33][..])] {
        assert_eq!(
            remote_static_key(remote).unwrap_err().to_string(),
            "noise handshake crypto: missing remote static"
        );
    }
}

#[test]
fn encrypted_chunks_go_through_the_frames() {
    let (a, b, _, _) = sessions();
    let mut sender = a.state.into_transport_mode().unwrap();
    let mut receiver = b.state.into_transport_mode().unwrap();
    let plaintext: Vec<u8> = (0..NOISE_PLAINTEXT_CHUNK + 1000).map(|i| (i % 251) as u8).collect();
    let mut stream = Vec::new();
    for chunk in plaintext_chunks(&plaintext) {
        let mut sealed = vec![0u8; chunk.len() + 16];
        let n = sender.write_message(&chunk, &mut sealed).unwrap();
        stream.extend_from_slice(&chunk_frame(&sealed[..n]));
    }
    let mut reader = ChunkReader::new();
    let mut pos = 0;
    let mut out = Vec::new();
    while pos < stream.len() {
        let n = reader.wanted().min(7_001).min(stream.len() - pos);
        if let Fed::Chunk(sealed) = reader.feed(&stream[pos..pos + n]).unwrap() {
            let mut opened = vec![0u8; sealed.len()];
            let m = receiver.read_message(&sealed, &mut opened).unwrap();
            opened.truncate(m);
            reader.decrypted(opened).unwrap();
            while reader.has_backlog() {
                out.extend_from_slice(&reader.take(10_000));
            }
        }
        pos += n;
    }
    assert!(reader.at_end().is_ok());
    assert_eq!(out, plaintext);
}

#[test]
fn broken_handshake_messages() {
    let (_, key) = keypair();
    let (mut b, _) = NoiseHandshake::start(HandshakeRole::Responder, &key).unwrap();
    let e = b.on_message(&[]).unwrap_err();
    assert_eq!(e.to_string(), "noise handshake crypto: read e");
    let (mut a, _) = NoiseHandshake::start(HandshakeRole::Initiator, &key).unwrap();
    let e = a.on_message(&[7; 96]).unwrap_err();
    assert_eq!(e.to_string(), "noise handshake crypto: read ee");
    assert_eq!(a.step, NoiseStep::AwaitSecond);
}

#[test]
fn every_step_of_a_handshake() {
    let failed = |p: Progress| match p {
        Progress::Failed(e) => e.to_string(),
        Progress::Next(_, _) => panic!("the step must fail"),
    };
    let label = |text: &str| format!("noise handshake crypto: {}", text);
    assert_eq!(failed(progress(NoiseStep::AwaitFirst, false, &None)), label("read e"));
    assert_eq!(failed(progress(NoiseStep::AwaitSecond, false, &None)), label("read ee"));
    assert_eq!(failed(progress(NoiseStep::AwaitThird, false, &None)), label("read se"));
    assert_eq!(failed(progress(NoiseStep::AwaitFirst, true, &None)), label("write ee"));
    assert_eq!(failed(progress(NoiseStep::AwaitSecond, true, &None)), label("write se"));
    assert_eq!(
        failed(progress(NoiseStep::AwaitFirst, true, &Some(vec![]))),
        "noise handshake framing: bad handshake frame length"
    );
    match progress(NoiseStep::AwaitFirst, true, &Some(vec![9])) {
        Progress::Next(step, Some(frame)) => {
            assert_eq!((step, frame), (NoiseStep::AwaitThird, vec![1, 0, 9]))
        }
        _ => panic!("the handshake goes on"),
    }
    match progress(NoiseStep::AwaitSecond, true, &Some(vec![9])) {
        Progress::Next(step, Some(_)) => assert_eq!(step, NoiseStep::Finished),
        _ => panic!("the handshake goes on"),
    }
    match progress(NoiseStep::AwaitThird, true, &None) {
        Progress::Next(step, frame) => assert_eq!((step, frame), (NoiseStep::Finished, None)),
        _ => panic!("the handshake is finished"),
    }
}

#[test]
fn handshake_frames_are_bounded() {
    assert_eq!(handshake_frame(&[5, 6]).unwrap(), vec![2, 0, 5, 6]);
    assert!(handshake_frame(&[]).is_err());
    assert!(handshake_frame(&vec![0; NOISE_HANDSHAKE_MSG_CAP]).is_ok());
    assert!(handshake_frame(&vec![0; NOISE_HANDSHAKE_MSG_CAP + 1]).is_err());
    assert_eq!(handshake_body_len(&[0, 8]).unwrap(), 2048);
    assert!(handshake_body_len(&[0, 0]).is_err());
    assert!(handshake_body_len(&[1, 8]).is_err());
}

#[test]
fn texts_of_handshake_errors() {
    let io = |eof: bool| IoError { eof, kind: "broken pipe".to_string(), message: "m".to_string() };
    assert_eq!(HandshakeError::Timeout.to_string(), "noise handshake timed out");
    assert_eq!(HandshakeError::from_read(io(false)).to_string(), "noise handshake io: broken pipe");
    assert_eq!(
        HandshakeError::from_read(io(true)).to_string(),
        "noise handshake framing: unexpected EOF during handshake"
    );
}

#[test]
fn time_for_a_handshake() {
    let deadline = Instant { nanos: 100 };
    assert_eq!(remaining(deadline, Instant { nanos: 60 }).unwrap(), 40);
    assert!(matches!(remaining(deadline, Instant { nanos: 101 }), Err(HandshakeError::Timeout)));
}

#[test]
fn plaintext_is_cut_into_chunks() {
    assert!(plaintext_chunks(&[]).is_empty());
    let sizes = |n: usize| plaintext_chunks(&vec![0; n]).iter().map(|c| c.len()).collect::<Vec<usize>>();
    assert_eq!(sizes(1), vec![1]);
    assert_eq!(sizes(NOISE_PLAINTEXT_CHUNK), vec![NOISE_PLAINTEXT_CHUNK]);
    assert_eq!(sizes(2 * NOISE_PLAINTEXT_CHUNK + 1), vec![NOISE_PLAINTEXT_CHUNK, NOISE_PLAINTEXT_CHUNK, 1]);
}

#[test]
fn chunk_lengths_are_checked_first() {
    for announced in [0u32, NOISE_FRAME_LEN_MAX as u32 + 1, u32::MAX] {
        let mut reader = ChunkReader::new();
        let e = match reader.feed(&announced.to_le_bytes()) {
            Err(e) => e,
            Ok(_) => panic!("the length {} is not allowed", announced),
        };
        assert_eq!((e.eof, e.kind.as_str()), (false, "invalid data"));
        assert_eq!(e.message, "bad noise frame length");
        assert_eq!(reader.partial, announced.to_le_bytes().to_vec());
        // Nothing more is wanted, and the stream cannot end well.
        assert_eq!(reader.wanted(), 0);
        assert!(reader.at_end().unwrap_err().eof);
    }
    let mut reader = ChunkReader::new();
    assert!(reader.feed(&(NOISE_FRAME_LEN_MAX as u32).to_le_bytes()).is_ok());
    assert_eq!(reader.wanted(), NOISE_FRAME_LEN_MAX);
}

#[test]
fn many_chunks_however_the_stream_is_cut() {
    let sealed: Vec<Vec<u8>> =
        [1usize, 4, 3, 300, 65_535, 2].iter().map(|n| vec![*n as u8; *n]).collect();
    let stream: Vec<u8> = sealed.iter().flat_map(|c| chunk_frame(c)).collect();
    for most in [1usize, 2, 3, 5, 1000, usize::MAX] {
        let mut reader = ChunkReader::new();
        let mut out = Vec::new();
        let mut pos = 0;
        while pos < stream.len() {
            let n = reader.wanted().min(most);
            if let Fed::Chunk(chunk) = reader.feed(&stream[pos..pos + n]).unwrap() {
                out.push(chunk);
            }
            pos += n;
        }
        assert_eq!(out, sealed);
        assert!(reader.partial.is_empty());
    }
}

#[test]
fn stream_that_ends_inside_a_chunk() {
    let mut reader = ChunkReader::new();
    assert!(reader.at_end().is_ok());
    assert!(matches!(reader.feed(&[3]), Ok(Fed::More)));
    assert!(reader.at_end().is_err());
    assert!(matches!(reader.feed(&[0, 0, 0]), Ok(Fed::More)));
    assert!(matches!(reader.feed(&[1, 2]), Ok(Fed::More)));
    assert!(reader.at_end().unwrap_err().eof);
    assert!(matches!(reader.feed(&[3]), Ok(Fed::Chunk(c)) if c == vec![1, 2, 3]));
    assert!(reader.at_end().is_ok());
    assert_eq!(unexpected_eof().kind, "unexpected end of file");
    assert_eq!(unexpected_eof().message, "noise frame truncated");
}

#[test]
fn empty_plaintext_breaks_the_stream() {
    let mut reader = ChunkReader::new();
    let e = reader.decrypted(vec![]).unwrap_err();
    assert_eq!((e.eof, e.kind.as_str()), (false, "invalid data"));
    assert_eq!(e.message, "empty noise plaintext");
    let mut reader = ChunkReader::new();
    reader.decrypted(vec![1, 2, 3]).unwrap();
    assert_eq!(reader.take(2), vec![1, 2]);
    assert_eq!(reader.take(2), vec![3]);
    assert!(!reader.has_backlog());
}
