//! The node's key file.

use chroma_p2p::identity::{FileRead, NodeIdentity, Startup, IDENTITY_FILE_NAME};

fn startup(contents: &[u8]) -> Startup {
    NodeIdentity::startup("data/noise_identity", &FileRead::Contents(contents.to_vec()))
}

/// The private key that the file holds, in the words of the refusal where there is none.
fn parsed(contents: &[u8]) -> Result<[u8; 32], &'static str> {
    NodeIdentity::parse_file(contents).map(|id| *id.private_bytes())
}

#[test]
fn test_create_then_load_is_stable() {
    // The first start finds no file and creates one; the second loads it.
    assert!(matches!(NodeIdentity::startup("data/noise_identity", &FileRead::Missing), Startup::Create));
    let first = NodeIdentity::from_private([7; 32]);
    match startup(first.file_contents().as_bytes()) {
        Startup::Use(second) => assert_eq!(first.private_bytes(), second.private_bytes()),
        _ => panic!("the file that was written must load"),
    }
}

#[test]
fn test_file_format_is_strict_hex() {
    let id = NodeIdentity::from_private([0xA5; 32]);
    let text = id.file_contents();
    assert_eq!(text.len(), 64);
    assert!(text.chars().all(|c| c.is_ascii_hexdigit()));
    assert_eq!(text, "a5".repeat(32));
    // Round-trips to the same key.
    assert_eq!(parsed(text.as_bytes()), Ok([0xA5; 32]));
}

#[test]
fn test_corrupted_file_refuses_startup() {
    for (tag, contents) in [
        ("empty", b"".to_vec()),
        ("short", b"abcd".to_vec()),
        ("long", vec![b'a'; 65]),
        ("nonhex", vec![b'z'; 64]),
        ("nonutf8", vec![0xff; 64]),
        ("allzero", b"00".repeat(32)),
        ("trailing", [b"ab".repeat(32), b"xx".to_vec()].concat()),
    ] {
        match startup(&contents) {
            Startup::Refuse(text) => {
                assert!(text.contains("data/noise_identity"), "case {}: {}", tag, text)
            }
            _ => panic!("case {} must refuse", tag),
        }
    }
}

#[test]
fn test_wrong_length_rejected() {
    for len in [0usize, 1, 31, 33, 63, 65, 128] {
        assert!(parsed(&vec![b'a'; len]).is_err(), "length {} must fail", len);
    }
}

#[test]
fn test_debug_redacts_secret() {
    let private = [0x5Eu8; 32];
    let public = [0x3Cu8; 32];
    let rendered = NodeIdentity::describe(&public);
    assert!(rendered.contains("<redacted>"));
    assert!(!rendered.contains(&hex::encode(private)));
    // Public half IS visible (needed for operator tooling).
    assert!(rendered.contains(&NodeIdentity::public_hex(&public)));
    assert_eq!(NodeIdentity::public_hex(&public), "3c".repeat(32));
}

#[test]
fn unreadable_file_is_not_replaced() {
    assert!(matches!(NodeIdentity::startup("p", &FileRead::Failed), Startup::Fail));
}

#[test]
fn each_fault_has_its_own_words() {
    let mut texts = vec![
        parsed(b"abcd").unwrap_err(),
        parsed(&vec![0xff; 64]).unwrap_err(),
        parsed(&vec![b'z'; 64]).unwrap_err(),
        parsed(&b"00".repeat(32)).unwrap_err(),
    ];
    texts.sort_unstable();
    texts.dedup();
    assert_eq!(texts.len(), 4);
}

#[test]
fn upper_case_digits_are_read() {
    assert_eq!(parsed("AB".repeat(32).as_bytes()), Ok([0xAB; 32]));
}

#[test]
fn temporary_file_is_named_for_the_process() {
    let name = NodeIdentity::temp_file_name(4711);
    assert!(name.contains("4711"));
    assert_ne!(name, IDENTITY_FILE_NAME);
    assert_eq!(IDENTITY_FILE_NAME, "noise_identity");
}

#[test]
fn surrounding_whitespace_is_ignored() {
    let text = format!(" \r\n{}\t\n", "0f".repeat(32));
    assert_eq!(parsed(text.as_bytes()), Ok([0x0F; 32]));
    assert!(parsed(format!("{} {}", "0f".repeat(16), "0f".repeat(16)).as_bytes()).is_err());
    assert!(parsed("\u{a0}".repeat(32).as_bytes()).is_err());
}
