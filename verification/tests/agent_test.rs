use ssh_agent_router::agent::{Agent, Exchange, SshKey};
use ssh_agent_router::error::ErrorKind;
use ssh_agent_router::fingerprint::fingerprint;
use ssh_agent_router::wire::{encode_identities_answer, Identity};

fn ed25519_blob() -> Vec<u8> {
    let mut blob = vec![0u8, 0, 0, 11];
    blob.extend_from_slice(b"ssh-ed25519");
    blob.extend_from_slice(&[0, 0, 0, 32]);
    blob.extend((0u8..32).collect::<Vec<u8>>());
    blob
}

#[test]
fn fingerprint_of_known_blobs() {
    assert_eq!(fingerprint(b"hello world"), "SHA256:uU0nuZNNPgilLlLX2n2r+sSE7+N6U4DukIj3rOLvzek");
    assert_eq!(fingerprint(b""), "SHA256:47DEQpj8HBSa+/TImW+5JCeuQeRkm5NMpJWZG3hSuFU");
    assert_eq!(
        fingerprint(&ed25519_blob()),
        "SHA256:ZkAslGjFiUHdGf/WUL8rQvkib4PTvQatUV0OUQSncCA"
    );
}

#[test]
fn fingerprint_has_the_canonical_form() {
    for seed in 0u8..64 {
        let blob: Vec<u8> = (0..seed).map(|i| i.wrapping_mul(37).wrapping_add(seed)).collect();
        let text = fingerprint(&blob);
        assert_eq!(text.len(), 50);
        assert!(text.starts_with("SHA256:"));
        assert!(text[7..].chars().all(|c| c.is_ascii_alphanumeric() || c == '+' || c == '/'));
        assert_eq!(text, fingerprint(&blob));
    }
}

#[test]
fn from_blob_keeps_fields_and_derives_the_fingerprint() {
    let key = SshKey::from_blob("ssh-rsa".to_string(), b"hello world".to_vec(), "me".to_string());
    assert_eq!(key.key_type, "ssh-rsa");
    assert_eq!(key.blob, b"hello world".to_vec());
    assert_eq!(key.comment, "me");
    assert_eq!(key.fingerprint, "SHA256:uU0nuZNNPgilLlLX2n2r+sSE7+N6U4DukIj3rOLvzek");
    let copy = key.clone();
    assert_eq!(copy.fingerprint, key.fingerprint);
    assert_eq!(copy.blob, key.blob);
}

#[test]
fn key_type_is_the_first_string_of_the_blob() {
    assert_eq!(SshKey::key_type_of(&ed25519_blob()), "ssh-ed25519");
    assert_eq!(SshKey::key_type_of(&[0, 0, 0, 7, b's', b's', b'h', b'-', b'r', b's', b'a', 1]), "ssh-rsa");
    assert_eq!(SshKey::key_type_of(&[0, 0, 0, 0]), "");
    assert_eq!(SshKey::key_type_of(&[0, 0, 0, 2, 0xff, b'a']), "\u{fffd}a");
}

#[test]
fn key_type_is_unknown_where_it_cannot_be_read() {
    assert_eq!(SshKey::key_type_of(&[]), "unknown");
    assert_eq!(SshKey::key_type_of(&[0, 0, 0]), "unknown");
    assert_eq!(SshKey::key_type_of(&[0, 0, 0, 9, b'x']), "unknown");
    let key = SshKey::from_identity(&Identity { blob: vec![1, 2, 3], comment: b"c".to_vec() });
    assert_eq!(key.key_type, "unknown");
    assert_eq!(key.blob, vec![1, 2, 3]);
    assert_eq!(key.fingerprint, fingerprint(&[1, 2, 3]));
}

#[test]
fn resolve_path_prefers_the_configured_path() {
    let agent = Agent::new("/run/agent.sock".to_string());
    assert_eq!(agent.upstream_path(), "/run/agent.sock");
    assert_eq!(agent.resolve_path(Some("/env.sock".to_string())), Ok("/run/agent.sock".to_string()));
    assert_eq!(agent.resolve_path(None), Ok("/run/agent.sock".to_string()));
    let unset = Agent::new(String::new());
    assert_eq!(unset.resolve_path(Some("/env.sock".to_string())), Ok("/env.sock".to_string()));
    assert_eq!(unset.resolve_path(Some(String::new())), Err(ErrorKind::ConfigInvalid));
    assert_eq!(unset.resolve_path(None), Err(ErrorKind::ConfigInvalid));
    assert_eq!(unset.clone().upstream_path(), "");
}

#[test]
fn list_request_is_code_eleven() {
    assert_eq!(Agent::list_request(), vec![0, 0, 0, 1, 11]);
}

#[test]
fn forward_request_hands_back_whole_frames() {
    let agent = Agent::new("/a".to_string());
    let frame = vec![0u8, 0, 0, 3, 14, 1, 2];
    assert_eq!(agent.forward_request(Exchange::Answered(frame.clone())), Ok(frame));
    assert_eq!(agent.forward_request(Exchange::Answered(vec![0, 0, 0, 0])), Ok(vec![0, 0, 0, 0]));
    assert_eq!(agent.forward_request(Exchange::Unreachable), Err(ErrorKind::Unreachable));
    assert_eq!(agent.forward_request(Exchange::Interrupted), Err(ErrorKind::Io));
    assert_eq!(
        agent.forward_request(Exchange::Answered(vec![0, 0, 0, 3, 14, 1])),
        Err(ErrorKind::Protocol)
    );
    assert_eq!(
        agent.forward_request(Exchange::Answered(vec![0, 0, 0, 1, 5, 5])),
        Err(ErrorKind::Protocol)
    );
    assert_eq!(agent.forward_request(Exchange::Answered(vec![0, 0])), Err(ErrorKind::Protocol));
}

#[test]
fn list_keys_describes_every_identity() {
    let agent = Agent::new("/a".to_string());
    let list = vec![
        Identity { blob: ed25519_blob(), comment: b"work".to_vec() },
        Identity { blob: vec![9], comment: vec![b'h', 0xff] },
    ];
    let frame = encode_identities_answer(&list).unwrap();
    let keys = agent.list_keys(Exchange::Answered(frame)).unwrap();
    assert_eq!(keys.len(), 2);
    assert_eq!(keys[0].key_type, "ssh-ed25519");
    assert_eq!(keys[0].blob, ed25519_blob());
    assert_eq!(keys[0].comment, "work");
    assert_eq!(keys[0].fingerprint, "SHA256:ZkAslGjFiUHdGf/WUL8rQvkib4PTvQatUV0OUQSncCA");
    assert_eq!(keys[1].key_type, "unknown");
    assert_eq!(keys[1].comment, "h\u{fffd}");
    assert_eq!(keys[1].fingerprint, fingerprint(&[9]));
}

#[test]
fn list_keys_fails_with_the_exchange_or_the_answer() {
    let agent = Agent::new("/a".to_string());
    assert_eq!(agent.list_keys(Exchange::Unreachable).unwrap_err(), ErrorKind::Unreachable);
    assert_eq!(agent.list_keys(Exchange::Interrupted).unwrap_err(), ErrorKind::Io);
    let failure = Exchange::Answered(vec![0, 0, 0, 1, 5]);
    assert_eq!(agent.list_keys(failure).unwrap_err(), ErrorKind::Protocol);
    let empty = Exchange::Answered(vec![0, 0, 0, 0]);
    assert_eq!(agent.list_keys(empty).unwrap_err(), ErrorKind::Protocol);
    let short = Exchange::Answered(vec![0, 0, 0, 5, 12, 0, 0, 0, 1]);
    assert_eq!(agent.list_keys(short).unwrap_err(), ErrorKind::Protocol);
    let none = Exchange::Answered(vec![0, 0, 0, 5, 12, 0, 0, 0, 0]);
    assert!(agent.list_keys(none).unwrap().is_empty());
}
