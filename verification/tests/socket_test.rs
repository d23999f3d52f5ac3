use ssh_agent_router::agent::{Agent, Exchange, SshKey};
use ssh_agent_router::error::ErrorKind;
use ssh_agent_router::fingerprint::fingerprint;
use ssh_agent_router::socket::FilteredSocket;
use ssh_agent_router::supervisor::{Stage, Task};
use ssh_agent_router::wire::{encode_identities_answer, Identity};

fn strings(items: &[&str]) -> Vec<String> {
    items.iter().map(|s| s.to_string()).collect()
}

fn socket(allowed: &[&str], denied: &[&str]) -> FilteredSocket {
    FilteredSocket::new(
        "/tmp/endpoint.sock".to_string(),
        strings(allowed),
        strings(denied),
        Agent::new("/tmp/upstream.sock".to_string()),
    )
}

fn blob_a() -> Vec<u8> {
    vec![0, 0, 0, 7, b's', b's', b'h', b'-', b'r', b's', b'a', 0xa1, 0xa2]
}

fn blob_b() -> Vec<u8> {
    vec![0, 0, 0, 7, b's', b's', b'h', b'-', b'r', b's', b'a', 0xb1, 0xb2, 0xb3]
}

fn upstream_list() -> Vec<Identity> {
    vec![
        Identity { blob: blob_a(), comment: b"work".to_vec() },
        Identity { blob: blob_b(), comment: b"home".to_vec() },
    ]
}

fn sign_request(blob: &[u8]) -> Vec<u8> {
    let mut body = vec![13u8];
    body.extend_from_slice(&(blob.len() as u32).to_be_bytes());
    body.extend_from_slice(blob);
    body.extend_from_slice(&[0, 0, 0, 3, 1, 2, 3]);
    body.extend_from_slice(&[0, 0, 0, 0]);
    let mut frame = (body.len() as u32).to_be_bytes().to_vec();
    frame.extend_from_slice(&body);
    frame
}

fn pairs(list: &[Identity]) -> Vec<(Vec<u8>, Vec<u8>)> {
    list.iter().map(|id| (id.blob.clone(), id.comment.clone())).collect()
}

#[test]
fn new_keeps_path_agent_and_default_limit() {
    let s = socket(&["a", "b", "a"], &["c", "c"]);
    assert_eq!(s.path(), "/tmp/endpoint.sock");
    assert_eq!(s.agent().upstream_path(), "/tmp/upstream.sock");
    assert_eq!(s.frame_limit(), 1024 * 1024);
    assert_eq!(s.allowed_fingerprints(), &strings(&["a", "b"]));
    assert_eq!(s.denied_fingerprints(), &strings(&["c"]));
    let s = s.with_frame_limit(16);
    assert_eq!(s.frame_limit(), 16);
    assert_eq!(s.path(), "/tmp/endpoint.sock");
    assert_eq!(s.allowed_fingerprints(), &strings(&["a", "b"]));
}

#[test]
fn deny_dominates_allow() {
    let s = socket(&["SHA256:x"], &["SHA256:x"]);
    assert!(!s.admits("SHA256:x"));
    let s = socket(&[], &["SHA256:x"]);
    assert!(!s.admits("SHA256:x"));
}

#[test]
fn empty_allow_admits_all_not_denied() {
    let s = socket(&[], &["SHA256:x"]);
    assert!(s.admits("SHA256:y"));
    assert!(s.admits(""));
    let s = socket(&[], &[]);
    assert!(s.admits("anything"));
}

#[test]
fn allow_list_admits_only_the_listed() {
    let s = socket(&["SHA256:x", "SHA256:y"], &["SHA256:y"]);
    assert!(s.admits("SHA256:x"));
    assert!(!s.admits("SHA256:y"));
    assert!(!s.admits("SHA256:z"));
    assert!(!s.admits("sha256:x"));
    assert!(!s.admits("SHA256:x "));
}

#[test]
fn is_key_allowed_goes_by_the_fingerprint_of_the_key() {
    let key = SshKey::from_blob("ssh-rsa".to_string(), blob_a(), "work".to_string());
    assert!(socket(&[&fingerprint(&blob_a())], &[]).is_key_allowed(&key));
    assert!(!socket(&[&fingerprint(&blob_b())], &[]).is_key_allowed(&key));
    assert!(!socket(&[], &[&fingerprint(&blob_a())]).is_key_allowed(&key));
    let forged = SshKey {
        key_type: "ssh-rsa".to_string(),
        blob: blob_a(),
        comment: String::new(),
        fingerprint: "SHA256:other".to_string(),
    };
    assert!(socket(&["SHA256:other"], &[]).is_key_allowed(&forged));
}

#[test]
fn filter_identities_keeps_the_admitted_in_order() {
    let list = vec![
        Identity { blob: vec![1], comment: b"one".to_vec() },
        Identity { blob: vec![2], comment: vec![0xff, 0x00] },
        Identity { blob: vec![3], comment: b"three".to_vec() },
        Identity { blob: vec![1], comment: b"one again".to_vec() },
    ];
    let s = socket(&[], &[&fingerprint(&[2])]);
    let kept = s.filter_identities(&list);
    assert_eq!(
        pairs(&kept),
        vec![
            (vec![1u8], b"one".to_vec()),
            (vec![3u8], b"three".to_vec()),
            (vec![1u8], b"one again".to_vec())
        ]
    );
    let s = socket(&[&fingerprint(&[2])], &[]);
    assert_eq!(pairs(&s.filter_identities(&list)), vec![(vec![2u8], vec![0xff, 0x00])]);
    let s = socket(&["SHA256:none"], &[]);
    assert!(s.filter_identities(&list).is_empty());
}

#[test]
fn filter_identities_response_lists_the_admitted_alone() {
    let upstream = encode_identities_answer(&upstream_list()).unwrap();
    let s = socket(&[&fingerprint(&blob_a())], &[]);
    let shown = s.filter_identities_response(&upstream).unwrap();
    let mut expected = vec![0u8, 0, 0, 30, 12, 0, 0, 0, 1, 0, 0, 0, 13];
    expected.extend_from_slice(&blob_a());
    expected.extend_from_slice(&[0, 0, 0, 4]);
    expected.extend_from_slice(b"work");
    assert_eq!(shown, expected);
    let all = socket(&[], &[]).filter_identities_response(&upstream).unwrap();
    assert_eq!(all, upstream);
}

#[test]
fn filter_identities_response_refuses_other_answers() {
    let s = socket(&[], &[]);
    assert_eq!(s.filter_identities_response(&[0, 0, 0, 1, 5]), Err(ErrorKind::Protocol));
    assert_eq!(s.filter_identities_response(&[0, 0, 0]), Err(ErrorKind::Protocol));
    assert_eq!(s.filter_identities_response(&[0, 0, 0, 9, 12, 0, 0, 0, 0]), Err(ErrorKind::Protocol));
    assert_eq!(s.filter_identities_response(&[0, 0, 0, 5, 12, 0, 0, 0, 1]), Err(ErrorKind::Protocol));
}

#[test]
fn should_filter_request_spots_signing_requests() {
    let s = socket(&[], &[]);
    assert!(s.should_filter_request(&[0, 0, 0, 1, 13]));
    assert!(s.should_filter_request(&sign_request(&blob_a())));
    assert!(!s.should_filter_request(&[0, 0, 0, 1, 11]));
    assert!(!s.should_filter_request(&[0, 0, 0, 0]));
    assert!(!s.should_filter_request(&[13]));
    assert!(!s.should_filter_request(&[]));
}

#[test]
fn filter_sign_request_refuses_held_keys_that_are_not_admitted() {
    let listing = encode_identities_answer(&upstream_list()).unwrap();
    let s = socket(&[&fingerprint(&blob_b())], &[]);
    assert_eq!(
        s.filter_sign_request(&sign_request(&blob_a()), Exchange::Answered(listing.clone())),
        Ok(Some(vec![0, 0, 0, 1, 5]))
    );
    assert_eq!(
        s.filter_sign_request(&sign_request(&blob_b()), Exchange::Answered(listing.clone())),
        Ok(None)
    );
    let denying = socket(&[], &[&fingerprint(&blob_b())]);
    assert_eq!(
        denying.filter_sign_request(&sign_request(&blob_b()), Exchange::Answered(listing)),
        Ok(Some(vec![0, 0, 0, 1, 5]))
    );
}

#[test]
fn filter_sign_request_forwards_keys_that_upstream_does_not_hold() {
    let listing = encode_identities_answer(&upstream_list()).unwrap();
    let s = socket(&[&fingerprint(&blob_b())], &[]);
    assert_eq!(
        s.filter_sign_request(&sign_request(&[1, 2, 3]), Exchange::Answered(listing)),
        Ok(None)
    );
}

#[test]
fn filter_sign_request_forwards_what_it_cannot_read() {
    let s = socket(&["SHA256:none"], &[]);
    assert_eq!(s.filter_sign_request(&[0, 0, 0, 1, 13], Exchange::Unreachable), Ok(None));
    assert_eq!(s.filter_sign_request(&[0, 0], Exchange::Unreachable), Ok(None));
    assert_eq!(
        s.filter_sign_request(&[0, 0, 0, 6, 13, 0, 0, 0, 9, 1], Exchange::Interrupted),
        Ok(None)
    );
}

#[test]
fn filter_sign_request_fails_with_the_listing() {
    let s = socket(&[], &[]);
    let request = sign_request(&blob_a());
    assert_eq!(s.filter_sign_request(&request, Exchange::Unreachable), Err(ErrorKind::Unreachable));
    assert_eq!(s.filter_sign_request(&request, Exchange::Interrupted), Err(ErrorKind::Io));
    assert_eq!(
        s.filter_sign_request(&request, Exchange::Answered(vec![0, 0, 0, 1, 5])),
        Err(ErrorKind::Protocol)
    );
    assert_eq!(
        s.filter_sign_request(&request, Exchange::Answered(vec![0, 0, 0, 2, 12])),
        Err(ErrorKind::Protocol)
    );
}

#[test]
fn start_clears_a_stale_file_first() {
    let s = socket(&[], &[]);
    let (supervisor, task) = s.start(true);
    assert_eq!(task, Task::Remove);
    assert_eq!(supervisor.stage(), Stage::Clearing);
    assert_eq!(supervisor.limit(), 100);
    let (supervisor, task) = s.start(false);
    assert_eq!(task, Task::MakeParent);
    assert_eq!(supervisor.stage(), Stage::Preparing);
    assert_eq!(supervisor.active(), 0);
}
