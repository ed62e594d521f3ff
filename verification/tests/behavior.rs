use shuffle_core::account::{
    account_resource_path, decode_resource, encode_resource, AccountResource, AccountState,
};
use shuffle_core::config::{config_file_path, Config};
use shuffle_core::credential::{derive_address, ed25519_public_key, to_hex, Credential};
use shuffle_core::discovery::get_shuffle_project_path;
use shuffle_core::errors::Error;
use shuffle_core::fsmodel::FileTree;
use shuffle_core::harness::{filter_matching, harness_exit_code};
use shuffle_core::home::{Home, RotateOutcome};
use shuffle_core::paths::{parent_dir, path_join, u64_to_string};
use shuffle_core::protocol::{confirm_step, submit_and_confirm, PollStatus, ProtocolStep};

const DEV_HOME: &str = "/home/dev";
const LATEST_KEY: &str = "/home/dev/.shuffle/accounts/latest/dev.key";
const LATEST_ADDRESS: &str = "/home/dev/.shuffle/accounts/latest/address";

#[test]
fn test_derive_address_deterministic() {
    let c = Credential::generate();
    let a1 = derive_address(&c.public_key);
    let a2 = derive_address(&c.public_key);
    assert_eq!(a1, a2);
    assert_eq!(a1, c.address);
    assert_eq!(a1.len(), 16);
}

#[test]
fn test_derive_address_nontrivial() {
    // were the digest its own input, the address of an all-zero key would
    // be all zeros and its text thirty-two '0' digits
    let address = derive_address(&vec![0u8; 32]);
    assert_ne!(address, vec![0u8; 16]);
    let text = to_hex(&address);
    assert_eq!(text.len(), 32);
    assert!(text.iter().all(|b| b.is_ascii_hexdigit()));
    assert_ne!(text, vec![b'0'; 32]);
}

#[test]
fn test_fresh_keys_differ() {
    let c1 = Credential::generate();
    let c2 = Credential::generate();
    assert_eq!(c1.private_key.len(), 32);
    assert_ne!(c1.private_key, c2.private_key);
}

#[test]
fn test_public_key_deterministic_and_distinct() {
    let sk = vec![7u8; 32];
    let pk1 = ed25519_public_key(&sk);
    let pk2 = ed25519_public_key(&sk);
    assert_eq!(pk1, pk2);
    assert_eq!(pk1.len(), 32);
    assert_ne!(pk1, sk);
}

#[test]
fn test_key_file_roundtrip() {
    let mut tree = FileTree::new();
    let mut home = Home::new(DEV_HOME).unwrap();
    let sk = home.generate_key_file(&mut tree).unwrap();
    let reloaded = tree.read_file(LATEST_KEY).unwrap();
    assert_eq!(sk, reloaded);
}

#[test]
fn test_to_hex_exact() {
    assert_eq!(to_hex(&vec![0x00u8, 0xff, 0x1a]), b"00ff1a".to_vec());
    assert_eq!(to_hex(&Vec::new()), Vec::<u8>::new());
}

#[test]
fn test_u64_to_string_exact() {
    assert_eq!(u64_to_string(0), "0");
    assert_eq!(u64_to_string(1234567890), "1234567890");
}

#[test]
fn test_path_join_and_parent() {
    assert_eq!(path_join("/a", "b"), "/a/b");
    assert_eq!(path_join("/", "x"), "/x");
    assert_eq!(parent_dir("/a/b").unwrap(), "/a");
    assert_eq!(parent_dir("/a").unwrap(), "/");
    assert!(parent_dir("/").is_none());
    assert!(parent_dir("name").is_none());
}

#[test]
fn test_account_state_insert_get_remove() {
    let mut s = AccountState::default();
    assert!(s.is_empty());
    assert!(s.get(b"alpha").is_none());

    assert!(s.insert(b"alpha".to_vec(), b"one".to_vec()).is_none());
    assert!(!s.is_empty());
    assert_eq!(s.get(b"alpha").unwrap(), &b"one".to_vec());
    // exact match only, never a prefix
    assert!(s.get(b"alph").is_none());
    assert!(s.get(b"alphaa").is_none());

    let prev = s.insert(b"alpha".to_vec(), b"two".to_vec());
    assert_eq!(prev.unwrap(), b"one".to_vec());
    assert_eq!(s.get(b"alpha").unwrap(), &b"two".to_vec());

    let removed = s.remove(b"alpha");
    assert_eq!(removed.unwrap(), b"two".to_vec());
    assert!(s.get(b"alpha").is_none());
    assert!(s.remove(b"alpha").is_none());
}

#[test]
fn test_account_state_from_resource() {
    let res = AccountResource {
        authentication_key: vec![0xabu8; 32],
        balance: 42,
        sequence_number: 7,
    };
    let s = AccountState::from_account_resource(&res);
    assert!(!s.is_empty());
    let path = account_resource_path();
    assert_eq!(s.get(path.as_slice()).unwrap(), &encode_resource(&res));
    let decoded = s.get_account_resource().unwrap().unwrap();
    assert_eq!(decoded, res);
}

#[test]
fn test_account_resource_absent_is_not_an_error() {
    let s = AccountState::default();
    assert!(s.get_account_resource().unwrap().is_none());
}

#[test]
fn test_resource_codec_exact() {
    let res = AccountResource {
        authentication_key: vec![0xaau8; 32],
        balance: 1,
        sequence_number: 258,
    };
    let mut expected: Vec<u8> = vec![1, 0, 0, 0, 0, 0, 0, 0, 2, 1, 0, 0, 0, 0, 0, 0];
    expected.extend_from_slice(&[0xaa; 32]);
    assert_eq!(encode_resource(&res), expected);
    assert_eq!(decode_resource(&expected).unwrap(), res);
}

#[test]
fn test_decode_error_on_malformed_bytes() {
    assert!(matches!(decode_resource(&b"short".to_vec()), Err(Error::DecodingError)));
    let mut s = AccountState::default();
    s.insert(account_resource_path(), b"not a resource".to_vec());
    assert!(matches!(s.get_account_resource(), Err(Error::DecodingError)));
}

#[test]
fn test_submit_and_confirm_executed() {
    let polls = vec![PollStatus::Pending, PollStatus::Pending, PollStatus::Executed];
    assert!(submit_and_confirm(true, &polls, 60).is_ok());
}

#[test]
fn test_submit_and_confirm_timeout() {
    let polls = vec![PollStatus::Pending; 5];
    assert!(matches!(submit_and_confirm(true, &polls, 3), Err(Error::ConfirmationTimeout)));
    // a stub that never answers reads as pending forever
    assert!(matches!(
        submit_and_confirm(true, &Vec::new(), 60),
        Err(Error::ConfirmationTimeout)
    ));
    // a terminal state after the bound is not consulted
    let late = vec![PollStatus::Pending, PollStatus::Pending, PollStatus::Executed];
    assert!(matches!(submit_and_confirm(true, &late, 2), Err(Error::ConfirmationTimeout)));
}

#[test]
fn test_submit_rejected() {
    assert!(matches!(
        submit_and_confirm(false, &vec![PollStatus::Executed], 60),
        Err(Error::SubmissionRejected)
    ));
}

#[test]
fn test_execution_failed_carries_status() {
    let polls = vec![PollStatus::Pending, PollStatus::Aborted(4016)];
    assert!(matches!(submit_and_confirm(true, &polls, 60), Err(Error::ExecutionFailed(4016))));
}

#[test]
fn test_confirm_step() {
    assert!(matches!(
        confirm_step(&PollStatus::Pending, 0),
        ProtocolStep::Done(Err(Error::ConfirmationTimeout))
    ));
    assert!(matches!(confirm_step(&PollStatus::Pending, 10), ProtocolStep::Continue));
    assert!(matches!(confirm_step(&PollStatus::Executed, 10), ProtocolStep::Done(Ok(()))));
    assert!(matches!(
        confirm_step(&PollStatus::Aborted(9), 10),
        ProtocolStep::Done(Err(Error::ExecutionFailed(9)))
    ));
}

#[test]
fn test_rotate_fresh_credential() {
    let mut tree = FileTree::new();
    let mut home = Home::new(DEV_HOME).unwrap();
    let outcome = home.rotate(&mut tree, 1700000100, "").unwrap();
    let c = match outcome {
        RotateOutcome::Rotated(c) => c,
        RotateOutcome::Declined => panic!("fresh rotation must not be declined"),
    };
    let key = tree.read_file(LATEST_KEY).unwrap();
    let address = tree.read_file(LATEST_ADDRESS).unwrap();
    assert!(!key.is_empty());
    assert!(!address.is_empty());
    assert_eq!(key, c.private_key);
    assert_eq!(address, c.address_text());
}

#[test]
fn test_rotate_declined_leaves_files_untouched() {
    let mut tree = FileTree::new();
    let mut home = Home::new(DEV_HOME).unwrap();
    home.rotate(&mut tree, 1700000200, "").unwrap();
    let key_before = tree.read_file(LATEST_KEY).unwrap();
    let address_before = tree.read_file(LATEST_ADDRESS).unwrap();

    let outcome = home.rotate(&mut tree, 1700000201, "n").unwrap();
    assert!(matches!(outcome, RotateOutcome::Declined));
    assert_eq!(tree.read_file(LATEST_KEY).unwrap(), key_before);
    assert_eq!(tree.read_file(LATEST_ADDRESS).unwrap(), address_before);
    assert!(!tree.is_dir("/home/dev/.shuffle/accounts/1700000201"));
}

#[test]
fn test_rotate_unrecognized_response_declines() {
    let mut tree = FileTree::new();
    let mut home = Home::new(DEV_HOME).unwrap();
    home.rotate(&mut tree, 1700000300, "").unwrap();
    let key_before = tree.read_file(LATEST_KEY).unwrap();

    let outcome = home.rotate(&mut tree, 1700000301, "yes please").unwrap();
    assert!(matches!(outcome, RotateOutcome::Declined));
    assert_eq!(tree.read_file(LATEST_KEY).unwrap(), key_before);
}

#[test]
fn test_rotate_confirmed_archives_and_replaces() {
    let mut tree = FileTree::new();
    let mut home = Home::new(DEV_HOME).unwrap();
    home.rotate(&mut tree, 1700000400, "").unwrap();
    let key_before = tree.read_file(LATEST_KEY).unwrap();
    let address_before = tree.read_file(LATEST_ADDRESS).unwrap();

    let outcome = home.rotate(&mut tree, 1700000401, "y").unwrap();
    let c = match outcome {
        RotateOutcome::Rotated(c) => c,
        RotateOutcome::Declined => panic!("a confirmed rotation must rotate"),
    };
    assert!(tree.is_dir("/home/dev/.shuffle/accounts/1700000401"));
    assert_eq!(
        tree.read_file("/home/dev/.shuffle/accounts/1700000401/dev.key").unwrap(),
        key_before
    );
    assert_eq!(
        tree.read_file("/home/dev/.shuffle/accounts/1700000401/address").unwrap(),
        address_before
    );
    let key_after = tree.read_file(LATEST_KEY).unwrap();
    assert_ne!(key_after, key_before);
    assert_eq!(key_after, c.private_key);
    assert_eq!(tree.read_file(LATEST_ADDRESS).unwrap(), c.address_text());
}

#[test]
fn test_rotate_archive_collision_is_io_error() {
    let mut tree = FileTree::new();
    let mut home = Home::new(DEV_HOME).unwrap();
    home.rotate(&mut tree, 1700000500, "").unwrap();
    tree.create_dir("/home/dev/.shuffle/accounts/1700000501").unwrap();
    assert!(matches!(home.rotate(&mut tree, 1700000501, "y"), Err(Error::IoError)));
}

#[test]
fn test_project_discovery_two_levels_down() {
    let mut tree = FileTree::new();
    tree.write_file("/repo/Shuffle.toml", b"blockchain = \"goodday\"".to_vec());
    let found = get_shuffle_project_path(&tree, "/repo/src/nested").unwrap();
    assert_eq!(found, "/repo");
}

#[test]
fn test_project_discovery_not_found() {
    let tree = FileTree::new();
    assert!(matches!(
        get_shuffle_project_path(&tree, "/somewhere/else"),
        Err(Error::NotFound)
    ));
}

#[test]
fn test_config_paths() {
    assert_eq!(config_file_path("/repo"), "/repo/Shuffle.toml");
    let c = Config::new(String::from("goodday"));
    assert_eq!(c.blockchain, "goodday");
}

#[test]
fn test_filter_matching() {
    let names = vec![
        String::from("a.move"),
        String::from("b.rs"),
        String::from("c.move"),
    ];
    let kept = filter_matching(&names, r"\.move$").unwrap();
    assert_eq!(kept, vec![String::from("a.move"), String::from("c.move")]);
    assert!(filter_matching(&names, r"(").is_none());
}

#[test]
fn test_harness_exit_code() {
    assert_eq!(harness_exit_code(true), 0);
    assert_eq!(harness_exit_code(false), 1);
}
