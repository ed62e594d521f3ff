use shuffle_core::credential::ed25519_public_key;
use shuffle_core::fsmodel::FileTree;
use shuffle_core::home::Home;

const DEV_HOME: &str = "/home/dev";

#[test]
fn test_home_get_shuffle_dir() {
    let home = Home::new(DEV_HOME).unwrap();
    assert_eq!(home.shuffle_path, "/home/dev/.shuffle");
}

#[test]
fn test_home_get_accounts_dir() {
    let home = Home::new(DEV_HOME).unwrap();
    assert_eq!(home.account_dir_path, "/home/dev/.shuffle/accounts");
}

#[test]
fn test_home_get_latest_dir() {
    let home = Home::new(DEV_HOME).unwrap();
    assert_eq!(home.latest_dir_path, "/home/dev/.shuffle/accounts/latest");
}

#[test]
fn test_home_get_nodeconfig_path() {
    let home = Home::new(DEV_HOME).unwrap();
    assert_eq!(home.node_config_path, "/home/dev/.shuffle/nodeconfig/0/node.yaml");
}

#[test]
fn test_home_get_root_key_path() {
    let home = Home::new(DEV_HOME).unwrap();
    assert_eq!(home.root_key_path, "/home/dev/.shuffle/nodeconfig/mint.key");
}

#[test]
fn test_home_get_latest_key_path() {
    let home = Home::new(DEV_HOME).unwrap();
    assert_eq!(home.latest_key_path, "/home/dev/.shuffle/accounts/latest/dev.key");
}

#[test]
fn test_home_get_latest_address_path() {
    let home = Home::new(DEV_HOME).unwrap();
    assert_eq!(home.latest_address_path, "/home/dev/.shuffle/accounts/latest/address");
}

#[test]
fn test_home_create_archive_dir() {
    let mut tree = FileTree::new();
    let mut home = Home::new(DEV_HOME).unwrap();
    let time: u64 = 1700000000;
    home.create_archive_dir(&mut tree, time).unwrap();
    assert!(tree.is_dir("/home/dev/.shuffle/accounts/1700000000"));
}

#[test]
fn test_home_archive_old_key() {
    let mut tree = FileTree::new();
    let mut home = Home::new(DEV_HOME).unwrap();
    let private_key = home.generate_key_file(&mut tree).unwrap();

    let time: u64 = 1700000001;
    let archived_dir = home.create_archive_dir(&mut tree, time).unwrap();
    home.archive_old_key(&mut tree, archived_dir.as_str()).unwrap();

    let archived_key = tree
        .read_file("/home/dev/.shuffle/accounts/1700000001/dev.key")
        .unwrap();
    assert_eq!(private_key, archived_key);
}

#[test]
fn test_home_archive_old_address() {
    let mut tree = FileTree::new();
    let mut home = Home::new(DEV_HOME).unwrap();
    let private_key = home.generate_key_file(&mut tree).unwrap();
    let public_key = ed25519_public_key(&private_key);
    home.generate_address_file(&mut tree, &public_key).unwrap();

    let old_address = tree
        .read_file("/home/dev/.shuffle/accounts/latest/address")
        .unwrap();

    let time: u64 = 1700000002;
    let archived_dir = home.create_archive_dir(&mut tree, time).unwrap();
    home.archive_old_address(&mut tree, archived_dir.as_str()).unwrap();

    let archived_address = tree
        .read_file("/home/dev/.shuffle/accounts/1700000002/address")
        .unwrap();
    assert_eq!(old_address, archived_address);
}

#[test]
fn test_generate_shuffle_accounts_dir() {
    let mut tree = FileTree::new();
    let mut home = Home::new(DEV_HOME).unwrap();
    home.generate_shuffle_accounts_dir(&mut tree).unwrap();
    assert!(tree.is_dir("/home/dev/.shuffle/accounts"));
}

#[test]
fn test_generate_shuffle_latest_dir() {
    let mut tree = FileTree::new();
    let mut home = Home::new(DEV_HOME).unwrap();
    home.generate_shuffle_latest_dir(&mut tree).unwrap();
    assert!(tree.is_dir("/home/dev/.shuffle/accounts/latest"));
}

#[test]
fn test_generate_key_file() {
    let mut tree = FileTree::new();
    let mut home = Home::new(DEV_HOME).unwrap();
    home.generate_key_file(&mut tree).unwrap();
    assert!(tree.is_file("/home/dev/.shuffle/accounts/latest/dev.key"));
}

#[test]
fn test_generate_address_file() {
    let mut tree = FileTree::new();
    let mut home = Home::new(DEV_HOME).unwrap();
    let public_key = ed25519_public_key(&home.generate_key_file(&mut tree).unwrap());
    home.generate_address_file(&mut tree, &public_key).unwrap();
    assert!(tree.is_file("/home/dev/.shuffle/accounts/latest/address"));
}

#[test]
fn test_get_shuffle_project_path() {
    let mut tree = FileTree::new();
    tree.write_file("/work/proj/Shuffle.toml", b"goodday".to_vec());

    let actual =
        shuffle_core::discovery::get_shuffle_project_path(&tree, "/work/proj/nested").unwrap();
    assert_eq!(actual, "/work/proj");
}
