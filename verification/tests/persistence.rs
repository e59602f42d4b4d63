use rand::distr::{Alphanumeric, SampleString};
use rustc_serialize::base64;
use rustc_serialize::base64::ToBase64;

use sota_client::package::PackageId;
use sota_client::persistence::Transfer;

fn b64(data: &str) -> String {
    data.as_bytes().to_base64(base64::Config {
        char_set: base64::CharacterSet::UrlSafe,
        newline: base64::Newline::LF,
        pad: true,
        line_length: None,
    })
}

#[test]
fn it_creates_a_tmp_directory() {
    let prefix = "/tmp/sota-test";
    for i in 1..20 {
        let mut transfer = Transfer::new_test(prefix);
        let package = transfer.randomize(i);
        assert_eq!(package.name.chars().count(), i);
        assert_eq!(package.version.chars().count(), i);
        let chunk_dir = transfer.get_chunk_dir();
        let path = format!("{}/downloads/{}-{}", prefix, package.name, package.version);
        assert_eq!(chunk_dir, path);
        // a fresh transfer stages nothing
        assert!(transfer.chunk_bytes(0).is_none());
        assert!(transfer.transferred_chunks.is_empty());
    }
}

#[test]
fn it_cleans_up_the_tmp_directories() {
    // a transfer that leaves the table hands its staging directory back for
    // removal, and nothing of it stays behind
    let prefix = "/tmp/sota-test";
    let mut transfers = sota_client::transfers::Transfers::new();
    let mut dirs = Vec::new();
    for i in 1..20 {
        let mut transfer = Transfer::new_test(prefix);
        let package = transfer.randomize(i);
        dirs.push(transfer.get_chunk_dir());
        transfers.insert(transfer);
        let removed = transfers.remove(&package).expect("transfer was inserted");
        assert_eq!(removed.get_chunk_dir(), dirs[dirs.len() - 1]);
        assert!(!transfers.contains(&package));
    }
    assert_eq!(transfers.len(), 0);
}

#[test]
fn it_creates_a_persistent_directory_per_package() {
    let prefix = "/tmp/sota-test";
    for i in 1..20 {
        let mut transfer = Transfer::new_test(prefix);
        let package = transfer.randomize(i);
        let package_path = transfer.get_package_path();
        let path = format!("{}/packages/{}-{}.spkg", prefix, package.name, package.version);
        assert_eq!(package_path, path);
    }
}

fn assert_chunk_written(transfer: &mut Transfer, index: u64, data: &str) {
    let encoded = b64(data);
    assert!(transfer.write_chunk(&encoded, index));
    let from_store = transfer.chunk_bytes(index).expect("chunk was staged");
    assert_eq!(data.as_bytes().to_vec(), from_store);
}

#[test]
fn it_writes_decoded_data_to_disk() {
    for i in 1..20 {
        let mut transfer = Transfer::new_test("/tmp/sota-test");
        transfer.randomize(i);
        for j in 1..20u64 {
            let data = Alphanumeric.sample_string(&mut rand::rng(), j as usize);
            assert_chunk_written(&mut transfer, j, &data);
        }
    }
}

#[test]
fn it_correctly_assembles_stored_chunks() {
    for i in 1..20 {
        let mut transfer = Transfer::new_test("/tmp/sota-test");
        transfer.randomize(i);
        let mut full_data = String::new();
        for j in 1..20u64 {
            let data = Alphanumeric.sample_string(&mut rand::rng(), j as usize);
            full_data.push_str(&data);
            assert_chunk_written(&mut transfer, j, &data);
        }
        let assembled = transfer.assemble_chunks();
        assert_eq!(full_data.into_bytes(), assembled);
    }
}

fn checksum_matching(data: &str, checksum: &str) -> bool {
    let mut transfer = Transfer::new_test("/tmp/sota-test");
    transfer.randomize(20);
    let encoded = b64(data);
    assert!(transfer.write_chunk(&encoded, 0));
    transfer.checksum = checksum.to_string();
    transfer.assemble_package()
}

#[test]
fn it_returns_true_for_correct_checksums() {
    assert!(checksum_matching("test\n", "4e1243bd22c66e76c2ba9eddc1f91394e57f9f83"));
}

#[test]
fn it_returns_false_for_incorrect_checksums() {
    assert!(!checksum_matching("test\n", "fa7c4d75bae3a641d1f9ab5df028175bfb8a69ca"));
}

#[test]
fn it_returns_false_for_invalid_checksums() {
    assert!(!checksum_matching("test\n", "invalid"));
}

#[test]
fn rejects_payloads_that_are_not_base64() {
    let mut transfer = Transfer::new_test("/tmp/sota-test");
    transfer.randomize(5);
    assert!(!transfer.write_chunk("this is not ~base64~!", 0));
    assert!(transfer.chunk_bytes(0).is_none());
}

#[test]
fn rewriting_an_index_replaces_its_bytes() {
    let mut transfer = Transfer::new_test("/tmp/sota-test");
    transfer.randomize(5);
    assert!(transfer.write_chunk(&b64("first"), 3));
    assert!(transfer.write_chunk(&b64("second"), 3));
    assert_eq!(transfer.chunk_bytes(3).unwrap(), b"second".to_vec());
    assert_eq!(transfer.transferred_chunks, vec![3]);
    assert_eq!(transfer.assemble_chunks(), b"second".to_vec());
}

#[test]
fn out_of_order_chunks_assemble_by_ascending_index() {
    let mut transfer = Transfer::new_test("/tmp/sota-test");
    transfer.randomize(5);
    assert!(transfer.write_chunk(&b64("tail"), 9));
    assert!(transfer.write_chunk(&b64("head"), 1));
    assert!(transfer.write_chunk(&b64("mid"), 4));
    assert_eq!(transfer.transferred_chunks, vec![1, 4, 9]);
    assert_eq!(transfer.assemble_chunks(), b"headmidtail".to_vec());
}

#[test]
fn chunk_paths_use_the_decimal_index() {
    let transfer = Transfer::new(
        "/var/sota".to_string(),
        PackageId::new("pkg".to_string(), "1.0".to_string()),
        String::new(),
    );
    assert_eq!(transfer.get_chunk_dir(), "/var/sota/downloads/pkg-1.0");
    assert_eq!(transfer.get_chunk_path(0), "/var/sota/downloads/pkg-1.0/0");
    assert_eq!(transfer.get_chunk_path(1234), "/var/sota/downloads/pkg-1.0/1234");
    assert_eq!(transfer.get_package_dir(), "/var/sota/packages");
    assert_eq!(transfer.get_package_path(), "/var/sota/packages/pkg-1.0.spkg");
}

#[test]
fn an_empty_transfer_assembles_to_an_empty_package() {
    let transfer = Transfer::new_test("/tmp/sota-test");
    assert_eq!(transfer.assemble_chunks(), Vec::<u8>::new());
    // the SHA-1 of the empty byte string, so an empty staging area can only
    // pass when that is what was promised
    assert!(!{
        let mut t = Transfer::new_test("/tmp/sota-test");
        t.checksum = "4e1243bd22c66e76c2ba9eddc1f91394e57f9f83".to_string();
        t.assemble_package()
    });
}
