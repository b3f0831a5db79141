use field_extract::worker::InputFile;
use field_extract::worklist::{find_extension, is_eligible, total_size};

fn files(sizes: &[u64]) -> Vec<InputFile> {
    sizes.iter().map(|s| InputFile { path: "x.zst".to_string(), size: *s }).collect()
}

#[test]
fn extension_starts_after_last_dot() {
    assert_eq!(find_extension(b"a/b.tar.zst"), 8);
    assert_eq!(find_extension(b"plain"), 0);
    assert_eq!(find_extension(b""), 0);
    assert_eq!(find_extension(b"ends."), 5);
    assert_eq!(find_extension(b".hidden"), 1);
}

#[test]
fn zst_files_are_eligible() {
    assert!(is_eligible("data/RC_2019-01.zst"));
    assert!(is_eligible("a.tar.zst"));
    assert!(is_eligible("a.zstd"));
    assert!(is_eligible("./dir.d/b.zst"));
}

#[test]
fn other_files_are_not_eligible() {
    assert!(!is_eligible("data/RC_2019-01.json"));
    assert!(!is_eligible("a.zst.bak"));
    assert!(!is_eligible("a.zs"));
    assert!(!is_eligible(""));
    assert!(!is_eligible("zstfile.txt"));
    assert!(!is_eligible("a.ZST"));
}

#[test]
fn a_path_without_a_dot_is_taken_whole() {
    assert!(is_eligible("zst"));
    assert!(is_eligible("my_zst_file"));
    assert!(!is_eligible("README"));
}

#[test]
fn total_size_is_the_sum() {
    assert_eq!(total_size(&files(&[])), 0);
    assert_eq!(total_size(&files(&[5])), 5);
    assert_eq!(total_size(&files(&[5, 0, 17, 1000, 3])), 1025);
}

#[test]
fn total_size_is_held_at_the_largest_value() {
    assert_eq!(total_size(&files(&[u64::MAX, 1])), u64::MAX);
    assert_eq!(total_size(&files(&[u64::MAX - 1, 1])), u64::MAX);
    assert_eq!(total_size(&files(&[1 << 63, 1 << 63, 9])), u64::MAX);
}
