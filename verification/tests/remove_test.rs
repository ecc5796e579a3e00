use opm::remove::{binary_to_remove, md5sums_files};

#[test]
fn md5sums_lists_rooted_files() {
    let files = md5sums_files("d41d8cd98f00b204e9800998ecf8427e  usr/bin/tool\n0123456789abcdef0123456789abcdef  usr/share/doc/tool/copyright\n");
    assert_eq!(files, vec!["/usr/bin/tool".to_string(), "/usr/share/doc/tool/copyright".to_string()]);
    assert!(md5sums_files("").is_empty());
}

#[test]
fn removal_picks_the_first_binary() {
    let files = vec!["/usr/share/doc/x".to_string(), "/usr/sbin/x".to_string(), "/usr/bin/x".to_string()];
    assert_eq!(binary_to_remove(&files), Some("/usr/sbin/x".to_string()));
    assert_eq!(binary_to_remove(&vec!["/etc/x.conf".to_string()]), None);
}
