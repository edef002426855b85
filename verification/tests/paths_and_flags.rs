use route_composer::compose::FlagSet;
use route_composer::paths::join_paths;
use route_composer::paths::path_is_valid;

#[test]
fn it_works() {
    let result = route_composer::add(2, 2);
    assert_eq!(result, 4);
}

#[test]
fn join_is_insensitive_to_boundary_slashes() {
    let expected = b"/collection/inner".to_vec();
    assert_eq!(join_paths(&b"/collection".to_vec(), &b"/inner".to_vec()), expected);
    assert_eq!(join_paths(&b"/collection/".to_vec(), &b"/inner".to_vec()), expected);
    assert_eq!(join_paths(&b"/collection".to_vec(), &b"inner".to_vec()), expected);
    assert_eq!(join_paths(&b"/collection/".to_vec(), &b"inner".to_vec()), expected);
}

#[test]
fn join_from_the_root_prefix() {
    assert_eq!(join_paths(&b"".to_vec(), &b"/outer".to_vec()), b"/outer".to_vec());
    assert_eq!(join_paths(&b"".to_vec(), &b"outer".to_vec()), b"/outer".to_vec());
}

#[test]
fn path_validity() {
    assert!(path_is_valid(&b"/a/b".to_vec()));
    assert!(path_is_valid(&b"/a/b/".to_vec()));
    assert!(!path_is_valid(&b"".to_vec()));
    assert!(!path_is_valid(&b"/a//b".to_vec()));
    assert!(!path_is_valid(&b"//".to_vec()));
}

#[test]
fn first_flag_setting_wins() {
    let mut flags = FlagSet::new();
    flags.set(3, true);
    flags.set(3, false);
    assert_eq!(flags.get(3), Some(true));
    assert_eq!(flags.get(4), None);
}
