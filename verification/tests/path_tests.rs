use bootstrap::path_resolve::absolute;
use bootstrap::Error;

#[test]
fn relative_path_is_joined_onto_cwd() {
    let r = absolute(&b"a/b".to_vec(), &b"/work".to_vec()).unwrap();
    assert_eq!(r, b"/work/a/b".to_vec());
}

#[test]
fn relative_path_keeps_dot_dot_untouched() {
    let r = absolute(&b"../x".to_vec(), &b"/work".to_vec()).unwrap();
    assert_eq!(r, b"/work/../x".to_vec());
}

#[test]
fn leading_dot_component_is_kept() {
    let r = absolute(&b"./a".to_vec(), &b"/work".to_vec()).unwrap();
    assert_eq!(r, b"/work/./a".to_vec());
}

#[test]
fn interior_dot_component_disappears() {
    let r = absolute(&b"a/./b".to_vec(), &b"/work".to_vec()).unwrap();
    assert_eq!(r, b"/work/a/b".to_vec());
}

#[test]
fn repeated_separators_collapse() {
    let r = absolute(&b"a//b".to_vec(), &b"/work".to_vec()).unwrap();
    assert_eq!(r, b"/work/a/b".to_vec());
}

#[test]
fn empty_path_is_invalid_input() {
    let r = absolute(&b"".to_vec(), &b"/work".to_vec());
    assert_eq!(r, Err(Error::InvalidInput));
}

#[test]
fn normalized_absolute_path_is_fixed_point() {
    let p = b"/a/b".to_vec();
    let r = absolute(&p, &b"/elsewhere".to_vec()).unwrap();
    assert_eq!(r, p);
}

#[test]
fn normalized_absolute_path_with_trailing_sep_is_fixed_point() {
    let p = b"/a/b/".to_vec();
    let r = absolute(&p, &b"/elsewhere".to_vec()).unwrap();
    assert_eq!(r, p);
}

#[test]
fn root_is_fixed_point() {
    let r = absolute(&b"/".to_vec(), &b"/w".to_vec()).unwrap();
    assert_eq!(r, b"/".to_vec());
}

#[test]
fn doubled_root_is_preserved() {
    let r = absolute(&b"//a".to_vec(), &b"/w".to_vec()).unwrap();
    assert_eq!(r, b"//a".to_vec());
}

#[test]
fn tripled_root_collapses_to_one() {
    let r = absolute(&b"///a".to_vec(), &b"/w".to_vec()).unwrap();
    assert_eq!(r, b"/a".to_vec());
}

#[test]
fn trailing_separator_is_preserved() {
    let with_sep = absolute(&b"a/b/".to_vec(), &b"/w".to_vec()).unwrap();
    assert_eq!(*with_sep.last().unwrap(), b'/');
    let without_sep = absolute(&b"a/b".to_vec(), &b"/w".to_vec()).unwrap();
    assert_ne!(*without_sep.last().unwrap(), b'/');
}

#[test]
fn root_dot_resolves_to_root() {
    let r = absolute(&b"/.".to_vec(), &b"/w".to_vec()).unwrap();
    assert_eq!(r, b"/".to_vec());
}

#[test]
fn lone_dot_resolves_under_cwd() {
    let r = absolute(&b".".to_vec(), &b"/w".to_vec()).unwrap();
    assert_eq!(r, b"/w/.".to_vec());
}

#[test]
fn non_utf8_bytes_pass_through_untouched() {
    let r = absolute(&vec![0xFF, b'/', b'x'], &b"/w".to_vec()).unwrap();
    assert_eq!(r, vec![b'/', b'w', b'/', 0xFF, b'/', b'x']);
}

#[test]
fn cwd_with_trailing_separator_gains_no_extra_one() {
    let r = absolute(&b"a".to_vec(), &b"/w/".to_vec()).unwrap();
    assert_eq!(r, b"/w/a".to_vec());
}
