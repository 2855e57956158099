use autosave::redirect::{
    at_full_path, redirect_decide, redirect_path_str, skip_gitignore_enabled, RecursionGuard,
};

fn from() -> Vec<u8> {
    b"/orig".to_vec()
}

fn to() -> Vec<u8> {
    b"/wt".to_vec()
}

#[test]
fn path_under_from_is_redirected() {
    let norm = b"/orig/a".to_vec();
    assert_eq!(redirect_decide(&norm, &from(), &to(), false), Some(b"/wt/a".to_vec()));
}

#[test]
fn from_itself_maps_to_to() {
    let norm = b"/orig".to_vec();
    assert_eq!(redirect_decide(&norm, &from(), &to(), false), Some(b"/wt".to_vec()));
}

#[test]
fn path_outside_from_is_untouched() {
    let norm = b"/other/a".to_vec();
    assert_eq!(redirect_decide(&norm, &from(), &to(), false), None);
}

#[test]
fn sibling_with_from_prefix_is_untouched() {
    // `/origx` shares the byte prefix but is not under `/orig/`.
    let norm = b"/origx/a".to_vec();
    assert_eq!(redirect_decide(&norm, &from(), &to(), false), None);
}

#[test]
fn git_dir_is_exempt() {
    let norm = b"/orig/.git".to_vec();
    assert_eq!(redirect_decide(&norm, &from(), &to(), false), None);
    let norm = b"/orig/.git/config".to_vec();
    assert_eq!(redirect_decide(&norm, &from(), &to(), false), None);
}

#[test]
fn git_prefixed_name_is_not_exempt() {
    // `.gitignore` is not the metadata directory.
    let norm = b"/orig/.gitignore".to_vec();
    assert_eq!(redirect_decide(&norm, &from(), &to(), false), Some(b"/wt/.gitignore".to_vec()));
}

#[test]
fn ignored_path_is_exempt() {
    let norm = b"/orig/build/out".to_vec();
    assert_eq!(redirect_decide(&norm, &from(), &to(), true), None);
}

#[test]
fn redirect_path_str_normalizes_first() {
    let cwd = b"/orig".to_vec();
    let path = b"sub/../a".to_vec();
    assert_eq!(redirect_path_str(&path, &cwd, &from(), &to(), false), Some(b"/wt/a".to_vec()));
}

#[test]
fn rename_redirects_both_sides() {
    // Both sides of a rename inside the mapped tree are redirected...
    let cwd = b"/".to_vec();
    let old = redirect_path_str(&b"/orig/a".to_vec(), &cwd, &from(), &to(), false);
    let new = redirect_path_str(&b"/orig/b".to_vec(), &cwd, &from(), &to(), false);
    assert_eq!(old, Some(b"/wt/a".to_vec()));
    assert_eq!(new, Some(b"/wt/b".to_vec()));
    // ...and both sides of a rename inside the metadata directory
    // bypass redirection.
    let old = redirect_path_str(&b"/orig/.git/x".to_vec(), &cwd, &from(), &to(), false);
    let new = redirect_path_str(&b"/orig/.git/y".to_vec(), &cwd, &from(), &to(), false);
    assert_eq!(old, None);
    assert_eq!(new, None);
}

#[test]
fn at_family_resolution() {
    // Absolute path: used as is.
    assert_eq!(
        at_full_path(&b"/orig/a".to_vec(), false, None),
        Some(b"/orig/a".to_vec())
    );
    // Relative with the caller's working directory as base.
    assert_eq!(at_full_path(&b"rel".to_vec(), true, None), Some(b"rel".to_vec()));
    // Relative under a recovered directory descriptor.
    let dir = b"/orig/sub".to_vec();
    assert_eq!(
        at_full_path(&b"rel".to_vec(), false, Some(&dir)),
        Some(b"/orig/sub/rel".to_vec())
    );
    // Relative under an unrecoverable descriptor: bypass.
    assert_eq!(at_full_path(&b"rel".to_vec(), false, None), None);
}

#[test]
fn skip_gitignore_switch_parse() {
    // Unset: off.
    assert!(!skip_gitignore_enabled(None));
    // `0` and `false` in any letter case: off.
    assert!(!skip_gitignore_enabled(Some(&b"0".to_vec())));
    assert!(!skip_gitignore_enabled(Some(&b"false".to_vec())));
    assert!(!skip_gitignore_enabled(Some(&b"FALSE".to_vec())));
    assert!(!skip_gitignore_enabled(Some(&b"False".to_vec())));
    // Anything else: on.
    assert!(skip_gitignore_enabled(Some(&b"1".to_vec())));
    assert!(skip_gitignore_enabled(Some(&b"true".to_vec())));
    assert!(skip_gitignore_enabled(Some(&b"00".to_vec())));
    assert!(skip_gitignore_enabled(Some(&b"".to_vec())));
}

#[test]
fn recursion_guard_refuses_nested_entry() {
    let mut guard = RecursionGuard::new();
    assert!(guard.try_enter());
    // A nested interception on the same thread is refused.
    assert!(!guard.try_enter());
    guard.exit();
    assert!(guard.try_enter());
}
