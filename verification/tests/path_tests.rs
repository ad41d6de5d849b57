use veridian_manager::file_system::{
    AbsolutePath, FileName, RelativePath, RelativePathComponent, ValidationError,
};

fn parts(strs: &[&str]) -> Vec<Vec<u8>> {
    strs.iter().map(|s| s.as_bytes().to_vec()).collect()
}

#[test]
fn file_name_rejects_empty() {
    assert_eq!(FileName::new(Vec::new()).unwrap_err(), ValidationError::EmptyName);
}

#[test]
fn file_name_rejects_forward_slash() {
    let r = FileName::new(b"a/b".to_vec());
    assert_eq!(r.unwrap_err(), ValidationError::SeparatorInName);
}

#[test]
fn file_name_rejects_backslash() {
    let r = FileName::new(b"a\\b".to_vec());
    assert_eq!(r.unwrap_err(), ValidationError::SeparatorInName);
}

#[test]
fn file_name_accepts_plain_name() {
    let f = FileName::new(b"a.txt".to_vec()).unwrap();
    assert_eq!(f.file_name(), b"a.txt".to_vec());
}

#[test]
fn file_name_validation_is_idempotent() {
    let f = FileName::new(b"notes".to_vec()).unwrap();
    let again = FileName::new(f.file_name()).unwrap();
    assert_eq!(f, again);
}

#[test]
fn relative_path_normalizes_super_against_name() {
    // ["a", "..", "b"] normalizes to ["b"].
    let p = RelativePath::new(parts(&["a", "..", "b"])).unwrap();
    assert_eq!(p.component_count(), 1);
    let resolved = p.resolve(&AbsolutePath::root()).unwrap();
    assert_eq!(resolved.to_bytes(), b"/b".to_vec());
}

#[test]
fn relative_path_discards_dot() {
    let p = RelativePath::new(parts(&["a", ".", "b"])).unwrap();
    assert_eq!(p.component_count(), 2);
    let resolved = p.resolve(&AbsolutePath::root()).unwrap();
    assert_eq!(resolved.to_bytes(), b"/a/b".to_vec());
}

#[test]
fn relative_path_rejects_invalid_segment_atomically() {
    let r = RelativePath::new(parts(&["a", "b/c", "d"]));
    assert_eq!(r.unwrap_err(), ValidationError::SeparatorInName);
}

#[test]
fn super_above_root_fails() {
    // [".."] resolved against a base with no parent is a hard error.
    let p = RelativePath::new(parts(&[".."])).unwrap();
    let r = p.resolve(&AbsolutePath::root());
    assert_eq!(r.unwrap_err(), ValidationError::EscapesBase);
}

#[test]
fn excess_supers_never_clamp_to_root() {
    // Two levels up from a one-level base must fail, not stop at the root.
    let base = AbsolutePath::new(parts(&["a"])).unwrap();
    let p = RelativePath::new(parts(&["..", ".."])).unwrap();
    assert_eq!(p.resolve(&base).unwrap_err(), ValidationError::EscapesBase);
}

#[test]
fn supers_within_base_resolve_to_ancestor() {
    let base = AbsolutePath::new(parts(&["a", "b"])).unwrap();
    let p = RelativePath::new(parts(&["..", "c"])).unwrap();
    assert_eq!(p.resolve(&base).unwrap().to_bytes(), b"/a/c".to_vec());
}

#[test]
fn push_super_cancels_trailing_name() {
    let mut p = RelativePath::empty();
    p.push(RelativePathComponent::Component(FileName::new(b"a".to_vec()).unwrap()));
    assert_eq!(p.component_count(), 1);
    p.push(RelativePathComponent::Super);
    assert_eq!(p.component_count(), 0);
}

#[test]
fn push_super_accumulates_on_empty_path() {
    let mut p = RelativePath::empty();
    p.push(RelativePathComponent::Super);
    p.push(RelativePathComponent::Super);
    assert_eq!(p.component_count(), 2);
}

#[test]
fn revalidation_is_idempotent() {
    // Spell a normalized path back into raw segments and validate again:
    // nothing fails and nothing changes.
    let p = RelativePath::new(parts(&["..", "a", "b", "..", "c"])).unwrap();
    let respelled: Vec<Vec<u8>> = p
        .components()
        .iter()
        .map(|c| match c {
            RelativePathComponent::Super => b"..".to_vec(),
            RelativePathComponent::Component(f) => f.file_name(),
        })
        .collect();
    let again = RelativePath::new(respelled).unwrap();
    assert_eq!(again.component_count(), p.component_count());
    let base = AbsolutePath::new(parts(&["base"])).unwrap();
    assert_eq!(again.resolve(&base).unwrap(), p.resolve(&base).unwrap());
}

#[test]
fn absolute_path_root_renders_as_slash() {
    assert_eq!(AbsolutePath::root().to_bytes(), b"/".to_vec());
}

#[test]
fn absolute_path_renders_components() {
    let p = AbsolutePath::new(parts(&["usr", "share"])).unwrap();
    assert_eq!(p.to_bytes(), b"/usr/share".to_vec());
    assert_eq!(p.depth(), 2);
}

#[test]
fn absolute_path_rejects_bad_component() {
    let r = AbsolutePath::new(parts(&["usr", ""]));
    assert_eq!(r.unwrap_err(), ValidationError::EmptyName);
}
