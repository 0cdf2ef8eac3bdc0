use canon_mapper::error::{Errors, OpValidationResult};
use canon_mapper::mapper::{is_marker, Mapper, OutputDir};
use std::io::ErrorKind;

#[test]
fn missing_root_is_invalid_root() {
    let r = Mapper::try_new("/nowhere".to_string(), "/out".to_string(), false, OutputDir::Listed(vec![]));
    match r {
        Err(Errors::InvalidRoot(root, path)) => {
            assert_eq!(root, "/nowhere");
            assert_eq!(path, "/nowhere/DCIM/100CANON");
        }
        other => panic!("unexpected {:?}", other),
    }
}

#[test]
fn missing_output_is_not_found() {
    let r = Mapper::try_new("/card".to_string(), "/out".to_string(), true, OutputDir::Missing);
    assert!(matches!(r, Err(Errors::OutputDirectoryNotFound)));
}

#[test]
fn output_with_other_files_is_not_empty() {
    let names = vec![".DS_Store".to_string(), "clip.mov".to_string()];
    let r = Mapper::try_new("/card".to_string(), "/out".to_string(), true, OutputDir::Listed(names));
    assert!(matches!(r, Err(Errors::OutputDirectoryNotEmpty)));
}

#[test]
fn output_with_only_markers_is_accepted() {
    let names = vec![".DS_Store".to_string(), ".ds_store".to_string()];
    let m = Mapper::try_new("/card".to_string(), "/out".to_string(), true, OutputDir::Listed(names)).unwrap();
    assert_eq!(m.root_path, "/card/DCIM/100CANON");
    assert_eq!(m.out_path, "/out");
    assert_eq!(m.len(), 0);
    assert!(m.ops.is_empty());
}

#[test]
fn output_errors_carry_their_kind() {
    let r = Mapper::try_new("/c".to_string(), "/o".to_string(), true, OutputDir::ListFailed(ErrorKind::PermissionDenied));
    assert!(matches!(r, Err(Errors::IOError(ErrorKind::PermissionDenied))));
    let r = Mapper::try_new("/c".to_string(), "/o".to_string(), true, OutputDir::CreateFailed(ErrorKind::NotFound));
    assert!(matches!(r, Err(Errors::IOError(ErrorKind::NotFound))));
}

#[test]
fn marker_ignores_ascii_case() {
    assert!(is_marker(".DS_Store"));
    assert!(is_marker(".ds_store"));
    assert!(is_marker(".DS_STORE"));
    assert!(!is_marker("DS_Store"));
    assert!(!is_marker(".DS_Store2"));
    assert!(!is_marker(".DS-Store"));
    assert!(!is_marker(""));
}

#[test]
fn validation_error_keeps_verdict() {
    let mut m = Mapper::try_new("/c".to_string(), "/o".to_string(), true, OutputDir::Listed(vec![])).unwrap();
    let r = m.prompt_for_ops(vec![]);
    assert!(matches!(r, Err(Errors::ValidationError(OpValidationResult::Empty))));
}
