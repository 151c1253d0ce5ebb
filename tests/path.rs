use duanzhang::path::{derive_output_path, resolve_output_path, PathError};

#[test]
fn derived_path_keeps_extension() {
    assert_eq!(derive_output_path("foo.ttf"), Ok("foo-subset.ttf".to_string()));
}

#[test]
fn derived_path_uses_last_dot() {
    assert_eq!(derive_output_path("a.b.otf"), Ok("a.b-subset.otf".to_string()));
}

#[test]
fn derived_path_stays_in_directory() {
    assert_eq!(derive_output_path("fonts/dir.v2/x.ttf"), Ok("fonts/dir.v2/x-subset.ttf".to_string()));
    assert_eq!(derive_output_path("/abs/Noto Sans.woff2"), Ok("/abs/Noto Sans-subset.woff2".to_string()));
}

#[test]
fn path_without_extension_fails() {
    assert_eq!(derive_output_path("font"), Err(PathError::NoExtension));
    assert_eq!(derive_output_path("dir.d/font"), Err(PathError::NoExtension));
    assert_eq!(derive_output_path(".hidden"), Err(PathError::NoExtension));
    assert_eq!(PathError::NoExtension.message(), "Input file name has no extension");
}

#[test]
fn path_without_file_name_fails() {
    assert_eq!(derive_output_path(""), Err(PathError::NoFileName));
    assert_eq!(derive_output_path("dir/"), Err(PathError::NoFileName));
    assert_eq!(derive_output_path("a/.."), Err(PathError::NoFileName));
}

#[test]
fn explicit_output_must_be_a_file() {
    assert_eq!(resolve_output_path("foo.ttf", Some("out.ttf"), true), Ok("out.ttf".to_string()));
    assert_eq!(resolve_output_path("foo.ttf", Some("out.ttf"), false), Err(PathError::NotAFile));
    assert_eq!(resolve_output_path("foo.ttf", None, false), Ok("foo-subset.ttf".to_string()));
    assert_eq!(resolve_output_path("font", None, true), Err(PathError::NoExtension));
}
