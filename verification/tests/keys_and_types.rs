use photo_uploader::keys::{build_key, content_type_for, key_for, object_key, random_postfix};

fn is_postfix_char(c: char) -> bool {
    c.is_ascii_digit() || c.is_ascii_lowercase()
}

#[test]
fn test_content_type_jpg() {
    assert_eq!(content_type_for("photo.jpg"), "image/jpeg");
}

#[test]
fn test_content_type_jpeg() {
    assert_eq!(content_type_for("photo.jpeg"), "image/jpeg");
}

#[test]
fn test_content_type_png() {
    assert_eq!(content_type_for("image.png"), "image/png");
}

#[test]
fn test_content_type_webp() {
    assert_eq!(content_type_for("pic.webp"), "image/webp");
}

#[test]
fn test_content_type_gif() {
    assert_eq!(content_type_for("anim.gif"), "image/gif");
}

#[test]
fn test_content_type_unknown() {
    assert_eq!(content_type_for("file.xyz"), "application/octet-stream");
}

#[test]
fn test_content_type_no_extension() {
    assert_eq!(content_type_for("noext"), "application/octet-stream");
}

#[test]
fn test_content_type_case_insensitive() {
    assert_eq!(content_type_for("photo.JPG"), "image/jpeg");
    assert_eq!(content_type_for("photo.Png"), "image/png");
    assert_eq!(content_type_for("photo.GiF"), "image/gif");
}

#[test]
fn test_content_type_path_with_dirs() {
    assert_eq!(content_type_for("/some/path/photo.jpg"), "image/jpeg");
}

#[test]
fn test_content_type_empty_string() {
    assert_eq!(content_type_for(""), "application/octet-stream");
}

#[test]
fn test_content_type_trailing_dot() {
    assert_eq!(content_type_for("photo."), "application/octet-stream");
}

#[test]
fn test_content_type_double_extension() {
    assert_eq!(content_type_for("archive.tar.gz"), "application/octet-stream");
}

#[test]
fn test_content_type_integration() {
    assert_eq!(content_type_for("photo.jpg"), "image/jpeg");
    assert_eq!(content_type_for("photo.jpeg"), "image/jpeg");
    assert_eq!(content_type_for("image.png"), "image/png");
    assert_eq!(content_type_for("anim.gif"), "image/gif");
    assert_eq!(content_type_for("pic.webp"), "image/webp");
    assert_eq!(content_type_for("file.xyz"), "application/octet-stream");
}

#[test]
fn content_type_uses_unicode_lower_case() {
    assert_eq!(content_type_for("a.WEBP"), "image/webp");
    assert_eq!(content_type_for("a.JpEg"), "image/jpeg");
    assert_eq!(content_type_for("a.jpg.png"), "image/png");
    assert_eq!(content_type_for("dir.d/noext"), "application/octet-stream");
}

#[test]
fn name_without_a_dot_has_no_type() {
    assert_eq!(content_type_for("png"), "application/octet-stream");
    assert_eq!(content_type_for("JPG"), "application/octet-stream");
    assert_eq!(content_type_for(".png"), "image/png");
}

#[test]
fn only_the_last_extension_counts_whatever_its_case() {
    for ext in ["jpg", "jpeg", "png", "webp", "gif", "xyz"] {
        let lower = content_type_for(&format!("a.{}", ext)).to_string();
        assert_eq!(content_type_for(&format!("b.c.{}", ext.to_ascii_uppercase())), lower);
    }
}

#[test]
fn test_build_key_no_folder() {
    assert_eq!(build_key("", "photo", "jpg", true, false), "photo.jpg");
}

#[test]
fn test_build_key_with_folder() {
    assert_eq!(build_key("photos", "photo", "jpg", true, false), "photos/photo.jpg");
}

#[test]
fn test_build_key_nested_folder() {
    assert_eq!(
        build_key("2024/january", "photo", "png", true, false),
        "2024/january/photo.png"
    );
}

#[test]
fn test_build_key_folder_trailing_slash() {
    assert_eq!(build_key("photos/", "photo", "jpg", true, false), "photos/photo.jpg");
}

#[test]
fn test_build_key_force_overwrites() {
    let key = build_key("photos", "photo", "jpg", true, true);
    assert_eq!(key, "photos/photo.jpg");
}

#[test]
fn test_build_key_force_no_conflict() {
    let key = build_key("photos", "photo", "jpg", true, false);
    assert_eq!(key, "photos/photo.jpg");
}

#[test]
fn test_build_key_no_force_no_conflict() {
    let key = build_key("photos", "photo", "jpg", false, false);
    assert_eq!(key, "photos/photo.jpg");
}

#[test]
fn test_build_key_conflict_appends_postfix() {
    let key = build_key("photos", "photo", "jpg", false, true);
    assert_ne!(key, "photos/photo.jpg");
    assert!(key.starts_with("photos/photo_"));
    assert!(key.ends_with(".jpg"));
}

#[test]
fn test_build_key_conflict_no_folder() {
    let key = build_key("", "photo", "png", false, true);
    assert_ne!(key, "photo.png");
    assert!(key.starts_with("photo_"));
    assert!(key.ends_with(".png"));
}

#[test]
fn test_build_key_no_folder_no_conflict() {
    assert_eq!(build_key("", "photo", "jpg", false, false), "photo.jpg");
}

#[test]
fn test_build_key_force_conflict_root() {
    assert_eq!(build_key("", "photo", "jpg", true, true), "photo.jpg");
}

#[test]
fn test_build_key_deeply_nested_folder() {
    assert_eq!(build_key("a/b/c/d", "pic", "webp", true, false), "a/b/c/d/pic.webp");
}

#[test]
fn test_build_key_conflict_postfix_format() {
    let key = build_key("album", "sun", "png", false, true);
    assert!(key.starts_with("album/sun_"));
    assert!(key.ends_with(".png"));
    let stem = key.strip_prefix("album/sun_").unwrap();
    let stem = stem.strip_suffix(".png").unwrap();
    assert_eq!(stem.len(), 8);
    assert!(stem.chars().all(|c| c.is_ascii_digit() || c.is_ascii_lowercase()));
}

#[test]
fn test_build_key_folder_all_slashes() {
    assert_eq!(build_key("///", "photo", "jpg", true, false), "/photo.jpg");
}

#[test]
fn test_build_key_folder_multiple_trailing_slashes() {
    assert_eq!(build_key("photos///", "photo", "jpg", true, false), "photos/photo.jpg");
}

#[test]
fn test_build_key_empty_file_stem() {
    let key = build_key("photos", "", "jpg", true, false);
    assert_eq!(key, "photos/.jpg");
}

#[test]
fn test_build_key_integration() {
    assert_eq!(build_key("photos", "sunset", "jpg", false, false), "photos/sunset.jpg");
    assert_eq!(build_key("photos", "sunset", "jpg", true, true), "photos/sunset.jpg");
    let conflict_key = build_key("photos", "sunset", "jpg", false, true);
    assert!(conflict_key.starts_with("photos/sunset_"));
    assert!(conflict_key.ends_with(".jpg"));
    assert_eq!(conflict_key.len(), "photos/sunset_".len() + 8 + ".jpg".len());
}

#[test]
fn conflict_key_keeps_content_type_of_extension() {
    for ext in ["jpg", "PNG", "webp", "gif", "bmp"] {
        let plain = build_key("f/", "s", ext, true, false);
        let postfixed = build_key("f/", "s", ext, false, true);
        let expected = content_type_for(&format!("x.{ext}"));
        assert_eq!(content_type_for(&plain), expected);
        assert_eq!(content_type_for(&postfixed), expected);
        assert_ne!(plain, postfixed);
    }
}

#[test]
fn object_key_strips_only_trailing_slashes() {
    assert_eq!(object_key("/a//b//", "c.jpg"), "/a//b/c.jpg");
    assert_eq!(object_key("", "c.jpg"), "c.jpg");
}

#[test]
fn test_random_postfix_length() {
    let s = random_postfix(8);
    assert_eq!(s.len(), 8);
}

#[test]
fn test_random_postfix_length_zero() {
    let s = random_postfix(0);
    assert_eq!(s.len(), 0);
}

#[test]
fn test_random_postfix_single_char() {
    let s = random_postfix(1);
    assert_eq!(s.len(), 1);
    assert!(s.chars().next().unwrap().is_ascii_digit() || s.chars().next().unwrap().is_ascii_lowercase());
}

#[test]
fn test_random_postfix_valid_chars() {
    let s = random_postfix(100);
    assert!(s.chars().all(is_postfix_char));
}

#[test]
fn test_random_postfix_uniqueness() {
    let a = random_postfix(16);
    let b = random_postfix(16);
    assert_ne!(a, b);
}

#[test]
fn key_for_places_the_postfix_before_the_extension() {
    assert_eq!(key_for("photos//", "sun", Some("ab12cd34"), "jpg"), "photos/sun_ab12cd34.jpg");
    assert_eq!(key_for("", "sun", None, "png"), "sun.png");
}
