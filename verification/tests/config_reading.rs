use photo_uploader::config::{load_config, ConfigError, ConfigField, NumberField};

const MINIMAL: &str = "[aws]\n\
     access_key_id = AKIA_TEST\n\
     secret_access_key = secret_test\n\
     bucket = test-bucket\n\
     \n\
     [defaults]\n\
     max_width = 1920\n\
     max_height = 1080\n\
     default_folder = photos\n";

#[test]
fn test_load_config_valid() {
    let cfg = load_config(
        "[aws]\n\
         access_key_id = AKIA123\n\
         secret_access_key = secret456\n\
         region = eu-west-1\n\
         bucket = my-bucket\n\
         \n\
         [defaults]\n\
         max_width = 800\n\
         max_height = 600\n\
         default_folder = photos\n",
    )
    .unwrap();
    assert_eq!(cfg.access_key_id, "AKIA123");
    assert_eq!(cfg.secret_access_key, "secret456");
    assert_eq!(cfg.region, "eu-west-1");
    assert_eq!(cfg.bucket, "my-bucket");
    assert_eq!(cfg.max_width, 800);
    assert_eq!(cfg.max_height, 600);
    assert_eq!(cfg.default_folder, "photos");
    assert!(cfg.endpoint_url.is_none());
    assert!(cfg.storage_class.is_none());
}

#[test]
fn test_load_config_with_endpoint_and_storage_class() {
    let cfg = load_config(
        "[aws]\n\
         access_key_id = K\n\
         secret_access_key = S\n\
         bucket = B\n\
         endpoint_url = https://minio.example.com\n\
         storage_class = GLACIER\n\
         \n\
         [defaults]\n\
         max_width = 10\n\
         max_height = 20\n",
    )
    .unwrap();
    assert_eq!(cfg.endpoint_url.as_deref(), Some("https://minio.example.com"));
    assert_eq!(cfg.storage_class.as_deref(), Some("GLACIER"));
}

#[test]
fn test_load_config_with_base_url() {
    let cfg = load_config(
        "[aws]\n\
         access_key_id = K\n\
         secret_access_key = S\n\
         bucket = B\n\
         base_url = https://cdn.example.com/images\n\
         \n\
         [defaults]\n\
         max_width = 10\n\
         max_height = 20\n",
    )
    .unwrap();
    assert_eq!(cfg.base_url.as_deref(), Some("https://cdn.example.com/images"));
}

#[test]
fn test_load_config_base_url_absent() {
    let cfg = load_config(
        "[aws]\n\
         access_key_id = K\n\
         secret_access_key = S\n\
         bucket = B\n\
         \n\
         [defaults]\n\
         max_width = 10\n\
         max_height = 20\n",
    )
    .unwrap();
    assert!(cfg.base_url.is_none());
}

#[test]
fn test_load_config_invalid_max_height() {
    let r = load_config(
        "[aws]\n\
         access_key_id = K\n\
         secret_access_key = S\n\
         bucket = B\n\
         \n\
         [defaults]\n\
         max_width = 100\n\
         max_height = not_a_number\n",
    );
    assert!(r.is_err());
    assert_eq!(r.unwrap_err(), ConfigError::InvalidNumber(NumberField::MaxHeight));
}

#[test]
fn test_load_config_duplicate_keys_last_wins() {
    let cfg = load_config(
        "[aws]\n\
         access_key_id = FIRST\n\
         access_key_id = SECOND\n\
         secret_access_key = S\n\
         bucket = B\n\
         \n\
         [defaults]\n\
         max_width = 10\n\
         max_height = 20\n",
    )
    .unwrap();
    assert_eq!(cfg.access_key_id, "SECOND");
}

#[test]
fn test_load_config_key_before_section() {
    let cfg = load_config(
        "access_key_id = ORPHAN\n\
         [aws]\n\
         access_key_id = K\n\
         secret_access_key = S\n\
         bucket = B\n\
         \n\
         [defaults]\n\
         max_width = 10\n\
         max_height = 20\n",
    )
    .unwrap();
    assert_eq!(cfg.access_key_id, "K");
}

#[test]
fn test_load_config_whitespace_around_equals() {
    let cfg = load_config(
        "[aws]\n\
         access_key_id   =   K  \n\
         secret_access_key = S\n\
         bucket = B\n\
         \n\
         [defaults]\n\
         max_width = 10\n\
         max_height = 20\n",
    )
    .unwrap();
    assert_eq!(cfg.access_key_id, "K");
}

#[test]
fn test_load_config_empty_file() {
    let result = load_config("");
    assert!(result.is_err());
    let msg = result.unwrap_err().message();
    assert!(msg.contains("Missing"), "unexpected error: {}", msg);
}

#[test]
fn test_load_config_equals_inside_value() {
    let cfg = load_config(
        "[aws]\n\
         access_key_id = K\n\
         secret_access_key = S\n\
         bucket = B\n\
         endpoint_url = http://localhost:4566/path?q=1\n\
         \n\
         [defaults]\n\
         max_width = 10\n\
         max_height = 20\n",
    )
    .unwrap();
    assert_eq!(cfg.endpoint_url.as_deref(), Some("http://localhost:4566/path?q=1"));
}

#[test]
fn test_load_config_line_without_equals() {
    let cfg = load_config(
        "[aws]\n\
         access_key_id = K\n\
         secret_access_key = S\n\
         bucket = B\n\
         this_line_has_no_equals_sign\n\
         \n\
         [defaults]\n\
         max_width = 10\n\
         max_height = 20\n",
    )
    .unwrap();
    assert_eq!(cfg.access_key_id, "K");
}

#[test]
fn test_load_config_missing_region_defaults() {
    let cfg = load_config(
        "[aws]\n\
         access_key_id = AKIAX\n\
         secret_access_key = secretX\n\
         bucket = test-bucket\n\
         \n\
         [defaults]\n\
         max_width = 100\n\
         max_height = 200\n",
    )
    .unwrap();
    assert_eq!(cfg.region, "us-east-1");
    assert_eq!(cfg.default_folder, "");
}

#[test]
fn test_load_config_missing_required_field() {
    let r = load_config(
        "[aws]\n\
         access_key_id = AKIAX\n\
         \n\
         [defaults]\n\
         max_width = 100\n\
         max_height = 200\n",
    );
    assert!(r.is_err());
    assert_eq!(r.unwrap_err(), ConfigError::Missing(ConfigField::SecretAccessKey));
}

#[test]
fn test_load_config_comments_and_blank_lines() {
    let cfg = load_config(
        "; this is a comment\n\
         # so is this\n\
         \n\
         [aws]\n\
         ; inline comment\n\
         access_key_id = KEY\n\
         secret_access_key = SEC\n\
         bucket = B\n\
         \n\
         [defaults]\n\
         max_width = 10\n\
         max_height = 20\n",
    )
    .unwrap();
    assert_eq!(cfg.access_key_id, "KEY");
    assert_eq!(cfg.max_width, 10);
}

#[test]
fn test_load_config_case_insensitive() {
    let cfg = load_config(
        "[AWS]\n\
         Access_Key_Id = K\n\
         Secret_Access_Key = S\n\
         Bucket = B\n\
         \n\
         [DEFAULTS]\n\
         Max_Width = 10\n\
         Max_Height = 20\n",
    )
    .unwrap();
    assert_eq!(cfg.access_key_id, "K");
    assert_eq!(cfg.max_width, 10);
}

#[test]
fn test_load_config_invalid_number() {
    let r = load_config(
        "[aws]\n\
         access_key_id = K\n\
         secret_access_key = S\n\
         bucket = B\n\
         \n\
         [defaults]\n\
         max_width = not_a_number\n\
         max_height = 20\n",
    );
    assert!(r.is_err());
    assert_eq!(r.unwrap_err().message(), "Invalid max_width");
}

#[test]
fn test_load_config_missing_max_width() {
    let result = load_config(
        "[aws]\n\
         access_key_id = K\n\
         secret_access_key = S\n\
         bucket = B\n\
         \n\
         [defaults]\n\
         max_height = 20\n",
    );
    assert!(result.is_err());
    let msg = result.unwrap_err().message();
    assert!(msg.contains("max_width"), "unexpected: {}", msg);
}

#[test]
fn test_load_config_upload_original_defaults_to_no() {
    let cfg = load_config(
        "[aws]\n\
         access_key_id = K\n\
         secret_access_key = S\n\
         bucket = B\n\
         \n\
         [defaults]\n\
         max_width = 10\n\
         max_height = 20\n",
    )
    .unwrap();
    assert!(!cfg.upload_original);
}

#[test]
fn test_load_config_upload_original_yes() {
    let cfg = load_config(
        "[aws]\n\
         access_key_id = K\n\
         secret_access_key = S\n\
         bucket = B\n\
         \n\
         [defaults]\n\
         max_width = 10\n\
         max_height = 20\n\
         upload_original = yes\n",
    )
    .unwrap();
    assert!(cfg.upload_original);
}

#[test]
fn test_load_config_strip_exif_defaults_to_yes() {
    let cfg = load_config(
        "[aws]\n\
         access_key_id = K\n\
         secret_access_key = S\n\
         bucket = B\n\
         \n\
         [defaults]\n\
         max_width = 10\n\
         max_height = 20\n",
    )
    .unwrap();
    assert!(cfg.strip_exif);
}

#[test]
fn test_load_config_strip_exif_asis() {
    let cfg = load_config(
        "[aws]\n\
         access_key_id = K\n\
         secret_access_key = S\n\
         bucket = B\n\
         \n\
         [defaults]\n\
         max_width = 10\n\
         max_height = 20\n\
         strip_exif = asis\n",
    )
    .unwrap();
    assert!(!cfg.strip_exif);
}

// The integration tests of the configuration reader.

#[test]
fn test_full_config_load() {
    let cfg = load_config(MINIMAL).unwrap();
    assert_eq!(cfg.access_key_id, "AKIA_TEST");
    assert_eq!(cfg.secret_access_key, "secret_test");
    assert_eq!(cfg.region, "us-east-1");
    assert_eq!(cfg.bucket, "test-bucket");
    assert_eq!(cfg.max_width, 1920);
    assert_eq!(cfg.max_height, 1080);
    assert_eq!(cfg.default_folder, "photos");
}

#[test]
fn test_config_optional_fields() {
    let cfg_content = "\
[aws]
access_key_id = KEY
secret_access_key = SECRET
bucket = BUCKET
endpoint_url = https://minio.local:9000
storage_class = STANDARD_IA

[defaults]
max_width = 800
max_height = 600
default_folder = uploads
";
    let cfg = load_config(cfg_content).unwrap();
    assert_eq!(cfg.endpoint_url.as_deref(), Some("https://minio.local:9000"));
    assert_eq!(cfg.storage_class.as_deref(), Some("STANDARD_IA"));
}

#[test]
fn test_config_missing_required_errors() {
    let cfg_content = "\
[aws]
access_key_id = KEY

[defaults]
max_width = 800
max_height = 600
";
    assert!(load_config(cfg_content).is_err());
}

#[test]
fn test_config_invalid_dimensions_errors() {
    let cfg_content = "\
[aws]
access_key_id = KEY
secret_access_key = SECRET
bucket = BUCKET

[defaults]
max_width = not_a_number
max_height = 600
";
    assert!(load_config(cfg_content).is_err());
}

#[test]
fn test_config_region_default() {
    let cfg_content = "\
[aws]
access_key_id = KEY
secret_access_key = SECRET
bucket = BUCKET

[defaults]
max_width = 100
max_height = 100
";
    let cfg = load_config(cfg_content).unwrap();
    assert_eq!(cfg.region, "us-east-1");
}

#[test]
fn test_config_custom_region() {
    let cfg_content = "\
[aws]
access_key_id = KEY
secret_access_key = SECRET
bucket = BUCKET
region = ap-southeast-1

[defaults]
max_width = 100
max_height = 100
";
    let cfg = load_config(cfg_content).unwrap();
    assert_eq!(cfg.region, "ap-southeast-1");
}

#[test]
fn test_config_empty_folder_default() {
    let cfg_content = "\
[aws]
access_key_id = KEY
secret_access_key = SECRET
bucket = BUCKET

[defaults]
max_width = 100
max_height = 100
";
    let cfg = load_config(cfg_content).unwrap();
    assert_eq!(cfg.default_folder, "");
}

#[test]
fn test_config_case_insensitive() {
    let cfg_content = "\
[AWS]
Access_Key_Id = KEY
Secret_Access_Key = SECRET
Bucket = BUCKET

[DEFAULTS]
Max_Width = 100
Max_Height = 200
";
    let cfg = load_config(cfg_content).unwrap();
    assert_eq!(cfg.access_key_id, "KEY");
    assert_eq!(cfg.max_width, 100);
}

#[test]
fn test_config_comments_ignored() {
    let cfg_content = "\
; This is a comment
# This is also a comment
[aws]
; inline comment
access_key_id = KEY
secret_access_key = SECRET
bucket = BUCKET

[defaults]
max_width = 100
max_height = 200
";
    let cfg = load_config(cfg_content).unwrap();
    assert_eq!(cfg.access_key_id, "KEY");
}

// Edge cases of the reader.

#[test]
fn crlf_line_endings_are_trimmed() {
    let cfg = load_config(
        "[aws]\r\naccess_key_id = K\r\nsecret_access_key = S\r\nbucket = B\r\n[defaults]\r\nmax_width = +7\r\nmax_height = 007\r\n",
    )
    .unwrap();
    assert_eq!(cfg.access_key_id, "K");
    assert_eq!(cfg.max_width, 7);
    assert_eq!(cfg.max_height, 7);
}

#[test]
fn dimension_overflow_and_sign_are_refused() {
    let base = "[aws]\naccess_key_id = K\nsecret_access_key = S\nbucket = B\n[defaults]\nmax_height = 1\nmax_width = ";
    for bad in ["4294967296", "-1", "+", "", "1 2", "１"] {
        let text = format!("{base}{bad}\n");
        assert_eq!(
            load_config(&text).unwrap_err(),
            ConfigError::InvalidNumber(NumberField::MaxWidth),
            "value {bad:?}"
        );
    }
    let text = format!("{base}4294967295\n");
    assert_eq!(load_config(&text).unwrap().max_width, u32::MAX);
}

#[test]
fn first_missing_setting_is_reported() {
    let r = load_config("[defaults]\nmax_width = x\n");
    assert_eq!(r.unwrap_err(), ConfigError::Missing(ConfigField::AccessKeyId));
    let r = load_config("[aws]\naccess_key_id = K\nsecret_access_key = S\n");
    assert_eq!(r.unwrap_err().message(), "Missing aws.bucket");
    let r = load_config("[aws]\naccess_key_id = K\nsecret_access_key = S\nbucket = B\n[defaults]\nmax_width = 1\n");
    assert_eq!(r.unwrap_err(), ConfigError::Missing(ConfigField::MaxHeight));
}

#[test]
fn yes_is_matched_without_regard_to_case() {
    let cfg = load_config(
        "[aws]\naccess_key_id = K\nsecret_access_key = S\nbucket = B\n[defaults]\nmax_width = 1\nmax_height = 2\nupload_original = YeS\nstrip_exif = no\n",
    )
    .unwrap();
    assert!(cfg.upload_original);
    assert!(!cfg.strip_exif);
}

#[test]
fn same_key_in_other_section_does_not_count() {
    let r = load_config(
        "[other]\naccess_key_id = X\n[aws]\nsecret_access_key = S\nbucket = B\n[defaults]\nmax_width = 1\nmax_height = 2\n",
    );
    assert_eq!(r.unwrap_err(), ConfigError::Missing(ConfigField::AccessKeyId));
}

#[test]
fn bracket_line_with_spaces_opens_section() {
    let cfg = load_config(
        "[  Aws  ]\naccess_key_id=K\nsecret_access_key=S\nbucket=B\n[ defaults ]\nmax_width=3\nmax_height=4\n",
    )
    .unwrap();
    assert_eq!(cfg.bucket, "B");
    assert_eq!((cfg.max_width, cfg.max_height), (3, 4));
}

#[test]
fn readme_config_with_notes_after_values() {
    let cfg = load_config(
        "[aws]\n\
         access_key_id = YOUR_KEY\n\
         secret_access_key = YOUR_SECRET\n\
         region = us-east-1\n\
         bucket = my-bucket\n\
         endpoint_url = https://minio.example.com   # optional, default: AWS S3\n\
         storage_class = STANDARD                   # optional, default: STANDARD\n\
         base_url = https://cdn.example.com/images  # optional, output HTML instead of S3 path\n\
         \n\
         [defaults]\n\
         max_width = 1920\n\
         max_height = 1080\n\
         default_folder = photos\n\
         upload_original = no                       # optional, \"yes\" to also upload original\n\
         strip_exif = yes                           # optional, \"asis\" to keep original EXIF data\n",
    )
    .unwrap();
    assert_eq!(cfg.access_key_id, "YOUR_KEY");
    assert_eq!(cfg.region, "us-east-1");
    assert_eq!(cfg.bucket, "my-bucket");
    assert_eq!(cfg.endpoint_url.as_deref(), Some("https://minio.example.com"));
    assert_eq!(cfg.storage_class.as_deref(), Some("STANDARD"));
    assert_eq!(cfg.base_url.as_deref(), Some("https://cdn.example.com/images"));
    assert_eq!(cfg.max_width, 1920);
    assert_eq!(cfg.max_height, 1080);
    assert_eq!(cfg.default_folder, "photos");
    assert!(!cfg.upload_original);
    assert!(cfg.strip_exif);
}

#[test]
fn a_note_needs_whitespace_before_it() {
    let cfg = load_config(
        "[aws]\naccess_key_id = K;1\nsecret_access_key = S#2\nbucket = B\t; note\nbase_url = https://x/a#top\nregion = ;only a note\n[defaults]\nmax_width = 7 # px\nmax_height = 8;9\n",
    );
    assert_eq!(cfg.unwrap_err(), ConfigError::InvalidNumber(NumberField::MaxHeight));
    let cfg = load_config(
        "[aws]\naccess_key_id = K;1\nsecret_access_key = S#2\nbucket = B\t; note\nbase_url = https://x/a#top\nregion = ;only a note\n[defaults]\nmax_width = 7 # px\nmax_height = 8\n",
    )
    .unwrap();
    assert_eq!(cfg.access_key_id, "K;1");
    assert_eq!(cfg.secret_access_key, "S#2");
    assert_eq!(cfg.bucket, "B");
    assert_eq!(cfg.base_url.as_deref(), Some("https://x/a#top"));
    assert_eq!(cfg.region, "");
    assert_eq!(cfg.max_width, 7);
}
