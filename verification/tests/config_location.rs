use photo_uploader::paths::{
    config_search_paths, file_stem_or, find_config_file, is_jpeg, join, path_extension,
    search_paths_from, ConfigSearchError, PathProbe, Platform,
};
use std::path::Path;

fn probe(path: &str) -> PathProbe {
    PathProbe { path: path.to_string(), exists: Path::new(path).exists() }
}

fn probes(paths: Vec<String>) -> Vec<PathProbe> {
    paths.into_iter().map(|p| probe(&p)).collect()
}

#[test]
fn test_find_config_explicit_path() {
    let explicit = probe("/");
    let found = find_config_file(Some(&explicit), &Vec::new()).unwrap();
    assert_eq!(found, "/");
}

#[test]
fn test_find_config_explicit_not_found() {
    let explicit = probe("/nonexistent/config.ini");
    assert!(find_config_file(Some(&explicit), &Vec::new()).is_err());
}

#[test]
fn test_find_config_explicit() {
    let explicit = probe("/");
    let candidates = probes(config_search_paths(Platform::Linux, None, None));
    let found = find_config_file(Some(&explicit), &candidates).unwrap();
    assert_eq!(found, "/");
}

#[test]
fn test_find_config_explicit_missing() {
    let explicit = probe("/no/such/file.ini");
    let result = find_config_file(Some(&explicit), &Vec::new());
    assert!(result.is_err());
    assert_eq!(result.unwrap_err().message(), "Config file not found: /no/such/file.ini");
}

#[test]
fn test_find_config_prefers_explicit_over_search() {
    let explicit = probe("/");
    let candidates = vec![PathProbe { path: "other/config.ini".to_string(), exists: true }];
    let found = find_config_file(Some(&explicit), &candidates).unwrap();
    assert_eq!(found, "/");
}

#[test]
fn test_find_config_none_returns_first_search_hit() {
    let candidates = probes(config_search_paths(Platform::Linux, Some(".".to_string()), None));
    if let Ok(path) = find_config_file(None, &candidates) {
        assert!(Path::new(&path).exists());
        assert!(path.contains("config.ini"));
    }
}

#[test]
fn test_find_config_search_returns_valid() {
    let candidates = probes(config_search_paths(Platform::Linux, Some(".".to_string()), None));
    if let Ok(path) = find_config_file(None, &candidates) {
        assert!(Path::new(&path).exists());
        assert!(path.ends_with("config.ini"));
    }
}

#[test]
fn test_find_config_none_no_config_found_error() {
    let candidates = vec![
        PathProbe { path: "/a/config.ini".to_string(), exists: false },
        PathProbe { path: "/b/config.ini".to_string(), exists: false },
    ];
    let e = find_config_file(None, &candidates).unwrap_err();
    let msg = e.message();
    assert!(msg.contains("No config file found"), "unexpected: {}", msg);
    assert_eq!(msg, "No config file found. Searched:\n  /a/config.ini\n  /b/config.ini\n");
    match e {
        ConfigSearchError::NoneFound(v) => assert_eq!(v.len(), 2),
        ConfigSearchError::NotFound(_) => panic!("wrong error"),
    }
}

#[test]
fn first_existing_candidate_wins() {
    let candidates = vec![
        PathProbe { path: "/a/config.ini".to_string(), exists: false },
        PathProbe { path: "/b/config.ini".to_string(), exists: true },
        PathProbe { path: "/c/config.ini".to_string(), exists: true },
    ];
    assert_eq!(find_config_file(None, &candidates).unwrap(), "/b/config.ini");
}

#[test]
fn test_find_config_returns_search_paths() {
    let paths = config_search_paths(Platform::Linux, Some("/work".to_string()), Some("/bin".to_string()));
    assert!(!paths.is_empty());
    for p in &paths {
        assert!(p.contains("config.ini"));
    }
}

#[test]
fn test_config_search_paths_all_end_with_config_ini() {
    for platform in [Platform::Linux, Platform::MacOs, Platform::Windows, Platform::Other] {
        for p in config_search_paths(platform, Some("/work".to_string()), Some("/bin/".to_string())) {
            assert!(p.ends_with("config.ini"), "path does not end with config.ini: {}", p);
        }
    }
}

#[test]
fn test_config_search_paths_no_duplicates() {
    let paths = config_search_paths(Platform::Linux, Some("/work".to_string()), Some("/usr/bin".to_string()));
    let mut unique = paths.clone();
    unique.sort();
    unique.dedup();
    assert_eq!(paths.len(), unique.len(), "duplicate paths found");
}

#[test]
fn test_config_search_paths_cwd_included() {
    let cwd = "/home/someone/work";
    let paths = config_search_paths(Platform::Linux, Some(cwd.to_string()), None);
    assert!(
        paths.iter().any(|p| Path::new(p).parent() == Some(Path::new(cwd))),
        "current directory not in search paths"
    );
}

#[test]
fn test_config_search_paths_count_at_least_two() {
    let paths = config_search_paths(Platform::Linux, Some("/w".to_string()), Some("/x".to_string()));
    assert!(paths.len() >= 2, "expected at least 2 search paths, got {}", paths.len());
}

#[test]
fn test_config_search_paths_linux_home_prefix() {
    let paths = search_paths_from(
        Platform::Linux,
        Some("/home/u".to_string()),
        None,
        Some("/w".to_string()),
        Some("/x/".to_string()),
    );
    assert_eq!(
        paths,
        vec![
            "/home/u/.config/aws-photo-uploader/config.ini".to_string(),
            "/w/config.ini".to_string(),
            "/x/config.ini".to_string(),
        ]
    );
}

#[test]
fn search_paths_per_platform() {
    let mac = search_paths_from(Platform::MacOs, Some("/Users/u".to_string()), None, None, None);
    assert_eq!(mac, vec!["/Users/u/Library/Application Support/aws-photo-uploader/config.ini".to_string()]);
    let win = search_paths_from(
        Platform::Windows,
        Some("C:\\Users\\u".to_string()),
        Some("C:\\Users\\u\\AppData\\Roaming".to_string()),
        Some("C:\\work\\".to_string()),
        None,
    );
    assert_eq!(
        win,
        vec![
            "C:\\Users\\u\\AppData\\Roaming\\aws-photo-uploader/config.ini".to_string(),
            "C:\\work\\config.ini".to_string(),
        ]
    );
    let win_no_home = search_paths_from(Platform::Windows, None, Some("D:\\cfg".to_string()), None, None);
    assert!(win_no_home.is_empty());
    let other = search_paths_from(Platform::Other, Some("/h".to_string()), None, None, None);
    assert!(other.is_empty());
}

#[test]
fn join_follows_pathbuf() {
    assert_eq!(join(Platform::Linux, "", "config.ini"), "config.ini");
    assert_eq!(join(Platform::Linux, "/", "config.ini"), "/config.ini");
    assert_eq!(join(Platform::Linux, "a", "config.ini"), Path::new("a").join("config.ini").to_str().unwrap());
    assert_eq!(join(Platform::Linux, "a/b/", "c"), Path::new("a/b/").join("c").to_str().unwrap());
    assert_eq!(join(Platform::Windows, "C:", "config.ini"), "C:config.ini");
    assert_eq!(join(Platform::Windows, "C:\\", "config.ini"), "C:\\config.ini");
    assert_eq!(join(Platform::Windows, "C:\\x", "config.ini"), "C:\\x\\config.ini");
    assert_eq!(join(Platform::Linux, "C:", "config.ini"), "C:/config.ini");
}

#[test]
fn extension_follows_path() {
    for p in [
        "photo.jpg", "a/b.c/photo.JPEG", ".hidden", "..jpg", "photo.", "noext", "a/.", "a/..", "/", "",
        "dir/x.tar.gz", "trailing/x.png/", "./y.webp", "a//b.gif",
    ] {
        let expected = Path::new(p).extension().map(|e| e.to_str().unwrap().to_string());
        assert_eq!(path_extension(Platform::Linux, p), expected, "path {p:?}");
        let stem = Path::new(p).file_stem().map(|e| e.to_str().unwrap().to_string());
        assert_eq!(file_stem_or(Platform::Linux, p, "photo"), stem.unwrap_or_else(|| "photo".to_string()), "path {p:?}");
    }
}

#[test]
fn jpeg_paths_are_recognised() {
    assert!(is_jpeg(Platform::Linux, "photo.jpg"));
    assert!(is_jpeg(Platform::Linux, "dir/photo.JPeG"));
    assert!(!is_jpeg(Platform::Linux, "photo.png"));
    assert!(!is_jpeg(Platform::Linux, ".jpg"));
    assert!(!is_jpeg(Platform::Linux, "jpg"));
}

#[test]
fn a_place_is_searched_once() {
    let paths = search_paths_from(
        Platform::Linux,
        Some("/home/u".to_string()),
        None,
        Some("/opt/tool".to_string()),
        Some("/opt/tool".to_string()),
    );
    assert_eq!(paths, vec!["/home/u/.config/aws-photo-uploader/config.ini", "/opt/tool/config.ini"]);
    let paths = config_search_paths(Platform::Linux, Some("/x".to_string()), Some("/x".to_string()));
    assert_eq!(paths.iter().filter(|p| p.as_str() == "/x/config.ini").count(), 1);
    let paths = search_paths_from(Platform::Linux, None, None, Some("/a/".to_string()), Some("/a".to_string()));
    assert_eq!(paths, vec!["/a/config.ini"]);
}

#[test]
fn windows_paths_split_at_both_separators_and_after_the_drive() {
    assert_eq!(file_stem_or(Platform::Windows, "C:\\dir\\photo.jpg", "x"), "photo");
    assert_eq!(file_stem_or(Platform::Windows, "C:photo.tar.gz", "x"), "photo.tar");
    assert_eq!(file_stem_or(Platform::Windows, "dir/sub\\.hidden", "x"), ".hidden");
    assert_eq!(file_stem_or(Platform::Windows, "C:", "x"), "x");
    assert_eq!(file_stem_or(Platform::Windows, "C:\\", "x"), "x");
    assert_eq!(file_stem_or(Platform::Linux, "a\\b.jpg", "x"), "a\\b");
    assert_eq!(path_extension(Platform::Windows, "D:\\pics\\IMG.JPG").as_deref(), Some("JPG"));
    assert_eq!(path_extension(Platform::Windows, "D:\\pics.d\\IMG").as_deref(), None);
    assert_eq!(path_extension(Platform::Linux, "pics.d\\IMG").as_deref(), Some("d\\IMG"));
    assert!(is_jpeg(Platform::Windows, "C:\\x\\y.jpeg"));
    assert!(!is_jpeg(Platform::Windows, "C:\\x.jpg\\y"));
}

#[test]
fn windows_prefixes_are_no_file_names() {
    let w = Platform::Windows;
    assert_eq!(file_stem_or(w, "\\\\server\\share", "x"), "x");
    assert_eq!(file_stem_or(w, "\\\\server\\share\\", "x"), "x");
    assert_eq!(file_stem_or(w, "\\\\server\\share\\pic.jpg", "x"), "pic");
    assert_eq!(file_stem_or(w, "//server/share/pic.png", "x"), "pic");
    assert_eq!(file_stem_or(w, "\\\\?\\UNC\\server\\share", "x"), "x");
    assert_eq!(file_stem_or(w, "\\\\?\\UNC\\server\\share\\a.jpg", "x"), "a");
    assert_eq!(file_stem_or(w, "\\\\?\\C:\\dir\\a.jpg", "x"), "a");
    assert_eq!(file_stem_or(w, "\\\\?\\C:\\dir/a.jpg", "x"), "dir/a");
    assert_eq!(file_stem_or(w, "\\\\?\\C:\\dir\\.", "x"), "x");
    assert_eq!(file_stem_or(w, "C:\\dir\\.", "x"), "dir");
    assert_eq!(file_stem_or(w, "\\\\.\\COM1", "x"), "x");
    assert_eq!(file_stem_or(w, "\\\\.\\pipe\\name.x", "x"), "name");
    assert_eq!(file_stem_or(w, "\\\\\\share\\a.jpg", "x"), "a");
    assert_eq!(path_extension(w, "\\\\server\\share.jpg"), None);
    assert_eq!(file_stem_or(Platform::Linux, "//server/share", "x"), "share");
}
