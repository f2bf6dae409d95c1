use photo_uploader::report::{
    decimal_string, image_tag, link_to, original_key, report_lines, s3_location, upload_folder,
};

#[test]
fn s3_location_line() {
    assert_eq!(s3_location("my-bucket", "photos/sunset.jpg"), "s3://my-bucket/photos/sunset.jpg");
}

#[test]
fn image_tag_as_documented() {
    assert_eq!(
        image_tag("https://cdn.example.com/images", "photos/sunset.jpg", "sunset", 1920, 1080),
        "<img src=\"https://cdn.example.com/images/photos/sunset.jpg\" alt=\"sunset\" width=1920 height=1080>"
    );
}

#[test]
fn linked_image_as_documented() {
    let img = image_tag("https://cdn.example.com/images", "photos/sunset.jpg", "sunset", 1920, 1080);
    assert_eq!(
        link_to("https://cdn.example.com/images", "photos/sunset_orig.jpg", &img),
        "<a href=\"https://cdn.example.com/images/photos/sunset_orig.jpg\"><img src=\"https://cdn.example.com/images/photos/sunset.jpg\" alt=\"sunset\" width=1920 height=1080></a>"
    );
}

#[test]
fn original_key_as_documented() {
    assert_eq!(original_key("photos/sunset.jpg", "jpg", "jpg"), "photos/sunset_orig.jpg");
    assert_eq!(original_key("photos/sunset_ab12cd34.png", "png", "PNG"), "photos/sunset_ab12cd34_orig.PNG");
    assert_eq!(original_key("noext", "jpg", "jpeg"), "noext_orig.jpeg");
}

#[test]
fn decimal_reads_back() {
    for n in [0u32, 7, 10, 99, 100, 1080, 4294967295] {
        let s = decimal_string(n);
        assert_eq!(s, n.to_string());
        assert_eq!(s.parse::<u32>().unwrap(), n);
    }
}

#[test]
fn the_report_follows_the_readme() {
    assert_eq!(
        report_lines("b", None, "photos/sunset.jpg", None, "sunset", 1920, 1080),
        vec!["s3://b/photos/sunset.jpg"]
    );
    assert_eq!(
        report_lines("b", None, "photos/sunset.jpg", Some("photos/sunset_orig.jpg"), "sunset", 1920, 1080),
        vec!["s3://b/photos/sunset.jpg", "s3://b/photos/sunset_orig.jpg"]
    );
    assert_eq!(
        report_lines("b", Some("https://cdn.example.com/images"), "photos/sunset.jpg", None, "sunset", 1920, 1080),
        vec!["<img src=\"https://cdn.example.com/images/photos/sunset.jpg\" alt=\"sunset\" width=1920 height=1080>"]
    );
    assert_eq!(
        report_lines(
            "b",
            Some("https://cdn.example.com/images"),
            "photos/sunset.jpg",
            Some("photos/sunset_orig.jpg"),
            "sunset",
            1920,
            1080
        ),
        vec!["<a href=\"https://cdn.example.com/images/photos/sunset_orig.jpg\"><img src=\"https://cdn.example.com/images/photos/sunset.jpg\" alt=\"sunset\" width=1920 height=1080></a>"]
    );
    assert_eq!(upload_folder(Some("x".to_string()), "photos"), "x");
    assert_eq!(upload_folder(None, "photos"), "photos");
}
