use nbterm::media::{base64_decode, get_image_data, has_renderable_image};

#[test]
fn base64_decodes_padded_text() {
    assert_eq!(base64_decode("aGVsbG8="), Some(b"hello".to_vec()));
    assert_eq!(base64_decode("aGk="), Some(b"hi".to_vec()));
    assert_eq!(base64_decode("aA=="), Some(b"h".to_vec()));
    assert_eq!(base64_decode("QUJD"), Some(b"ABC".to_vec()));
    assert_eq!(base64_decode(""), Some(vec![]));
    assert_eq!(base64_decode("+/+/"), Some(vec![0xfb, 0xff, 0xbf]));
}

#[test]
fn base64_refuses_bad_input() {
    assert_eq!(base64_decode("abc"), None);
    assert_eq!(base64_decode("ab!d"), None);
    assert_eq!(base64_decode("a=bc"), None);
    assert_eq!(base64_decode("ab\u{e9}"), None);
}

#[test]
fn image_payload_prefers_png() {
    let both = vec![
        ("text/plain".to_string(), "<img>".to_string()),
        ("image/jpeg".to_string(), "JPEG".to_string()),
        ("image/png".to_string(), "PNG".to_string()),
    ];
    assert!(has_renderable_image(&both));
    assert_eq!(get_image_data(&both).map(|s| s.as_str()), Some("PNG"));
    let jpeg = vec![("image/jpeg".to_string(), "JPEG".to_string())];
    assert_eq!(get_image_data(&jpeg).map(|s| s.as_str()), Some("JPEG"));
    let text = vec![("text/plain".to_string(), "x".to_string())];
    assert!(!has_renderable_image(&text));
    assert_eq!(get_image_data(&text), None);
}

use nbterm::media::{media_kind_of, media_pair, mime_name, MediaKind};

#[test]
fn mime_names_round_trip() {
    for kind in [
        MediaKind::Plain,
        MediaKind::Html,
        MediaKind::Latex,
        MediaKind::Javascript,
        MediaKind::Markdown,
        MediaKind::Svg,
        MediaKind::Png,
        MediaKind::Jpeg,
    ] {
        assert_eq!(media_kind_of(&mime_name(kind)), kind);
    }
    assert_eq!(mime_name(MediaKind::Json), "application/json");
    assert_eq!(media_kind_of("application/json"), MediaKind::Plain);
    assert_eq!(media_kind_of("text/x-unknown"), MediaKind::Plain);
}

#[test]
fn unsupported_payloads_are_dropped() {
    assert_eq!(
        media_pair(MediaKind::Png, "iVBO".to_string()),
        ("image/png".to_string(), "iVBO".to_string())
    );
    assert_eq!(
        media_pair(MediaKind::Unsupported, "blob".to_string()),
        ("application/octet-stream".to_string(), String::new())
    );
}
