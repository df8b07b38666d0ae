use clipvault::clipboard::{
    capture_step, image_capture_event, source_event, text_capture_event, CaptureAction, CaptureEvent,
    clipboard_payload, finish_capture, hash_bytes, hash_image, image_item, image_to_pngs, is_link_text,
    plan_image_capture, plan_text_capture, should_process, text_hash, text_item, ClipboardCache,
    ClipboardPayload, TextCapture,
};
use clipvault::models::SourceMetadata;

#[test]
fn cache_remembers_last_hash() {
    let mut cache = ClipboardCache::default();
    assert!(!cache.is_last("abc"));
    assert!(should_process(&cache, "abc"));
    cache.remember("abc".to_string());
    assert!(cache.is_last("abc"));
    assert!(!cache.is_last("abd"));
    assert!(!should_process(&cache, "abc"));
    cache.remember("xyz".to_string());
    assert!(!cache.is_last("abc"));
}

#[test]
fn hashes_are_sha256_of_kind_and_content() {
    assert_eq!(
        hash_bytes("text", b"hello world"),
        "8f75229b47b43535ce7af30a5a8ea5095d9c83c7dde742b53682b35e71288522"
    );
    assert_eq!(text_hash("  hello world \n"), hash_bytes("text", b"hello world"));
    if usize::BITS == 64 {
        assert_eq!(
            hash_image(2, 1, &[1, 2, 3, 4, 5, 6, 7, 8]),
            "f001d8771427e89ebf5e03db7ed26f94e195858847f0670b25d735221f5f747a"
        );
    }
}

#[test]
fn text_capture_plans() {
    let mut cache = ClipboardCache::default();
    assert!(matches!(plan_text_capture(&cache, " \n\t "), TextCapture::Blank));
    match plan_text_capture(&cache, "  hello world ") {
        TextCapture::Fresh { content, hash } => {
            assert_eq!(content, "hello world");
            assert_eq!(hash, text_hash("hello world"));
        }
        _ => panic!("expected fresh text"),
    }
    cache.remember(text_hash("hello world\n"));
    assert!(matches!(plan_text_capture(&cache, "hello world"), TextCapture::Seen));
}

#[test]
fn image_capture_plans() {
    let mut cache = ClipboardCache::default();
    let h = plan_image_capture(&cache, 1, 1, &[0, 0, 0, 255]).expect("fresh image");
    assert_eq!(h, hash_image(1, 1, &[0, 0, 0, 255]));
    cache.remember(h);
    assert_eq!(plan_image_capture(&cache, 1, 1, &[0, 0, 0, 255]), None);
    assert!(plan_image_capture(&cache, 1, 1, &[1, 0, 0, 255]).is_some());
}

#[test]
fn link_text_becomes_link_item() {
    assert!(is_link_text("https://www.rust-lang.org/learn"));
    assert!(!is_link_text("rust-lang.org"));
    let item = text_item(
        "https://www.rust-lang.org/learn".to_string(),
        SourceMetadata { domain: Some("github.com".to_string()), ..SourceMetadata::default() },
        "h1".to_string(),
        None,
    );
    assert_eq!(item.kind, "link");
    assert_eq!(item.url.as_deref(), Some("https://www.rust-lang.org/learn"));
    assert_eq!(item.domain.as_deref(), Some("rust-lang.org"));
    assert_eq!(item.hash, "h1");
    assert!(item.blob.is_none() && item.thumb.is_none());
}

#[test]
fn plain_text_takes_link_from_clipboard_html() {
    let html = r#"<a href="https://news.site/story" title="Story">A quoted sentence</a>"#;
    let item = text_item(
        "a quoted sentence".to_string(),
        SourceMetadata {
            app_name: Some("Safari".to_string()),
            page_title: Some("Front page".to_string()),
            domain: Some("other.site".to_string()),
            ..SourceMetadata::default()
        },
        "h2".to_string(),
        Some(html.to_string()),
    );
    assert_eq!(item.kind, "text");
    assert_eq!(item.url, None);
    assert_eq!(item.source.page_url.as_deref(), Some("https://news.site/story"));
    assert_eq!(item.source.page_title.as_deref(), Some("Story"));
    assert_eq!(item.source.domain.as_deref(), Some("news.site"));
    assert_eq!(item.domain.as_deref(), Some("news.site"));
    assert_eq!(item.title.as_deref(), Some("Story"));
    assert_eq!(item.source.app_name.as_deref(), Some("Safari"));
}

#[test]
fn plain_text_without_html_keeps_source() {
    let item = text_item(
        "note".to_string(),
        SourceMetadata { page_title: Some("Doc".to_string()), domain: Some("d.com".to_string()), ..SourceMetadata::default() },
        "h3".to_string(),
        None,
    );
    assert_eq!(item.kind, "text");
    assert_eq!(item.title.as_deref(), Some("Doc"));
    assert_eq!(item.domain.as_deref(), Some("d.com"));
    assert_eq!(item.source.page_url, None);
}

#[test]
fn image_items_describe_size() {
    let item = image_item(
        1920,
        1080,
        SourceMetadata { page_title: Some("Shot".to_string()), ..SourceMetadata::default() },
        "h".to_string(),
        vec![1],
        vec![2],
    );
    assert_eq!(item.kind, "image");
    assert_eq!(item.content, "Image 1920 x 1080");
    assert_eq!(item.title.as_deref(), Some("Shot"));
    assert_eq!(item.blob, Some(vec![1]));
    assert_eq!(item.thumb, Some(vec![2]));
    assert_eq!(image_item(0, 7, SourceMetadata::default(), String::new(), vec![], vec![]).content, "Image 0 x 7");
}

#[test]
fn images_encode_to_png_and_back() {
    assert_eq!(image_to_pngs(2, 2, &[0; 15]), Err("Clipboard image has invalid dimensions".to_string()));
    let rgba: Vec<u8> = (0..16).collect();
    let (png, thumb) = image_to_pngs(2, 2, &rgba).expect("encodes");
    assert_eq!(&png[..8], &[0x89, b'P', b'N', b'G', 0x0D, 0x0A, 0x1A, 0x0A]);
    assert_eq!(&thumb[..4], &[0x89, b'P', b'N', b'G']);
    match clipboard_payload("image", "Image 2 x 2".to_string(), Some(png)) {
        Ok(ClipboardPayload::Image { width, height, rgba: back }) => {
            assert_eq!((width, height), (2, 2));
            assert_eq!(back, rgba);
        }
        _ => panic!("expected image payload"),
    }
}

#[test]
fn payloads_for_text_and_broken_images() {
    match clipboard_payload("text", "hello".to_string(), None) {
        Ok(ClipboardPayload::Text(t)) => assert_eq!(t, "hello"),
        _ => panic!("expected text"),
    }
    match clipboard_payload("link", "https://a.b".to_string(), Some(vec![1, 2])) {
        Ok(ClipboardPayload::Text(t)) => assert_eq!(t, "https://a.b"),
        _ => panic!("expected text"),
    }
    assert!(matches!(clipboard_payload("image", String::new(), None), Err(m) if m == "Image payload is missing"));
    assert!(clipboard_payload("image", String::new(), Some(vec![1, 2, 3])).is_err());
}

#[test]
fn entry_copied_back_is_seen() {
    let mut cache = ClipboardCache::default();
    cache.remember(hash_bytes("text", "stored text".as_bytes()));
    assert!(matches!(plan_text_capture(&cache, "stored text"), TextCapture::Seen));
    assert!(matches!(plan_text_capture(&cache, "\n stored text\t"), TextCapture::Seen));
    assert!(matches!(plan_text_capture(&cache, "stored  text"), TextCapture::Fresh { .. }));
}

#[test]
fn finishing_a_capture_remembers_and_reports() {
    let mut cache = ClipboardCache::default();
    assert!(!finish_capture(&mut cache, "skipped".to_string(), false));
    assert!(cache.is_last("skipped"));
    assert!(finish_capture(&mut cache, "saved".to_string(), true));
    assert!(cache.is_last("saved"));
}

#[test]
fn capture_steps_follow_the_order() {
    assert!(matches!(capture_step(&text_capture_event(&None)), CaptureAction::ReadImage));
    assert!(matches!(capture_step(&text_capture_event(&Some(TextCapture::Blank))), CaptureAction::ReadImage));
    assert!(matches!(capture_step(&text_capture_event(&Some(TextCapture::Seen))), CaptureAction::Stop));
    let fresh = Some(TextCapture::Fresh { content: "a".to_string(), hash: "h".to_string() });
    assert!(matches!(capture_step(&text_capture_event(&fresh)), CaptureAction::DetectSource));
    assert!(matches!(capture_step(&image_capture_event(&None)), CaptureAction::Stop));
    assert!(matches!(capture_step(&image_capture_event(&Some(None))), CaptureAction::Stop));
    assert!(matches!(capture_step(&image_capture_event(&Some(Some("h".to_string())))), CaptureAction::DetectSource));
    let vault = SourceMetadata { app_name: Some("Bitwarden".to_string()), ..SourceMetadata::default() };
    assert!(matches!(capture_step(&source_event(&vault)), CaptureAction::Finish { notify: false }));
    assert!(matches!(capture_step(&source_event(&SourceMetadata::default())), CaptureAction::Save));
    assert!(matches!(capture_step(&CaptureEvent::Saved(true)), CaptureAction::Finish { notify: true }));
    assert!(matches!(capture_step(&CaptureEvent::Saved(false)), CaptureAction::Finish { notify: false }));
}
