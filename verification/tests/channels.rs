use blockcell::qq::{compose_message_content, extract_message_id, JsonText, QQAttachment, QQMessagePayload};
use blockcell::strer::SafeSplitExt;
use blockcell::weixin::generate_uin;
use base64::Engine;

fn payload() -> QQMessagePayload {
    QQMessagePayload {
        id: None,
        msg_id: None,
        content: None,
        attachments: None,
        author_id: None,
        author_user_openid: None,
        author_member_openid: None,
        group_openid: JsonText::Missing,
        group_id: None,
    }
}

#[test]
fn test_extract_message_id() {
    let mut p = payload();
    p.id = Some("msg123".to_string());
    assert_eq!(extract_message_id(&p), "msg123");

    let mut p = payload();
    p.msg_id = Some("msg456".to_string());
    assert_eq!(extract_message_id(&p), "msg456");

    let mut p = payload();
    p.id = Some("msg789".to_string());
    p.msg_id = Some("msg000".to_string());
    assert_eq!(extract_message_id(&p), "msg789");

    let p = payload();
    assert_eq!(extract_message_id(&p), "");
}

#[test]
fn test_compose_message_content_text_only() {
    let mut p = payload();
    p.content = Some("Hello World".to_string());
    assert_eq!(compose_message_content(&p), Some("Hello World".to_string()));
}

#[test]
fn test_compose_message_content_empty() {
    let p = payload();
    assert_eq!(compose_message_content(&p), None);

    let mut p = payload();
    p.content = Some("   ".to_string());
    assert_eq!(compose_message_content(&p), None);
}

#[test]
fn test_compose_message_content_with_image_attachment() {
    let mut p = payload();
    p.content = Some("Check this image".to_string());
    p.attachments = Some(vec![QQAttachment {
        url: Some("https://example.com/image.png".to_string()),
        content_type: Some("image/png".to_string()),
        filename: Some("test.png".to_string()),
    }]);
    let result = compose_message_content(&p).unwrap();
    assert!(result.contains("Check this image"));
    assert!(result.contains("[IMAGE:https://example.com/image.png]"));
}

#[test]
fn test_compose_message_content_image_only() {
    let mut p = payload();
    p.content = Some("".to_string());
    p.attachments = Some(vec![QQAttachment {
        url: Some("https://example.com/photo.jpg".to_string()),
        content_type: Some("image/jpeg".to_string()),
        filename: Some("photo.jpg".to_string()),
    }]);
    let result = compose_message_content(&p).unwrap();
    assert_eq!(result, "[IMAGE:https://example.com/photo.jpg]");
}

#[test]
fn test_generate_uin_is_base64() {
    let uin = generate_uin();
    assert!(!uin.is_empty());
    assert!(base64::engine::general_purpose::STANDARD.decode(&uin).is_ok());
}

#[test]
fn latin_ascii() {
    let s = "hello world";
    assert_eq!(s.truncate_chars(5), "hello");
    assert_eq!(s.truncate_chars_ref(5), "hello");
}

#[test]
fn chinese() {
    let s = "你好世界";
    assert_eq!(s.truncate_chars(2), "你好");
    assert_eq!(s.truncate_chars_ref(3), "你好世");
}

#[test]
fn japanese() {
    let s = "こんにちは世界";
    assert_eq!(s.truncate_chars(4), "こんにち");
}

#[test]
fn korean() {
    let s = "안녕하세요세계";
    assert_eq!(s.truncate_chars(3), "안녕하");
}

#[test]
fn emoji_simple() {
    let s = "🚀🔥✨rust";
    assert_eq!(s.truncate_chars(2), "🚀🔥");
}

#[test]
fn combining_marks() {
    let s = "e\u{0301}cole";
    assert_eq!(s.chars().count(), 6);
    let first = s.truncate_chars(1);
    assert_eq!(first, "e");
}

#[test]
fn zwj_sequence() {
    let s = "👨‍👩‍👧‍👦";
    assert!(s.chars().count() > 1);
    let part = s.truncate_chars(1);
    assert!(part.len() <= s.len());
}

#[test]
fn rtl_arabic() {
    let s = "مرحبا بالعالم";
    assert_eq!(s.truncate_chars(5), "مرحبا");
}

#[test]
fn mixed_languages() {
    let s = "中🚀a한🙂b";
    assert_eq!(s.truncate_chars(1), "中");
    assert_eq!(s.truncate_chars(2), "中🚀");
    assert_eq!(s.truncate_chars(3), "中🚀a");
}

#[test]
fn never_breaks_utf8_multilang() {
    let samples = ["hello", "你好世界", "こんにちは", "🚀🔥✨", "e\u{0301}cole", "👨‍👩‍👧‍👦", "مرحبا"];
    for s in samples {
        for i in 0..20 {
            let out = s.truncate_chars(i);
            assert!(std::str::from_utf8(out.as_bytes()).is_ok());
        }
    }
}

#[test]
fn ref_is_slice() {
    let s = String::from("你好hello");
    let sub = s.truncate_chars_ref(2);
    assert_eq!(sub.as_ptr(), s.as_ptr());
}
