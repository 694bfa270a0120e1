use base64::Engine;
use blockcell::metrics::ProcessingMetrics;
use blockcell::qq::{
    auth_header, c2c_inbound, dispatch_route, group_at_inbound, is_image_filename, media_file_type,
    media_message_url, message_url, run_mode, upload_url, webhook_route, webhook_validation, DispatchRoute,
    JsonText, QQDedupCache, QQMessagePayload, QQRunMode, TokenCache, WebhookRoute, DEFAULT_INTENTS,
};
use blockcell::qq_gateway::{
    gateway_start, gateway_step, GatewayAction, GatewayEvent, GatewayFrame, GatewayPhase, GatewayState,
    DEFAULT_HEARTBEAT_INTERVAL_MS,
};
use blockcell::whatsapp::{
    base64_decode, handle_bridge_message, is_allowed, media_file_name, mime_to_ext, BridgeAction, BridgeMessage,
    SeenMessages,
};
use ed25519_dalek::{Signer, SigningKey};
use sha2::{Digest, Sha256};

fn message(id: &str, user: &str, content: &str) -> QQMessagePayload {
    QQMessagePayload {
        id: Some(id.to_string()),
        msg_id: None,
        content: Some(content.to_string()),
        attachments: None,
        author_id: Some("author".to_string()),
        author_user_openid: Some(user.to_string()),
        author_member_openid: Some(user.to_string()),
        group_openid: JsonText::Text("g1".to_string()),
        group_id: None,
    }
}

#[test]
fn qq_direct_and_group_messages() {
    let mut dedup = QQDedupCache::new();
    let allow: Vec<String> = Vec::new();
    let m = c2c_inbound(&mut dedup, &allow, &message("m1", "u1", " hi ")).unwrap();
    assert_eq!(m.chat_id, "user:u1");
    assert_eq!(m.sender_id, "u1");
    assert_eq!(m.content, "hi");
    assert_eq!(m.message_type, "C2C");
    // The same id again is a duplicate.
    assert!(c2c_inbound(&mut dedup, &allow, &message("m1", "u1", "hi")).is_none());

    let g = group_at_inbound(&mut dedup, &allow, &message("m2", "u2", "hello")).unwrap();
    assert_eq!(g.chat_id, "group:g1");
    assert_eq!(g.group_id.as_deref(), Some("g1"));
    assert_eq!(g.message_type, "GROUP_AT");

    let only: Vec<String> = vec!["u9".to_string()];
    assert!(c2c_inbound(&mut dedup, &only, &message("m3", "u1", "hi")).is_none());
    let star: Vec<String> = vec!["*".to_string()];
    assert!(c2c_inbound(&mut dedup, &star, &message("m4", "u1", "hi")).is_some());
    assert!(c2c_inbound(&mut dedup, &allow, &message("m5", "u1", "   ")).is_none());
}

#[test]
fn qq_token_cache() {
    let mut cache = TokenCache::new();
    assert!(cache.valid_token("app", 1000).is_none());
    cache.store("app", "tok", 10_000);
    assert_eq!(cache.valid_token("app", 1000).as_deref(), Some("tok"));
    // Five minutes before expiry the token is no longer used.
    assert!(cache.valid_token("app", 9_700).is_none());
    assert!(cache.valid_token("other", 1000).is_none());
    cache.store("app", "tok2", 20_000);
    assert_eq!(cache.valid_token("app", 9_700).as_deref(), Some("tok2"));
}

#[test]
fn qq_urls_routes_and_modes() {
    let base = "https://api.sgroup.qq.com";
    assert_eq!(message_url(base, "group:g1"), "https://api.sgroup.qq.com/v2/groups/g1/messages");
    assert_eq!(message_url(base, "user:u1"), "https://api.sgroup.qq.com/v2/users/u1/messages");
    assert_eq!(message_url(base, "u2"), "https://api.sgroup.qq.com/v2/users/u2/messages");
    let up = upload_url(base, "group:g1");
    assert_eq!(up, "https://api.sgroup.qq.com/v2/groups/g1/files");
    assert_eq!(media_message_url(&up), "https://api.sgroup.qq.com/v2/groups/g1/messages");
    assert_eq!(media_file_type("a.PNG"), 1);
    assert_eq!(media_file_type("a.txt"), 0);
    assert!(is_image_filename("photo.JpEg"));
    assert_eq!(auth_header("t"), "QQBot t");

    assert_eq!(dispatch_route("C2C_MESSAGE_CREATE"), DispatchRoute::C2cMessage);
    assert_eq!(dispatch_route("GROUP_AT_MESSAGE_CREATE"), DispatchRoute::GroupAtMessage);
    assert_eq!(dispatch_route("READY"), DispatchRoute::Ready);
    assert_eq!(dispatch_route("OTHER"), DispatchRoute::Unhandled);

    assert_eq!(webhook_route(13, "", false), WebhookRoute::Validate);
    assert_eq!(webhook_route(1, "C2C_MESSAGE_CREATE", true), WebhookRoute::Ack);
    assert_eq!(webhook_route(0, "C2C_MESSAGE_CREATE", true), WebhookRoute::C2cMessage);
    assert_eq!(webhook_route(0, "C2C_MESSAGE_CREATE", false), WebhookRoute::Ack);
    assert_eq!(webhook_route(0, "GROUP_AT_MESSAGE_CREATE", true), WebhookRoute::GroupAtMessage);
    assert_eq!(webhook_route(0, "X", true), WebhookRoute::Unhandled);

    assert_eq!(run_mode(false, "a", "b", "websocket"), QQRunMode::Disabled);
    assert_eq!(run_mode(true, "", "b", "websocket"), QQRunMode::MissingCredentials);
    assert_eq!(run_mode(true, "a", "b", "WebHook"), QQRunMode::Webhook);
    assert_eq!(run_mode(true, "a", "b", "anything"), QQRunMode::WebSocket);
}

#[test]
fn qq_webhook_validation_signs() {
    assert_eq!(webhook_validation("s", false, None, None).err().unwrap(), "Missing validation data");
    assert_eq!(webhook_validation("s", true, None, Some("1")).err().unwrap(), "Missing plain_token");
    assert_eq!(webhook_validation("s", true, Some("p"), None).err().unwrap(), "Missing event_ts");

    let v = webhook_validation("secret", true, Some("plain"), Some("1700000000")).unwrap();
    assert_eq!(v.plain_token, "plain");
    let mut seed = [0u8; 32];
    seed.copy_from_slice(&Sha256::digest(b"secret"));
    let key = SigningKey::from_bytes(&seed);
    let expected = hex::encode(key.sign(b"1700000000plain").to_bytes());
    assert_eq!(v.signature, expected);
    assert_eq!(v.signature.len(), 128);
}

fn frame(op: u8, s: Option<u64>, t: Option<&str>, hello: Option<u32>) -> GatewayEvent {
    GatewayEvent::Frame(GatewayFrame { op, s, t: t.map(str::to_string), hello_interval: hello })
}

#[test]
fn qq_gateway_session() {
    let s0 = gateway_start();
    assert_eq!(s0.phase, GatewayPhase::Connecting);
    assert_eq!(s0.heartbeat_interval, DEFAULT_HEARTBEAT_INTERVAL_MS);
    let (s1, a) = gateway_step(s0, &GatewayEvent::ConnectFailed);
    assert_eq!(a, GatewayAction::ReconnectAfterDelay);
    let (s2, a) = gateway_step(s1, &GatewayEvent::Connected);
    assert_eq!((s2.phase, a), (GatewayPhase::AwaitingHello, GatewayAction::Nothing));
    let (_, a) = gateway_step(s2, &GatewayEvent::Ping);
    assert_eq!(a, GatewayAction::SendPong);
    let (s3, a) = gateway_step(s2, &frame(10, None, None, Some(30000)));
    assert_eq!((s3.phase, a), (GatewayPhase::AwaitingToken, GatewayAction::FetchToken));
    let (s4, a) = gateway_step(s3, &GatewayEvent::TokenReady);
    assert_eq!(a, GatewayAction::SendIdentify { intents: DEFAULT_INTENTS });
    let (s5, a) = gateway_step(s4, &GatewayEvent::Sent);
    assert_eq!((s5.phase, a), (GatewayPhase::Running, GatewayAction::StartHeartbeat { interval_ms: 30000 }));
    let (_, a) = gateway_step(s5, &GatewayEvent::HeartbeatTick);
    assert_eq!(a, GatewayAction::SendHeartbeat { seq: 0 });
    let (s6, a) = gateway_step(s5, &frame(0, Some(5), Some("C2C_MESSAGE_CREATE"), None));
    assert_eq!(a, GatewayAction::Dispatch { route: DispatchRoute::C2cMessage });
    assert_eq!(s6.last_sequence, Some(5));
    let (_, a) = gateway_step(s6, &GatewayEvent::HeartbeatTick);
    assert_eq!(a, GatewayAction::SendHeartbeat { seq: 5 });
    let (s7, a) = gateway_step(s6, &frame(7, None, None, None));
    assert_eq!((s7.phase, a), (GatewayPhase::Connecting, GatewayAction::ReconnectAfterDelay));
    let (s8, a) = gateway_step(s6, &GatewayEvent::Shutdown);
    assert_eq!((s8.phase, a), (GatewayPhase::Stopped, GatewayAction::CloseAndStop));
    let stopped: GatewayState = s8;
    assert_eq!(gateway_step(stopped, &GatewayEvent::Connected), (stopped, GatewayAction::Nothing));
}

fn bridge(msg_type: &str, id: Option<&str>, sender: &str, content: &str) -> BridgeMessage {
    BridgeMessage {
        msg_type: msg_type.to_string(),
        id: id.map(str::to_string),
        sender: Some(sender.to_string()),
        content: Some(content.to_string()),
        timestamp: Some(1000),
        is_group: None,
        status: None,
        qr: None,
        error: None,
        media_type: None,
        media_data: None,
        media_filename: None,
        mime_type: None,
    }
}

#[test]
fn whatsapp_bridge_messages() {
    let mut seen = SeenMessages::new();
    let allow: Vec<String> = Vec::new();
    match handle_bridge_message(&mut seen, &allow, &bridge("message", Some("a"), "123@s.whatsapp.net", "hi"), 5) {
        BridgeAction::Deliver { inbound, media } => {
            assert_eq!(inbound.chat_id, "123@s.whatsapp.net");
            assert_eq!(inbound.content, "hi");
            assert_eq!(inbound.timestamp_ms, 1000);
            assert!(!inbound.is_group);
            assert!(media.is_none());
        }
        other => panic!("expected delivery, got {:?}", other),
    }
    // The same message again is ignored.
    assert!(matches!(
        handle_bridge_message(&mut seen, &allow, &bridge("message", Some("a"), "123@s.whatsapp.net", "hi"), 5),
        BridgeAction::Ignore
    ));
    assert!(matches!(
        handle_bridge_message(&mut seen, &allow, &bridge("message", None, "123@s.whatsapp.net", ""), 5),
        BridgeAction::Ignore
    ));
    let mut status = bridge("status", None, "x", "");
    status.status = Some("connected".to_string());
    match handle_bridge_message(&mut seen, &allow, &status, 5) {
        BridgeAction::Status { status } => assert_eq!(status.as_deref(), Some("connected")),
        other => panic!("expected status, got {:?}", other),
    }
    match handle_bridge_message(&mut seen, &allow, &bridge("weird", None, "x", ""), 5) {
        BridgeAction::Unknown { msg_type } => assert_eq!(msg_type, "weird"),
        other => panic!("expected unknown, got {:?}", other),
    }

    let only: Vec<String> = vec!["123".to_string()];
    assert!(is_allowed(&only, "123@s.whatsapp.net"));
    assert!(!is_allowed(&only, "456@s.whatsapp.net"));
    assert!(is_allowed(&allow, "anyone"));
}

#[test]
fn whatsapp_media_helpers() {
    assert_eq!(base64_decode("aGVsbG8=").unwrap(), b"hello".to_vec());
    assert_eq!(base64_decode(" aGk=\n").unwrap(), b"hi".to_vec());
    assert!(base64_decode("a!==").is_err());
    assert_eq!(base64_decode("TW!u"), Err("invalid base64 char".to_string()));
    assert_eq!(base64_decode("TWFu").unwrap(), b"Man".to_vec());
    assert_eq!(base64_decode("TW\r\nFu").unwrap(), b"Man".to_vec());
    assert_eq!(base64_decode("TQ==").unwrap(), vec![0x4D]);
    assert_eq!(mime_to_ext("image/jpeg"), Some("jpg"));
    assert_eq!(mime_to_ext("audio/ogg; codecs=opus"), Some("ogg"));
    assert_eq!(mime_to_ext("text/plain"), None);
    assert_eq!(media_file_name("image", Some("photo.final.png"), None, 42), "final_42.png");
    assert_eq!(media_file_name("image", Some("photo"), None, 42), "photo_42.photo");
    assert_eq!(media_file_name("audio", None, Some("audio/mpeg"), 7), "whatsapp_audio_7.mp3");
    assert_eq!(media_file_name("video", None, None, -1), "whatsapp_video_-1.mp4");
}

#[test]
fn processing_metrics_summary_once() {
    let mut metrics = ProcessingMetrics::new();
    metrics.record_llm_call(200);
    metrics.record_tool_execution("read_file", 30);
    let first = metrics.log_summary().unwrap();
    assert_eq!(first.llm_calls, 1);
    assert_eq!(first.llm_total_ms, 200);
    assert_eq!(first.tool_calls, 1);
    assert_eq!(first.tool_total_ms, 30);
    assert!(metrics.log_summary().is_none());
}

#[test]
fn base64_decode_undoes_standard_encoding() {
    let samples: Vec<Vec<u8>> = vec![vec![], vec![0], vec![0xff, 0x10], b"Man".to_vec(), (0u8..=255).collect()];
    for b in samples {
        let text = base64::engine::general_purpose::STANDARD.encode(&b);
        assert_eq!(base64_decode(&text), Ok(b.clone()));
        assert_eq!(base64_decode(&format!(" \n{}\r\n", text)), Ok(b.clone()));
        let broken: String = text.chars().enumerate().flat_map(|(i, c)| {
            if i % 3 == 1 { vec![c, '\r', '\n'] } else { vec![c] }
        }).collect();
        assert_eq!(base64_decode(&format!("\t{}\n", broken)), Ok(b));
    }
}
