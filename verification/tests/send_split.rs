use opencrab::channels::{
    find_channel, plan_delivery, split_text, DeliveryStep, OutboundMessage, MAX_TEXT_LEN,
};

#[test]
fn split_short_text() {
    let chunks = split_text("hello", 4000);
    assert_eq!(chunks.len(), 1);
    assert_eq!(chunks[0], "hello");
}

#[test]
fn split_long_text() {
    let text = "a".repeat(5000);
    let chunks = split_text(&text, 4000);
    assert_eq!(chunks.len(), 2);
    assert_eq!(chunks[0].len(), 4000);
    assert_eq!(chunks[1].len(), 1000);
}

#[test]
fn split_at_newline() {
    let text = format!("{}\n{}", "a".repeat(3000), "b".repeat(2000));
    let chunks = split_text(&text, 4000);
    assert_eq!(chunks.len(), 2);
    assert_eq!(chunks[0], "a".repeat(3000));
    assert_eq!(chunks[1], "b".repeat(2000));
}

#[test]
fn split_chunks_stay_within_limit_and_keep_content() {
    let text = "line one\nline two is longer\n\n\nthird\nx".to_string();
    let chunks = split_text(&text, 10);
    for c in &chunks {
        assert!(c.len() <= 10);
        assert!(!c.is_empty());
    }
    let joined: String = chunks.concat();
    let without_nl: String = text.chars().filter(|c| *c != '\n').collect();
    assert_eq!(joined.replace('\n', ""), without_nl);
    assert_eq!(chunks, vec!["line one", "line two i", "s longer\n", "third\nx"]);
}

#[test]
fn split_newline_at_start_is_not_a_break() {
    // A newline at position 0 of the window does not count as a break point.
    let text = format!("\n{}", "c".repeat(7));
    let chunks = split_text(&text, 4);
    assert_eq!(chunks, vec!["\nccc", "cccc"]);
}

#[test]
fn split_empty_text() {
    let chunks = split_text("", 4000);
    assert_eq!(chunks, vec![String::new()]);
}

#[test]
fn split_counts_characters_not_bytes() {
    // Multi-byte text: every chunk holds at most the limit in characters.
    let text = "\u{4f60}\u{597d}".repeat(3000);
    let chunks = split_text(&text, MAX_TEXT_LEN);
    assert_eq!(chunks.len(), 2);
    assert_eq!(chunks[0].chars().count(), 4000);
    assert_eq!(chunks[1].chars().count(), 2000);
    assert_eq!(chunks.concat(), text);
    let text = "a\u{e9}".repeat(3);
    assert_eq!(split_text(&text, 4), vec!["a\u{e9}a\u{e9}", "a\u{e9}"]);
    assert_eq!(split_text("", 0), vec![String::new()]);
}

#[test]
fn delivery_replies_with_first_chunk_then_sends() {
    let msg = OutboundMessage {
        channel: "feishu".to_string(),
        chat_id: "oc_1".to_string(),
        text: "z".repeat(9000),
        reply_to: Some("om_9".to_string()),
    };
    let steps = plan_delivery(&msg);
    assert_eq!(steps.len(), 3);
    match &steps[0] {
        DeliveryStep::Reply { message_id, text } => {
            assert_eq!(message_id, "om_9");
            assert_eq!(text.len(), 4000);
        }
        _ => panic!("first step should reply"),
    }
    for s in &steps[1..] {
        match s {
            DeliveryStep::Send { chat_id, .. } => assert_eq!(chat_id, "oc_1"),
            _ => panic!("later steps send"),
        }
    }
}

#[test]
fn delivery_without_reply_sends_everything() {
    let msg = OutboundMessage {
        channel: "feishu".to_string(),
        chat_id: "oc_2".to_string(),
        text: "hi".to_string(),
        reply_to: None,
    };
    let steps = plan_delivery(&msg);
    assert_eq!(steps.len(), 1);
    match &steps[0] {
        DeliveryStep::Send { chat_id, text } => {
            assert_eq!(chat_id, "oc_2");
            assert_eq!(text, "hi");
        }
        _ => panic!("should send"),
    }
}

#[test]
fn find_channel_picks_first_match() {
    let ids = vec!["slack".to_string(), "feishu".to_string(), "feishu".to_string()];
    assert_eq!(find_channel(&ids, "feishu"), Some(1));
    assert_eq!(find_channel(&ids, "telegram"), None);
}
