use chrono::{DateTime, TimeZone, Utc};
use slackrs::slack::{
    check_times, is_message_file, place_in_channel, selects_entry, sort_by_time, Message,
    MessageAttachment, MessageBlock, MessageInChannel,
};
use slackrs::timestamp::{parse_timestamp, MAX_UTC_SECONDS, MIN_UTC_SECONDS};

fn leaf(text: &str) -> MessageBlock {
    MessageBlock {
        json_type: "text".to_string(),
        block_id: None,
        text: Some(text.to_string()),
        elements: None,
    }
}

fn container(elements: Vec<MessageBlock>) -> MessageBlock {
    MessageBlock {
        json_type: "rich_text".to_string(),
        block_id: None,
        text: None,
        elements: Some(elements),
    }
}

#[test]
fn ts_to_datetime_ok() {
    let msg1 = Message::new("tester", "123.456", "");
    assert_eq!(
        DateTime::from_timestamp(msg1.time(), 0).unwrap(),
        Utc.with_ymd_and_hms(1970, 1, 1, 0, 2, 3).unwrap()
    );
    let msg2 = Message::new("tester", "1234567", "");
    assert_eq!(
        DateTime::from_timestamp(msg2.time(), 0).unwrap(),
        Utc.with_ymd_and_hms(1970, 1, 15, 6, 56, 7).unwrap()
    );
}

#[test]
fn time_is_none_for_an_empty_timestamp() {
    let invalid_time = Message::new("tester", "", "");
    assert_eq!(invalid_time.checked_time(), None);
}

#[test]
fn new_message_has_only_user_timestamp_and_text() {
    let message = Message::new("tester", "17.5", "hello");
    assert_eq!(message.user, Some("tester".to_string()));
    assert_eq!(message.json_type, "message");
    assert_eq!(message.ts, "17.5");
    assert_eq!(message.text, "hello");
    assert!(message.client_msg_id.is_none());
    assert!(message.team.is_none());
    assert!(message.user_team.is_none());
    assert!(message.source_team.is_none());
    assert!(message.user_profile.is_none());
    assert!(message.thread_ts.is_none());
    assert!(message.parent_user_id.is_none());
    assert!(message.attachments.is_none());
    assert!(message.blocks.is_none());
}

#[test]
fn timestamp_takes_the_integer_before_the_first_dot() {
    assert_eq!(parse_timestamp("123.456"), Some(123));
    assert_eq!(parse_timestamp("1234567"), Some(1234567));
    assert_eq!(parse_timestamp("1700000000.000200"), Some(1700000000));
    assert_eq!(parse_timestamp("5.6.7"), Some(5));
    assert_eq!(parse_timestamp("5."), Some(5));
    assert_eq!(parse_timestamp("0"), Some(0));
    assert_eq!(parse_timestamp("007"), Some(7));
}

#[test]
fn timestamp_accepts_a_sign() {
    assert_eq!(parse_timestamp("+42"), Some(42));
    assert_eq!(parse_timestamp("-42"), Some(-42));
    assert_eq!(parse_timestamp("-42.9"), Some(-42));
    assert_eq!(parse_timestamp("-0"), Some(0));
}

#[test]
fn timestamp_rejects_what_is_no_integer() {
    assert_eq!(parse_timestamp(""), None);
    assert_eq!(parse_timestamp("."), None);
    assert_eq!(parse_timestamp(".5"), None);
    assert_eq!(parse_timestamp("+"), None);
    assert_eq!(parse_timestamp("-"), None);
    assert_eq!(parse_timestamp("+.5"), None);
    assert_eq!(parse_timestamp("--5"), None);
    assert_eq!(parse_timestamp("12a"), None);
    assert_eq!(parse_timestamp("a12"), None);
    assert_eq!(parse_timestamp(" 12"), None);
    assert_eq!(parse_timestamp("12 "), None);
    assert_eq!(parse_timestamp("1_000"), None);
    assert_eq!(parse_timestamp("١٢"), None);
    assert_eq!(parse_timestamp("12é.5"), None);
}

#[test]
fn timestamp_ignores_what_follows_the_dot() {
    assert_eq!(parse_timestamp("12.é"), Some(12));
    assert_eq!(parse_timestamp("12.abc"), Some(12));
}

#[test]
fn timestamp_is_bounded_by_the_supported_dates() {
    assert_eq!(MIN_UTC_SECONDS, -8_334_601_228_800);
    assert_eq!(MAX_UTC_SECONDS, 8_210_266_876_799);
    assert_eq!(parse_timestamp("8210266876799"), Some(8_210_266_876_799));
    assert_eq!(parse_timestamp("8210266876800"), None);
    assert_eq!(parse_timestamp("-8334601228800"), Some(-8_334_601_228_800));
    assert_eq!(parse_timestamp("-8334601228801"), None);
    assert_eq!(parse_timestamp("8334601228800"), None);
    assert_eq!(parse_timestamp("9223372036854775807"), None);
    assert_eq!(parse_timestamp("9223372036854775808"), None);
    assert_eq!(parse_timestamp("99999999999999999999999999999999999999999"), None);
    assert_eq!(parse_timestamp("-99999999999999999999999999999999999999999"), None);
    assert_eq!(parse_timestamp("000000000000000000000000000000000000000012"), Some(12));
}

#[test]
fn bounds_are_the_first_and_last_second_with_a_date() {
    assert!(DateTime::from_timestamp(MIN_UTC_SECONDS, 0).is_some());
    assert!(DateTime::from_timestamp(MIN_UTC_SECONDS - 1, 0).is_none());
    assert!(DateTime::from_timestamp(MAX_UTC_SECONDS, 0).is_some());
    assert!(DateTime::from_timestamp(MAX_UTC_SECONDS + 1, 0).is_none());
}

#[test]
fn attachment_contains_its_text() {
    let with_text = MessageAttachment { id: Some(1), text: Some("see @group".to_string()) };
    assert!(with_text.contains("@group"));
    assert!(with_text.contains(""));
    assert!(!with_text.contains("@Group"));
    let without_text = MessageAttachment { id: None, text: None };
    assert!(!without_text.contains("@group"));
    assert!(!without_text.contains(""));
}

#[test]
fn block_contains_through_nested_blocks() {
    let tree = container(vec![
        leaf("first"),
        container(vec![leaf("second"), container(vec![leaf("deep @group")])]),
    ]);
    assert!(tree.contains("@group"));
    assert!(tree.contains("first"));
    assert!(tree.contains("second"));
    assert!(!tree.contains("third"));
    assert!(tree.contains(""));
}

#[test]
fn block_with_text_is_searched_through_its_elements_too() {
    let block = MessageBlock {
        json_type: "section".to_string(),
        block_id: Some("b1".to_string()),
        text: Some("intro".to_string()),
        elements: Some(vec![leaf("@group")]),
    };
    assert!(block.contains("intro"));
    assert!(block.contains("@group"));
    assert!(!block.contains("absent"));
    let deeper = MessageBlock {
        json_type: "section".to_string(),
        block_id: None,
        text: Some("outer".to_string()),
        elements: Some(vec![block]),
    };
    assert!(deeper.contains("outer"));
    assert!(deeper.contains("intro"));
    assert!(deeper.contains("@group"));
    assert!(!deeper.contains("outerintro"));
}

#[test]
fn message_contains_below_a_block_with_text() {
    let mut message = Message::new("tester", "1", "plain");
    message.blocks = Some(vec![MessageBlock {
        json_type: "section".to_string(),
        block_id: None,
        text: Some("intro".to_string()),
        elements: Some(vec![container(vec![leaf("deep @group")])]),
    }]);
    assert!(message.contains("@group"));
    assert!(message.contains("intro"));
}

#[test]
fn block_without_text_or_elements_contains_nothing() {
    let empty = MessageBlock {
        json_type: "divider".to_string(),
        block_id: None,
        text: None,
        elements: None,
    };
    assert!(!empty.contains(""));
    assert!(!empty.contains("x"));
    assert!(!container(vec![]).contains(""));
}

#[test]
fn message_contains_in_text_attachments_and_blocks() {
    let mut message = Message::new("tester", "1", "plain text");
    message.attachments = Some(vec![
        MessageAttachment { id: None, text: None },
        MessageAttachment { id: Some(2), text: Some("attached note".to_string()) },
    ]);
    message.blocks = Some(vec![container(vec![leaf("block words")])]);
    assert!(message.contains("plain"));
    assert!(message.contains("note"));
    assert!(message.contains("words"));
    assert!(!message.contains("absent"));
    assert!(!message.contains("Plain"));
}

#[test]
fn empty_pattern_matches_a_message_with_empty_text() {
    let message = Message::new("tester", "1", "");
    assert!(message.contains(""));
    assert!(!message.contains("a"));
}

#[test]
fn message_in_channel_keeps_channel_and_message() {
    let record = MessageInChannel::new("general/2024-03-01.json", Message::new("u", "5", "hi"));
    assert_eq!(record.channel, "general/2024-03-01.json");
    assert_eq!(record.message.text, "hi");
    assert_eq!(record.message.ts, "5");
}

#[test]
fn message_files_are_dated_json_files_in_a_directory() {
    assert!(is_message_file("general/2024-03-01.json", false));
    assert!(is_message_file("a/b/random/1999-12-31.json", false));
    assert!(!is_message_file("general/2024-03-01.json", true));
    assert!(!is_message_file("2024-03-01.json", false));
    assert!(!is_message_file("users.json", false));
    assert!(!is_message_file("general/2024-3-1.json", false));
    assert!(!is_message_file("general/2024-03-01.json.bak", false));
    assert!(!is_message_file("general/2024-03-01.txt", false));
    assert!(!is_message_file("general/", true));
}

#[test]
fn message_file_name_takes_any_character_before_json() {
    assert!(is_message_file("general/2024-03-01xjson", false));
}

#[test]
fn entry_is_selected_when_it_is_a_file_and_its_name_matches() {
    assert!(selects_entry(false, Some(true)));
    assert!(!selects_entry(true, Some(true)));
    assert!(!selects_entry(false, Some(false)));
    assert!(!selects_entry(false, None));
    assert!(!selects_entry(true, None));
}

#[test]
fn messages_are_placed_in_their_channel_in_order() {
    let messages = vec![
        Message::new("a", "3", "one"),
        Message::new("b", "1", "two"),
        Message::new("c", "2", "three"),
    ];
    let records = place_in_channel("general/2024-03-01.json", messages);
    assert_eq!(records.len(), 3);
    let texts: Vec<&str> = records.iter().map(|r| r.message.text.as_str()).collect();
    assert_eq!(texts, vec!["one", "two", "three"]);
    assert!(records.iter().all(|r| r.channel == "general/2024-03-01.json"));
    assert!(place_in_channel("general", Vec::new()).is_empty());
}

#[test]
fn sort_by_time_is_ascending_and_stable() {
    let records = vec![
        MessageInChannel::new("c", Message::new("u", "30.5", "late")),
        MessageInChannel::new("c", Message::new("u", "10.9", "early a")),
        MessageInChannel::new("d", Message::new("u", "20", "middle")),
        MessageInChannel::new("d", Message::new("u", "10.1", "early b")),
        MessageInChannel::new("e", Message::new("u", "-5", "before the epoch")),
    ];
    assert!(check_times(&records));
    let sorted = sort_by_time(records);
    let texts: Vec<&str> = sorted.iter().map(|r| r.message.text.as_str()).collect();
    assert_eq!(texts, vec!["before the epoch", "early a", "early b", "middle", "late"]);
}

#[test]
fn check_times_finds_a_record_without_a_time() {
    let records = vec![
        MessageInChannel::new("c", Message::new("u", "30.5", "fine")),
        MessageInChannel::new("c", Message::new("u", "soon", "broken")),
    ];
    assert!(!check_times(&records));
    assert!(check_times(&Vec::new()));
}
