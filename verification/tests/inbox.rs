use tempmail::error::ErrorKind;
use tempmail::timestamp::{parse_timestamp, Timestamp};
use tempmail::TempMail;

const ONE_MESSAGE: &str = "[{\"id\": 7, \"from\": \"a@dom.com\", \"subject\": \"hello\", \"date\": \"2023-05-01 12:00:00\"}]";

#[test]
fn timestamp_parses_exact_format() {
    let t = parse_timestamp("2023-05-01 12:00:00").unwrap();
    assert_eq!(t.year, 2023);
    assert_eq!(t.month, 5);
    assert_eq!(t.day, 1);
    assert_eq!(t.hour, 12);
    assert_eq!(t.minute, 0);
    assert_eq!(t.second, 0);
}

#[test]
fn timestamp_rejects_wrong_separator() {
    let err = parse_timestamp("2023/05/01 12:00:00").unwrap_err();
    assert_eq!(err.kind(), ErrorKind::MalformedTimestamp);
}

#[test]
fn timestamp_rejects_trailing_data() {
    let err = parse_timestamp("2023-05-01 12:00:00Z").unwrap_err();
    assert_eq!(err.kind(), ErrorKind::MalformedTimestamp);
}

#[test]
fn timestamp_rejects_out_of_range_fields() {
    for bad in [
        "2023-13-01 12:00:00",
        "2023-00-01 12:00:00",
        "2023-04-31 12:00:00",
        "2023-02-29 12:00:00",
        "2023-05-01 24:00:00",
        "2023-05-01 12:60:00",
        "2023-05-01 12:00:60",
        "2023-05-00 12:00:00",
    ] {
        let err = parse_timestamp(bad).unwrap_err();
        assert_eq!(err.kind(), ErrorKind::MalformedTimestamp, "input {:?}", bad);
    }
}

#[test]
fn timestamp_accepts_leap_day() {
    let t = parse_timestamp("2024-02-29 23:59:59").unwrap();
    assert_eq!(t.day, 29);
    assert!(parse_timestamp("1900-02-29 00:00:00").is_err());
    assert!(parse_timestamp("2000-02-29 00:00:00").is_ok());
}

#[test]
fn check_inbox_decodes_summaries() {
    let mut client = TempMail::new();
    client.check_inbox(ONE_MESSAGE).unwrap();
    assert_eq!(client.get_messages_len(), 1);
    let listing = client.get_messages();
    assert_eq!(listing[0].id, 7);
    assert_eq!(listing[0].from, "a@dom.com");
    assert_eq!(listing[0].subject, "hello");
    let expected = Timestamp { year: 2023, month: 5, day: 1, hour: 12, minute: 0, second: 0 };
    assert_eq!(listing[0].date, expected);
}

#[test]
fn check_inbox_replaces_rather_than_appends() {
    let mut client = TempMail::new();
    client.check_inbox(ONE_MESSAGE).unwrap();
    assert_eq!(client.get_messages_len(), 1);
    client.check_inbox("[]").unwrap();
    assert_eq!(client.get_messages_len(), 0);
}

#[test]
fn check_inbox_decode_error_preserves_listing() {
    let mut client = TempMail::new();
    client.check_inbox(ONE_MESSAGE).unwrap();
    let err = client.check_inbox("not json").unwrap_err();
    assert_eq!(err.kind(), ErrorKind::DecodeError);
    assert_eq!(client.get_messages_len(), 1);
}

#[test]
fn check_inbox_rejects_bad_date() {
    let mut client = TempMail::new();
    let body = "[{\"id\": 1, \"from\": \"a\", \"subject\": \"s\", \"date\": \"01.05.2023\"}]";
    let err = client.check_inbox(body).unwrap_err();
    assert_eq!(err.kind(), ErrorKind::DecodeError);
}

#[test]
fn check_inbox_rejects_oversized_id() {
    let mut client = TempMail::new();
    let body = "[{\"id\": 99999999999999999999999999, \"from\": \"a\", \"subject\": \"s\", \"date\": \"2023-05-01 12:00:00\"}]";
    let err = client.check_inbox(body).unwrap_err();
    assert_eq!(err.kind(), ErrorKind::DecodeError);
}

#[test]
fn check_inbox_accepts_any_member_order() {
    let mut client = TempMail::new();
    let body = "[{\"date\": \"2023-05-01 12:00:00\", \"subject\": \"s\", \"id\": 3, \"from\": \"a\"}]";
    client.check_inbox(body).unwrap();
    assert_eq!(client.get_messages_len(), 1);
    assert_eq!(client.get_messages()[0].id, 3);
}

#[test]
fn get_message_by_id_decodes_full_message() {
    let client = TempMail::new();
    let body = "{\"id\": 7, \"from\": \"a@dom.com\", \"subject\": \"hello\", \"date\": \"2023-05-01 12:00:00\", \"attachments\": [{\"filename\": \"a.bin\", \"contentType\": \"application/octet-stream\", \"size\": 3}], \"body\": \"raw\", \"textBody\": \"text\", \"htmlBody\": \"<p>t</p>\"}";
    let message = client.get_message_by_id(body).unwrap();
    assert_eq!(message.id, 7);
    assert_eq!(message.from, "a@dom.com");
    assert_eq!(message.subject, "hello");
    assert_eq!(message.date.year, 2023);
    assert_eq!(message.attachments.len(), 1);
    assert_eq!(message.attachments[0].filename, "a.bin");
    assert_eq!(message.attachments[0].content_type, "application/octet-stream");
    assert_eq!(message.attachments[0].size, 3);
    assert_eq!(message.body, "raw");
    assert_eq!(message.text_body, "text");
    assert_eq!(message.html_body, "<p>t</p>");
}

#[test]
fn get_message_by_id_accepts_snake_case_aliases() {
    let client = TempMail::new();
    let body = "{\"id\": 1, \"from\": \"a\", \"subject\": \"s\", \"date\": \"2023-05-01 12:00:00\", \"attachments\": [], \"body\": \"b\", \"text_body\": \"t\", \"html_body\": \"h\"}";
    let message = client.get_message_by_id(body).unwrap();
    assert_eq!(message.text_body, "t");
    assert_eq!(message.html_body, "h");
    assert_eq!(message.attachments.len(), 0);
}

#[test]
fn get_message_by_id_failure_is_message_not_found() {
    let client = TempMail::new();
    let err = client.get_message_by_id("").unwrap_err();
    assert_eq!(err.kind(), ErrorKind::MessageNotFound);
    let missing_field = "{\"id\": 1}";
    let err = client.get_message_by_id(missing_field).unwrap_err();
    assert_eq!(err.kind(), ErrorKind::MessageNotFound);
}

#[test]
fn error_carries_its_message() {
    let err = TempMail::get_domains("nope").unwrap_err();
    assert!(!err.message().is_empty());
}

#[test]
fn check_inbox_keeps_unicode_content() {
    let mut client = TempMail::new();
    let body = "[{\"id\": 1, \"from\": \"héllo@dom.com\", \"subject\": \"sn\u{2603}w\", \"date\": \"2023-05-01 12:00:00\"}]";
    client.check_inbox(body).unwrap();
    let listing = client.get_messages();
    assert_eq!(listing[0].from, "héllo@dom.com");
    assert_eq!(listing[0].subject, "sn\u{2603}w");
}

#[test]
fn check_inbox_tolerates_whitespace() {
    let mut client = TempMail::new();
    let body = " [ { \"id\" : 2 ,\n\t\"from\" : \"a\" , \"subject\" : \"s\" , \"date\" : \"2023-05-01 12:00:00\" } ] ";
    client.check_inbox(body).unwrap();
    assert_eq!(client.get_messages_len(), 1);
    assert_eq!(client.get_messages()[0].id, 2);
}

#[test]
fn check_inbox_rejects_string_id() {
    let mut client = TempMail::new();
    let body = "[{\"id\": \"1\", \"from\": \"a\", \"subject\": \"s\", \"date\": \"2023-05-01 12:00:00\"}]";
    let err = client.check_inbox(body).unwrap_err();
    assert_eq!(err.kind(), ErrorKind::DecodeError);
}

#[test]
fn timestamp_range_extremes_parse() {
    assert!(parse_timestamp("0000-01-01 00:00:00").is_ok());
    assert!(parse_timestamp("9999-12-31 23:59:59").is_ok());
}
