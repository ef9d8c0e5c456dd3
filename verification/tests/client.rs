use tempmail::address::check_email_syntax;
use tempmail::assemble_chunks;
use tempmail::error::ErrorKind;
use tempmail::TempMail;

fn domains() -> Vec<String> {
    vec![String::from("dom.com"), String::from("mail.org")]
}

#[test]
fn new_client_is_empty() {
    let client = TempMail::new();
    assert_eq!(client.get_email(), "");
    assert_eq!(client.get_messages_len(), 0);
    assert_eq!(client.get_messages().len(), 0);
}

#[test]
fn from_string_accepts_valid_address() {
    let client = TempMail::from_string("user.name%2+x@dom.com", &domains()).unwrap();
    assert_eq!(client.get_email(), "user.name%2+x@dom.com");
    assert_eq!(client.get_messages_len(), 0);
}

#[test]
fn from_string_rejects_bad_syntax_with_invalid_format() {
    for candidate in [
        "not-an-email",
        "",
        "@dom.com",
        "user@",
        "user@dom",
        "user@dom.c",
        "user@@dom.com",
        "user name@dom.com",
        "user@dom.com2",
        "user@dom_x.com",
    ] {
        let err = TempMail::from_string(candidate, &domains()).unwrap_err();
        assert_eq!(err.kind(), ErrorKind::InvalidFormat, "candidate {:?}", candidate);
    }
}

#[test]
fn from_string_rejects_banned_local_parts() {
    for local in ["abuse", "webmaster", "contact", "postmaster", "hostmaster", "admin"] {
        let candidate = format!("{}@dom.com", local);
        let err = TempMail::from_string(&candidate, &domains()).unwrap_err();
        assert_eq!(err.kind(), ErrorKind::InvalidAddress, "candidate {:?}", candidate);
    }
}

#[test]
fn banned_check_is_case_sensitive() {
    let client = TempMail::from_string("Admin@dom.com", &domains()).unwrap();
    assert_eq!(client.get_email(), "Admin@dom.com");
}

#[test]
fn from_string_rejects_unsupported_domain() {
    let err = TempMail::from_string("user@other.com", &domains()).unwrap_err();
    assert_eq!(err.kind(), ErrorKind::InvalidAddress);
}

#[test]
fn from_string_syntax_outranks_domain_check() {
    let err = TempMail::from_string("user@dom", &domains()).unwrap_err();
    assert_eq!(err.kind(), ErrorKind::InvalidFormat);
}

#[test]
fn generate_email_binds_first_address() {
    let mut client = TempMail::new();
    client.generate_email("[\"a@dom.com\"]").unwrap();
    assert_eq!(client.get_email(), "a@dom.com");
}

#[test]
fn generated_address_passes_syntax_check() {
    let mut client = TempMail::new();
    client.generate_email("[\"a@dom.com\"]").unwrap();
    let email = client.get_email();
    assert!(check_email_syntax(&email));
}

#[test]
fn generate_email_empty_array_is_api_response_error() {
    let mut client = TempMail::new();
    let err = client.generate_email("[]").unwrap_err();
    assert_eq!(err.kind(), ErrorKind::ApiResponseError);
    assert_eq!(client.get_email(), "");
}

#[test]
fn generate_email_bad_body_is_decode_error() {
    let mut client = TempMail::new();
    for body in ["oops", "[", "[\"a\" 42]", "[\"a\",]", "{\"k\": }", "[01]"] {
        let err = client.generate_email(body).unwrap_err();
        assert_eq!(err.kind(), ErrorKind::DecodeError, "body {:?}", body);
        assert_eq!(client.get_email(), "");
    }
}

#[test]
fn generate_email_binds_first_string_of_mixed_array() {
    let mut client = TempMail::new();
    client.generate_email("[\"a@dom.com\", 42, null]").unwrap();
    assert_eq!(client.get_email(), "a@dom.com");
}

#[test]
fn generate_email_without_leading_string_is_api_response_error() {
    for body in [
        "[42]",
        "[-1.5e3, \"a@dom.com\"]",
        "[null, \"a@dom.com\"]",
        "[true]",
        "[[\"a@dom.com\"]]",
        "[{\"k\": [1, 2]}, \"a@dom.com\"]",
        "{}",
        "{\"email\": \"a@dom.com\"}",
        "\"a@dom.com\"",
        "42",
        "null",
    ] {
        let mut client = TempMail::new();
        let err = client.generate_email(body).unwrap_err();
        assert_eq!(err.kind(), ErrorKind::ApiResponseError, "body {:?}", body);
        assert_eq!(client.get_email(), "");
    }
}

#[test]
fn get_domains_decodes_string_array() {
    let list = TempMail::get_domains(" [ \"dom.com\" , \"mail.org\" ] ").unwrap();
    assert_eq!(list, vec![String::from("dom.com"), String::from("mail.org")]);
}

#[test]
fn get_domains_empty_array() {
    let list = TempMail::get_domains("[]").unwrap();
    assert!(list.is_empty());
}

#[test]
fn get_domains_bad_body_is_decode_error() {
    let err = TempMail::get_domains("{\"a\": 1}").unwrap_err();
    assert_eq!(err.kind(), ErrorKind::DecodeError);
}

#[test]
fn get_domains_rejects_trailing_data() {
    let err = TempMail::get_domains("[\"dom.com\"] x").unwrap_err();
    assert_eq!(err.kind(), ErrorKind::DecodeError);
}

#[test]
fn get_adresses_decodes_batch() {
    let list = TempMail::get_adresses("[\"a@dom.com\",\"b@dom.com\"]").unwrap();
    assert_eq!(list.len(), 2);
    assert_eq!(list[0], "a@dom.com");
    assert_eq!(list[1], "b@dom.com");
}

#[test]
fn effective_count_defaults_to_one() {
    assert_eq!(TempMail::effective_count(None), 1);
    assert_eq!(TempMail::effective_count(Some(7)), 7);
}

#[test]
fn string_escapes_are_decoded() {
    let list = TempMail::get_domains("[\"a\\nb\", \"c\\\"d\\\\e\"]").unwrap();
    assert_eq!(list[0], "a\nb");
    assert_eq!(list[1], "c\"d\\e");
}

#[test]
fn assemble_chunks_concatenates_in_order() {
    let chunks: Vec<Vec<u8>> = vec![vec![1, 2], vec![3], vec![], vec![4, 5]];
    assert_eq!(assemble_chunks(&chunks), vec![1u8, 2, 3, 4, 5]);
}

#[test]
fn assemble_chunks_of_nothing_is_empty() {
    let chunks: Vec<Vec<u8>> = Vec::new();
    assert_eq!(assemble_chunks(&chunks), Vec::<u8>::new());
}

#[test]
fn escaped_slash_is_decoded() {
    let list = TempMail::get_domains("[\"a\\/b\"]").unwrap();
    assert_eq!(list[0], "a/b");
}

#[test]
fn unicode_escapes_are_decoded() {
    let list = TempMail::get_domains("[\"a\\u0041\\u00e9\\u2603\"]").unwrap();
    assert_eq!(list[0], "aA\u{e9}\u{2603}");
}

#[test]
fn surrogate_pairs_are_combined() {
    let list = TempMail::get_domains("[\"x\\uD83D\\uDE00y\"]").unwrap();
    assert_eq!(list[0], "x\u{1F600}y");
}

#[test]
fn lone_surrogate_is_rejected() {
    let err = TempMail::get_domains("[\"a\\uD83Db\"]").unwrap_err();
    assert_eq!(err.kind(), ErrorKind::DecodeError);
    let err = TempMail::get_domains("[\"a\\uDE00b\"]").unwrap_err();
    assert_eq!(err.kind(), ErrorKind::DecodeError);
}

#[test]
fn precheck_address_orders_its_checks() {
    assert!(TempMail::precheck_address("user@dom.com").is_ok());
    let err = TempMail::precheck_address("admin@anything.zz").unwrap_err();
    assert_eq!(err.kind(), ErrorKind::InvalidAddress);
    let err = TempMail::precheck_address("admin@nodomain").unwrap_err();
    assert_eq!(err.kind(), ErrorKind::InvalidFormat);
}
