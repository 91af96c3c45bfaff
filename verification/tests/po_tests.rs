use po::config::{encode_config, parse_config, config_doc, valid_token, ReadError, WriteError};
use po::{
    build_request, gist_payload, gist_response, gist_titles, interpret_response, parse_parameters,
    send, send_basic, send_gist, send_with_url, truncate_message, Options, Parameters,
};

fn pairs_of(req: &po::Request) -> Vec<(String, String)> {
    req.pairs.clone()
}

fn has_key(req: &po::Request, key: &str) -> bool {
    req.pairs.iter().any(|p| p.0 == key)
}

fn value_of(req: &po::Request, key: &str) -> Option<String> {
    req.pairs.iter().find(|p| p.0 == key).map(|p| p.1.clone())
}

#[test]
fn token_rule_accepts_one_alnum_among_thirty() {
    let s = format!("a{}", "-".repeat(29));
    assert!(valid_token(&s));
}

#[test]
fn token_rule_rejects_short_strings() {
    assert!(!valid_token(&"a".repeat(29)));
}

#[test]
fn token_rule_rejects_thirty_non_alnum() {
    assert!(!valid_token(&"-".repeat(30)));
}

#[test]
fn token_rule_accepts_all_alnum() {
    assert!(valid_token(&"x".repeat(30)));
    assert!(valid_token(&"7".repeat(30)));
}

#[test]
fn config_round_trip_plain() {
    let token = "a".repeat(30);
    let user = "b".repeat(30);
    let doc = match encode_config(&token, &user) {
        Ok(doc) => doc,
        Err(e) => panic!("unexpected error {:?}", e),
    };
    assert_eq!(parse_config(&doc), Ok((token, user)));
}

#[test]
fn config_round_trip_with_escapes() {
    let token = "a\"b\\c\nd\te";
    let user = "plain";
    let doc = config_doc(token, user);
    assert_eq!(parse_config(&doc), Ok((token.to_string(), user.to_string())));
}

#[test]
fn config_doc_is_compact_json() {
    assert_eq!(config_doc("t", "u"), "{\"token\":\"t\",\"user\":\"u\"}");
    assert_eq!(config_doc("a\nb", "u"), "{\"token\":\"a\\u000ab\",\"user\":\"u\"}");
}

#[test]
fn parse_config_rejects_garbage() {
    assert_eq!(parse_config("garbage"), Err(ReadError::JsonError));
    assert_eq!(parse_config(""), Err(ReadError::JsonError));
    assert_eq!(parse_config("{\"token\":\"a\"}"), Err(ReadError::JsonError));
    assert_eq!(parse_config("{\"token\":1,\"user\":\"b\"}"), Err(ReadError::JsonError));
    assert_eq!(
        parse_config("{\"token\":\"a\",\"user\":\"b\""),
        Err(ReadError::JsonError)
    );
}

#[test]
fn parse_config_accepts_json_variation() {
    let ok = Ok(("a".to_string(), "b".to_string()));
    assert_eq!(parse_config("{\"token\": \"a\",\"user\":\"b\"}"), ok);
    assert_eq!(parse_config(" { \"user\" : \"b\" , \"token\" : \"a\" } "), ok);
    assert_eq!(parse_config("{\"token\":\"a\",\"user\":\"b\"} "), ok);
    assert_eq!(
        parse_config("{\"token\":\"a\",\"extra\":{\"x\":[1,2,\"]\"]},\"user\":\"b\"}"),
        ok
    );
    assert_eq!(
        parse_config("{\n  \"token\": \"a\",\n  \"user\": \"b\"\n}"),
        ok
    );
}

#[test]
fn parse_config_takes_the_first_duplicate() {
    assert_eq!(
        parse_config("{\"token\":\"a\",\"token\":\"x\",\"user\":\"b\"}"),
        Ok(("a".to_string(), "b".to_string()))
    );
}

#[test]
fn write_rejects_invalid_token_before_user() {
    let good = "x".repeat(30);
    assert_eq!(
        encode_config("short", &good),
        Err(WriteError::InvalidApiToken("short".to_string()))
    );
    assert_eq!(
        encode_config("short", "also short"),
        Err(WriteError::InvalidApiToken("short".to_string()))
    );
    assert_eq!(
        encode_config(&good, "short"),
        Err(WriteError::InvalidUserKey("short".to_string()))
    );
}

#[test]
fn message_of_2000_truncates_to_1024() {
    let long = "m".repeat(2000);
    assert_eq!(truncate_message(&long).len(), 1024);
    let req = build_request("t", "u", &long, &vec![], &vec![]);
    assert_eq!(value_of(&req, "message").unwrap().len(), 1024);
}

#[test]
fn message_of_500_goes_unmodified() {
    let short = "m".repeat(500);
    let req = build_request("t", "u", &short, &vec![], &vec![]);
    assert_eq!(value_of(&req, "message").unwrap(), short);
}

#[test]
fn priority_zero_is_omitted() {
    let req = build_request("t", "u", "m", &vec![], &vec![]);
    assert!(!has_key(&req, "priority"));
    let req = build_request("t", "u", "m", &vec![Parameters::Priority(0)], &vec![]);
    assert!(!has_key(&req, "priority"));
}

#[test]
fn priority_two_is_included() {
    let req = build_request("t", "u", "m", &vec![Parameters::Priority(2)], &vec![]);
    assert_eq!(value_of(&req, "priority").unwrap(), "2");
}

#[test]
fn priority_negative_renders_with_sign() {
    let req = build_request("t", "u", "m", &vec![Parameters::Priority(-2)], &vec![]);
    assert_eq!(value_of(&req, "priority").unwrap(), "-2");
}

#[test]
fn base_fields_come_in_order() {
    let req = build_request("tok", "usr", "msg", &vec![], &vec![]);
    assert_eq!(
        pairs_of(&req),
        vec![
            ("token".to_string(), "tok".to_string()),
            ("user".to_string(), "usr".to_string()),
            ("message".to_string(), "msg".to_string()),
        ]
    );
    assert!(!req.debug);
}

#[test]
fn failed_gist_upload_is_nonfatal() {
    let req = build_request("t", "u", "m", &vec![Parameters::Gist], &vec![None]);
    assert!(!has_key(&req, "url"));
    assert!(!has_key(&req, "url_title"));
    let bare = build_request("t", "u", "m", &vec![], &vec![]);
    assert_eq!(pairs_of(&req), pairs_of(&bare));
    // the push still goes out and reports what the provider answered
    assert_eq!(interpret_response(200, ""), Ok(()));
}

#[test]
fn successful_gist_upload_links_the_paste() {
    let req = build_request(
        "t",
        "u",
        "m",
        &vec![Parameters::Gist],
        &vec![Some("https://example.com/g/1".to_string())],
    );
    assert_eq!(value_of(&req, "url").unwrap(), "https://example.com/g/1");
    assert_eq!(value_of(&req, "url_title").unwrap(), "Full Output (GitHub Gist)");
}

#[test]
fn http_400_with_error_body_yields_the_errors() {
    let r = interpret_response(400, "{\"status\":0,\"errors\":[\"invalid token\"]}");
    assert_eq!(r, Err(vec!["invalid token".to_string()]));
}

#[test]
fn http_200_yields_ok() {
    assert_eq!(interpret_response(200, "{\"status\":1,\"errors\":[]}"), Ok(()));
}

#[test]
fn http_400_with_success_status_yields_generic_error() {
    let r = interpret_response(400, "{\"status\":1,\"errors\":[]}");
    assert_eq!(r, Err(vec!["general API error".to_string()]));
}

#[test]
fn http_400_with_malformed_body_yields_generic_error() {
    let r = interpret_response(404, "not json at all");
    assert_eq!(r, Err(vec!["general API error".to_string()]));
}

#[test]
fn error_bodies_tolerate_json_variation() {
    let r = interpret_response(400, "{\"status\": 0, \"errors\": [\"invalid token\"]}");
    assert_eq!(r, Err(vec!["invalid token".to_string()]));
    let r = interpret_response(400, "{\"errors\":[\"x\"],\"status\":0,\"request\":\"r1\"}");
    assert_eq!(r, Err(vec!["x".to_string()]));
    let r = interpret_response(400, "{\n  \"status\": 0,\n  \"errors\": [ \"a\" , \"b\" ]\n}");
    assert_eq!(r, Err(vec!["a".to_string(), "b".to_string()]));
}

#[test]
fn html_url_is_read_from_the_field_not_the_text() {
    let body = "{\"description\":\"set \\\"html_url\\\": here\",\"html_url\":\"https://real\"}";
    assert_eq!(gist_response(200, body), Ok("https://real".to_string()));
    let failure = Err((0, "Generic: Couldn't post to Gist.".to_string()));
    assert_eq!(gist_response(200, "noise \"html_url\": \"https://fake\" noise"), failure);
}

#[test]
fn http_400_with_several_errors_yields_them_all() {
    let r = interpret_response(499, "{\"status\":0,\"errors\":[\"one\",\"two\"]}");
    assert_eq!(r, Err(vec!["one".to_string(), "two".to_string()]));
}

#[test]
fn other_statuses_are_reported_with_their_code() {
    assert_eq!(
        interpret_response(500, "ignored"),
        Err(vec!["API error 500".to_string()])
    );
    assert_eq!(
        interpret_response(302, ""),
        Err(vec!["API error 302".to_string()])
    );
}

#[test]
fn gist_before_title_uses_fallback_name() {
    let titles = gist_titles(&vec![
        Parameters::Gist,
        Parameters::Title("X".to_string()),
    ]);
    assert_eq!(titles, vec!["po".to_string()]);
}

#[test]
fn title_before_gist_names_the_paste() {
    let titles = gist_titles(&vec![
        Parameters::Title("X".to_string()),
        Parameters::Gist,
    ]);
    assert_eq!(titles, vec!["X".to_string()]);
}

#[test]
fn each_gist_uses_the_latest_earlier_title() {
    let titles = gist_titles(&vec![
        Parameters::Gist,
        Parameters::Title("A".to_string()),
        Parameters::Gist,
        Parameters::Title("B".to_string()),
        Parameters::Gist,
    ]);
    assert_eq!(
        titles,
        vec!["po".to_string(), "A".to_string(), "B".to_string()]
    );
}

#[test]
fn gist_payload_is_the_single_file_document() {
    assert_eq!(
        gist_payload("hello", "t"),
        "{\"files\":{\"t\":{\"content\":\"hello\"}}}"
    );
    assert_eq!(
        gist_payload("a\nb", "say \"hi\""),
        "{\"files\":{\"say \\\"hi\\\"\":{\"content\":\"a\\u000ab\"}}}"
    );
}

#[test]
fn gist_response_extracts_the_public_url() {
    let body = "{\n  \"id\": \"abc\",\n  \"html_url\": \"https://gist.github.com/abc\",\n  \"files\": {}\n}";
    assert_eq!(
        gist_response(201, body),
        Ok("https://gist.github.com/abc".to_string())
    );
    assert_eq!(
        gist_response(200, "{\"html_url\":\"u\"}"),
        Ok("u".to_string())
    );
}

#[test]
fn gist_response_fails_opaquely_otherwise() {
    let failure = Err((0, "Generic: Couldn't post to Gist.".to_string()));
    assert_eq!(gist_response(500, "{\"html_url\":\"u\"}"), failure);
    assert_eq!(gist_response(201, "{\"message\":\"oops\"}"), failure);
}

#[test]
fn encoded_body_form_encodes_the_pairs() {
    let req = send_basic("a b", "u", "m");
    assert_eq!(req.encoded_body(), "token=a+b&user=u&message=m");
    let req = build_request("t&t", "u=u", "m/m", &vec![], &vec![]);
    assert_eq!(req.encoded_body(), "token=t%26t&user=u%3Du&message=m%2Fm");
}

#[test]
fn send_assembles_the_documented_fields() {
    let req = send(
        "t",
        "u",
        "m",
        1,
        Some("title"),
        Some("dev"),
        Some("bell"),
    );
    assert_eq!(
        pairs_of(&req),
        vec![
            ("token".to_string(), "t".to_string()),
            ("user".to_string(), "u".to_string()),
            ("message".to_string(), "m".to_string()),
            ("priority".to_string(), "1".to_string()),
            ("title".to_string(), "title".to_string()),
            ("device".to_string(), "dev".to_string()),
            ("sound".to_string(), "bell".to_string()),
        ]
    );
}

#[test]
fn send_with_url_adds_the_supplementary_url() {
    let req = send_with_url("t", "u", "m", 0, None, None, None, Some("https://x"), Some("X"));
    assert_eq!(value_of(&req, "url").unwrap(), "https://x");
    assert_eq!(value_of(&req, "url_title").unwrap(), "X");
    assert!(!has_key(&req, "priority"));
}

#[test]
fn send_gist_links_the_upload_outcome() {
    let req = send_gist("t", "u", "m", 0, Some("T"), None, None, Some("https://g"));
    assert_eq!(value_of(&req, "url").unwrap(), "https://g");
    assert_eq!(value_of(&req, "url_title").unwrap(), "Full Output (GitHub Gist)");
    let req = send_gist("t", "u", "m", 0, Some("T"), None, None, None);
    assert!(!has_key(&req, "url"));
}

#[test]
fn send_basic_sends_only_the_base_fields() {
    let req = send_basic("t", "u", "m");
    assert_eq!(
        pairs_of(&req),
        vec![
            ("token".to_string(), "t".to_string()),
            ("user".to_string(), "u".to_string()),
            ("message".to_string(), "m".to_string()),
        ]
    );
}

#[test]
fn parse_parameters_maps_each_option() {
    let v = parse_parameters(Options {
        priority: 2,
        title: Some("T".to_string()),
        device: Some("d".to_string()),
        sound: Some("s".to_string()),
        always_gist: true,
        debug: true,
    });
    assert_eq!(
        v,
        vec![
            Parameters::Priority(2),
            Parameters::Title("T".to_string()),
            Parameters::Device("d".to_string()),
            Parameters::Sound("s".to_string()),
            Parameters::Gist,
            Parameters::Debug,
        ]
    );
}

#[test]
fn parse_parameters_omits_the_defaults() {
    let v = parse_parameters(Options {
        priority: 0,
        title: None,
        device: None,
        sound: None,
        always_gist: false,
        debug: false,
    });
    assert_eq!(v, vec![]);
}

#[test]
fn debug_parameter_sets_the_flag() {
    let req = build_request("t", "u", "m", &vec![Parameters::Debug], &vec![]);
    assert!(req.debug);
    let plain = build_request("t", "u", "m", &vec![], &vec![]);
    assert!(!plain.debug);
}

#[test]
fn parse_config_reads_unicode_escapes() {
    assert_eq!(
        parse_config("{\"token\":\"a\\u0009b\",\"user\":\"c\\\\d\"}"),
        Ok(("a\tb".to_string(), "c\\d".to_string()))
    );
}

#[test]
fn negative_status_counts_as_failure() {
    let r = interpret_response(400, "{\"status\":-1,\"errors\":[\"bad\"]}");
    assert_eq!(r, Err(vec!["bad".to_string()]));
}

#[test]
fn token_rule_counts_characters() {
    let s = format!("{}a", "\u{e9}".repeat(29));
    assert_eq!(s.chars().count(), 30);
    assert!(valid_token(&s));
}

#[test]
fn unicode_messages_truncate_by_characters() {
    let long = "\u{e9}".repeat(2000);
    let t = truncate_message(&long);
    assert_eq!(t.chars().count(), 1024);
}
