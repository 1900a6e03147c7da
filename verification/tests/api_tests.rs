use codec::api::{fractions_fit_in, json_body, login_request, login_url, messages_url, sync_url};

#[test]
fn login_goes_to_the_login_endpoint() {
    assert_eq!(login_url(), "https://matrix.org:8448/_matrix/client/r0/login");
}

#[test]
fn login_body_is_a_json_object() {
    let r = login_request("alice", "se\"cret");
    assert_eq!(r.url, "https://matrix.org:8448/_matrix/client/r0/login");
    assert_eq!(r.body, "{\"type\":\"m.login.password\",\"user\":\"alice\",\"password\":\"se\\\"cret\"}");
}

#[test]
fn first_sync_is_filtered() {
    assert_eq!(
        sync_url("TOK", &None),
        "https://matrix.org:8448/_matrix/client/r0/sync?filter={\"room\":{\"timeline\":{\"limit\":1}}}&access_token=TOK"
    );
}

#[test]
fn later_syncs_start_from_the_position() {
    assert_eq!(
        sync_url("TOK", &Some("s72".to_string())),
        "https://matrix.org:8448/_matrix/client/r0/sync?access_token=TOK&since=s72&timeout=10000"
    );
}

#[test]
fn history_reads_ten_back() {
    assert_eq!(
        messages_url("TOK", "!r:x", "t9"),
        "https://matrix.org:8448/_matrix/client/r0/rooms/!r:x/messages?from=t9&dir=b&limit=10&access_token=TOK"
    );
}

#[test]
fn sync_body_must_parse() {
    assert_eq!(json_body(Some("{\"next_batch\":\"a\"}".to_string())), Some("{\"next_batch\":\"a\"}".to_string()));
    assert_eq!(json_body(Some("{not json".to_string())), None);
    assert_eq!(json_body(None), None);
}

#[test]
fn login_body_escapes_control_characters() {
    let r = login_request("a\\b", "x\ny\u{1}z\u{1f}\té");
    assert_eq!(
        r.body,
        "{\"type\":\"m.login.password\",\"user\":\"a\\\\b\",\"password\":\"x\\ny\\u0001z\\u001f\\té\"}"
    );
}

#[test]
fn long_fractions_are_not_parsed() {
    let mut ok = String::from("{\"x\":0.");
    ok.push_str(&"0".repeat(32768));
    ok.push('}');
    assert!(fractions_fit_in(&ok));
    assert_eq!(json_body(Some(ok.clone())), Some(ok));
    let mut long = String::from("{\"x\":0.");
    long.push_str(&"0".repeat(32769));
    long.push('}');
    assert!(!fractions_fit_in(&long));
    assert_eq!(json_body(Some(long)), None);
    assert!(fractions_fit_in("1.5 and 2.25"));
    assert!(fractions_fit_in(""));
}

#[test]
fn long_digit_runs_in_strings_are_read() {
    let digits = "9".repeat(40000);
    let text = format!("{{\"body\":\"pi is 3.{}\"}}", digits);
    assert!(fractions_fit_in(&text));
    assert_eq!(json_body(Some(text.clone())), Some(text));
    let escaped = format!("{{\"body\":\"a\\\" 0.{}\"}}", digits);
    assert!(fractions_fit_in(&escaped));
    assert_eq!(json_body(Some(escaped.clone())), Some(escaped));
    let zeros = "0".repeat(40000);
    let after_string = format!("[\"x\\\\\", 0.{}]", zeros);
    assert!(!fractions_fit_in(&after_string));
    assert_eq!(json_body(Some(after_string)), None);
}

#[test]
fn fractions_count_only_digits_the_mantissa_takes() {
    let nines = format!("[0.{}]", "9".repeat(40000));
    assert!(fractions_fit_in(&nines));
    assert_eq!(json_body(Some(nines.clone())), Some(nines));
    let one = format!("[1.{}]", "0".repeat(40000));
    assert!(fractions_fit_in(&one));
    assert_eq!(json_body(Some(one.clone())), Some(one));
    let edge = format!("[0.{}]", "0".repeat(32768));
    assert!(fractions_fit_in(&edge));
    assert_eq!(json_body(Some(edge.clone())), Some(edge));
    let over = format!("[0.{}1]", "0".repeat(32768));
    assert!(!fractions_fit_in(&over));
    assert_eq!(json_body(Some(over)), None);
    let negative = format!("[-0.{}]", "0".repeat(32769));
    assert!(!fractions_fit_in(&negative));
}
