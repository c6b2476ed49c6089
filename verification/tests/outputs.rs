use axum::http::HeaderMap;
use postal::failure::{Cause, Failure, Fault};
use postal::output::{status_headers_and_content, stderr_text, OutputError};
use postal::response::Response;

fn answer(output: &str) -> Response {
    match status_headers_and_content(output.as_bytes().to_vec()) {
        Ok(response) => response,
        Err(e) => panic!("{output:?}: {e:?}"),
    }
}

fn fault(output: &[u8]) -> Failure {
    match status_headers_and_content(output.to_vec()) {
        Err(OutputError::Failed(failure)) => failure,
        other => panic!("{output:?}: {other:?}"),
    }
}

fn value<'a>(headers: &'a HeaderMap, name: &str) -> Option<&'a [u8]> {
    headers.get(name).map(|v| v.as_bytes())
}

#[test]
fn status_headers_and_body() {
    let response = answer("201\nContent-Type: text/plain\nX-Time:  12:30:00 \n\nfirst\nsecond\n");
    assert_eq!(response.status, 201);
    assert_eq!(response.headers.len(), 2);
    assert_eq!(value(&response.headers, "content-type"), Some(b"text/plain".as_slice()));
    assert_eq!(value(&response.headers, "x-time"), Some(b"12:30:00".as_slice()));
    assert_eq!(response.body, "first\nsecond\n");
}

#[test]
fn header_names_are_kept_in_small_letters() {
    let response = answer("200\nX-Upper: V\n\n");
    let names: Vec<&str> = response.headers.keys().map(|name| name.as_str()).collect();
    assert_eq!(names, vec!["x-upper"]);
}

#[test]
fn the_last_of_two_headers_counts() {
    let response = answer("200\nx-a: 1\nX-A: 2\nx-b: 3\n\n");
    assert_eq!(response.headers.len(), 2);
    assert_eq!(response.headers.get_all("x-a").iter().count(), 1);
    assert_eq!(value(&response.headers, "x-a"), Some(b"2".as_slice()));
}

#[test]
fn a_header_without_a_colon_is_empty() {
    let response = answer("200\nX-Empty\nX-Also:\n\n");
    assert_eq!(value(&response.headers, "x-empty"), Some(b"".as_slice()));
    assert_eq!(value(&response.headers, "x-also"), Some(b"".as_slice()));
}

#[test]
fn a_header_value_may_hold_more_than_ascii() {
    let response = answer("200\nx-name: J\u{f6}rg\n\n");
    assert_eq!(value(&response.headers, "x-name"), Some("J\u{f6}rg".as_bytes()));
}

#[test]
fn a_body_ends_in_one_line_feed() {
    assert_eq!(answer("204").body, "\n");
    assert_eq!(answer("204\n\n").body, "\n");
    assert_eq!(answer("200\n\nno end").body, "no end\n");
    assert_eq!(answer("200\r\n\r\na\r\nb").body, "a\nb\n");
    assert_eq!(answer("200\n\n\n\nx\n").body, "\n\nx\n");
}

#[test]
fn a_sign_before_the_status_code() {
    assert_eq!(answer("+200").status, 200);
    assert_eq!(answer("00404\n").status, 404);
    assert_eq!(answer("999\n").status, 999);
    assert_eq!(answer("100\n").status, 100);
}

#[test]
fn output_that_is_not_text() {
    let failure = fault(&[0x32, 0x30, 0x30, 0xff]);
    assert_eq!(failure.fault, Fault::InternalServerError);
    assert_eq!(failure.message, "Output of command was not valid UTF-8");
    assert!(matches!(failure.cause, Some(Cause::Output(_))));
}

#[test]
fn no_output() {
    let failure = fault(b"");
    assert_eq!(failure.message, "Command returned no output");
    assert!(failure.cause.is_none());
}

#[test]
fn no_number_for_a_status_code() {
    for (output, message) in [
        ("OK", "'OK' was not a valid status code"),
        ("\n200", "'' was not a valid status code"),
        ("200 \n", "'200 ' was not a valid status code"),
        ("65536\n", "'65536' was not a valid status code"),
        ("-200\n", "'-200' was not a valid status code"),
    ] {
        let failure = fault(output.as_bytes());
        assert_eq!(failure.message, message);
        assert_eq!(failure.fault, Fault::InternalServerError);
        assert!(matches!(failure.cause, Some(Cause::Number(_))));
    }
}

#[test]
fn a_number_that_is_no_status_code() {
    for number in ["99", "1000", "0", "65535"] {
        let failure = fault(number.as_bytes());
        assert_eq!(failure.message, format!("'{number}' was not a known status code"));
        assert!(matches!(failure.cause, Some(Cause::Status(_))));
    }
}

#[test]
fn no_header_name() {
    let failure = fault(b"200\nX A: 1\n\n");
    assert_eq!(failure.message, "Invalid header name 'X A'");
    assert!(matches!(failure.cause, Some(Cause::HeaderName(_))));
    assert_eq!(fault(b"200\n: 1\n\n").message, "Invalid header name ''");
    assert_eq!(fault("200\nx\u{e9}: 1\n".as_bytes()).message, "Invalid header name 'x\u{e9}'");
}

#[test]
fn header_names_are_those_of_the_http_crate() {
    for code in 33..=126_u8 {
        let c = code as char;
        if c == ':' {
            continue;
        }
        let output = format!("200\nx{c}y: 1\n\n");
        let ok = status_headers_and_content(output.into_bytes()).is_ok();
        assert_eq!(ok, c.is_ascii_alphanumeric() || "!#$%&'*+-.^_`|~".contains(c), "{c}");
    }
}

#[test]
fn header_names_have_a_greatest_length() {
    let longest = "a".repeat(65535);
    assert_eq!(answer(&format!("200\n{longest}: 1\n\n")).headers.len(), 1);
    let longer = "a".repeat(65536);
    assert!(fault(format!("200\n{longer}: 1\n\n").as_bytes()).message.starts_with("Invalid header name"));
}

#[test]
fn no_header_value() {
    let failure = fault(b"200\nx-a: 1\x002\n\n");
    assert_eq!(failure.message, "Invalid header value 'x-a': '1\u{0}2'");
    assert!(matches!(failure.cause, Some(Cause::HeaderValue(_))));
    assert!(fault(b"200\nx-a: 1\x7f2\n\n").message.starts_with("Invalid header value"));
    assert_eq!(value(&answer("200\nx-a: 1\t2\n\n").headers, "x-a"), Some(b"1\t2".as_slice()));
}

#[test]
fn the_first_fault_is_the_one_reported() {
    assert_eq!(fault(b"200\nok: 1\na b: 1\nc d: 2\n\n").message, "Invalid header name 'a b'");
    assert_eq!(fault(b"200\nx: \x01\na b: 1\n\n").message, "Invalid header value 'x': '\u{1}'");
}

#[test]
fn what_follows_the_empty_line_is_no_header() {
    assert_eq!(answer("200\n\nnot a header\n").body, "not a header\n");
}

#[test]
fn many_headers_fit() {
    let mut output = String::from("200\n");
    for n in 0..6554 {
        output.push_str(&format!("x-{n}: {n}\n"));
    }
    assert_eq!(answer(&output).headers.len(), 6554);
}

#[test]
fn too_many_headers_do_not_fit() {
    let mut output = String::from("200\n");
    for n in 0..40000 {
        output.push_str(&format!("x-{n}: {n}\n"));
    }
    assert!(matches!(
        status_headers_and_content(output.into_bytes()),
        Err(OutputError::TooManyHeaders(_))
    ));
}

#[test]
fn a_full_map_takes_nothing_more() {
    // A map that has been filled takes no further name, and no other value for one that it has.
    let mut output = String::from("200\n");
    for n in 0..24576 {
        output.push_str(&format!("x-{n}: {n}\n"));
    }
    for line in ["y: 0\n", "x-0: 0\n"] {
        assert!(matches!(
            status_headers_and_content(format!("{output}{line}").into_bytes()),
            Err(OutputError::TooManyHeaders(_))
        ));
    }
    // Nothing behind it counts any more, but a fault before it does.
    assert!(matches!(
        status_headers_and_content(format!("{output}y: 0\nno name: x\n").into_bytes()),
        Err(OutputError::TooManyHeaders(_))
    ));
    assert_eq!(
        fault(output.replace("200\n", "200\nno name: x\n").as_bytes()).message,
        "Invalid header name 'no name'"
    );
}

#[test]
fn error_streams() {
    assert_eq!(stderr_text(b"  warning\nmore \n".to_vec()).unwrap(), Some("warning\nmore".to_owned()));
    assert_eq!(stderr_text(b" \n\t".to_vec()).unwrap(), None);
    assert_eq!(stderr_text(Vec::new()).unwrap(), None);
    assert!(stderr_text(vec![0xc3, 0x28]).is_err());
}

#[test]
fn refusals_tell_whose_fault_it_is() {
    let failure = Failure::bad_request("reason".to_owned());
    let response = failure.response();
    assert_eq!(response.status, 400);
    assert!(response.headers.is_empty());
    assert_eq!(response.body, "Bad request.\n");
    assert_eq!(failure.log_line(), "postal: reason");

    let failure = Failure::internal_error("other reason".to_owned());
    let response = failure.response();
    assert_eq!(response.status, 500);
    assert!(response.headers.is_empty());
    assert_eq!(response.body, "Internal server error.\n");
    assert_eq!(failure.log_line(), "postal: other reason");
}

#[test]
fn the_client_is_not_to_blame_for_an_output() {
    for output in ["", "ok\n", "99\n", "70000\n", "200\nno name: x\n", "200\na: \u{7f}\n"] {
        assert_eq!(fault(output.as_bytes()).fault, Fault::InternalServerError, "{output:?}");
    }
    assert_eq!(fault(b"\xff").fault, Fault::InternalServerError);
}

#[test]
fn answers_are_sound() {
    let response = answer("599\nX-One: 1\nx-one: 2\nSet-Cookie: a\n\n\n");
    assert!(100 <= response.status && response.status <= 999);
    assert_eq!(response.headers.keys_len(), 2);
    for name in response.headers.keys() {
        assert_eq!(name.as_str(), name.as_str().to_ascii_lowercase());
        assert_eq!(response.headers.get_all(name).iter().count(), 1);
    }
    assert!(response.body.ends_with('\n'));
}

#[test]
fn a_final_line_feed_makes_no_difference() {
    for output in ["200", "404\na: b", "200\na: b\n\nfirst\n\u{e4}", "200\n\r\nx"] {
        let without = answer(output);
        let with = answer(&format!("{output}\n"));
        assert_eq!(with.status, without.status);
        assert_eq!(with.headers, without.headers);
        assert_eq!(with.body, without.body);
    }
    for output in ["ok", "99", "200\nno name: x"] {
        let without = fault(output.as_bytes());
        let with = fault(format!("{output}\n").as_bytes());
        assert_eq!((with.fault, with.message), (without.fault, without.message));
    }
    assert_eq!(fault(b"\xff\n").message, fault(b"\xff").message);
}

#[test]
fn a_line_feed_alone_is_refused_as_no_output_is() {
    let (nothing, blank) = (fault(b""), fault(b"\n"));
    assert_ne!(nothing.message, blank.message);
    assert_eq!(nothing.response().status, blank.response().status);
    assert_eq!(nothing.response().body, blank.response().body);
}

#[test]
fn what_follows_an_empty_line_affects_the_body_only() {
    let tails = ["", "x", "a: b\n\nno name: y\n", "\n\n500\n", "\u{1f600}\r\n"];
    for head in ["201\nx-a: 1\nX-B: 2\n\n", "201\r\nx-a: 1\r\nx-b: 2\r\n\r\n"] {
        for tail in tails {
            let response = answer(&format!("{head}{tail}"));
            assert_eq!(response.status, 201);
            assert_eq!(response.headers, answer(head).headers);
            let body = tail.lines().collect::<Vec<&str>>().join("\n");
            assert_eq!(response.body, format!("{body}\n"));
        }
    }
    for head in ["\n\n", "ok\n\n", "200\nno name: x\n\n"] {
        for tail in tails {
            let failure = fault(format!("{head}{tail}").as_bytes());
            assert_eq!(failure.message, fault(head.as_bytes()).message);
        }
    }
}
