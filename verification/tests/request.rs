use chalk::request::{
    api_key_header, backoff_delay_ms, failure_message, next_attempt, parse_curl_output, prompt_step,
    request_payload, retry_notice, retryable, PromptStep, StatusError, MAX_ATTEMPTS,
};

#[test]
fn retryable_statuses() {
    assert!(retryable(429));
    assert!(retryable(0));
    assert!(retryable(500));
    assert!(retryable(503));
    assert!(retryable(599));
    assert!(!retryable(600));
    assert!(!retryable(404));
    assert!(!retryable(400));
    assert!(!retryable(200));
}

#[test]
fn backoff_doubles_then_stays() {
    assert_eq!(backoff_delay_ms(1), 500);
    assert_eq!(backoff_delay_ms(2), 1_000);
    assert_eq!(backoff_delay_ms(3), 2_000);
    assert_eq!(backoff_delay_ms(4), 4_000);
    assert_eq!(backoff_delay_ms(5), 8_000);
    assert_eq!(backoff_delay_ms(0), 8_000);
    assert_eq!(backoff_delay_ms(u32::MAX), 8_000);
}

#[test]
fn prompt_steps() {
    assert_eq!(prompt_step(1, 200), PromptStep::Accept);
    assert_eq!(prompt_step(5, 399), PromptStep::Accept);
    assert_eq!(prompt_step(1, 503), PromptStep::RetryAfter(500));
    assert_eq!(prompt_step(4, 429), PromptStep::RetryAfter(4_000));
    assert_eq!(prompt_step(MAX_ATTEMPTS, 503), PromptStep::GiveUp);
    assert_eq!(prompt_step(1, 404), PromptStep::GiveUp);
    assert_eq!(next_attempt(0), 1);
    assert_eq!(next_attempt(u32::MAX), u32::MAX);
}

#[test]
fn retries_stop_after_five_attempts() {
    let mut attempt = 0;
    let mut sent = 0;
    loop {
        attempt = next_attempt(attempt);
        sent += 1;
        match prompt_step(attempt, 503) {
            PromptStep::RetryAfter(_) => continue,
            PromptStep::GiveUp => break,
            PromptStep::Accept => panic!("503 accepted"),
        }
    }
    assert_eq!(sent, 5);
}

#[test]
fn messages_of_requests() {
    assert_eq!(failure_message(404, "nope"), "Request failed with status 404: nope");
    assert_eq!(retry_notice(503, 500, 1), "Request failed with status 503, retrying in 500ms (attempt 1/5)");
    assert_eq!(api_key_header("k-123"), "x-goog-api-key: k-123");
}

#[test]
fn curl_output_split_at_last_newline() {
    let (body, status) = parse_curl_output("{\"a\":1}\nline two\n200").unwrap();
    assert_eq!(body, "{\"a\":1}\nline two");
    assert_eq!(status, 200);
    let (body, status) = parse_curl_output("\n000").unwrap();
    assert_eq!(body, "");
    assert_eq!(status, 0);
    let (_, status) = parse_curl_output("x\n +429 \r").unwrap();
    assert_eq!(status, 429);
}

#[test]
fn curl_output_errors() {
    assert_eq!(parse_curl_output("no newline"), Err(StatusError::Missing));
    assert_eq!(parse_curl_output("body\n"), Err(StatusError::Empty));
    assert_eq!(parse_curl_output("body\n   "), Err(StatusError::Empty));
    assert_eq!(parse_curl_output("body\n2x0"), Err(StatusError::InvalidDigit));
    assert_eq!(parse_curl_output("body\n+"), Err(StatusError::InvalidDigit));
    assert_eq!(parse_curl_output("body\n-1"), Err(StatusError::InvalidDigit));
    assert_eq!(parse_curl_output("body\n65536"), Err(StatusError::TooLarge));
    assert_eq!(parse_curl_output("body\n65535"), Ok(("body".to_string(), 65535)));
    assert_eq!(StatusError::Missing.message(), "Malformed curl output: missing status code");
}

#[test]
fn status_reading_agrees_with_std() {
    for text in ["0", "00", "+7", "-", "+", "", "65535", "65536", "999999", "12a", "a12", "99999x", " 1", "٣"] {
        let raw = format!("b\n{}", text);
        let ours = parse_curl_output(&raw).map(|(_, s)| s);
        let std = text.trim().parse::<u16>();
        match (ours, std) {
            (Ok(a), Ok(b)) => assert_eq!(a, b, "{text}"),
            (Err(StatusError::Empty), Err(e)) => assert_eq!(e.to_string(), "cannot parse integer from empty string", "{text}"),
            (Err(StatusError::InvalidDigit), Err(e)) => assert_eq!(e.to_string(), "invalid digit found in string", "{text}"),
            (Err(StatusError::TooLarge), Err(e)) => assert_eq!(e.to_string(), "number too large to fit in target type", "{text}"),
            (a, b) => panic!("{text}: {a:?} vs {b:?}"),
        }
    }
}

#[test]
fn payload_escapes_prompt() {
    assert_eq!(request_payload("hi"), "{\"input\":\"hi\",\"model\":\"gemini-3.8-flash\"}");
    assert_eq!(
        request_payload("say \"x\"\n\tback\\slash\u{1}"),
        "{\"input\":\"say \\\"x\\\"\\n\\tback\\\\slash\\u0001\",\"model\":\"gemini-3.8-flash\"}"
    );
}

#[test]
fn curl_output_roundtrip() {
    for body in ["", "plain", "two\nlines", "{\"x\": \"\\n\"}\n", "é\r\n"] {
        for status in [0u16, 7, 200, 429, 503, 65535] {
            let raw = format!("{body}\n{status}");
            assert_eq!(parse_curl_output(&raw), Ok((body.to_string(), status)));
        }
    }
}
