use underclass::json::parse_json;
use underclass::usage::{usage_from_json, TokenCounts, UsageTap, MAX_CAPTURE_BYTES};

#[test]
fn responses_stream_across_chunks() {
    let mut tap = UsageTap::new(true, false);
    tap.feed(b"event: response.completed\r\ndata: {\"type\":\"response.completed\",\"response\":{\"usage\":{\"input_tokens\":12,");
    tap.feed(b"\"output_tokens\":4}}}\r\n\r\n");
    assert_eq!(tap.counts(), Some(TokenCounts { input_tokens: 12, output_tokens: 4 }));
}

#[test]
fn chat_ignores_null_and_negative_usage() {
    let mut tap = UsageTap::new(true, true);
    tap.feed(b"data: {\"usage\":null}\n\ndata: {\"usage\":{\"prompt_tokens\":-1,\"completion_tokens\":2}}\n\n");
    assert_eq!(tap.counts(), None);
    tap.feed(b"data: {\"usage\":{\"prompt_tokens\":5,\"completion_tokens\":2}}\n\n");
    assert_eq!(tap.counts(), Some(TokenCounts { input_tokens: 5, output_tokens: 2 }));
}

#[test]
fn incomplete_stream_is_unknown() {
    let mut tap = UsageTap::new(true, false);
    tap.feed(b"data: {\"type\":\"response.output_text.delta\",\"delta\":\"partial\"}\n\n");
    assert_eq!(tap.counts(), None);
}

#[test]
fn oversized_json_does_not_parse_trailing_bytes_as_usage() {
    let mut tap = UsageTap::new(false, false);
    tap.feed(&vec![b'x'; MAX_CAPTURE_BYTES + 1]);
    tap.feed(b"{\"usage\":{\"input_tokens\":1,\"output_tokens\":2}}");
    assert_eq!(tap.counts(), None);
}

#[test]
fn test_usage_parser_independent_of_chunk_boundaries() {
    for (input, output) in [(0i64, 0i64), (12, 4), (1_000_000, 999_999)] {
        let event = format!("event: response.completed\r\ndata: {{\"type\":\"response.completed\",\"response\":{{\"usage\":{{\"input_tokens\":{input},\"output_tokens\":{output}}}}}}}\r\n\r\n");
        for size in 1..40usize {
            let mut tap = UsageTap::new(true, false);
            for chunk in event.as_bytes().chunks(size) {
                tap.feed(chunk);
            }
            assert_eq!(
                tap.counts(),
                Some(TokenCounts { input_tokens: input, output_tokens: output })
            );
        }
    }
}

#[test]
fn test_unknown_usage_never_becomes_zero() {
    for input in [-1_000_000i64, -5, -1] {
        let body = format!("{{\"usage\":{{\"input_tokens\":{input},\"output_tokens\":0}}}}");
        let mut tap = UsageTap::new(false, false);
        tap.feed(body.as_bytes());
        assert_eq!(tap.counts(), None);
    }
}

#[test]
fn usage_needs_both_counts() {
    let half = parse_json(b"{\"usage\":{\"input_tokens\":1}}").unwrap();
    assert_eq!(usage_from_json(&half, false), None);
    let both = parse_json(b"{\"usage\":{\"input_tokens\":1,\"output_tokens\":2,\"prompt_tokens\":3,\"completion_tokens\":4}}").unwrap();
    assert_eq!(
        usage_from_json(&both, false),
        Some(TokenCounts { input_tokens: 1, output_tokens: 2 })
    );
    assert_eq!(
        usage_from_json(&both, true),
        Some(TokenCounts { input_tokens: 3, output_tokens: 4 })
    );
    let fraction = parse_json(b"{\"usage\":{\"input_tokens\":1.5,\"output_tokens\":2}}").unwrap();
    assert_eq!(usage_from_json(&fraction, false), None);
}
