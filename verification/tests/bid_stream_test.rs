use adverify::bid_stream::{BidStreamParser, BidStreamProcessor};
use adverify::default_currency;

#[test]
fn payload_trims_surrounding_white_space() {
    assert_eq!(BidStreamParser::payload("  {\"id\":\"x\"}\t\n"), Some("{\"id\":\"x\"}".to_string()));
    assert_eq!(BidStreamParser::payload("\u{3000}a b\u{a0}"), Some("a b".to_string()));
}

#[test]
fn blank_lines_have_no_payload() {
    assert_eq!(BidStreamParser::payload(""), None);
    assert_eq!(BidStreamParser::payload(" \t\r\n\u{2003}"), None);
}

fn digits(text: String) -> Result<u32, String> {
    text.parse::<u32>().map_err(|e| e.to_string())
}

#[test]
fn parser_counts_outcomes() {
    let mut p = BidStreamParser::new();
    assert_eq!((p.parsed_count(), p.error_count()), (0, 0));
    assert_eq!(p.parse_line(" 12 ", digits), Ok(Some(12)));
    assert!(p.parse_line("x", digits).is_err());
    assert_eq!(p.parse_line("\t ", digits), Ok(None));
    assert_eq!(p.parse_line("7", digits), Ok(Some(7)));
    assert_eq!(p.parsed_count(), 2);
    assert_eq!(p.error_count(), 1);
    let d = BidStreamParser::default();
    assert_eq!((d.parsed_count(), d.error_count()), (0, 0));
}

#[test]
fn decoder_sees_the_trimmed_line() {
    let mut p = BidStreamParser::new();
    let r = p.parse_line("  a b \n", |text: String| -> Result<String, ()> { Ok(text) });
    assert_eq!(r, Ok(Some("a b".to_string())));
}

fn json(text: String) -> Result<serde_json::Value, serde_json::Error> {
    serde_json::from_str(&text)
}

#[test]
fn test_parse_single_bid_request() {
    let json_line = r#"{
        "id": "test-bid-1",
        "imp": [{"id": "1", "banner": {"w": 300, "h": 250}, "bidfloor": 0.05, "bidfloorcur": "USD"}],
        "app": {"id": "com.test", "name": "TestApp", "bundle": "com.test.app"},
        "device": {"ua": "Mozilla/5.0", "os": "Android", "w": 1080, "h": 2400, "ifa": "test-ifa"},
        "user": {"id": "user-1"}
    }"#;
    let mut parser = BidStreamParser::new();
    let result = parser.parse_line(json_line, json);
    assert!(result.is_ok(), "Failed to parse valid bid request");
    let bid = result.unwrap();
    assert!(bid.is_some());
    let bid = bid.unwrap();
    assert_eq!(bid["id"], "test-bid-1");
    assert_eq!(bid["imp"].as_array().unwrap().len(), 1);
    assert_eq!(parser.parsed_count(), 1);
}

#[test]
fn test_parse_invalid_json() {
    let mut parser = BidStreamParser::new();
    let result = parser.parse_line("this is not json", json);
    assert!(result.is_err(), "Invalid JSON should return error");
    assert_eq!(parser.error_count(), 1);
}

#[test]
fn test_parse_empty_line() {
    let mut parser = BidStreamParser::new();
    let result = parser.parse_line("", json);
    assert!(result.is_ok());
    assert!(result.unwrap().is_none());
}

fn feed(size: usize, n: usize) -> Vec<Vec<usize>> {
    let processor = BidStreamProcessor::new(size);
    let mut batches = Vec::new();
    let mut current = Vec::new();
    for i in 0..n {
        if let Some(b) = processor.push_into_batch(&mut current, i) {
            batches.push(b);
        }
    }
    if let Some(b) = BidStreamProcessor::finish_batch(current) {
        batches.push(b);
    }
    batches
}

#[test]
fn five_items_in_batches_of_two() {
    let batches = feed(2, 5);
    assert_eq!(batches.len(), 3);
    assert_eq!(batches, vec![vec![0, 1], vec![2, 3], vec![4]]);
    let total: usize = batches.iter().map(|b| b.len()).sum();
    assert_eq!(total, 5);
}

#[test]
fn nothing_fed_gives_no_batch() {
    assert_eq!(feed(10, 0).len(), 0);
}

#[test]
fn batch_size_zero_gives_single_item_batches() {
    assert_eq!(feed(0, 3), vec![vec![0], vec![1], vec![2]]);
    assert_eq!(BidStreamProcessor::new(7).batch_size(), 7);
}

#[test]
fn default_currency_is_usd() {
    assert_eq!(default_currency(), "USD");
}
