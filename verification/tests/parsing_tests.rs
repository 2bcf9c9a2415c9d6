use nicoad_list::csv::{accept_csv_status, parse_csv_body};
use nicoad_list::era::{classify_first_retrieve, EraClassification};
use nicoad_list::video_id::extract_video_id;
use nicoad_list::AdvertError;

#[test]
fn csv_line_with_long_first_field_is_accepted_and_stripped() {
    let r = parse_csv_body("abcd,x,y");
    assert_eq!(r.ordered_entries, vec!["bc".to_string()]);
}

#[test]
fn csv_line_with_short_first_field_is_rejected() {
    let r = parse_csv_body("ab,x");
    assert!(r.ordered_entries.is_empty());
    assert!(r.counts.is_empty());
}

#[test]
fn csv_trailing_blank_line_is_rejected() {
    let r = parse_csv_body("abcd,x,y\nab,x\n");
    assert_eq!(r.ordered_entries, vec!["bc".to_string()]);
}

#[test]
fn csv_quoted_keys_lose_their_delimiters_and_are_counted() {
    let body = "\"alice\",10\n\"bob\",20\n\"alice\",30\n";
    let r = parse_csv_body(body);
    assert_eq!(
        r.ordered_entries,
        vec!["alice".to_string(), "bob".to_string(), "alice".to_string()]
    );
    let alice = r.counts.iter().find(|(k, _)| k == "alice").unwrap().1;
    let bob = r.counts.iter().find(|(k, _)| k == "bob").unwrap().1;
    assert_eq!(alice, 2);
    assert_eq!(bob, 1);
}

#[test]
fn csv_length_threshold_counts_characters_not_bytes() {
    // Four characters, so the line is accepted; the strip keeps the
    // middle two characters whatever their encoded width is.
    let r = parse_csv_body("\u{3042}\u{3044}\u{3046}\u{3048},x");
    assert_eq!(r.ordered_entries, vec!["\u{3044}\u{3046}".to_string()]);
}

#[test]
fn csv_status_200_is_accepted() {
    assert!(accept_csv_status(200).is_ok());
}

#[test]
fn csv_status_other_than_200_is_unexpected() {
    assert_eq!(accept_csv_status(404).unwrap_err(), AdvertError::UnexpectedStatus);
    assert_eq!(accept_csv_status(302).unwrap_err(), AdvertError::UnexpectedStatus);
    assert_eq!(accept_csv_status(500).unwrap_err(), AdvertError::UnexpectedStatus);
}

#[test]
fn watch_url_yields_its_video_id() {
    let id = extract_video_id("https://www.nicovideo.jp/watch/sm25597642").unwrap();
    assert_eq!(id, "sm25597642");
}

#[test]
fn urls_off_the_watch_pattern_are_invalid() {
    let bad = [
        "https://www.nicovideo.jp/watch/",
        "https://www.nicovideo.jp/watch/sm",
        "https://www.nicovideo.jp/watch/so12345",
        "https://www.nicovideo.jp/watch/sm12a45",
        "https://example.com/watch/sm12345",
        "http://www.nicovideo.jp/watch/sm12345",
        "https://www.nicovideo.jp/watch/sm12345/extra",
        "",
    ];
    for url in bad {
        assert_eq!(extract_video_id(url).unwrap_err(), AdvertError::InvalidUrl);
    }
}

#[test]
fn timestamp_just_before_boundary_is_legacy() {
    let era = classify_first_retrieve("2017-12-12T23:59:59+09:00").unwrap();
    assert_eq!(era, EraClassification::Legacy);
}

#[test]
fn timestamp_at_boundary_is_current() {
    let era = classify_first_retrieve("2017-12-13T00:00:00+09:00").unwrap();
    assert_eq!(era, EraClassification::Current);
}

#[test]
fn boundary_comparison_respects_time_zones() {
    // The same instant as the boundary, written in UTC: not legacy.
    let era = classify_first_retrieve("2017-12-12T15:00:00+00:00").unwrap();
    assert_eq!(era, EraClassification::Current);
    // One second before it, written in UTC: legacy.
    let era = classify_first_retrieve("2017-12-12T14:59:59+00:00").unwrap();
    assert_eq!(era, EraClassification::Legacy);
}

#[test]
fn malformed_timestamp_is_a_parse_error() {
    assert_eq!(
        classify_first_retrieve("not a timestamp").unwrap_err(),
        AdvertError::MetadataParseError
    );
    assert_eq!(
        classify_first_retrieve("2017-12-13").unwrap_err(),
        AdvertError::MetadataParseError
    );
}
