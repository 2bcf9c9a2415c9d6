use nicoad_list::csv::parse_csv_body;
use nicoad_list::era::{classify_first_retrieve, EraClassification};
use nicoad_list::format::{output_filename, shape_text, RenderOptions};
use nicoad_list::history::{aggregate, reconcile};
use nicoad_list::pagination::{JsonPager, MAX_PAGES, PAGE_LIMIT};
use nicoad_list::video_id::extract_video_id;

fn names(list: &[&str]) -> Vec<String> {
    list.iter().map(|s| s.to_string()).collect()
}

fn plain_options(width: u32, counts_enabled: bool) -> RenderOptions {
    RenderOptions {
        prefix: String::new(),
        suffix: String::new(),
        column_width: width,
        counts_enabled,
    }
}

#[test]
fn seven_raw_entries_wrap_into_lines_of_three_three_one() {
    let data = aggregate(names(&["e1", "e2", "e3", "e4", "e5", "e6", "e7"]));
    let text = shape_text(&data, &plain_options(3, false));
    assert_eq!(text, "e1 e2 e3\ne4 e5 e6\ne7\n");
}

#[test]
fn raw_mode_keeps_duplicates_and_adds_no_count() {
    let data = aggregate(names(&["a", "a", "b"]));
    let text = shape_text(&data, &plain_options(4, false));
    assert_eq!(text, "a a b\n");
}

#[test]
fn counts_mode_appends_count_only_above_one() {
    let data = aggregate(names(&["a", "a", "b"]));
    let text = shape_text(&data, &plain_options(3, true));
    assert_eq!(text, "a x2 b\n");
}

#[test]
fn counts_mode_renders_multi_digit_counts() {
    let mut entries: Vec<String> = Vec::new();
    for _ in 0..12 {
        entries.push("a".to_string());
    }
    let data = aggregate(entries);
    let text = shape_text(&data, &plain_options(3, true));
    assert_eq!(text, "a x12\n");
}

#[test]
fn prefix_and_suffix_decorate_every_entry() {
    let data = aggregate(names(&["a", "b"]));
    let opts = RenderOptions {
        prefix: "[".to_string(),
        suffix: "]".to_string(),
        column_width: 3,
        counts_enabled: false,
    };
    let text = shape_text(&data, &opts);
    assert_eq!(text, "[a] [b]\n");
}

#[test]
fn an_exact_multiple_of_the_width_ends_with_a_blank_line() {
    let data = aggregate(names(&["a", "b", "c"]));
    let text = shape_text(&data, &plain_options(3, false));
    assert_eq!(text, "a b c\n\n");
}

#[test]
fn an_empty_history_renders_as_one_newline() {
    let data = aggregate(Vec::new());
    let text = shape_text(&data, &plain_options(3, false));
    assert_eq!(text, "\n");
}

#[test]
fn pagination_stops_exactly_on_the_empty_page() {
    let mut pager = JsonPager::new();
    let mut offsets: Vec<u64> = Vec::new();
    for size in [128usize, 128, 50, 0] {
        let offset = pager.next_offset().expect("pager stopped too early");
        offsets.push(offset);
        let page: Vec<String> = (0..size).map(|k| format!("adv{}", k)).collect();
        pager.feed_page(page);
    }
    assert_eq!(offsets, vec![0, 128, 256, 306]);
    assert_eq!(pager.next_offset(), None);
    let result = pager.into_result();
    assert_eq!(result.ordered_entries.len(), 306);
}

#[test]
fn width_one_puts_every_entry_on_its_own_line() {
    let data = aggregate(names(&["a", "b"]));
    let text = shape_text(&data, &plain_options(1, false));
    assert_eq!(text, "a\nb\n\n");
}

#[test]
fn the_safety_cap_ends_a_feed_that_never_drains() {
    let mut pager = JsonPager::new();
    let mut pages: u64 = 0;
    while let Some(_) = pager.next_offset() {
        pager.feed_page(vec!["adv".to_string()]);
        pages += 1;
    }
    assert_eq!(pages, MAX_PAGES);
    let result = pager.into_result();
    assert_eq!(result.ordered_entries.len() as u64, MAX_PAGES);
    assert_eq!(result.counts.len(), 1);
}

#[test]
fn page_limit_matches_the_api_contract() {
    assert_eq!(PAGE_LIMIT, 128);
    assert!(MAX_PAGES > 0);
}

#[test]
fn output_filename_appends_the_list_suffix() {
    assert_eq!(output_filename("sm25597642"), "sm25597642_list.txt");
}

#[test]
fn legacy_video_with_failed_json_and_one_csv_row_renders_one_line() {
    // A legacy-era video: the JSON fetch failed, the CSV mirror answered
    // with one acceptable row and a trailing blank line.
    let url = "https://www.nicovideo.jp/watch/sm25597642";
    let video_id = extract_video_id(url).unwrap();
    assert_eq!(video_id, "sm25597642");

    let era = classify_first_retrieve("2015-02-12T19:00:00+09:00").unwrap();
    assert_eq!(era, EraClassification::Legacy);

    let csv = parse_csv_body("\"XY\",1,2\n");
    let history = reconcile(None, Some(csv)).unwrap();

    let text = shape_text(&history, &plain_options(3, true));
    assert_eq!(text, "XY\n");
    assert_eq!(output_filename(&video_id), "sm25597642_list.txt");
}
