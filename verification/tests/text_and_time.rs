use ollama_model_viewer::{
    NameSet, clean_model_name_for_matching, contains_sub, format_elapsed, format_last_used_time,
    get_privacy_notice, i64_to_string, parse_i32, parse_i64, process_listing, u64_to_string,
};

#[test]
fn contains_sub_finds_inner_runs() {
    assert!(contains_sub("hello world", "lo wo"));
    assert!(contains_sub("abc", ""));
    assert!(!contains_sub("abc", "abcd"));
    assert!(!contains_sub("abc", "ac"));
}

#[test]
fn parse_i64_accepts_signed_decimals() {
    assert_eq!(parse_i64("123"), Some(123));
    assert_eq!(parse_i64("-5"), Some(-5));
    assert_eq!(parse_i64("+7"), Some(7));
    assert_eq!(parse_i64("0000000000000000000000001"), Some(1));
    assert_eq!(parse_i64("9223372036854775807"), Some(i64::MAX));
    assert_eq!(parse_i64("-9223372036854775808"), Some(i64::MIN));
}

#[test]
fn parse_i64_rejects_junk_and_overflow() {
    assert_eq!(parse_i64(""), None);
    assert_eq!(parse_i64("-"), None);
    assert_eq!(parse_i64("12a"), None);
    assert_eq!(parse_i64("9223372036854775808"), None);
    assert_eq!(parse_i64("-9223372036854775809"), None);
}

#[test]
fn parse_i32_applies_the_narrower_bounds() {
    assert_eq!(parse_i32("2147483647"), Some(i32::MAX));
    assert_eq!(parse_i32("2147483648"), None);
    assert_eq!(parse_i32("-2147483648"), Some(i32::MIN));
}

#[test]
fn decimal_rendering_matches_the_usual_form() {
    assert_eq!(u64_to_string(0), "0");
    assert_eq!(u64_to_string(907), "907");
    assert_eq!(i64_to_string(-45), "-45");
    assert_eq!(i64_to_string(12), "12");
}

#[test]
fn clean_name_lowers_trims_and_strips_prefixes() {
    assert_eq!(clean_model_name_for_matching("  Ollama/Llama3  "), "llama3");
    assert_eq!(clean_model_name_for_matching("models/M1"), "m1");
    assert_eq!(clean_model_name_for_matching("local/x"), "x");
    assert_eq!(clean_model_name_for_matching("plain"), "plain");
}

#[test]
fn elapsed_formatting_buckets() {
    assert_eq!(format_elapsed(0, 300), "5 minutes ago");
    assert_eq!(format_elapsed(0, 7200), "2 hours ago");
    assert_eq!(format_elapsed(0, 86400), "1 day ago");
    assert_eq!(format_elapsed(0, 86400 * 3), "3 days ago");
    assert_eq!(format_elapsed(0, 86400 * 8), "1 week ago");
    assert_eq!(format_elapsed(0, 86400 * 15), "2 weeks ago");
    assert_eq!(format_elapsed(0, 86400 * 60), "2 months ago");
    assert_eq!(format_elapsed(0, 86400 * 800), "2 years ago");
}

#[test]
fn last_used_time_handles_unreadable_and_out_of_range_values() {
    assert_eq!(format_last_used_time("not a number"), "Unknown");
    assert_eq!(format_last_used_time(""), "Unknown");
    assert_eq!(format_last_used_time("999999999999999999"), "Unknown");
}

#[test]
fn last_used_time_formats_a_real_timestamp() {
    let text = format_last_used_time("0");
    assert_ne!(text, "Unknown");
    assert!(text.ends_with("ago"));
}

#[test]
fn privacy_notice_mentions_its_subject() {
    let notice = get_privacy_notice();
    assert!(notice.contains("\u{1F512} Privacy Protection Notice"));
    assert!(notice.contains("OpenWebUI"));
    assert!(notice.contains("Future roadmap (currently disabled)"));
    assert!(notice.contains("\u{2022} Usage analytics dashboard"));
}

#[test]
fn process_listing_overlays_session_marks() {
    let mut starred = NameSet::new();
    starred.insert("a:b".to_string());
    let mut queue = NameSet::new();
    queue.insert("c:d".to_string());
    let out = "NAME ID SIZE MODIFIED\na:b id1 1.0 GB 1 day ago\nc:d id2 1.0 GB 1 day ago\n";
    let models = process_listing(out, &starred, &queue).unwrap();
    assert!(models[0].is_starred);
    assert!(!models[0].is_queued_for_deletion);
    assert!(!models[1].is_starred);
    assert!(models[1].is_queued_for_deletion);
}
