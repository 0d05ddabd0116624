use ollama_model_viewer::{
    AgeCategory, Capability, determine_capabilities, get_age_category, get_model_base_name,
    get_model_params, is_liberated_model, is_special_variant,
};

#[test]
fn age_seven_days_is_recent() {
    assert_eq!(get_age_category("7 days ago"), AgeCategory::Recent);
}

#[test]
fn age_twenty_days_is_moderate() {
    assert_eq!(get_age_category("20 days ago"), AgeCategory::Moderate);
}

#[test]
fn age_forty_days_is_old() {
    assert_eq!(get_age_category("40 days ago"), AgeCategory::Old);
}

#[test]
fn age_one_week_is_recent() {
    assert_eq!(get_age_category("1 week ago"), AgeCategory::Recent);
}

#[test]
fn age_three_weeks_is_moderate() {
    assert_eq!(get_age_category("3 weeks ago"), AgeCategory::Moderate);
}

#[test]
fn age_five_weeks_is_old() {
    assert_eq!(get_age_category("5 weeks ago"), AgeCategory::Old);
}

#[test]
fn age_two_months_is_old() {
    assert_eq!(get_age_category("2 months ago"), AgeCategory::Old);
}

#[test]
fn age_tokens_split_on_unicode_blank_space_too() {
    assert_eq!(get_age_category("3\u{00A0}weeks\u{2003}ago"), AgeCategory::Moderate);
}

#[test]
fn age_unparseable_defaults_to_recent() {
    assert_eq!(get_age_category("yesterday"), AgeCategory::Recent);
}

#[test]
fn age_day_marker_with_unreadable_count_defaults_to_recent() {
    assert_eq!(get_age_category("some days ago"), AgeCategory::Recent);
}

#[test]
fn capabilities_of_llava_code() {
    let caps = determine_capabilities("llava-code:7b");
    assert_eq!(caps, vec![Capability::Text, Capability::Vision, Capability::Code]);
}

#[test]
fn capabilities_always_include_text() {
    assert_eq!(determine_capabilities("plain:1b"), vec![Capability::Text]);
}

#[test]
fn capabilities_use_the_lower_cased_name() {
    let caps = determine_capabilities("VISION-THINKER:2B");
    assert!(caps.contains(&Capability::Vision));
    assert!(caps.contains(&Capability::Reasoning));
}

#[test]
fn capability_groups_are_additive() {
    let caps = determine_capabilities("embed-tool-r1");
    assert_eq!(
        caps,
        vec![Capability::Text, Capability::Embed, Capability::Tools, Capability::Reasoning]
    );
}

#[test]
fn liberated_uncensored_is_flagged() {
    assert!(is_liberated_model("model:uncensored"));
}

#[test]
fn liberated_base_is_not_flagged() {
    assert!(!is_liberated_model("model:base"));
}

#[test]
fn liberated_matches_upper_case_names() {
    assert!(is_liberated_model("MODEL:NSFW"));
}

#[test]
fn base_name_splits_at_first_colon_and_lowers() {
    assert_eq!(get_model_base_name("LLaMA3:Q4:extra"), "llama3");
    assert_eq!(get_model_base_name("NoColon"), "nocolon");
}

#[test]
fn params_follow_the_first_colon_lowered() {
    assert_eq!(get_model_params("LLaMA3:Q4:extra"), "q4:extra");
    assert_eq!(get_model_params("NoColon"), "");
}

#[test]
fn special_variant_needs_a_meaningful_suffix() {
    assert!(is_special_variant("llama3:instruct"));
    assert!(is_special_variant("llama3:CHAT"));
    assert!(!is_special_variant("llama3:q4"));
    assert!(!is_special_variant("llama3"));
}
