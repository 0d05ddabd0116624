use ollama_model_viewer::{AgeCategory, Capability, parse_ollama_output};

#[test]
fn empty_output_yields_no_models() {
    let models = parse_ollama_output("").unwrap();
    assert_eq!(models.len(), 0);
}

#[test]
fn header_only_yields_no_models() {
    let models = parse_ollama_output("NAME ID SIZE MODIFIED\n").unwrap();
    assert_eq!(models.len(), 0);
}

#[test]
fn well_formed_line_is_lossless() {
    let out = "NAME ID SIZE MODIFIED\nllama3:latest abc123 4.7 GB 7 days ago\n";
    let models = parse_ollama_output(out).unwrap();
    assert_eq!(models.len(), 1);
    assert_eq!(models[0].name, "llama3:latest");
    assert_eq!(models[0].id, "abc123");
    assert_eq!(models[0].size, "4.7 GB");
    assert_eq!(models[0].modified, "7 days ago");
    assert_eq!(models[0].age_category, AgeCategory::Recent);
    assert!(!models[0].is_starred);
    assert!(!models[0].is_queued_for_deletion);
    assert!(models[0].usage_info.is_none());
}

#[test]
fn short_lines_are_dropped() {
    let out = "NAME ID SIZE MODIFIED\nonly three tokens\nfull:record id1 1.0 GB 2 days ago\n\n";
    let models = parse_ollama_output(out).unwrap();
    assert_eq!(models.len(), 1);
    assert_eq!(models[0].name, "full:record");
}

#[test]
fn blank_lines_are_skipped() {
    let out = "NAME ID SIZE MODIFIED\n\n\na:b c 1.0 GB 1 day ago\n";
    let models = parse_ollama_output(out).unwrap();
    assert_eq!(models.len(), 1);
}

#[test]
fn modified_column_is_rejoined_with_single_spaces() {
    let out = "NAME ID SIZE MODIFIED\nm:x id9 2.0 GB 3   weeks    ago\n";
    let models = parse_ollama_output(out).unwrap();
    assert_eq!(models[0].modified, "3 weeks ago");
    assert_eq!(models[0].age_category, AgeCategory::Moderate);
}

#[test]
fn capabilities_are_derived_per_record() {
    let out = "NAME ID SIZE MODIFIED\nllava-code:7b id1 3.0 GB 1 day ago\n";
    let models = parse_ollama_output(out).unwrap();
    assert_eq!(
        models[0].capabilities,
        vec![Capability::Text, Capability::Vision, Capability::Code]
    );
}

#[test]
fn duplicate_detection_is_order_dependent_and_asymmetric() {
    let out = "NAME ID SIZE MODIFIED\n\
               llama3:latest a1 1.0 GB 1 day ago\n\
               llama3:instruct a2 1.0 GB 1 day ago\n\
               llama3:q4 a3 1.0 GB 1 day ago\n";
    let models = parse_ollama_output(out).unwrap();
    assert!(!models[0].is_duplicate);
    assert!(!models[0].is_special_variant);
    assert!(!models[1].is_duplicate);
    assert!(models[1].is_special_variant);
    assert!(models[2].is_duplicate);
    assert!(!models[2].is_special_variant);

    let reversed = "NAME ID SIZE MODIFIED\n\
                    llama3:q4 a3 1.0 GB 1 day ago\n\
                    llama3:instruct a2 1.0 GB 1 day ago\n\
                    llama3:latest a1 1.0 GB 1 day ago\n";
    let models2 = parse_ollama_output(reversed).unwrap();
    assert!(!models2[0].is_duplicate);
    assert!(!models2[1].is_duplicate);
    assert!(models2[2].is_duplicate);
}
