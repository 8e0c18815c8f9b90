use citation_extraction::cli::{PipelineArgs, Source};
use citation_extraction::commands::pipeline::{
    flush_threshold_for, http_fallback_enabled, inverted_output, output_mode_for,
    output_shape_for, should_clean_up, should_validate, ConfigError, IndexOrigin, OutputShape,
};
use citation_extraction::streaming::partition_invert::OutputMode;
use citation_extraction::commands::{load_indexes, should_build_crossref_index, should_include_citation, validate_args};

fn default_args() -> PipelineArgs {
    PipelineArgs {
        input: "test.tar.gz".to_string(),
        datacite_records: None,
        source: Source::All,
        output_crossref: None,
        output_datacite: None,
        output_arxiv: None,
        output_crossref_failed: None,
        output_datacite_failed: None,
        output_arxiv_failed: None,
        http_fallback: vec![],
        load_crossref_index: None,
        save_crossref_index: None,
        load_datacite_index: None,
        save_datacite_index: None,
        log_level: "INFO".to_string(),
        concurrency: 50,
        timeout: 5,
        keep_intermediates: false,
        temp_dir: None,
        batch_size: 5000000,
    }
}

#[test]
fn test_validate_args_all_requires_both_outputs() {
    let args = default_args();
    let result = validate_args(&args);
    assert!(result.is_err());
    assert!(result.unwrap_err().to_string().contains("--output-crossref"));
}

#[test]
fn test_validate_args_all_with_both_outputs() {
    let mut args = default_args();
    args.output_crossref = Some("crossref.jsonl".to_string());
    args.output_datacite = Some("datacite.jsonl".to_string());
    let result = validate_args(&args);
    assert!(result.is_ok());
}

#[test]
fn test_validate_args_crossref_requires_output() {
    let mut args = default_args();
    args.source = Source::Crossref;
    let result = validate_args(&args);
    assert!(result.is_err());
    assert!(result.unwrap_err().to_string().contains("--output-crossref"));
}

#[test]
fn test_validate_args_crossref_with_output() {
    let mut args = default_args();
    args.source = Source::Crossref;
    args.output_crossref = Some("crossref.jsonl".to_string());
    let result = validate_args(&args);
    assert!(result.is_ok());
}

#[test]
fn test_validate_args_datacite_requires_output() {
    let mut args = default_args();
    args.source = Source::Datacite;
    args.datacite_records = Some("records.jsonl.gz".to_string());
    let result = validate_args(&args);
    assert!(result.is_err());
    assert!(result.unwrap_err().to_string().contains("--output-datacite"));
}

#[test]
fn test_validate_args_datacite_requires_records() {
    let mut args = default_args();
    args.source = Source::Datacite;
    args.output_datacite = Some("datacite.jsonl".to_string());
    let result = validate_args(&args);
    assert!(result.is_err());
    assert!(result.unwrap_err().to_string().contains("--datacite-records"));
}

#[test]
fn test_validate_args_datacite_with_records_file() {
    let mut args = default_args();
    args.source = Source::Datacite;
    args.output_datacite = Some("datacite.jsonl".to_string());
    args.datacite_records = Some("records.jsonl.gz".to_string());
    let result = validate_args(&args);
    assert!(result.is_ok());
}

#[test]
fn test_validate_args_datacite_with_index() {
    let mut args = default_args();
    args.source = Source::Datacite;
    args.output_datacite = Some("datacite.jsonl".to_string());
    args.load_datacite_index = Some("index.parquet".to_string());
    let result = validate_args(&args);
    assert!(result.is_ok());
}

#[test]
fn test_validate_args_arxiv_requires_output() {
    let mut args = default_args();
    args.source = Source::Arxiv;
    args.datacite_records = Some("records.jsonl.gz".to_string());
    let result = validate_args(&args);
    assert!(result.is_err());
    assert!(result.unwrap_err().to_string().contains("--output-arxiv"));
}

#[test]
fn test_validate_args_arxiv_requires_records() {
    let mut args = default_args();
    args.source = Source::Arxiv;
    args.output_arxiv = Some("arxiv.jsonl".to_string());
    let result = validate_args(&args);
    assert!(result.is_err());
    assert!(result.unwrap_err().to_string().contains("--datacite-records"));
}

#[test]
fn test_validate_args_arxiv_with_all_required() {
    let mut args = default_args();
    args.source = Source::Arxiv;
    args.output_arxiv = Some("arxiv.jsonl".to_string());
    args.datacite_records = Some("records.jsonl.gz".to_string());
    let result = validate_args(&args);
    assert!(result.is_ok());
}

#[test]
fn test_should_include_citation() {
    assert!(should_include_citation("10.1234/a", "10.5678/b"));
    assert!(!should_include_citation("10.1234/a", "10.1234/a"));
    assert!(!should_include_citation("10.1234/A", "10.1234/a"));
}

#[test]
fn validate_args_names_each_error() {
    let mut args = default_args();
    assert_eq!(validate_args(&args), Err(ConfigError::AllNeedsBothOutputs));
    args.output_crossref = Some("c".to_string());
    assert_eq!(validate_args(&args), Err(ConfigError::AllNeedsBothOutputs));
    args.source = Source::Crossref;
    args.output_crossref = None;
    assert_eq!(validate_args(&args), Err(ConfigError::CrossrefNeedsOutput));
    args.source = Source::Datacite;
    assert_eq!(validate_args(&args), Err(ConfigError::DataciteNeedsOutput));
    args.output_datacite = Some("d".to_string());
    assert_eq!(validate_args(&args), Err(ConfigError::DataciteNeedsRecords));
    args.source = Source::Arxiv;
    assert_eq!(validate_args(&args), Err(ConfigError::ArxivNeedsOutput));
    args.output_arxiv = Some("a".to_string());
    assert_eq!(validate_args(&args), Err(ConfigError::ArxivNeedsRecords));
    assert_eq!(
        ConfigError::AllNeedsBothOutputs.to_string(),
        "Source 'all' requires both --output-crossref and --output-datacite"
    );
    assert_eq!(
        ConfigError::ArxivNeedsRecords.to_string(),
        "Source 'arxiv' requires --datacite-records or --load-datacite-index"
    );
}

#[test]
fn should_include_citation_folds_unicode_case() {
    assert!(!should_include_citation("10.1234/ÉCOLE", "10.1234/école"));
    assert!(should_include_citation("10.1234/école", "10.1234/ecole"));
}

#[test]
fn crossref_index_is_built_for_all_and_crossref() {
    let mut args = default_args();
    assert!(should_build_crossref_index(&args));
    args.source = Source::Crossref;
    assert!(should_build_crossref_index(&args));
    args.load_crossref_index = Some("idx".to_string());
    assert!(!should_build_crossref_index(&args));
    args.load_crossref_index = None;
    args.source = Source::Datacite;
    assert!(!should_build_crossref_index(&args));
    args.source = Source::Arxiv;
    assert!(!should_build_crossref_index(&args));
}

#[test]
fn index_plan_prefers_the_snapshot() {
    let mut args = default_args();
    let plan = load_indexes(&args);
    assert_eq!(plan.crossref, IndexOrigin::Absent);
    assert_eq!(plan.datacite, IndexOrigin::Absent);
    args.datacite_records = Some("records.jsonl.gz".to_string());
    assert_eq!(load_indexes(&args).datacite, IndexOrigin::Records("records.jsonl.gz".to_string()));
    args.load_datacite_index = Some("dc.idx".to_string());
    args.load_crossref_index = Some("cr.idx".to_string());
    let plan = load_indexes(&args);
    assert_eq!(plan.datacite, IndexOrigin::Snapshot("dc.idx".to_string()));
    assert_eq!(plan.crossref, IndexOrigin::Snapshot("cr.idx".to_string()));
}

#[test]
fn flush_threshold_is_a_hundredth_and_at_least_ten_thousand() {
    assert_eq!(flush_threshold_for(5_000_000), 50_000);
    assert_eq!(flush_threshold_for(1_000_000), 10_000);
    assert_eq!(flush_threshold_for(999_999), 10_000);
    assert_eq!(flush_threshold_for(0), 10_000);
    assert_eq!(flush_threshold_for(1_000_100), 10_001);
}

#[test]
fn inverted_output_follows_the_source() {
    let mut args = default_args();
    args.output_crossref = Some("c.jsonl".to_string());
    args.output_datacite = Some("d.jsonl".to_string());
    args.output_arxiv = Some("a.jsonl".to_string());
    assert_eq!(inverted_output(&args), None);
    args.source = Source::Crossref;
    assert_eq!(inverted_output(&args), Some("c.jsonl".to_string()));
    args.source = Source::Datacite;
    assert_eq!(inverted_output(&args), Some("d.jsonl".to_string()));
    args.source = Source::Arxiv;
    assert_eq!(inverted_output(&args), Some("a.jsonl".to_string()));
    args.output_arxiv = None;
    assert_eq!(inverted_output(&args), None);
}

#[test]
fn http_fallback_needs_a_known_name() {
    assert!(!http_fallback_enabled(&vec![]));
    assert!(!http_fallback_enabled(&vec!["arxiv".to_string(), "Crossref".to_string()]));
    assert!(http_fallback_enabled(&vec!["x".to_string(), "datacite".to_string()]));
    assert!(http_fallback_enabled(&vec!["crossref".to_string()]));
    assert!(http_fallback_enabled(&vec!["all".to_string()]));
}

#[test]
fn clean_up_and_validation_decisions() {
    let mut args = default_args();
    assert!(should_clean_up(&args));
    args.keep_intermediates = true;
    assert!(!should_clean_up(&args));
    args.keep_intermediates = false;
    args.temp_dir = Some("/tmp/x".to_string());
    assert!(!should_clean_up(&args));
    assert!(should_validate(true, false, true));
    assert!(should_validate(false, true, true));
    assert!(!should_validate(false, false, true));
    assert!(!should_validate(true, true, false));
}

#[test]
fn source_parses_in_any_case() {
    assert_eq!("all".parse::<Source>(), Ok(Source::All));
    assert_eq!("CrossRef".parse::<Source>(), Ok(Source::Crossref));
    assert_eq!(Source::parse("DATACITE"), Some(Source::Datacite));
    assert_eq!(Source::parse("arxiv"), Some(Source::Arxiv));
    assert_eq!(Source::parse("pubmed"), None);
    assert_eq!(
        "pubmed".parse::<Source>(),
        Err("Invalid source: pubmed. Valid options: all, crossref, datacite, arxiv".to_string())
    );
    assert_eq!(Source::default(), Source::All);
    assert_eq!(Source::Arxiv.as_str(), "arxiv");
    assert_eq!(Source::All.as_str(), "all");
}

#[test]
fn output_shape_follows_the_source() {
    assert_eq!(output_shape_for(Source::All), OutputShape::BySource);
    assert_eq!(output_shape_for(Source::Crossref), OutputShape::ByProvenance);
    assert_eq!(output_shape_for(Source::Datacite), OutputShape::ByProvenance);
    assert_eq!(output_shape_for(Source::Arxiv), OutputShape::Arxiv);
    assert_eq!(output_mode_for(Source::Arxiv), OutputMode::Arxiv);
    assert_eq!(output_mode_for(Source::All), OutputMode::Generic);
}
