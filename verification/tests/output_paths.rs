use citation_extraction::common::output::{last_position, sibling_name, sibling_path};
use citation_extraction::common::SplitOutputPaths;
use std::path::PathBuf;

#[test]
fn test_split_path_generation() {
    let paths = SplitOutputPaths::from_base("results.jsonl");
    assert_eq!(PathBuf::from(paths.all), PathBuf::from("results.jsonl"));
    assert_eq!(PathBuf::from(paths.asserted), PathBuf::from("results_asserted.jsonl"));
    assert_eq!(PathBuf::from(paths.mined), PathBuf::from("results_mined.jsonl"));
}

#[test]
fn test_split_path_with_directory() {
    let paths = SplitOutputPaths::from_base("/path/to/output.jsonl");
    assert_eq!(PathBuf::from(paths.all), PathBuf::from("/path/to/output.jsonl"));
    assert_eq!(PathBuf::from(paths.asserted), PathBuf::from("/path/to/output_asserted.jsonl"));
    assert_eq!(PathBuf::from(paths.mined), PathBuf::from("/path/to/output_mined.jsonl"));
}

#[test]
fn test_split_path_no_extension() {
    let paths = SplitOutputPaths::from_base("results");
    assert_eq!(PathBuf::from(paths.all), PathBuf::from("results"));
    assert_eq!(PathBuf::from(paths.asserted), PathBuf::from("results_asserted"));
    assert_eq!(PathBuf::from(paths.mined), PathBuf::from("results_mined"));
}

#[test]
fn sibling_name_joins_stem_suffix_and_extension() {
    assert_eq!(sibling_name("out", "mined", Some("jsonl")), "out_mined.jsonl");
    assert_eq!(sibling_name("out", "asserted", None), "out_asserted");
    assert_eq!(sibling_name("", "mined", Some("")), "_mined.");
}

#[test]
fn split_path_takes_the_last_extension_only() {
    let paths = SplitOutputPaths::from_base("dir/archive.tar.gz");
    assert_eq!(PathBuf::from(paths.asserted), PathBuf::from("dir/archive.tar_asserted.gz"));
    assert_eq!(PathBuf::from(paths.mined), PathBuf::from("dir/archive.tar_mined.gz"));
}

#[test]
fn sibling_path_keeps_the_directory_as_it_is_written() {
    assert_eq!(sibling_path("/path/to/output.jsonl", "asserted"), "/path/to/output_asserted.jsonl");
    assert_eq!(sibling_path("results.jsonl", "mined"), "results_mined.jsonl");
    assert_eq!(sibling_path("results", "mined"), "results_mined");
    assert_eq!(sibling_path("/results.jsonl", "mined"), "/results_mined.jsonl");
    assert_eq!(sibling_path("a.b/results", "mined"), "a.b/results_mined");
    assert_eq!(sibling_path("out/.hidden", "mined"), "out/.hidden_mined");
    assert_eq!(sibling_path("out/name.", "mined"), "out/name_mined.");
    assert_eq!(sibling_path("out//x.gz", "mined"), "out//x_mined.gz");
    assert_eq!(sibling_path("", "mined"), "_mined");
    assert_eq!(sibling_path("été/données.jsonl", "mined"), "été/données_mined.jsonl");
}

#[test]
fn last_position_finds_the_last_of_a_character() {
    let chars: Vec<char> = "a/b/c".chars().collect();
    assert_eq!(last_position(&chars, '/'), Some(3));
    assert_eq!(last_position(&chars, 'a'), Some(0));
    assert_eq!(last_position(&chars, '.'), None);
    assert_eq!(last_position(&Vec::new(), '.'), None);
}
