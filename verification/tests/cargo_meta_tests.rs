use mutagen_runner::MetadataError;
use mutagen_runner::executables_found;
use mutagen_runner::keep_artifact_file;
use mutagen_runner::mutations_file_path;
use mutagen_runner::mutations_path_from_metadata;
use mutagen_runner::test_binaries_from_output;

#[test]
fn it_filters_rlib_and_dsym_artifacts() {
    assert!(keep_artifact_file("/t/debug/deps/foo-0a1b2c"));
    assert!(!keep_artifact_file("/t/debug/deps/libfoo.rlib"));
    assert!(!keep_artifact_file("/t/debug/deps/foo.dSYM"));
    assert!(keep_artifact_file(""));
}

#[test]
fn it_builds_the_catalog_path_under_the_workspace_root() {
    assert_eq!(
        "/ws/target/mutagen/mutations.txt",
        mutations_file_path("/ws")
    );
}

#[test]
fn it_reads_the_workspace_root_out_of_cargo_metadata() {
    let out = "{\"workspace_root\": \"/home/dev/proj\"}";
    assert_eq!(
        "/home/dev/proj/target/mutagen/mutations.txt",
        mutations_path_from_metadata(out).unwrap()
    );
}

#[test]
fn metadata_without_a_workspace_root_is_an_error() {
    let r = mutations_path_from_metadata("{\"other\": 1}");
    assert!(matches!(r, Err(MetadataError::MissingWorkspaceRoot)));
    let r = mutations_path_from_metadata("not json");
    assert!(matches!(r, Err(MetadataError::InvalidJson)));
}

#[test]
fn it_collects_test_binaries_from_compile_messages() {
    let line1 = "{\"reason\": \"compiler-artifact\", \"profile\": {\"test\": true}, \
                 \"filenames\": [\"/t/debug/deps/foo-1\", \"/t/debug/deps/libfoo.rlib\"]}";
    let line2 = "{\"reason\": \"compiler-artifact\", \"profile\": {\"test\": false}, \
                 \"filenames\": [\"/t/debug/deps/bar-2\"]}";
    let line3 = "{\"reason\": \"build-finished\"}";
    let stdout = format!("{}\n{}\n{}\n", line1, line2, line3);
    let bins = test_binaries_from_output(&stdout).unwrap();
    assert_eq!(vec!["/t/debug/deps/foo-1".to_string()], bins);
}

#[test]
fn malformed_compile_messages_are_errors() {
    let r = test_binaries_from_output("{\"no_reason\": 1}\n");
    assert!(matches!(r, Err(MetadataError::MalformedArtifactRecord)));
    let r = test_binaries_from_output("][\n");
    assert!(matches!(r, Err(MetadataError::InvalidJson)));
}

#[test]
fn it_keeps_test_binaries_in_stream_order() {
    let line1 = "{\"reason\": \"compiler-artifact\", \"profile\": {\"test\": true}, \
                 \"filenames\": [\"/t/debug/deps/foo-1\"]}";
    let line2 = "{\"reason\": \"compiler-artifact\", \"profile\": {\"test\": true}, \
                 \"filenames\": [\"/t/debug/deps/bar.dSYM\", \"/t/debug/deps/bar-2\"]}";
    let stdout = format!("{}\n{}\n", line1, line2);
    let bins = test_binaries_from_output(&stdout).unwrap();
    assert_eq!(
        vec!["/t/debug/deps/foo-1".to_string(), "/t/debug/deps/bar-2".to_string()],
        bins
    );
}

#[test]
fn an_empty_executable_list_is_detected() {
    assert!(!executables_found(&Vec::new()));
    assert!(executables_found(&vec!["/t/debug/deps/foo-1".to_string()]));
}
