//! The value of a JSON string field, and the first long-term-support release.
use dsh_client::releases::first_lts_version_in_node_index;
use dsh_client::scan::extract_json_field;

fn field(s: &str, key: &str) -> Option<String> {
    extract_json_field(s, key)
}

fn lts(s: &str) -> Option<String> {
    first_lts_version_in_node_index(s)
}

#[test]
fn field_of_a_manifest() {
    let manifest = "{\n  \"name\": \"@deepseek-ai/dsh\",\n  \"version\": \"0.3.1\",\n  \"bin\": {}\n}";
    assert_eq!(field(manifest, "version"), Some("0.3.1".to_string()));
    assert_eq!(field(manifest, "name"), Some("@deepseek-ai/dsh".to_string()));
}

#[test]
fn field_without_spaces() {
    assert_eq!(field("{\"version\":\"1\"}", "version"), Some("1".to_string()));
}

#[test]
fn field_may_be_empty() {
    assert_eq!(field("{\"version\":\"\"}", "version"), Some(String::new()));
}

#[test]
fn field_missing() {
    assert_eq!(field("{}", "version"), None);
    assert_eq!(field("", "version"), None);
    assert_eq!(field("\"version\"", "version"), None);
    assert_eq!(field("\"version\":", "version"), None);
    assert_eq!(field("\"version\":\"1", "version"), None);
    assert_eq!(field("version: \"1\"", "version"), None);
}

#[test]
fn first_occurrence_counts() {
    assert_eq!(
        field("{\"version\":\"1\",\"version\":\"2\"}", "version"),
        Some("1".to_string())
    );
}

#[test]
fn value_that_is_no_string() {
    assert_eq!(field("{\"version\":1,\"name\":\"x\"}", "version"), None);
    assert_eq!(field("{\"version\": null, \"name\": \"x\"}", "version"), None);
    assert_eq!(field("{\"version\":{\"v\":\"1\"}}", "version"), None);
    assert_eq!(field("{\"version\"::\"1\"}", "version"), None);
}

#[test]
fn value_that_equals_the_key_is_passed_over() {
    assert_eq!(
        field("{\"name\":\"version\",\"x\":\"9\",\"version\":\"2.0\"}", "version"),
        Some("2.0".to_string())
    );
    assert_eq!(
        field("[\"version\", \"version\" : \"3\"]", "version"),
        Some("3".to_string())
    );
    assert_eq!(field("{\"name\":\"version\"}", "version"), None);
}

#[test]
fn white_space_round_the_colon() {
    assert_eq!(field("\"version\"\n\t : \r\n \"1.0\"", "version"), Some("1.0".to_string()));
    assert_eq!(field("\"version\"\u{A0}:\"1.0\"", "version"), None);
}

#[test]
fn field_in_other_scripts() {
    assert_eq!(field("{\"名\":\"深\"}", "名"), Some("深".to_string()));
}

#[test]
fn value_holds_no_quote() {
    for text in ["{\"k\":\"a\\\"b\"}", "{\"k\":\"\"\"}", "\"k\" : \"x\"\""] {
        assert!(!field(text, "k").unwrap().contains('"'));
    }
}

#[test]
fn first_entry_with_lts() {
    let index = "[{\"version\":\"v24.1.0\",\"date\":\"2025-05-20\",\"lts\":false,\"security\":false},\n\
                 {\"version\":\"v22.16.0\",\"date\":\"2025-05-21\",\"lts\":\"Jod\",\"security\":false},\n\
                 {\"version\":\"v20.19.2\",\"lts\":\"Iron\"}]";
    assert_eq!(lts(index), Some("22.16.0".to_string()));
}

#[test]
fn newest_entry_may_be_lts() {
    let index = "[{\"version\":\"v22.16.0\",\"lts\":\"Jod\"},{\"version\":\"v23.0.0\",\"lts\":false}]";
    assert_eq!(lts(index), Some("22.16.0".to_string()));
}

#[test]
fn false_after_a_space() {
    let index = "[{\"version\":\"v24.1.0\", \"lts\": false},{\"version\":\"v22.0.0\", \"lts\": \"Jod\"}]";
    assert_eq!(lts(index), Some("22.0.0".to_string()));
}

#[test]
fn no_entry_with_lts() {
    assert_eq!(lts("[{\"version\":\"v1\",\"lts\":false},{\"version\":\"v2\",\"lts\":false}]"), None);
    assert_eq!(lts("[]"), None);
    assert_eq!(lts(""), None);
    assert_eq!(lts("{\"version\":\"v1"), None);
}

#[test]
fn entry_without_the_field_counts() {
    assert_eq!(lts("[{\"version\":\"v9.9.9\"}]"), Some("9.9.9".to_string()));
}

#[test]
fn each_entry_has_its_own_field() {
    let short = "{\"version\":\"v22.0.0\",\"lts\":\"Jod\"},{\"version\":\"v21.0.0\",\"lts\":false}";
    assert_eq!(lts(short), Some("22.0.0".to_string()));
    let mut long = "[{\"version\":\"v24.0.0\",\"files\":[".to_string();
    for _ in 0..400 {
        long.push_str("\"linux-x64\",");
    }
    long.push_str("\"src\"],\"lts\":false},{\"version\":\"v22.1.0\",\"lts\":\"Jod\"}]");
    assert_eq!(lts(&long), Some("22.1.0".to_string()));
}

#[test]
fn entry_ends_at_its_own_brace() {
    assert_eq!(lts("[{\"version\":\"v1\",\"x\":{\"version\":\"v2\"},\"lts\":false}]"), None);
    assert_eq!(lts("[{\"x\":{\"version\":\"v2\"},\"version\":\"v1\",\"lts\":false}]"), None);
    assert_eq!(
        lts("[{\"version\":\"v1\",\"x\":{\"version\":\"v2\"},\"lts\":false},{\"version\":\"v3\"}]"),
        Some("3".to_string())
    );
}

#[test]
fn field_of_an_object_within_does_not_count() {
    assert_eq!(
        lts("[{\"version\":\"v1\",\"x\":{\"lts\":false},\"lts\":\"Jod\"}]"),
        Some("1".to_string())
    );
    assert_eq!(
        lts("[{\"version\":\"v1\",\"x\":{\"lts\":\"Jod\"},\"lts\":false}]"),
        None
    );
}

#[test]
fn braces_in_strings_do_not_count() {
    assert_eq!(lts("[{\"version\":\"v1\",\"x\":\"}\",\"lts\":false}]"), None);
    assert_eq!(lts("[{\"version\":\"v1\",\"x\":\"\\\"{\",\"lts\":false}]"), None);
    assert_eq!(
        lts("[{\"version\":\"v1\",\"x\":\"{\"},{\"version\":\"v2\",\"lts\":false}]"),
        Some("1".to_string())
    );
}

#[test]
fn field_before_the_version_counts() {
    assert_eq!(
        lts("[{\"lts\":false,\"version\":\"v2\"},{\"lts\":\"Jod\",\"version\":\"v1\"}]"),
        Some("1".to_string())
    );
}

#[test]
fn entries_without_braces() {
    assert_eq!(
        lts("\"version\":\"v2\",\"lts\":false,\"version\":\"v1\",\"lts\":\"Jod\""),
        Some("1".to_string())
    );
    assert_eq!(lts("{\"version\":\"v1\",\"lts\":\"Jod\""), Some("1".to_string()));
}

#[test]
fn entries_in_a_wrapper() {
    assert_eq!(
        lts("{\"all\":[{\"version\":\"v2\",\"lts\":false},{\"version\":\"v1\",\"lts\":\"Jod\"}]}"),
        Some("1".to_string())
    );
}

#[test]
fn long_index() {
    let mut index = "[".to_string();
    for n in 0..900 {
        index.push_str(&format!("{{\"version\":\"v{n}.0.0\",\"files\":["));
        for _ in 0..40 {
            index.push_str("\"linux-x64\",");
        }
        index.push_str("\"src\"],\"lts\":false},\n");
    }
    assert_eq!(lts(&index), None);
    index.push_str("{\"version\":\"v9.9.9\",\"lts\":\"Jod\"}]");
    assert_eq!(lts(&index), Some("9.9.9".to_string()));
}

#[test]
fn scan_steps_over_other_scripts() {
    let mut index = "[{\"version\":\"v24.0.0\",\"note\":\"".to_string();
    for _ in 0..600 {
        index.push('长');
    }
    index.push_str("\",\"lts\":false},{\"version\":\"v22.2.0\",\"lts\":\"Jod\"}]");
    assert_eq!(lts(&index), Some("22.2.0".to_string()));
}
