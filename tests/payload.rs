use graphrag_search::payload::{
    clean_json_array, extract_json_array, normalize_json_payload, normalize_note_id,
    truncate_for_extraction,
};

#[test]
fn payload_strips_fence_and_whitespace() {
    assert_eq!(normalize_json_payload("  ```json\n{\"a\": 1}\n```  "), "{\"a\": 1}");
    assert_eq!(normalize_json_payload("```\r\n{\"a\":1}\r\n```"), "{\"a\":1}");
}

#[test]
fn payload_cuts_to_braces() {
    assert_eq!(normalize_json_payload("Here is: {\"x\": [1]} thanks"), "{\"x\": [1]}");
    assert_eq!(normalize_json_payload("} before {"), "} before {");
    assert_eq!(normalize_json_payload("no braces"), "no braces");
    assert_eq!(normalize_json_payload("   "), "");
}

#[test]
fn payload_fence_without_newline_is_empty() {
    assert_eq!(normalize_json_payload("```json"), "");
}

#[test]
fn array_after_key_skips_brackets_in_strings() {
    let payload = "{\"entities\": [{\"name\": \"a]\"}, [1,2]], \"x\": 1}";
    assert_eq!(extract_json_array(payload, "entities").as_deref(), Some("[{\"name\": \"a]\"}, [1,2]]"));
    let escaped = "\"k\": [\"a\\\"]\"] tail";
    assert_eq!(extract_json_array(escaped, "k").as_deref(), Some("[\"a\\\"]\"]"));
}

#[test]
fn array_missing_cases() {
    assert_eq!(extract_json_array("{\"a\": [1]}", "relationships"), None);
    assert_eq!(extract_json_array("{\"entities\": 3}", "entities"), None);
    assert_eq!(extract_json_array("{\"entities\": [1, 2", "entities"), None);
}

#[test]
fn array_cleanup() {
    assert_eq!(clean_json_array("[1,2,]\n\r"), "[1,2]");
    assert_eq!(clean_json_array("[\n{\"a\": 1},\n]"), "[{\"a\": 1},]");
    assert_eq!(clean_json_array(""), "");
}

#[test]
fn extraction_text_bounds() {
    assert_eq!(truncate_for_extraction("abcdef", 3), "abc\n\n[truncated]");
    assert_eq!(truncate_for_extraction("abc", 3), "abc\n\n[truncated]");
    assert_eq!(truncate_for_extraction("ab", 3), "ab");
    assert_eq!(truncate_for_extraction("abcdef", 0), "abcdef");
    assert_eq!(truncate_for_extraction("ééé", 2), "éé\n\n[truncated]");
}

#[test]
fn note_ids_gain_prefix() {
    assert_eq!(normalize_note_id("123"), "note:123");
    assert_eq!(normalize_note_id("note:5"), "note:5");
    assert_eq!(normalize_note_id(""), "note:");
}
