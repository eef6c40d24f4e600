use maxbench::ExtractError;
use maxbench::doc::render_document;
use maxbench::stream::{parse_values, streaming_max};
use maxbench::whole::whole_max;

#[test]
fn regression_both_extractors_return_nine() {
    let doc = render_document(&vec![3, 1, 4, 1, 5, 9, 2, 6]);
    assert_eq!(streaming_max(&doc), Ok(9));
    assert_eq!(whole_max(&doc), Ok(9));
}

#[test]
fn rendered_template_is_exact() {
    let doc = render_document(&vec![3, 1, 4, 1, 5, 9, 2, 6]);
    let expected = "{\n        \"id\": \"demo-deserialize-max\",\n        \"values\": [\n            3,\n1,\n4,\n1,\n5,\n9,\n2,\n6\n        ]\n    }";
    assert_eq!(doc, expected);
}

#[test]
fn extractors_agree_on_nonempty_documents() {
    let cases: Vec<Vec<u64>> = vec![
        vec![0],
        vec![7],
        vec![0, 0, 0],
        vec![1, 2, 3, 4, 5],
        vec![5, 4, 3, 2, 1],
        vec![42, 42],
        vec![u64::MAX, 1, u64::MAX - 1],
    ];
    for values in cases {
        let expected = *values.iter().max().unwrap();
        let doc = render_document(&values);
        assert_eq!(streaming_max(&doc), Ok(expected));
        assert_eq!(whole_max(&doc), Ok(expected));
    }
}

#[test]
fn empty_array_diverges_between_strategies() {
    let doc = render_document(&vec![]);
    assert_eq!(streaming_max(&doc), Err(ExtractError::NoValues));
    assert_eq!(whole_max(&doc), Ok(0));
}

#[test]
fn single_maximal_value_survives_the_round_trip() {
    let doc = render_document(&vec![u64::MAX]);
    assert_eq!(streaming_max(&doc), Ok(u64::MAX));
    assert_eq!(whole_max(&doc), Ok(u64::MAX));
    assert_eq!(parse_values(&doc), Ok(vec![u64::MAX]));
}

#[test]
fn compact_document_is_accepted() {
    let doc = "{\"id\":\"x\",\"values\":[3,1,4,1,5,9,2,6]}";
    assert_eq!(streaming_max(doc), Ok(9));
    assert_eq!(whole_max(doc), Ok(9));
    assert_eq!(parse_values(doc), Ok(vec![3, 1, 4, 1, 5, 9, 2, 6]));
}

#[test]
fn member_order_does_not_matter() {
    let doc = "{\"values\":[3,9],\"id\":\"x\"}";
    assert_eq!(streaming_max(doc), Ok(9));
    assert_eq!(whole_max(doc), Ok(9));
}

#[test]
fn whitespace_may_stand_anywhere_between_tokens() {
    let doc = " {\t\"id\" : \"x\" ,\r\n \"values\" : [ 1 , 2 ]\n } ";
    assert_eq!(streaming_max(doc), Ok(2));
    assert_eq!(whole_max(doc), Ok(2));
    let empty = "{\"id\":\"x\",\"values\":[ ]}";
    assert_eq!(streaming_max(empty), Err(ExtractError::NoValues));
    assert_eq!(whole_max(empty), Ok(0));
}

#[test]
fn escaped_id_content_is_accepted_and_ignored() {
    let escaped = "{\"id\":\"a\\\"b\",\"values\":[5]}";
    let plain = "{\"id\":\"ab\",\"values\":[5]}";
    let unicode = "{\"id\":\"\\u0041\\n\",\"values\":[5]}";
    assert_eq!(streaming_max(escaped), Ok(5));
    assert_eq!(streaming_max(plain), Ok(5));
    assert_eq!(streaming_max(unicode), Ok(5));
    assert_eq!(whole_max(escaped), Ok(5));
}

#[test]
fn invalid_string_content_is_rejected() {
    // a raw control character inside the id is not valid JSON
    let control = "{\"id\":\"a\x01b\",\"values\":[1]}";
    assert_eq!(streaming_max(control), Err(ExtractError::Malformed));
    assert_eq!(whole_max(control), Err(ExtractError::Malformed));
    // an unknown escape is not valid JSON either
    let bad_escape = "{\"id\":\"a\\qb\",\"values\":[1]}";
    assert_eq!(streaming_max(bad_escape), Err(ExtractError::Malformed));
    // a truncated hex escape
    let bad_hex = "{\"id\":\"\\u00g1\",\"values\":[1]}";
    assert_eq!(streaming_max(bad_hex), Err(ExtractError::Malformed));
}

#[test]
fn streaming_ignores_the_id_content() {
    // the id must be present and structurally a string, but its content
    // does not matter
    let doc = "{\n        \"id\": \"some other id\",\n        \"values\": [\n            5,\n11\n        ]\n    }";
    assert_eq!(streaming_max(doc), Ok(11));
    assert_eq!(whole_max(doc), Ok(11));
    let empty_id = "{\n        \"id\": \"\",\n        \"values\": [\n            5\n        ]\n    }";
    assert_eq!(streaming_max(empty_id), Ok(5));
}

#[test]
fn streaming_rejects_an_unterminated_id() {
    let doc = "{\n        \"id\": \"never closed";
    assert_eq!(streaming_max(doc), Err(ExtractError::Malformed));
}

#[test]
fn streaming_rejects_a_leading_zero() {
    let doc = "{\n        \"id\": \"demo-deserialize-max\",\n        \"values\": [\n            007\n        ]\n    }";
    assert_eq!(streaming_max(doc), Err(ExtractError::Malformed));
    // a leading zero is not valid JSON either, so the whole-document path
    // rejects it as well
    assert_eq!(whole_max(doc), Err(ExtractError::Malformed));
}

#[test]
fn streaming_rejects_a_value_over_sixty_four_bits() {
    let doc = "{\n        \"id\": \"demo-deserialize-max\",\n        \"values\": [\n            18446744073709551616\n        ]\n    }";
    assert_eq!(streaming_max(doc), Err(ExtractError::Malformed));
}

#[test]
fn malformed_text_is_rejected_by_both() {
    assert_eq!(streaming_max("not a document"), Err(ExtractError::Malformed));
    assert_eq!(whole_max("not a document"), Err(ExtractError::Malformed));
    assert_eq!(parse_values(""), Err(ExtractError::Malformed));
}

#[test]
fn whole_path_reads_any_json_with_a_values_array() {
    // the generic tree walk does not require the generator's template
    assert_eq!(whole_max("{\"values\":[1,2,3]}"), Ok(3));
    assert_eq!(whole_max("{\"values\":[]}"), Ok(0));
    assert_eq!(whole_max("{\"id\":\"x\"}"), Err(ExtractError::Malformed));
    assert_eq!(whole_max("{\"values\":[1.5]}"), Err(ExtractError::Malformed));
    assert_eq!(whole_max("{\"values\":[-1]}"), Err(ExtractError::Malformed));
}

#[test]
fn errors_carry_their_messages() {
    assert_eq!(ExtractError::NoValues.message(), "no values in seq");
    assert_eq!(ExtractError::Malformed.message(), "malformed document");
}

#[test]
fn parse_values_returns_the_whole_array() {
    let doc = render_document(&vec![10, 20, 5]);
    assert_eq!(parse_values(&doc), Ok(vec![10, 20, 5]));
    let empty = render_document(&vec![]);
    assert_eq!(parse_values(&empty), Ok(vec![]));
}
