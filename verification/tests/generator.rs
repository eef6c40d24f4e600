use maxbench::ExtractError;
use maxbench::doc::{make_json, render_document};
use maxbench::stream::{parse_values, streaming_max};

#[test]
fn size_five_yields_four_elements() {
    let doc = make_json(5);
    let values = parse_values(&doc).unwrap();
    assert_eq!(values.len(), 4);
    // each element is a valid unsigned 64-bit decimal literal: rendering
    // the parsed values reproduces the document exactly
    assert_eq!(render_document(&values), doc);
}

#[test]
fn size_one_yields_an_empty_array() {
    let doc = make_json(1);
    assert_eq!(parse_values(&doc), Ok(vec![]));
    // the streaming extractor must surface the empty array as a failure
    assert_eq!(streaming_max(&doc), Err(ExtractError::NoValues));
}

#[test]
fn size_zero_also_yields_an_empty_array() {
    let doc = make_json(0);
    assert_eq!(parse_values(&doc), Ok(vec![]));
}

#[test]
fn generated_documents_parse_for_every_small_size() {
    let mut n: usize = 1;
    while n <= 10 {
        let doc = make_json(n);
        let values = parse_values(&doc).unwrap();
        assert_eq!(values.len(), n - 1);
        n += 1;
    }
}
