use analysis_bridge::data_url::{strip_data_url_prefix, EncodingError, DATA_URL_PREFIX_LEN};

#[test]
fn prefix_has_twenty_two_bytes() {
    assert_eq!("data:image/png;base64,".len(), DATA_URL_PREFIX_LEN);
}

#[test]
fn data_url_of_four_a_holds_three_zero_bytes() {
    assert_eq!(strip_data_url_prefix("data:image/png;base64,AAAA"), Ok(vec![0u8, 0, 0]));
}

#[test]
fn prefix_alone_is_the_empty_image() {
    assert_eq!(strip_data_url_prefix("data:image/png;base64,"), Ok(Vec::new()));
}

#[test]
fn png_signature_comes_out_of_its_data_url() {
    assert_eq!(
        strip_data_url_prefix("data:image/png;base64,iVBORw0KGgo="),
        Ok(vec![0x89, 0x50, 0x4e, 0x47, 0x0d, 0x0a, 0x1a, 0x0a])
    );
}

#[test]
fn text_without_the_prefix_is_refused() {
    let missing = Err(EncodingError::MissingPrefix);
    assert_eq!(strip_data_url_prefix(""), missing);
    assert_eq!(strip_data_url_prefix("AAAA"), missing);
    assert_eq!(strip_data_url_prefix("data:image/png;base64"), missing);
    assert_eq!(strip_data_url_prefix("data:image/jpeg;base64,AAAA"), missing);
    assert_eq!(strip_data_url_prefix("Data:image/png;base64,AAAA"), missing);
    assert_eq!(strip_data_url_prefix(" data:image/png;base64,AAAA"), missing);
    assert_eq!(strip_data_url_prefix("data:image/png;base64;AAAA"), missing);
}

#[test]
fn only_the_prefix_at_the_start_is_taken_off() {
    assert_eq!(
        strip_data_url_prefix("data:image/png;base64,data:image/png;base64,AAAA"),
        Err(EncodingError::MalformedBase64)
    );
    assert_eq!(
        strip_data_url_prefix("AAAAdata:image/png;base64,"),
        Err(EncodingError::MissingPrefix)
    );
}

#[test]
fn text_that_is_no_base64_is_refused() {
    let malformed = Err(EncodingError::MalformedBase64);
    assert_eq!(strip_data_url_prefix("data:image/png;base64,AAA"), malformed);
    assert_eq!(strip_data_url_prefix("data:image/png;base64,AA A"), malformed);
    assert_eq!(strip_data_url_prefix("data:image/png;base64,Zh=="), malformed);
    assert_eq!(strip_data_url_prefix("data:image/png;base64,AAAA\n"), malformed);
    assert_eq!(strip_data_url_prefix("data:image/png;base64,\u{e9}AAA"), malformed);
    assert_eq!(strip_data_url_prefix("data:image/png;base64,\u{20ac}A"), malformed);
}
