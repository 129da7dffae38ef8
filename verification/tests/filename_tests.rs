use mailfilter::filename::envelope_filename;

#[test]
fn test_envelope_filename() {
    assert_eq!(envelope_filename(""), "");
    assert_eq!(envelope_filename("!@#!##!@#"), "");
    assert_eq!(envelope_filename("hello!@#!##!@#world"), "hello_world");
    assert_eq!(envelope_filename("hello!@#!##!@#world###"), "hello_world");
    let long_filename: String = (0..=256).map(|_| 'A').collect::<String>();
    assert_eq!(envelope_filename(&long_filename), "AAAAAAAAAAAAAAAAAAAAAAAAAAAAAAAAAAAAAAAAAAAAAAAAAAAAAAAAAAAAAAAAAAAAAAAAAAAAAAAAAAAAAAAAAAAAAAAAAAAAAAAAAAAAAAAAAAAAAAAAAAAAAAAAAAAAAAAAAAAAAAAAAAAAAAAAAAAAAAAAAAAAAAAAAAAAAAAAAAAAAAAAAAAAAAAAAAAAAAAAAAAAAAAAAAAAAAAAAAAAAAAAAAAAAAAAAAAAAAAAAAAAAAAAAAA");
}

#[test]
fn test_envelope_filename_truncates_to_251() {
    let long_filename: String = (0..=256).map(|_| 'A').collect::<String>();
    assert_eq!(envelope_filename(&long_filename).len(), 251);
}

#[test]
fn test_envelope_filename_keeps_leading_underscore() {
    assert_eq!(envelope_filename("!hello"), "_hello");
    assert_eq!(envelope_filename("a-b c"), "a_b_c");
}
