use bmp_reader::BMPReader;

#[test]
fn it_works() {
}

#[test]
fn empty_input_is_refused() {
    assert!(BMPReader::new(vec![]).is_err());
}
