use word_mangler::string_reader::{digit_of, ReadError, StringReader};
use word_mangler::text::{chars_of, join_sources, string_of};

#[test]
fn read_gives_characters_in_order() {
    let mut r = StringReader::from_string("ab");
    assert_eq!(r.read(), Ok('a'));
    assert_eq!(r.read(), Ok('b'));
    assert_eq!(r.read(), Err(ReadError::Exhausted));
    assert_eq!(r.read(), Err(ReadError::Exhausted));
}

#[test]
fn read_counts_characters_not_bytes() {
    let mut r = StringReader::from_string("é€x");
    assert_eq!(r.read(), Ok('é'));
    assert_eq!(r.read(), Ok('€'));
    assert_eq!(r.read(), Ok('x'));
    assert_eq!(r.read(), Err(ReadError::Exhausted));
}

#[test]
fn new_starts_at_the_first_character() {
    let mut r = StringReader::new(vec!['x', 'y']);
    assert_eq!(r.read(), Ok('x'));
}

#[test]
fn empty_reader_is_exhausted() {
    let mut r = StringReader::from_string("");
    assert_eq!(r.read(), Err(ReadError::Exhausted));
    assert_eq!(r.read_usize(), Err(ReadError::Exhausted));
    assert_eq!(r.skip_line(), Ok(()));
    assert_eq!(r.read(), Err(ReadError::Exhausted));
}

#[test]
fn read_usize_reads_one_digit_in_radix_35() {
    let mut r = StringReader::from_string("09ayAY");
    assert_eq!(r.read_usize(), Ok(0));
    assert_eq!(r.read_usize(), Ok(9));
    assert_eq!(r.read_usize(), Ok(10));
    assert_eq!(r.read_usize(), Ok(34));
    assert_eq!(r.read_usize(), Ok(10));
    assert_eq!(r.read_usize(), Ok(34));
    assert_eq!(r.read_usize(), Err(ReadError::Exhausted));
}

#[test]
fn read_usize_rejects_and_consumes_what_is_no_digit() {
    let mut r = StringReader::from_string("z!Z7");
    assert_eq!(r.read_usize(), Err(ReadError::InvalidDigit));
    assert_eq!(r.read_usize(), Err(ReadError::InvalidDigit));
    assert_eq!(r.read_usize(), Err(ReadError::InvalidDigit));
    assert_eq!(r.read_usize(), Ok(7));
}

#[test]
fn digit_of_agrees_with_the_standard_conversion() {
    let mut code: u32 = 0;
    while code < 0x3000 {
        if let Some(c) = char::from_u32(code) {
            assert_eq!(digit_of(c), c.to_digit(35).map(|d| d as usize));
        }
        code += 1;
    }
}

#[test]
fn skip_line_stops_behind_the_terminator() {
    let mut r = StringReader::from_string("abc\ndef\n\nx");
    assert_eq!(r.skip_line(), Ok(()));
    assert_eq!(r.read(), Ok('d'));
    assert_eq!(r.skip_line(), Ok(()));
    assert_eq!(r.skip_line(), Ok(()));
    assert_eq!(r.read(), Ok('x'));
    assert_eq!(r.skip_line(), Ok(()));
    assert_eq!(r.read(), Err(ReadError::Exhausted));
}

#[test]
fn skip_line_without_terminator_reaches_the_end() {
    let mut r = StringReader::from_string("abc");
    assert_eq!(r.skip_line(), Ok(()));
    assert_eq!(r.read(), Err(ReadError::Exhausted));
}

#[test]
fn chars_and_strings_convert_both_ways() {
    assert_eq!(chars_of("aé€"), vec!['a', 'é', '€']);
    assert_eq!(chars_of(""), Vec::<char>::new());
    assert_eq!(string_of(&vec!['a', 'é', '€']), "aé€");
    assert_eq!(string_of(&Vec::new()), "");
}

#[test]
fn sources_are_joined_with_terminators() {
    assert_eq!(join_sources(&Vec::new()), "");
    assert_eq!(join_sources(&vec!["l".to_string()]), "l\n");
    assert_eq!(join_sources(&vec!["l\nu".to_string(), "".to_string(), "r\n".to_string()]), "l\nu\n\nr\n\n");
}
