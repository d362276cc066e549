use more_iced_aw::decimal::ParseNumberError;
use more_iced_aw::parsed_input::Content;
use more_iced_aw::parsed_input::Parsed;

type NumberContent = Content<u64, ParseNumberError>;
type NumberParsed = Parsed<u64, ParseNumberError>;

#[test]
fn new_content_is_valid_and_holds_the_value() {
    let content: NumberContent = Content::new(42);
    assert!(content.is_valid());
    assert_eq!(*content.value(), 42);
    assert_eq!(content.text().as_str(), "42");
    assert!(content.get_error().is_none());
}

#[test]
fn update_with_valid_text_replaces_the_value() {
    let mut content: NumberContent = Content::new(42);
    content.update(Parsed::from_string("100"));
    assert!(content.is_valid());
    assert_eq!(*content.value(), 100);
    assert_eq!(content.text().as_str(), "100");
}

#[test]
fn update_with_malformed_text_keeps_the_value() {
    let mut content: NumberContent = Content::new(42);
    content.update(Parsed::from_string("10x"));
    assert!(!content.is_valid());
    assert_eq!(*content.get_error(), Some(ParseNumberError::InvalidDigit));
    assert_eq!(*content.value(), 42);
    assert_eq!(content.text().as_str(), "10x");
}

#[test]
fn update_recovers_after_an_error() {
    let mut content: NumberContent = Content::new(42);
    content.update(Parsed::from_string(""));
    assert!(!content.is_valid());
    assert_eq!(*content.get_error(), Some(ParseNumberError::Empty));
    content.update(Parsed::from_string("7"));
    assert!(content.is_valid());
    assert_eq!(*content.value(), 7);
}

#[test]
fn scoped_mutation_rederives_the_text() {
    let content: NumberContent = Content::new(42);
    let mut borrow = content.borrow_mut();
    assert_eq!(*borrow.value(), 42);
    borrow.set(7);
    let content = borrow.finish();
    assert!(content.is_valid());
    assert_eq!(*content.value(), 7);
    assert_eq!(content.text().as_str(), "7");
}

#[test]
fn scoped_mutation_through_the_mutable_reference() {
    let mut content: NumberContent = Content::new(1);
    content.update(Parsed::from_string("bad"));
    assert!(!content.is_valid());
    let mut borrow = content.borrow_mut();
    *borrow.value_mut() += 1;
    let content = borrow.finish();
    assert!(content.is_valid());
    assert_eq!(*content.value(), 2);
    assert_eq!(content.text().as_str(), "2");
}

#[test]
fn parsed_from_value_carries_the_canonical_text() {
    let parsed: NumberParsed = Parsed::from_value(305);
    assert_eq!(parsed.get_string().as_str(), "305");
    assert_eq!(*parsed.get_result(), Ok(305));
    let (string, result) = parsed.take();
    assert_eq!(string.as_str(), "305");
    assert_eq!(result, Ok(305));
}

#[test]
fn parsed_from_string_accepts_leading_zeros() {
    let parsed: NumberParsed = Parsed::from_string("007");
    assert_eq!(*parsed.get_result(), Ok(7));
    assert_eq!(parsed.get_string().as_str(), "007");
    let mut content: NumberContent = Content::new(1);
    content.update(parsed);
    assert!(content.is_valid());
    assert_eq!(*content.value(), 7);
    // The displayed text stays what the user typed.
    assert_eq!(content.text().as_str(), "007");
}
