use cue_sheet::errors::{Error, LexicalError};
use cue_sheet::parser::{tokenize, Reader, Time, Token};

#[test]
fn try_take_time() {
    let mut r1 = Reader::new("10:11:12");
    assert_eq!(r1.try_take_time(), Some(Time::new(10, 11, 12)));

    let mut r2 = Reader::new("10");
    assert_eq!(r2.try_take_time(), None);

    let mut r3 = Reader::new(" ");
    assert_eq!(r3.try_take_time(), None);
}

#[test]
fn try_take_number() {
    let mut r1 = Reader::new("12");
    assert_eq!(r1.try_take_number(), Some(12));

    let mut r2 = Reader::new("xyz");
    assert_eq!(r2.try_take_number(), None);

    let mut r3 = Reader::new(" ");
    assert_eq!(r3.try_take_number(), None);
}

#[test]
fn string_starting_with_num() {
    let mut r1 = Reader::new("860B640B");
    assert_eq!(r1.try_take_number(), None);
    assert_eq!(r1.take_string().unwrap(), "860B640B".to_string());
}

#[test]
fn take_string() {
    let mut r1 = Reader::new("abc");
    assert_eq!(r1.take_string().unwrap(), "abc".to_string());

    let mut r2 = Reader::new("\"abc\"");
    assert_eq!(r2.take_string().unwrap(), "abc".to_string());
}

#[test]
fn basic_types() {
    let source = r#"ABC 12 10:10:30 Abc"#;
    let tokens = tokenize(source).unwrap();

    println!("{:?}", tokens);
    assert_eq!(tokens.len(), 4);
    assert_eq!(tokens[0], Token::String("ABC".to_string()));
    assert_eq!(tokens[1], Token::Number(12));
    assert_eq!(tokens[2], Token::Time(Time::new(10, 10, 30)));
    assert_eq!(tokens[3], Token::String("Abc".to_string()));
}

#[test]
fn test_strings() {
    let source = r#"ABC "xyz xyz 12 10:10:30" " abc ""#;
    let tokens = tokenize(source).unwrap();

    println!("{:?}", tokens);
    assert_eq!(tokens.len(), 3);
    assert_eq!(tokens[0], Token::String("ABC".to_string()));
    assert_eq!(tokens[1], Token::String("xyz xyz 12 10:10:30".to_string()));
    assert_eq!(tokens[2], Token::String(" abc ".to_string()));
}

#[test]
fn digit_runs_of_other_lengths_are_strings() {
    let tokens = tokenize("1").unwrap();
    assert_eq!(tokens, vec![Token::String("1".to_string())]);

    let tokens = tokenize("123").unwrap();
    assert_eq!(tokens, vec![Token::String("123".to_string())]);

    let tokens = tokenize("12345678").unwrap();
    assert_eq!(tokens, vec![Token::String("12345678".to_string())]);

    let tokens = tokenize("12").unwrap();
    assert_eq!(tokens, vec![Token::Number(12)]);
}

#[test]
fn embedded_digit_runs_are_strings() {
    let tokens = tokenize("REM DISCID 860B640B 1991 12 rest").unwrap();
    assert_eq!(
        tokens,
        vec![
            Token::String("REM".to_string()),
            Token::String("DISCID".to_string()),
            Token::String("860B640B".to_string()),
            Token::String("1991".to_string()),
            Token::Number(12),
            Token::String("rest".to_string()),
        ]
    );
}

#[test]
fn two_digits_followed_by_more_text_are_a_string() {
    let tokens = tokenize("12abc").unwrap();
    assert_eq!(tokens, vec![Token::String("12abc".to_string())]);
}

#[test]
fn unclosed_quote_is_an_error() {
    assert_eq!(
        tokenize("TITLE \"abc"),
        Err(Error::Lexical(LexicalError::UnclosedQuote))
    );
}

#[test]
fn quote_inside_bare_string_is_an_error() {
    assert_eq!(
        tokenize("ab\"c"),
        Err(Error::Lexical(LexicalError::QuoteInBareString))
    );
}

#[test]
fn reading_past_the_end_is_an_error() {
    let mut r = Reader::new("");
    assert_eq!(
        r.take_string(),
        Err(Error::Lexical(LexicalError::ReadPastEnd))
    );
    assert!(!r.available());
}

#[test]
fn bom_and_whitespace_are_skipped() {
    let tokens = tokenize("\u{feff}  ABC\t12\n").unwrap();
    assert_eq!(tokens.len(), 2);
    assert_eq!(tokens[0], Token::String("ABC".to_string()));
    assert_eq!(tokens[1], Token::Number(12));
}
