use raster_font::token::{Sequence, Token, TokenParsingError};
use std::str::FromStr;

#[test]
fn test_simple() {
    let t = Token::parse("$(:))").unwrap();
    println!("{}", t.to_layout_string());
    assert_eq!(t, Token::from(Sequence::new_unchecked(":)")));
}

#[test]
fn token_parser() {
    assert_eq!(Token::from('a'), Token::from(Sequence::new_unchecked("a")));
    assert!(Token::from_str(r#"$a"#).is_err());
    assert_eq!(
        Token::from_str(r#"$($a)"#).unwrap(),
        Token::from(Sequence::new_unchecked("$a"))
    );

    assert_eq!(
        Token::from_str("$($bc)").unwrap(),
        Token::from(Sequence::new_unchecked("$bc"))
    );
    assert_eq!(
        Token::from_str("$(abc)").unwrap(),
        Token::from(Sequence::new_unchecked("abc"))
    );
    assert_eq!(
        Token::from_str("$(\\|)").unwrap(),
        Token::from(Sequence::new_unchecked("|"))
    );

    assert!(Token::from_str(r#"\$(abc)"#).is_err());
    assert_eq!(
        Token::from_str(r#"$(\$(abc)"#).unwrap(),
        Token::from(Sequence::new_unchecked("$(abc"))
    );

    assert!(Token::from_str(r#"$(abc\)"#).is_err());
    assert_eq!(
        Token::from_str(r#"$(abc\))"#).unwrap(),
        Token::from(Sequence::new_unchecked("abc)"))
    );
    assert_eq!(
        Token::from_str("$(a|b|c)").unwrap(),
        Token::from(vec![
            Sequence::new_unchecked("a"),
            Sequence::new_unchecked("b"),
            Sequence::new_unchecked("c")
        ])
    );
    assert_eq!(
        Token::from_str(r#"$(a|$bc|\|||foo)"#).unwrap(),
        Token::from(vec![
            Sequence::new_unchecked("a"),
            Sequence::new_unchecked("$bc"),
            Sequence::new_unchecked("|"),
            Sequence::new_unchecked("foo")
        ])
    );
    assert_eq!(
        Token::from_str(r#"$(a|$bc|\||foo|\$($dc\))"#).unwrap(),
        Token::from(vec![
            Sequence::new_unchecked("a"),
            Sequence::new_unchecked("$bc"),
            Sequence::new_unchecked("|"),
            Sequence::new_unchecked("foo"),
            Sequence::new_unchecked("$($dc)")
        ])
    );
}

#[test]
fn token_docs_examples() {
    let one_sequence = Token::parse("a").unwrap();
    assert_eq!(one_sequence.len(), 1);
    assert_eq!(one_sequence.first().unwrap().as_str(), "a");

    let two_sequences = Token::parse("$(->|=>)").unwrap();
    assert_eq!(two_sequences.len(), 2);
    let mut iter = two_sequences.iter();
    assert_eq!(iter.next().unwrap().as_str(), "->");
    assert_eq!(iter.next().unwrap().as_str(), "=>");

    // An unclosed group stops at the end of the input.
    assert_eq!(
        Token::parse(r#"$(\$(|\|"#).unwrap_err(),
        TokenParsingError::Syntax { position: 8 }
    );
    let t = Token::parse(r#"$(\$(|\|)"#).unwrap();
    assert_eq!(t.len(), 2);
    let mut iter = t.iter();
    assert_eq!(iter.next().unwrap().as_str(), "$(");
    assert_eq!(iter.next().unwrap().as_str(), "|");
}

#[test]
fn token_errors() {
    assert_eq!(Token::parse("").unwrap_err(), TokenParsingError::UnexpectedEOI);
    assert_eq!(Token::parse("$(||)").unwrap_err(), TokenParsingError::UnexpectedEOI);
    assert_eq!(Token::parse("ab").unwrap_err(), TokenParsingError::Syntax { position: 1 });
    assert_eq!(Token::parse("\\").unwrap_err(), TokenParsingError::Syntax { position: 1 });
    assert_eq!(Token::parse("$(a$(b)").unwrap_err(), TokenParsingError::Syntax { position: 3 });
}

#[test]
fn token_round_trip() {
    for s in ["a", "$(->)", "$(:))", "$(Samwise)", "$($b)", "$(ab$)"] {
        let t = Token::parse(s).unwrap();
        assert_eq!(Token::parse(&t.to_layout_string()).unwrap(), t);
    }
    let t = Token::from(vec![Sequence::from('x'), Sequence::new_unchecked("yz")]);
    assert_eq!(t.to_layout_string(), "$(x|yz)");
    assert_eq!(Token::parse(&t.to_layout_string()).unwrap(), t);
}

#[test]
fn union_token_is_written_as_one_group() {
    let t = Token::parse("$(->|=>)").unwrap();
    assert_eq!(t.to_layout_string(), "$(->|=>)");
    assert_eq!(Token::from_str(&t.to_layout_string()).ok(), Some(t));
}

#[test]
fn reserved_characters_are_escaped_when_written() {
    let t = Token::from(vec![
        Sequence::new_unchecked("$("),
        Sequence::from('|'),
        Sequence::from(')'),
        Sequence::new_unchecked("a\\b"),
    ]);
    let text = t.to_layout_string();
    assert_eq!(text, "$(\\$(|\\||\\)|a\\\\b)");
    assert_eq!(Token::parse(&text).unwrap(), t);
    assert_eq!(Token::from('$').to_layout_string(), "\\$");
    assert_eq!(Token::from('\\').to_layout_string(), "\\\\");
    assert_eq!(Token::from('|').to_layout_string(), "|");
    for c in ['$', '\\', '|', ')', '(', 'a'] {
        let t = Token::from(c);
        assert_eq!(Token::parse(&t.to_layout_string()).unwrap(), t);
    }
}

#[test]
fn sequence_basics() {
    assert!(Sequence::new("").is_none());
    let s = Sequence::new("héllo").unwrap();
    assert_eq!(s.len(), 5);
    assert_eq!(s.bytes().len(), 6);
    assert!(!s.is_empty());
    assert_eq!(s.chars().count(), 5);
    let t = Token::from(s.clone());
    assert_eq!(t.into_sequence().unwrap(), s);
    assert!(Token::from(Vec::new()).into_sequence().is_err());
}

#[test]
fn error_messages() {
    assert_eq!(TokenParsingError::EmptyToken.to_string(), "Empty token is not allowed");
    assert_eq!(TokenParsingError::UnexpectedEOI.to_string(), "Unexpected end of input");
    assert_eq!(
        TokenParsingError::Syntax { position: 120 }.to_string(),
        "Unexpected input at character 120"
    );
    assert_eq!(
        TokenParsingError::Syntax { position: 7 }.to_string(),
        "Unexpected input at character 7"
    );
    let t = Token::from(vec![Sequence::from('x'), Sequence::new_unchecked("yz")]);
    match t.into_sequence() {
        Err(e) => assert_eq!(e.to_string(), "Expected exactly one sequence in token, found $(x|yz)"),
        Ok(_) => panic!("two sequences"),
    }
    match Token::from(Vec::new()).into_sequence() {
        Err(e) => assert_eq!(e.to_string(), "Cannot convert empty token into a sequence"),
        Ok(_) => panic!("no sequence"),
    }
    assert_eq!(Sequence::new_unchecked("->").to_string(), "->");
}
