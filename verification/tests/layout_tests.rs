use raster_font::layout::OrdTokenLayout;
use raster_font::token::{Sequence, Token, TokenParsingError, Unique};
use std::str::FromStr;

#[test]
fn test_vec_parser() {
    let text = r#"a$\\($(bc)d$(ef)$($g)$(h|(H) |$(x|y)$(|||)$(||a|)$(\||a|)"#;
    let layout = OrdTokenLayout::parse(text);

    let expected = OrdTokenLayout::from_tokens(vec![
        Token::from(Sequence::from('a')),
        Token::from(Sequence::from('$')),
        Token::from(Sequence::from('\\')),
        Token::from(Sequence::from('(')),
        Token::from(Sequence::new_unchecked("bc")),
        Token::from(Sequence::from('d')),
        Token::from(Sequence::new_unchecked("ef")),
        Token::from(Sequence::new_unchecked("$g")),
        Token::from(vec![Sequence::from('h'), Sequence::new_unchecked("(H")]),
        Token::from(Sequence::from(' ')),
        Token::from(Sequence::from('|')),
        Token::from(vec![Sequence::from('x'), Sequence::from('y')]),
        Token::from(Sequence::from('a')),
        Token::from(vec![Sequence::from('|'), Sequence::from('a')]),
    ]);

    for (i, token) in layout.iter_tokens().enumerate() {
        println!("Token {}: {}", i, token.to_layout_string());
        assert_eq!(token, &expected.tokens()[i]);
    }
}

fn remove_spaces(s: &str) -> String {
    s.chars().filter(|c| !c.is_whitespace()).collect()
}

#[test]
fn can_escape() {
    let text = r#"$( a \4 \$(b\) | $b )c\d\$($\()$(x)"#;
    let text = remove_spaces(text);
    let tokens = OrdTokenLayout::from_str(&text).unwrap();

    let expected = OrdTokenLayout::from_tokens(vec![
        Token::from(vec![
            Sequence::new_unchecked("a4$(b)"),
            Sequence::new_unchecked("$b"),
        ]),
        Token::from(Sequence::new_unchecked("c")),
        Token::from(Sequence::new_unchecked("d")),
        Token::from(Sequence::new_unchecked("$")),
        Token::from(Sequence::new_unchecked("(")),
        Token::from(Sequence::new_unchecked("$")),
        Token::from(Sequence::new_unchecked("(")),
        Token::from(Sequence::new_unchecked(")")),
        Token::from(Sequence::new_unchecked("x")),
    ]);
    assert_eq!(tokens, expected);
}

#[test]
fn with_spaces() -> Result<(), TokenParsingError> {
    let text = r#"$( a \4 \$(b\) | $b )"#;

    let tokens = OrdTokenLayout::from_str(text)?;
    let expected = OrdTokenLayout::from_tokens(vec![Token::from(vec![
        Sequence::new_unchecked(" a 4 $(b) "),
        Sequence::new_unchecked(" $b "),
    ])]);
    assert_eq!(tokens, expected);

    Ok(())
}

#[test]
fn layout_docs_abc() {
    let layout = OrdTokenLayout::parse("abc");
    let unique = layout.unique();
    assert_eq!(unique.num_regions, 3);
    assert_eq!(unique.sequences.len(), 3);

    let mut token_iter = layout.iter_tokens();
    assert_eq!(token_iter.next(), Some(&Token::from(Sequence::from('a'))));
    assert_eq!(token_iter.next(), Some(&Token::from(Sequence::from('b'))));
    assert_eq!(token_iter.next(), Some(&Token::from(Sequence::from('c'))));
    assert_eq!(token_iter.next(), None);
}

#[test]
fn layout_docs_union() {
    let layout = OrdTokenLayout::parse("$(Hello|hello)!");
    let unique = layout.unique();
    assert_eq!(unique.num_regions, 2);
    assert_eq!(unique.sequences.len(), 3);

    let mut token_iter = layout.iter_tokens();
    assert_eq!(
        token_iter.next(),
        Some(&Token::from(vec![
            Sequence::new_unchecked("Hello"),
            Sequence::new_unchecked("hello")
        ]))
    );
    assert_eq!(token_iter.next(), Some(&Token::from(Sequence::from('!'))));
    assert_eq!(token_iter.next(), None);
}

#[test]
fn layout_docs_escaped_group() {
    let ord_layout = r#"a$(\$(bc|de))"#.parse::<OrdTokenLayout>().unwrap();

    let unique = ord_layout.unique();
    assert_eq!(unique.num_regions, 3);
    assert_eq!(unique.sequences.len(), 4);

    let mut seq_iter = ord_layout.iter_sequences().into_iter();
    assert_eq!(seq_iter.next(), Some(&Sequence::from('a')));
    assert_eq!(seq_iter.next(), Some(&Sequence::new_unchecked("$(bc")));
    assert_eq!(seq_iter.next(), Some(&Sequence::new_unchecked("de")));
    assert_eq!(seq_iter.next(), Some(&Sequence::from(')')));
    assert_eq!(seq_iter.next(), None);
}

#[test]
fn unique_shared_sequences() {
    // Each token holds at least one sequence that no earlier token holds.
    let layout = OrdTokenLayout::parse("b$(a|b)c$(cc|d|cc)");
    let unique = layout.unique();
    assert_eq!(unique.sequences.len(), 5);
    assert_eq!(unique.num_regions, 4);
}

#[test]
fn unique_token_with_one_new_sequence_counts() {
    let a = Token::from('a');
    let ab = Token::from(vec![Sequence::from('a'), Sequence::from('b')]);
    let unique = Unique::from_tokens(&vec![&a, &ab]);
    assert_eq!(unique.num_regions, 2);
    assert_eq!(unique.sequences.len(), 2);
}

#[test]
fn unique_repeated_sequence_in_one_token() {
    let aa = Token::from(vec![Sequence::from('a'), Sequence::from('a')]);
    let unique = Unique::from_tokens(&vec![&aa]);
    assert_eq!(unique.num_regions, 1);
    assert_eq!(unique.sequences.len(), 1);
}

#[test]
fn unique_token_of_known_sequences_shares() {
    let layout = OrdTokenLayout::parse("ab$(a|b)");
    assert_eq!(layout.unique().num_regions, 2);
}

#[test]
fn layout_round_trip_and_builders() {
    let layout = OrdTokenLayout::new()
        .with(Token::from('a'))
        .with(Token::from(Sequence::new_unchecked("->")))
        .with(Token::from(Sequence::new_unchecked("=>")));
    let text = layout.to_layout_string();
    assert_eq!(text, "a$(->)$(=>)");
    assert_eq!(OrdTokenLayout::parse(&text), layout);

    // In a layout the first `)` closes a group.
    assert_eq!(
        OrdTokenLayout::parse("$(:))"),
        OrdTokenLayout::from_tokens(vec![Token::from(':'), Token::from(')')])
    );

    // A union token and reserved characters read back as written.
    let layout = OrdTokenLayout::parse("$(->|=>)a");
    assert_eq!(layout.to_layout_string(), "$(->|=>)a");
    assert_eq!(OrdTokenLayout::from_str(&layout.to_layout_string()).unwrap(), layout);
    let odd = OrdTokenLayout::from_tokens(vec![
        Token::from('$'),
        Token::from('('),
        Token::from(Sequence::new_unchecked(":)")),
        Token::from(vec![Sequence::from('|'), Sequence::new_unchecked("\\$")]),
    ]);
    let text = odd.to_layout_string();
    assert_eq!(text, "\\$($(:\\))$(\\||\\\\\\$)");
    assert_eq!(OrdTokenLayout::parse(&text), odd);

    let mut l2 = OrdTokenLayout::default();
    l2.push(Token::from('z'));
    assert_eq!(l2.tokens().len(), 1);
}

#[test]
fn layout_errors() {
    assert_eq!(
        OrdTokenLayout::try_parse("ab$(cd").unwrap_err(),
        TokenParsingError::Syntax { position: 6 }
    );
    assert_eq!(
        OrdTokenLayout::try_parse("ab\\").unwrap_err(),
        TokenParsingError::Syntax { position: 3 }
    );
    assert_eq!(OrdTokenLayout::parse("").tokens().len(), 0);
}
