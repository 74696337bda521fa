use jirai::err::ErrorKind;
use jirai::lexer::is_text;
use jirai::lexer::tokenize_string;
use jirai::lexer::Position;
use jirai::lexer::Token;
use jirai::lexer::TokenType;

const SAMPLE: &str = "(^-^)\n<3 $Heading I$\nLorem ipsum sit dolor amet. Lorem ipsum sit dolor amet.\n\n<3<3 *Heading II*\nLorem ipsum sit dolor amet. Lorem ipsum sit dolor amet. This text\ncontains a {#[link][https://alyxshang.boo]}.\n\n<3<3<3 $Heading III$\nThis paragraph contains my profile pic.\n{@[my pfp][https://avatars.githubusercontent.com/u/179976644?v=4]}\n\n<3<3 Heading IV\n\nThis is a list!\n\n~ List item 1.\n~ List item 2.\n~ List item 3.\n(^-^)\n";

#[test]
pub fn test_lexer() {
    let tokens: Vec<Token> = tokenize_string(SAMPLE).expect("Could not tokenize sample string.");
    let expected: Vec<Token> = vec![
        Token::new(
            &Position::new(&0,&5),
            &Position::new(&0,&0),
            &TokenType::DocumentLimiter,
            &None),
        Token::new(
            &Position::new(&0,&6),
            &Position::new(&0,&5),
            &TokenType::NewLine,
            &None), 
        Token::new(
            &Position::new(&1,&8),
            &Position::new(&1,&6),
            &TokenType::HeadingMarker,
            &None), 
        Token::new(
            &Position::new(&1,&9),
            &Position::new(&1,&8),
            &TokenType::UserString,
            &Some(" ".to_string())), 
        Token::new(
            &Position::new(&1,&10),
            &Position::new(&1,&9),
            &TokenType::ItalicText,
            &None), 
        Token::new(
            &Position::new(&1,&19),
            &Position::new(&1,&10),
            &TokenType::UserString,
            &Some("Heading I".to_string())), 
        Token::new(
            &Position::new(&1,&20),
            &Position::new(&1,&19),
            &TokenType::ItalicText,
            &None), 
        Token::new(
            &Position::new(&1,&21),
            &Position::new(&1,&20),
            &TokenType::NewLine,
            &None), 
        Token::new(
            &Position::new(&2,&76),
            &Position::new(&2,&21),
            &TokenType::UserString,
            &Some("Lorem ipsum sit dolor amet. Lorem ipsum sit dolor amet.".to_string())), 
        Token::new(
            &Position::new(&2,&77),
            &Position::new(&2,&76),
            &TokenType::NewLine,
            &None), 
        Token::new(
            &Position::new(&3,&78),
            &Position::new(&3,&77),
            &TokenType::NewLine,
            &None), 
        Token::new(
            &Position::new(&4,&80),
            &Position::new(&4,&78),
            &TokenType::HeadingMarker,
            &None), 
        Token::new(
            &Position::new(&4,&82),
            &Position::new(&4,&80),
            &TokenType::HeadingMarker,
            &None), 
        Token::new(
            &Position::new(&4,&83),
            &Position::new(&4,&82),
            &TokenType::UserString,
            &Some(" ".to_string())), 
        Token::new(
            &Position::new(&4,&84),
            &Position::new(&4,&83),
            &TokenType::BoldText,
            &None), 
        Token::new(
            &Position::new(&4,&94),
            &Position::new(&4,&84),
            &TokenType::UserString,
            &Some("Heading II".to_string())), 
        Token::new(
            &Position::new(&4,&95),
            &Position::new(&4,&94),
            &TokenType::BoldText,
            &None), 
        Token::new(
            &Position::new(&4,&96),
            &Position::new(&4,&95),
            &TokenType::NewLine,
            &None), 
        Token::new(
            &Position::new(&5,&161),
            &Position::new(&5,&96),
            &TokenType::UserString,
            &Some("Lorem ipsum sit dolor amet. Lorem ipsum sit dolor amet. This text".to_string())), 
        Token::new(
            &Position::new(&5,&162),
            &Position::new(&5,&161),
            &TokenType::NewLine,
            &None), 
        Token::new(
            &Position::new(&6,&173),
            &Position::new(&6,&162),
            &TokenType::UserString,
            &Some("contains a ".to_string())), 
        Token::new(
            &Position::new(&6,&174),
            &Position::new(&6,&173),
            &TokenType::OpenCurly,
            &None), 
        Token::new(
            &Position::new(&6,&175),
            &Position::new(&6,&174),
            &TokenType::LinkMarker,
            &None), 
        Token::new(
            &Position::new(&6,&176),
            &Position::new(&6,&175),
            &TokenType::OpenSquare,
            &None), 
        Token::new(
            &Position::new(&6,&180),
            &Position::new(&6,&176),
            &TokenType::UserString,
            &Some("link".to_string())), 
        Token::new(
            &Position::new(&6,&181),
            &Position::new(&6,&180),
            &TokenType::CloseSquare,
            &None), 
        Token::new(
            &Position::new(&6,&182),
            &Position::new(&6,&181),
            &TokenType::OpenSquare,
            &None), 
        Token::new(
            &Position::new(&6,&203),
            &Position::new(&6,&182),
            &TokenType::UserString, 
            &Some("https://alyxshang.boo".to_string())), 
        Token::new(
            &Position::new(&6,&204),
            &Position::new(&6,&203),
            &TokenType::CloseSquare,
            &None), 
        Token::new(
            &Position::new(&6,&205),
            &Position::new(&6,&204),
            &TokenType::CloseCurly,
            &None), 
        Token::new(
            &Position::new(&6,&206),
            &Position::new(&6,&205),
            &TokenType::UserString,
            &Some(".".to_string())), 
        Token::new(
            &Position::new(&6,&207),
            &Position::new(&6,&206),
            &TokenType::NewLine,
            &None), 
        Token::new(
            &Position::new(&7,&208),
            &Position::new(&7,&207),
            &TokenType::NewLine,
            &None), 
        Token::new(
            &Position::new(&8,&210),
            &Position::new(&8,&208),
            &TokenType::HeadingMarker,
            &None), 
        Token::new(
            &Position::new(&8,&212),
            &Position::new(&8,&210),
            &TokenType::HeadingMarker,
            &None), 
        Token::new(
            &Position::new(&8,&214),
            &Position::new(&8,&212),
            &TokenType::HeadingMarker,
            &None), 
        Token::new(
            &Position::new(&8,&215),
            &Position::new(&8,&214),
            &TokenType::UserString,
            &Some(" ".to_string())), 
        Token::new(
            &Position::new(&8,&216),
            &Position::new(&8,&215),
            &TokenType::ItalicText,
            &None), 
        Token::new(
            &Position::new(&8,&227),
            &Position::new(&8,&216),
            &TokenType::UserString,
            &Some("Heading III".to_string())), 
        Token::new(
            &Position::new(&8,&228),
            &Position::new(&8,&227),
            &TokenType::ItalicText,
            &None), 
        Token::new(
            &Position::new(&8,&229),
            &Position::new(&8,&228),
            &TokenType::NewLine,
            &None), 
        Token::new(
            &Position::new(&9,&268),
            &Position::new(&9,&229),
            &TokenType::UserString,
            &Some("This paragraph contains my profile pic.".to_string())), 
        Token::new(
            &Position::new(&9,&269),
            &Position::new(&9,&268),
            &TokenType::NewLine,
            &None), 
        Token::new(
            &Position::new(&10,&270),
            &Position::new(&10,&269),
            &TokenType::OpenCurly,
            &None), 
        Token::new(
            &Position::new(&10,&271),
            &Position::new(&10,&270),
            &TokenType::ImageMarker,
            &None), 
        Token::new(
            &Position::new(&10,&272),
            &Position::new(&10,&271),
            &TokenType::OpenSquare,
            &None), 
        Token::new(
            &Position::new(&10,&278),
            &Position::new(&10,&272),
            &TokenType::UserString,
            &Some("my pfp".to_string())), 
        Token::new(
            &Position::new(&10,&279),
            &Position::new(&10,&278),
            &TokenType::CloseSquare,
            &None), 
        Token::new(
            &Position::new(&10,&280),
            &Position::new(&10,&279),
            &TokenType::OpenSquare,
            &None), 
        Token::new(
            &Position::new(&10,&333),
            &Position::new(&10,&280),
            &TokenType::UserString,
            &Some("https://avatars.githubusercontent.com/u/179976644?v=4".to_string())), 
        Token::new(
            &Position::new(&10,&334),
            &Position::new(&10,&333),
            &TokenType::CloseSquare,
            &None), 
        Token::new(
            &Position::new(&10,&335),
            &Position::new(&10,&334),
            &TokenType::CloseCurly,
            &None), 
        Token::new(
            &Position::new(&10,&336),
            &Position::new(&10,&335),
            &TokenType::NewLine,
            &None), 
        Token::new(
            &Position::new(&11,&337),
            &Position::new(&11,&336),
            &TokenType::NewLine,
            &None), 
        Token::new(
            &Position::new(&12,&339),
            &Position::new(&12,&337),
            &TokenType::HeadingMarker,
            &None), 
        Token::new(
            &Position::new(&12,&341),
            &Position::new(&12,&339),
            &TokenType::HeadingMarker,
            &None), 
        Token::new(
            &Position::new(&12,&352),
            &Position::new(&12,&341),
            &TokenType::UserString,
            &Some(" Heading IV".to_string())), 
        Token::new(
            &Position::new(&12,&353),
            &Position::new(&12,&352),
            &TokenType::NewLine,
            &None), 
        Token::new(
            &Position::new(&13,&354),
            &Position::new(&13,&353),
            &TokenType::NewLine,
            &None), 
        Token::new(
            &Position::new(&14,&369),
            &Position::new(&14,&354),
            &TokenType::UserString,
            &Some("This is a list!".to_string())), 
        Token::new(
            &Position::new(&14,&370),
            &Position::new(&14,&369),
            &TokenType::NewLine, 
            &None), 
        Token::new(
            &Position::new(&15,&371),
            &Position::new(&15,&370),
            &TokenType::NewLine,
            &None), 
        Token::new(
            &Position::new(&16,&372),
            &Position::new(&16,&371),
            &TokenType::ListMarker,
            &None), 
        Token::new(
            &Position::new(&16,&385),
            &Position::new(&16,&372),
            &TokenType::UserString,
            &Some(" List item 1.".to_string())), 
        Token::new(
            &Position::new(&16,&386),
            &Position::new(&16,&385),
            &TokenType::NewLine,
            &None), 
        Token::new(
            &Position::new(&17,&387),
            &Position::new(&17,&386),
            &TokenType::ListMarker,
            &None), 
        Token::new(
            &Position::new(&17,&400),
            &Position::new(&17,&387),
            &TokenType::UserString,
            &Some(" List item 2.".to_string())), 
        Token::new(
            &Position::new(&17,&401),
            &Position::new(&17,&400),
            &TokenType::NewLine,
            &None), 
        Token::new(
            &Position::new(&18,&402),
            &Position::new(&18,&401),
            &TokenType::ListMarker,
            &None), 
        Token::new(
            &Position::new(&18,&415),
            &Position::new(&18,&402),
            &TokenType::UserString,
            &Some(" List item 3.".to_string())), 
        Token::new(
            &Position::new(&18,&416),
            &Position::new(&18,&415),
            &TokenType::NewLine,
            &None), 
        Token::new(
            &Position::new(&19,&421),
            &Position::new(&19,&416),
            &TokenType::DocumentLimiter,
            &None), 
        Token::new(
            &Position::new(&19,&422),
            &Position::new(&19,&421),
            &TokenType::NewLine,
            &None)
    ];
    assert_eq!(tokens, expected);
}

fn tok(kind: TokenType, line: usize, start: usize, end: usize, value: Option<&str>) -> Token {
    Token::new(
        &Position::new(&line, &end),
        &Position::new(&line, &start),
        &kind,
        &value.map(|v| v.to_string()),
    )
}

#[test]
fn tokenize_heading_line() {
    let tokens = tokenize_string("<3 Hi\n").unwrap();
    assert_eq!(
        tokens,
        vec![
            tok(TokenType::HeadingMarker, 0, 0, 2, None),
            tok(TokenType::UserString, 0, 2, 5, Some(" Hi")),
            tok(TokenType::NewLine, 0, 5, 6, None),
        ]
    );
}

#[test]
fn tokenize_empty_source_fails() {
    let err = tokenize_string("").unwrap_err();
    assert_eq!(err.kind, ErrorKind::EmptySource);
    assert_eq!(err.to_string(), "Source cannot be empty.");
}

#[test]
fn tokenize_lone_dash_is_illegal() {
    let err = tokenize_string("a-b").unwrap_err();
    assert_eq!(
        err.kind,
        ErrorKind::IllegalCharacter { at: Position::new(&0, &1), character: '-' }
    );
    assert_eq!(err.to_string(), "Unexpected character(s) at position \"0:1\": \"-\"!");
}

#[test]
fn tokenize_caret_on_second_line_is_illegal() {
    let err = tokenize_string("ab\nc^").unwrap_err();
    assert_eq!(
        err.kind,
        ErrorKind::IllegalCharacter { at: Position::new(&1, &4), character: '^' }
    );
}

#[test]
fn tokenize_carriage_return_pair_gives_two_newlines() {
    let tokens = tokenize_string("a\r\nb").unwrap();
    assert_eq!(
        tokens,
        vec![
            tok(TokenType::UserString, 0, 0, 1, Some("a")),
            tok(TokenType::NewLine, 0, 1, 2, None),
            tok(TokenType::NewLine, 1, 2, 3, None),
            tok(TokenType::UserString, 2, 3, 4, Some("b")),
        ]
    );
}

#[test]
fn tokenize_single_character_markers() {
    let tokens = tokenize_string("~><[]{}$*@#()").unwrap();
    let kinds: Vec<TokenType> = tokens.iter().map(|t| t.token_type).collect();
    assert_eq!(
        kinds,
        vec![
            TokenType::ListMarker,
            TokenType::CloseAngle,
            TokenType::OpenAngle,
            TokenType::OpenSquare,
            TokenType::CloseSquare,
            TokenType::OpenCurly,
            TokenType::CloseCurly,
            TokenType::ItalicText,
            TokenType::BoldText,
            TokenType::ImageMarker,
            TokenType::LinkMarker,
            TokenType::OpenBracket,
            TokenType::CloseBracket,
        ]
    );
    for (k, t) in tokens.iter().enumerate() {
        assert_eq!(t.start, Position::new(&0, &k));
        assert_eq!(t.end, Position::new(&0, &(k + 1)));
        assert_eq!(t.value, None);
    }
}

#[test]
fn tokenize_heading_marker_inside_text() {
    let tokens = tokenize_string("I <3 you").unwrap();
    assert_eq!(
        tokens,
        vec![
            tok(TokenType::UserString, 0, 0, 2, Some("I ")),
            tok(TokenType::HeadingMarker, 0, 2, 4, None),
            tok(TokenType::UserString, 0, 4, 8, Some(" you")),
        ]
    );
}

#[test]
fn tokenize_open_bracket_without_limiter() {
    let tokens = tokenize_string("(^").unwrap_err();
    assert_eq!(
        tokens.kind,
        ErrorKind::IllegalCharacter { at: Position::new(&0, &1), character: '^' }
    );
    let tokens = tokenize_string("<(x)").unwrap();
    assert_eq!(
        tokens,
        vec![
            tok(TokenType::OpenAngle, 0, 0, 1, None),
            tok(TokenType::OpenBracket, 0, 1, 2, None),
            tok(TokenType::UserString, 0, 2, 3, Some("x")),
            tok(TokenType::CloseBracket, 0, 3, 4, None),
        ]
    );
}

#[test]
fn tokenize_counts_characters_not_bytes() {
    let tokens = tokenize_string("héllo*ü").unwrap();
    assert_eq!(
        tokens,
        vec![
            tok(TokenType::UserString, 0, 0, 5, Some("héllo")),
            tok(TokenType::BoldText, 0, 5, 6, None),
            tok(TokenType::UserString, 0, 6, 7, Some("ü")),
        ]
    );
}

#[test]
fn tokens_consume_the_whole_source() {
    let tokens = tokenize_string(SAMPLE).unwrap();
    let consumed: usize = tokens.iter().map(|t| t.end.column - t.start.column).sum();
    assert_eq!(consumed, SAMPLE.chars().count());
    assert_eq!(tokens[0].start, Position::new(&0, &0));
}

#[test]
fn token_positions_never_go_back() {
    let tokens = tokenize_string(SAMPLE).unwrap();
    for pair in tokens.windows(2) {
        let (a, b) = (&pair[0], &pair[1]);
        assert!(
            b.start.line > a.end.line
                || (b.start.line == a.end.line && b.start.column >= a.end.column)
        );
        assert_eq!(b.start.column, a.end.column);
    }
}

#[test]
fn text_characters() {
    assert!(is_text(&'a'));
    assert!(is_text(&' '));
    assert!(is_text(&'3'));
    assert!(is_text(&'.'));
    for c in "<>*$()[]{}^-~#@\n\r".chars() {
        assert!(!is_text(&c));
    }
}

#[test]
fn position_text() {
    assert_eq!(Position::new(&3, &12).to_string(), "3:12");
    assert_eq!(Position::new(&0, &0).to_string(), "0:0");
    assert_eq!(Position::new(&10, &407).to_string(), "10:407");
}

#[test]
fn token_type_names() {
    assert_eq!(TokenType::NewLine.name(), "NewLine");
    assert_eq!(TokenType::DocumentLimiter.name(), "DocumentLimiter");
    assert_eq!(TokenType::UserString.name(), "UserString");
}

#[test]
fn tokenize_mark_after_limiter_is_stray() {
    let err = tokenize_string("(^-^)-").unwrap_err();
    assert_eq!(
        err.kind,
        ErrorKind::IllegalCharacter { at: Position::new(&0, &5), character: '-' }
    );
}
