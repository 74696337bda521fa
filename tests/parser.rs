use jirai::err::ErrorKind;
use jirai::lexer::tokenize_string;
use jirai::lexer::Position;
use jirai::lexer::Token;
use jirai::lexer::TokenType;
use jirai::parser::Image;
use jirai::parser::InlineStatement;
use jirai::parser::Link;
use jirai::parser::Parser;
use jirai::parser::SourceType;
use jirai::parser::Statement;

fn parser_for(source: &str) -> Parser {
    let tokens = tokenize_string(source).expect("Could not tokenize sample string.");
    Parser::new(&SourceType::Document, &tokens).expect("Could not create parser.")
}

fn parse(source: &str) -> Result<Vec<Statement>, ErrorKind> {
    parser_for(source).parse().map_err(|e| e.kind)
}

fn text(s: &str) -> InlineStatement {
    InlineStatement::Text(s.to_string())
}

fn boxed(v: Vec<InlineStatement>) -> Box<Vec<InlineStatement>> {
    Box::new(v)
}

#[test]
fn parse_heading_scenario() {
    let mut parser = parser_for("<3 Hi\n");
    assert_eq!(parser.parse().unwrap(), vec![Statement::Heading(1, vec![text(" Hi")])]);
    assert_eq!(parser.cursor, 3);
}

#[test]
fn parse_heading_levels() {
    assert_eq!(
        parse("<3<3<3 Deep").unwrap(),
        vec![Statement::Heading(3, vec![text(" Deep")])]
    );
}

#[test]
fn parse_list_lines() {
    let mut parser = parser_for("~ a\n~ b\n\n");
    assert_eq!(
        parser.parse().unwrap(),
        vec![Statement::UnorderedList(vec![
            InlineStatement::ListItem(boxed(vec![text(" a")])),
            InlineStatement::ListItem(boxed(vec![text(" b")])),
        ])]
    );
    assert_eq!(parser.cursor, 7);
}

#[test]
fn parse_sample_list() {
    let mut parser = parser_for("This is a list!\n\n~ List item 1.\n~ List item 2.\n~ List item 3.\n(^-^)\n");
    let err = parser.parse().unwrap_err();
    assert_eq!(
        err.kind,
        ErrorKind::ExpectedToken { wanted: TokenType::UserString, at: Position::new(&5, &62) }
    );
    let mut parser = parser_for("~ 1.\n~ 2.\n~ 3.\n");
    assert_eq!(
        parser.parse().unwrap(),
        vec![Statement::UnorderedList(vec![
            InlineStatement::ListItem(boxed(vec![text(" 1.")])),
            InlineStatement::ListItem(boxed(vec![text(" 2.")])),
            InlineStatement::ListItem(boxed(vec![text(" 3.")])),
        ])]
    );
}

#[test]
fn parse_list_item_at_end_of_stream() {
    assert_eq!(
        parse("~ last").unwrap(),
        vec![Statement::UnorderedList(vec![InlineStatement::ListItem(boxed(vec![text(
            " last"
        )]))])]
    );
}

#[test]
fn parse_bold_round_trip() {
    assert_eq!(
        parse("*bold*").unwrap(),
        vec![Statement::Paragraph(vec![InlineStatement::BoldText(boxed(vec![text("bold")]))])]
    );
}

#[test]
fn parse_italic_round_trip() {
    assert_eq!(
        parse("$it is$").unwrap(),
        vec![Statement::Paragraph(vec![InlineStatement::ItalicText(boxed(vec![text("it is")]))])]
    );
}

#[test]
fn parse_nested_markup() {
    assert_eq!(
        parse("a *b $c$*\nd").unwrap(),
        vec![
            Statement::Paragraph(vec![
                text("a "),
                InlineStatement::BoldText(boxed(vec![
                    text("b "),
                    InlineStatement::ItalicText(boxed(vec![text("c")])),
                ])),
            ]),
            Statement::Paragraph(vec![text("d")]),
        ]
    );
}

#[test]
fn parse_code_and_quote() {
    assert_eq!(
        parse("<x = 1>>(said)<").unwrap(),
        vec![Statement::Paragraph(vec![
            InlineStatement::Code("x = 1".to_string()),
            InlineStatement::BlockQuote("said".to_string()),
        ])]
    );
}

#[test]
fn parse_link_and_image() {
    assert_eq!(
        parse("{#[alt][text][url]}{@[pic][img.png]}").unwrap(),
        vec![Statement::Paragraph(vec![
            InlineStatement::Link(Link {
                alt: Some("alt".to_string()),
                url: "url".to_string(),
                link_text: "text".to_string(),
            }),
            InlineStatement::Image(Image {
                alt: Some("pic".to_string()),
                url: "img.png".to_string(),
            }),
        ])]
    );
}

#[test]
fn parse_link_missing_url_group() {
    let err = parse("{#[link][https://alyxshang.boo]}").unwrap_err();
    assert_eq!(
        err,
        ErrorKind::ExpectedToken { wanted: TokenType::OpenSquare, at: Position::new(&0, &31) }
    );
}

#[test]
fn parse_unclosed_bold() {
    let err = parser_for("*open").parse().unwrap_err();
    assert_eq!(err.kind, ErrorKind::UnexpectedEndOfStream);
    assert_eq!(err.to_string(), "Unexpected end of stream.");
}

#[test]
fn parse_curly_without_marker() {
    assert_eq!(
        parse("{x").unwrap_err(),
        ErrorKind::ExpectedLinkOrImageMarker { at: Position::new(&0, &1) }
    );
    let err = parser_for("{x").parse().unwrap_err();
    assert_eq!(err.to_string(), "Expected a link or image marker at position \"0:1\"!");
}

#[test]
fn parse_stray_close_square() {
    let err = parser_for("a]").parse().unwrap_err();
    assert_eq!(
        err.kind,
        ErrorKind::ExpectedToken { wanted: TokenType::UserString, at: Position::new(&0, &1) }
    );
    assert_eq!(
        err.to_string(),
        "Expected token of type \"UserString\" at position 0:1!"
    );
}

#[test]
fn parser_rejects_empty_stream() {
    let err = Parser::new(&SourceType::Slice, &Vec::new()).err().unwrap();
    assert_eq!(err.kind, ErrorKind::EmptyTokenStream);
}

#[test]
fn parser_text_token_without_text() {
    let tokens = vec![Token::new(
        &Position::new(&0, &3),
        &Position::new(&0, &0),
        &TokenType::UserString,
        &None,
    )];
    let mut parser = Parser::new(&SourceType::Slice, &tokens).unwrap();
    assert_eq!(
        parser.parse().err().unwrap().kind,
        ErrorKind::MissingText { at: Position::new(&0, &0) }
    );
}

#[test]
fn parser_heading_needs_marker() {
    let mut parser = parser_for("plain");
    assert_eq!(
        parser.parse_heading().err().unwrap().kind,
        ErrorKind::ExpectedHeadingMarker { at: Position::new(&0, &5) }
    );
    assert_eq!(parser.cursor, 0);
    parser.advance();
    assert_eq!(
        parser.parse_heading().err().unwrap().kind,
        ErrorKind::ExpectedHeadingMarker { at: Position::new(&0, &5) }
    );
    assert_eq!(parser.cursor, 1);
}

#[test]
fn parser_text_error_keeps_cursor() {
    let mut parser = parser_for("*a");
    assert_eq!(
        parser.parse_text().err().unwrap().kind,
        ErrorKind::ExpectedToken { wanted: TokenType::UserString, at: Position::new(&0, &0) }
    );
    assert_eq!(parser.cursor, 0);
    parser.advance();
    assert_eq!(parser.parse_text().unwrap(), text("a"));
    assert_eq!(parser.cursor, 2);
}

#[test]
fn parser_cursor_moves() {
    let mut parser = parser_for("*a*");
    assert!(!parser.is_done());
    assert_eq!(parser.peek().unwrap().token_type, TokenType::BoldText);
    assert_eq!(parser.cursor, 0);
    let err = parser.expect(&TokenType::ItalicText).err().unwrap();
    assert_eq!(
        err.kind,
        ErrorKind::ExpectedToken { wanted: TokenType::ItalicText, at: Position::new(&0, &0) }
    );
    assert_eq!(parser.cursor, 0);
    let t = parser.expect(&TokenType::BoldText).unwrap();
    assert_eq!(t.token_type, TokenType::BoldText);
    assert_eq!(parser.cursor, 1);
    parser.advance();
    parser.advance();
    assert!(parser.is_done());
    assert_eq!(parser.peek().err().unwrap().kind, ErrorKind::UnexpectedEndOfStream);
}

#[test]
fn parser_document_limiters() {
    let mut parser = parser_for("(^-^)\nx\n(^-^)");
    assert!(parser.starts_with());
    assert!(parser.ends_with());
    let mut parser = parser_for("x\n(^-^)");
    assert!(!parser.starts_with());
    assert!(parser.ends_with());
}

#[test]
fn parse_inline_pieces_directly() {
    let mut parser = parser_for("<c>");
    assert_eq!(
        parser.parse_inline_code().unwrap(),
        InlineStatement::Code("c".to_string())
    );
    let mut parser = parser_for(">(q)<");
    assert_eq!(
        parser.parse_block_quote().unwrap(),
        InlineStatement::BlockQuote("q".to_string())
    );
    let mut parser = parser_for("@[a][u]}");
    assert_eq!(
        parser.parse_image_item().unwrap(),
        InlineStatement::Image(Image { alt: Some("a".to_string()), url: "u".to_string() })
    );
    let mut parser = parser_for("~ x\n");
    assert_eq!(
        parser.parse_list_item().unwrap(),
        InlineStatement::ListItem(boxed(vec![text(" x")]))
    );
    assert_eq!(parser.cursor, 2);
}

#[test]
fn clone_keeps_statements() {
    let statements = parse("*a $b$* <c>\n~ d").unwrap();
    let copy = statements.clone();
    assert_eq!(copy, statements);
}
