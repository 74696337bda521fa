use jirai::err::ErrorKind;
use jirai::html::HTMLCodeGenerator;
use jirai::parser::Image;
use jirai::parser::InlineStatement;
use jirai::parser::Link;
use jirai::parser::Statement;

fn text(s: &str) -> InlineStatement {
    InlineStatement::Text(s.to_string())
}

fn generator(minify: bool, alt_enforcing: bool, ast: Vec<Statement>) -> HTMLCodeGenerator {
    HTMLCodeGenerator::new(&minify, &alt_enforcing, &ast).expect("Could not create generator.")
}

fn image_ast(alt: Option<&str>) -> Vec<Statement> {
    vec![Statement::Paragraph(vec![InlineStatement::Image(Image {
        alt: alt.map(|a| a.to_string()),
        url: "x".to_string(),
    })])]
}

#[test]
fn test_html_generator() {
    let ast = vec![
        Statement::Heading(2, vec![text("Title")]),
        Statement::Paragraph(vec![
            text("Some "),
            InlineStatement::BoldText(Box::new(vec![text("bold")])),
            InlineStatement::ItalicText(Box::new(vec![text("slanted")])),
        ]),
        Statement::UnorderedList(vec![InlineStatement::ListItem(Box::new(vec![text("one")]))]),
    ];
    let mut g = generator(true, false, ast);
    assert_eq!(
        g.generate().unwrap(),
        "<h2>Title</h2><p>Some <b>bold</b><i>slanted</i></p><ul><li>one</li></ul>"
    );
    assert!(g.is_done());
}

#[test]
fn generate_joins_with_newlines_unminified() {
    let ast = vec![
        Statement::Paragraph(vec![text("a"), text("b")]),
        Statement::Paragraph(vec![text("c")]),
    ];
    let mut g = generator(false, false, ast);
    assert_eq!(g.generate().unwrap(), "<p>a\nb</p>\n<p>c</p>");
}

#[test]
fn generate_block_join_by_mode() {
    let ast = vec![
        Statement::Heading(1, vec![text("A")]),
        Statement::Paragraph(vec![text("B")]),
        Statement::Paragraph(vec![]),
    ];
    let mut minified = generator(true, false, ast.clone());
    assert_eq!(minified.generate().unwrap(), "<h1>A</h1><p>B</p><p></p>");
    let mut spread = generator(false, false, ast);
    assert_eq!(spread.generate().unwrap(), "<h1>A</h1>\n<p>B</p>\n<p></p>");
}

#[test]
fn alt_enforcement_on_image() {
    let mut enforcing = generator(false, true, image_ast(None));
    let err = enforcing.generate().unwrap_err();
    assert_eq!(err.kind, ErrorKind::MissingAltText { url: "x".to_string(), image: true });
    assert_eq!(err.to_string(), "No \"alt\" text supplied to image \"x\"!");
    let mut lenient = generator(false, false, image_ast(None));
    assert_eq!(lenient.generate().unwrap(), "<p><img src=\"x\"/></p>");
    let image = Image { alt: None, url: "x".to_string() };
    assert_eq!(lenient.generate_image_code(&image).unwrap(), "<img src=\"x\"/>");
    assert_eq!(
        enforcing.generate_image_code(&image).unwrap_err().kind,
        ErrorKind::MissingAltText { url: "x".to_string(), image: true }
    );
}

#[test]
fn image_with_alt() {
    let mut g = generator(false, true, image_ast(Some("a cat")));
    assert_eq!(g.generate().unwrap(), "<p><img alt=\"a cat\" src=\"x\"/></p>");
}

#[test]
fn link_code() {
    let mut g = generator(true, false, image_ast(None));
    let with_alt = Link {
        alt: Some("alt".to_string()),
        url: "u".to_string(),
        link_text: "t".to_string(),
    };
    assert_eq!(
        g.generate_link_code(&with_alt).unwrap(),
        "<a alt=\"alt\" href=\"u\">t</a>"
    );
    let without = Link { alt: None, url: "u".to_string(), link_text: "t".to_string() };
    assert_eq!(g.generate_link_code(&without).unwrap(), "<a href=\"u\">t</a>");
    let mut strict = generator(true, true, image_ast(None));
    assert_eq!(
        strict.generate_link_code(&without).unwrap_err().kind,
        ErrorKind::MissingAltText { url: "u".to_string(), image: false }
    );
    assert_eq!(
        strict.generate_link_code(&without).unwrap_err().to_string(),
        "No \"alt\" text supplied to link \"u\"!"
    );
}

#[test]
fn first_missing_alt_is_reported() {
    let ast = vec![Statement::Paragraph(vec![
        InlineStatement::BoldText(Box::new(vec![InlineStatement::Link(Link {
            alt: None,
            url: "first".to_string(),
            link_text: "t".to_string(),
        })])),
        InlineStatement::Image(Image { alt: None, url: "second".to_string() }),
    ])];
    let mut g = generator(true, true, ast);
    assert_eq!(
        g.generate().unwrap_err().kind,
        ErrorKind::MissingAltText { url: "first".to_string(), image: false }
    );
}

#[test]
fn empty_ast_is_rejected() {
    let err = HTMLCodeGenerator::new(&true, &false, &Vec::new()).err().unwrap();
    assert_eq!(err.kind, ErrorKind::EmptyAst);
    assert_eq!(err.to_string(), "The AST cannot be empty.");
}

#[test]
fn heading_level_in_tag() {
    let mut g = generator(true, false, vec![Statement::Heading(12, vec![text("x")])]);
    assert_eq!(g.generate().unwrap(), "<h12>x</h12>");
}

#[test]
fn simple_fragments() {
    let mut g = generator(true, false, image_ast(None));
    assert_eq!(g.generate_code_code("a<b"), "<code>a<b</code>");
    assert_eq!(g.generate_block_quote_code("q"), "<blockquote>q</blockquote>");
    let children = vec![text("a"), text("b")];
    assert_eq!(g.generate_bold_code(&children).unwrap(), "<b>ab</b>");
    assert_eq!(g.generate_italic_code(&children).unwrap(), "<i>ab</i>");
    assert_eq!(g.generate_list_item_code(&children).unwrap(), "<li>ab</li>");
    assert_eq!(g.generate_paragraph_code(&children).unwrap(), "<p>ab</p>");
    assert_eq!(g.generate_unordered_list_code(&children).unwrap(), "<ul>ab</ul>");
    assert_eq!(g.generate_heading_code(&3, &children).unwrap(), "<h3>ab</h3>");
    assert_eq!(
        g.generate_inline_statement(&InlineStatement::Code("c".to_string())).unwrap(),
        "<code>c</code>"
    );
}

#[test]
fn generator_cursor() {
    let mut g = generator(true, false, image_ast(None));
    assert!(!g.is_done());
    assert_eq!(g.current().unwrap(), image_ast(None)[0]);
    g.advance();
    assert!(g.is_done());
    assert_eq!(g.current().err().unwrap().kind, ErrorKind::UnexpectedEndOfStream);
    assert_eq!(g.generate().unwrap(), "");
    g.advance();
    assert_eq!(g.generate().unwrap_err().kind, ErrorKind::UnexpectedEndOfStream);
}
