use vstd::prelude::*;
use vstd::string::*;

use crate::lexer::kind_name;
use crate::lexer::position_text;
use crate::lexer::push_char;
use crate::lexer::Position;
use crate::lexer::PositionView;
use crate::lexer::TokenType;

verus! {

/// What went wrong. Each stage stops at its first error.
#[derive(Clone, Debug, PartialEq, Eq)]
pub enum ErrorKind {
    /// The source text is empty.
    EmptySource,
    /// A character that starts no token.
    IllegalCharacter { at: Position, character: char },
    /// The parser was given no tokens.
    EmptyTokenStream,
    /// The tokens ended where more were needed.
    UnexpectedEndOfStream,
    /// A token of another kind stands where `wanted` was needed.
    ExpectedToken { wanted: TokenType, at: Position },
    /// A heading does not start with a heading marker.
    ExpectedHeadingMarker { at: Position },
    /// An opening curly brace is not followed by `#` or `@`.
    ExpectedLinkOrImageMarker { at: Position },
    /// A text token without its text.
    MissingText { at: Position },
    /// The code generator was given no statements.
    EmptyAst,
    /// A link or image (`image` tells which) without alt text, while alt
    /// text is enforced.
    MissingAltText { url: String, image: bool },
}

/// The error of the library: its kind, from which the message follows.
#[derive(Clone, Debug, PartialEq, Eq)]
pub struct JiraiErr {
    pub kind: ErrorKind,
}

/// An error kind with positions as natural numbers and text as characters.
pub enum ErrorView {
    EmptySource,
    IllegalCharacter { at: PositionView, character: char },
    EmptyTokenStream,
    UnexpectedEndOfStream,
    ExpectedToken { wanted: TokenType, at: PositionView },
    ExpectedHeadingMarker { at: PositionView },
    ExpectedLinkOrImageMarker { at: PositionView },
    MissingText { at: PositionView },
    EmptyAst,
    MissingAltText { url: Seq<char>, image: bool },
}

impl View for ErrorKind {
    type V = ErrorView;

    open spec fn view(&self) -> ErrorView {
        match self {
            ErrorKind::EmptySource => ErrorView::EmptySource,
            ErrorKind::IllegalCharacter { at, character } => ErrorView::IllegalCharacter {
                at: at@,
                character: *character,
            },
            ErrorKind::EmptyTokenStream => ErrorView::EmptyTokenStream,
            ErrorKind::UnexpectedEndOfStream => ErrorView::UnexpectedEndOfStream,
            ErrorKind::ExpectedToken { wanted, at } => ErrorView::ExpectedToken {
                wanted: *wanted,
                at: at@,
            },
            ErrorKind::ExpectedHeadingMarker { at } => ErrorView::ExpectedHeadingMarker { at: at@ },
            ErrorKind::ExpectedLinkOrImageMarker { at } => ErrorView::ExpectedLinkOrImageMarker {
                at: at@,
            },
            ErrorKind::MissingText { at } => ErrorView::MissingText { at: at@ },
            ErrorKind::EmptyAst => ErrorView::EmptyAst,
            ErrorKind::MissingAltText { url, image } => ErrorView::MissingAltText {
                url: url@,
                image: *image,
            },
        }
    }
}

impl View for JiraiErr {
    type V = ErrorView;

    open spec fn view(&self) -> ErrorView {
        self.kind@
    }
}

/// The human-readable message of an error.
pub open spec fn message(e: ErrorView) -> Seq<char> {
    match e {
        ErrorView::EmptySource => "Source cannot be empty."@,
        ErrorView::IllegalCharacter { at, character } =>
            "Unexpected character(s) at position \""@ + position_text(at) + "\": \""@
                + seq![character] + "\"!"@,
        ErrorView::EmptyTokenStream => "Token stream cannot be empty."@,
        ErrorView::UnexpectedEndOfStream => "Unexpected end of stream."@,
        ErrorView::ExpectedToken { wanted, at } => "Expected token of type \""@ + kind_name(wanted)
            + "\" at position "@ + position_text(at) + "!"@,
        ErrorView::ExpectedHeadingMarker { at } => "Expected heading marker at position \""@
            + position_text(at) + "\"!"@,
        ErrorView::ExpectedLinkOrImageMarker { at } =>
            "Expected a link or image marker at position \""@ + position_text(at) + "\"!"@,
        ErrorView::MissingText { at } => "Expected text at position \""@ + position_text(at)
            + "\"!"@,
        ErrorView::EmptyAst => "The AST cannot be empty."@,
        ErrorView::MissingAltText { url, image } => "No \"alt\" text supplied to "@ + (if image {
            "image"@
        } else {
            "link"@
        }) + " \""@ + url + "\"!"@,
    }
}

fn framed(prefix: &str, middle: &str, suffix: &str) -> (r: String)
    ensures
        r@ == prefix@ + middle@ + suffix@,
{
    let mut s = String::from_str(prefix);
    s.append(middle);
    s.append(suffix);
    s
}

impl JiraiErr {
    pub fn new(kind: ErrorKind) -> (r: JiraiErr)
        ensures
            r.kind == kind,
    {
        JiraiErr { kind }
    }

    /// The error's message.
    pub fn to_string(self) -> (r: String)
        ensures
            r@ == message(self@),
    {
        match self.kind {
            ErrorKind::EmptySource => String::from_str("Source cannot be empty."),
            ErrorKind::IllegalCharacter { at, character } => {
                let p = at.to_string();
                let mut m = framed("Unexpected character(s) at position \"", p.as_str(), "\": \"");
                push_char(&mut m, character);
                m.append("\"!");
                m
            },
            ErrorKind::EmptyTokenStream => String::from_str("Token stream cannot be empty."),
            ErrorKind::UnexpectedEndOfStream => String::from_str("Unexpected end of stream."),
            ErrorKind::ExpectedToken { wanted, at } => {
                let head = framed("Expected token of type \"", wanted.name(), "\" at position ");
                let p = at.to_string();
                framed(head.as_str(), p.as_str(), "!")
            },
            ErrorKind::ExpectedHeadingMarker { at } => {
                let p = at.to_string();
                framed("Expected heading marker at position \"", p.as_str(), "\"!")
            },
            ErrorKind::ExpectedLinkOrImageMarker { at } => {
                let p = at.to_string();
                framed("Expected a link or image marker at position \"", p.as_str(), "\"!")
            },
            ErrorKind::MissingText { at } => {
                let p = at.to_string();
                framed("Expected text at position \"", p.as_str(), "\"!")
            },
            ErrorKind::EmptyAst => String::from_str("The AST cannot be empty."),
            ErrorKind::MissingAltText { url, image } => {
                let what = if image {
                    "image"
                } else {
                    "link"
                };
                let head = framed("No \"alt\" text supplied to ", what, " \"");
                framed(head.as_str(), url.as_str(), "\"!")
            },
        }
    }
}

} // verus!
