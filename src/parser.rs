use vstd::prelude::*;

use crate::err::ErrorKind;
use crate::err::ErrorView;
use crate::err::JiraiErr;
use crate::lexer::copy_text;
use crate::lexer::copy_token;
use crate::lexer::text_view;
use crate::lexer::tokens_view;
use crate::lexer::Position;
use crate::lexer::Token;
use crate::lexer::TokenType;
use crate::lexer::TokenView;
use crate::lexer::PositionView;

verus! {

/// Which kind of Jirai text a token stream was read from.
#[derive(Clone, Copy, Debug, PartialEq, Eq, Structural)]
pub enum SourceType {
    Slice,
    Document,
}

/// A block-level element of a document. Statements never nest.
#[derive(PartialEq, Debug)]
pub enum Statement {
    Heading(usize, Vec<InlineStatement>),
    Paragraph(Vec<InlineStatement>),
    UnorderedList(Vec<InlineStatement>),
}

/// An inline element. Bold and italic text and list items own their
/// children.
#[derive(PartialEq, Debug)]
pub enum InlineStatement {
    Link(Link),
    Code(String),
    Text(String),
    Image(Image),
    BlockQuote(String),
    ListItem(Box<Vec<InlineStatement>>),
    BoldText(Box<Vec<InlineStatement>>),
    ItalicText(Box<Vec<InlineStatement>>),
}

/// A parsed link.
#[derive(PartialEq, Debug, Clone)]
pub struct Link {
    pub alt: Option<String>,
    pub url: String,
    pub link_text: String,
}

/// A parsed image.
#[derive(PartialEq, Debug, Clone)]
pub struct Image {
    pub alt: Option<String>,
    pub url: String,
}

/// An inline element with its text as sequences of characters.
pub enum InlineView {
    Link { alt: Option<Seq<char>>, url: Seq<char>, link_text: Seq<char> },
    Code(Seq<char>),
    Text(Seq<char>),
    Image { alt: Option<Seq<char>>, url: Seq<char> },
    BlockQuote(Seq<char>),
    ListItem(Seq<InlineView>),
    BoldText(Seq<InlineView>),
    ItalicText(Seq<InlineView>),
}

/// A block-level element with its text as sequences of characters.
pub enum StatementView {
    Heading(nat, Seq<InlineView>),
    Paragraph(Seq<InlineView>),
    UnorderedList(Seq<InlineView>),
}

pub open spec fn inline_view(s: InlineStatement) -> InlineView
    decreases s, 1nat,
{
    match s {
        InlineStatement::Link(l) => InlineView::Link {
            alt: text_view(l.alt),
            url: l.url@,
            link_text: l.link_text@,
        },
        InlineStatement::Code(c) => InlineView::Code(c@),
        InlineStatement::Text(t) => InlineView::Text(t@),
        InlineStatement::Image(i) => InlineView::Image { alt: text_view(i.alt), url: i.url@ },
        InlineStatement::BlockQuote(q) => InlineView::BlockQuote(q@),
        InlineStatement::ListItem(b) => InlineView::ListItem(inline_views((*b)@)),
        InlineStatement::BoldText(b) => InlineView::BoldText(inline_views((*b)@)),
        InlineStatement::ItalicText(b) => InlineView::ItalicText(inline_views((*b)@)),
    }
}

pub open spec fn inline_views(v: Seq<InlineStatement>) -> Seq<InlineView>
    decreases v, 0nat,
{
    if v.len() == 0 {
        seq![]
    } else {
        inline_views(v.drop_last()).push(inline_view(v.last()))
    }
}

pub open spec fn statement_view(s: Statement) -> StatementView {
    match s {
        Statement::Heading(level, v) => StatementView::Heading(level as nat, inline_views(v@)),
        Statement::Paragraph(v) => StatementView::Paragraph(inline_views(v@)),
        Statement::UnorderedList(v) => StatementView::UnorderedList(inline_views(v@)),
    }
}

pub open spec fn statements_view(v: Seq<Statement>) -> Seq<StatementView> {
    v.map_values(|s: Statement| statement_view(s))
}


/// A copy of an inline element, as deep as the element.
pub fn copy_inline(s: &InlineStatement) -> (r: InlineStatement)
    ensures
        inline_view(r) == inline_view(*s),
    decreases *s, 1nat,
{
    match s {
        InlineStatement::Link(l) => InlineStatement::Link(
            Link { alt: copy_text(&l.alt), url: l.url.clone(), link_text: l.link_text.clone() },
        ),
        InlineStatement::Code(c) => InlineStatement::Code(c.clone()),
        InlineStatement::Text(t) => InlineStatement::Text(t.clone()),
        InlineStatement::Image(i) => InlineStatement::Image(
            Image { alt: copy_text(&i.alt), url: i.url.clone() },
        ),
        InlineStatement::BlockQuote(q) => InlineStatement::BlockQuote(q.clone()),
        InlineStatement::ListItem(b) => InlineStatement::ListItem(Box::new(copy_inlines(b))),
        InlineStatement::BoldText(b) => InlineStatement::BoldText(Box::new(copy_inlines(b))),
        InlineStatement::ItalicText(b) => InlineStatement::ItalicText(Box::new(copy_inlines(b))),
    }
}

/// A deep copy of a sequence of inline elements.
pub fn copy_inlines(v: &Vec<InlineStatement>) -> (r: Vec<InlineStatement>)
    ensures
        inline_views(r@) == inline_views(v@),
    decreases *v, 0nat,
{
    let mut out: Vec<InlineStatement> = Vec::new();
    let mut k: usize = 0;
    while k < v.len()
        invariant
            k <= v.len(),
            inline_views(out@) == inline_views(v@.take(k as int)),
        decreases v.len() - k,
    {
        let x = copy_inline(&v[k]);
        proof {
            assert(out@.push(x).drop_last() =~= out@);
            assert(v@.take(k + 1).drop_last() =~= v@.take(k as int));
        }
        out.push(x);
        k = k + 1;
    }
    proof {
        assert(v@.take(v.len() as int) =~= v@);
    }
    out
}

/// A deep copy of a statement.
pub fn copy_statement(s: &Statement) -> (r: Statement)
    ensures
        statement_view(r) == statement_view(*s),
{
    match s {
        Statement::Heading(level, v) => Statement::Heading(*level, copy_inlines(v)),
        Statement::Paragraph(v) => Statement::Paragraph(copy_inlines(v)),
        Statement::UnorderedList(v) => Statement::UnorderedList(copy_inlines(v)),
    }
}

impl Clone for InlineStatement {
    fn clone(&self) -> Self {
        copy_inline(self)
    }
}

impl Clone for Statement {
    fn clone(&self) -> Self {
        copy_statement(self)
    }
}


/// The position after the token at `i`, where that token has kind `k`.
pub open spec fn expect_at(ts: Seq<TokenView>, i: nat, k: TokenType) -> Result<nat, ErrorView> {
    if i >= ts.len() {
        Err(ErrorView::UnexpectedEndOfStream)
    } else if ts[i as int].token_type == k {
        Ok(i + 1)
    } else {
        Err(ErrorView::ExpectedToken { wanted: k, at: ts[i as int].start })
    }
}

/// The first error met while expecting the kinds `ks[m..]` at the tokens
/// from `i + m` on; `None` where they all match.
pub open spec fn pattern_error(ts: Seq<TokenView>, i: nat, ks: Seq<TokenType>, m: nat) -> Option<
    ErrorView,
>
    decreases ks.len() - m,
{
    if m >= ks.len() {
        None
    } else {
        match expect_at(ts, i + m, ks[m as int]) {
            Err(e) => Some(e),
            Ok(_) => pattern_error(ts, i, ks, m + 1),
        }
    }
}

/// The text of a text token; a token without one is an error.
pub open spec fn text_of(t: TokenView) -> Result<Seq<char>, ErrorView> {
    match t.value {
        Some(v) => Ok(v),
        None => Err(ErrorView::MissingText { at: t.start }),
    }
}

/// `< text >`
pub open spec fn code_kinds() -> Seq<TokenType> {
    seq![TokenType::OpenAngle, TokenType::UserString, TokenType::CloseAngle]
}

/// `> ( text ) <`
pub open spec fn quote_kinds() -> Seq<TokenType> {
    seq![
        TokenType::CloseAngle,
        TokenType::OpenBracket,
        TokenType::UserString,
        TokenType::CloseBracket,
        TokenType::OpenAngle,
    ]
}

/// `# [ alt ] [ text ] [ url ] }`
pub open spec fn link_kinds() -> Seq<TokenType> {
    seq![
        TokenType::LinkMarker,
        TokenType::OpenSquare,
        TokenType::UserString,
        TokenType::CloseSquare,
        TokenType::OpenSquare,
        TokenType::UserString,
        TokenType::CloseSquare,
        TokenType::OpenSquare,
        TokenType::UserString,
        TokenType::CloseSquare,
        TokenType::CloseCurly,
    ]
}

/// `@ [ alt ] [ url ] }`
pub open spec fn image_kinds() -> Seq<TokenType> {
    seq![
        TokenType::ImageMarker,
        TokenType::OpenSquare,
        TokenType::UserString,
        TokenType::CloseSquare,
        TokenType::OpenSquare,
        TokenType::UserString,
        TokenType::CloseSquare,
        TokenType::CloseCurly,
    ]
}

/// An inline element and the position after it, or the first error.
pub type InlineParse = Result<(InlineView, nat), ErrorView>;

/// A run of inline elements and the position after it, or the first error.
pub type RunParse = Result<(Seq<InlineView>, nat), ErrorView>;

/// A statement and the position after it, or the first error.
pub type StatementParse = Result<(StatementView, nat), ErrorView>;

pub open spec fn code_spec(ts: Seq<TokenView>, i: nat) -> InlineParse {
    match pattern_error(ts, i, code_kinds(), 0) {
        Some(e) => Err(e),
        None => match text_of(ts[i + 1int]) {
            Ok(t) => Ok((InlineView::Code(t), i + 3)),
            Err(e) => Err(e),
        },
    }
}

pub open spec fn quote_spec(ts: Seq<TokenView>, i: nat) -> InlineParse {
    match pattern_error(ts, i, quote_kinds(), 0) {
        Some(e) => Err(e),
        None => match text_of(ts[i + 2int]) {
            Ok(t) => Ok((InlineView::BlockQuote(t), i + 5)),
            Err(e) => Err(e),
        },
    }
}

/// The alt text of a link or image is taken as the token holds it.
pub open spec fn link_spec(ts: Seq<TokenView>, i: nat) -> InlineParse {
    match pattern_error(ts, i, link_kinds(), 0) {
        Some(e) => Err(e),
        None => match text_of(ts[i + 5int]) {
            Err(e) => Err(e),
            Ok(link_text) => match text_of(ts[i + 8int]) {
                Err(e) => Err(e),
                Ok(url) => Ok(
                    (InlineView::Link { alt: ts[i + 2int].value, url, link_text }, i + 11),
                ),
            },
        },
    }
}

pub open spec fn image_spec(ts: Seq<TokenView>, i: nat) -> InlineParse {
    match pattern_error(ts, i, image_kinds(), 0) {
        Some(e) => Err(e),
        None => match text_of(ts[i + 5int]) {
            Err(e) => Err(e),
            Ok(url) => Ok((InlineView::Image { alt: ts[i + 2int].value, url }, i + 8)),
        },
    }
}

/// `{` followed by a link or an image.
pub open spec fn linked_spec(ts: Seq<TokenView>, i: nat) -> InlineParse {
    match expect_at(ts, i, TokenType::OpenCurly) {
        Err(e) => Err(e),
        Ok(j) => {
            if j >= ts.len() {
                Err(ErrorView::UnexpectedEndOfStream)
            } else if ts[j as int].token_type == TokenType::ImageMarker {
                image_spec(ts, j)
            } else if ts[j as int].token_type == TokenType::LinkMarker {
                link_spec(ts, j)
            } else {
                Err(ErrorView::ExpectedLinkOrImageMarker { at: ts[j as int].start })
            }
        },
    }
}

pub open spec fn text_spec(ts: Seq<TokenView>, i: nat) -> InlineParse {
    match expect_at(ts, i, TokenType::UserString) {
        Err(e) => Err(e),
        Ok(j) => match text_of(ts[i as int]) {
            Ok(t) => Ok((InlineView::Text(t), j)),
            Err(e) => Err(e),
        },
    }
}

/// Puts `x` in front of the elements of a successful run.
pub open spec fn prepend_inline(x: InlineView, r: RunParse) -> RunParse {
    match r {
        Ok((xs, k)) => Ok((seq![x] + xs, k)),
        Err(e) => Err(e),
    }
}

/// The inline element at `i`, chosen by the kind of its first token.
pub open spec fn inline_spec(ts: Seq<TokenView>, i: nat) -> InlineParse
    decreases ts.len() - i, 2nat,
{
    if i >= ts.len() {
        Err(ErrorView::UnexpectedEndOfStream)
    } else {
        match ts[i as int].token_type {
            TokenType::BoldText => bold_spec(ts, i),
            TokenType::ListMarker => list_item_spec(ts, i),
            TokenType::OpenAngle => code_spec(ts, i),
            TokenType::OpenCurly => linked_spec(ts, i),
            TokenType::ItalicText => italic_spec(ts, i),
            TokenType::CloseAngle => quote_spec(ts, i),
            _ => text_spec(ts, i),
        }
    }
}

/// Inline elements from `i` up to the first token of kind `stop`, which is
/// not consumed. The end of the tokens ends the run where `eos_ok` holds
/// and is an error elsewhere. Every inline element consumes at least one
/// token, so the guard `i < j` always holds (see `lemma_inline_progress`).
pub open spec fn run_spec(ts: Seq<TokenView>, i: nat, stop: TokenType, eos_ok: bool) -> RunParse
    decreases ts.len() - i, 3nat,
{
    if i >= ts.len() {
        if eos_ok {
            Ok((seq![], i))
        } else {
            Err(ErrorView::UnexpectedEndOfStream)
        }
    } else if ts[i as int].token_type == stop {
        Ok((seq![], i))
    } else {
        match inline_spec(ts, i) {
            Err(e) => Err(e),
            Ok((x, j)) => {
                if i < j <= ts.len() {
                    prepend_inline(x, run_spec(ts, j, stop, eos_ok))
                } else {
                    Err(ErrorView::UnexpectedEndOfStream)
                }
            },
        }
    }
}

/// `* ... *`
pub open spec fn bold_spec(ts: Seq<TokenView>, i: nat) -> InlineParse
    decreases ts.len() - i, 1nat,
{
    match expect_at(ts, i, TokenType::BoldText) {
        Err(e) => Err(e),
        Ok(j) => match run_spec(ts, j, TokenType::BoldText, false) {
            Err(e) => Err(e),
            Ok((xs, k)) => match expect_at(ts, k, TokenType::BoldText) {
                Err(e) => Err(e),
                Ok(m) => Ok((InlineView::BoldText(xs), m)),
            },
        },
    }
}

/// `$ ... $`
pub open spec fn italic_spec(ts: Seq<TokenView>, i: nat) -> InlineParse
    decreases ts.len() - i, 1nat,
{
    match expect_at(ts, i, TokenType::ItalicText) {
        Err(e) => Err(e),
        Ok(j) => match run_spec(ts, j, TokenType::ItalicText, false) {
            Err(e) => Err(e),
            Ok((xs, k)) => match expect_at(ts, k, TokenType::ItalicText) {
                Err(e) => Err(e),
                Ok(m) => Ok((InlineView::ItalicText(xs), m)),
            },
        },
    }
}

/// `~ ...` up to the end of the line, whose newline is left in place.
pub open spec fn list_item_spec(ts: Seq<TokenView>, i: nat) -> InlineParse
    decreases ts.len() - i, 1nat,
{
    match expect_at(ts, i, TokenType::ListMarker) {
        Err(e) => Err(e),
        Ok(j) => match run_spec(ts, j, TokenType::NewLine, true) {
            Err(e) => Err(e),
            Ok((xs, k)) => Ok((InlineView::ListItem(xs), k)),
        },
    }
}

/// The position after the newline that ends a line at `k`, if one does.
pub open spec fn past_line_end(ts: Seq<TokenView>, k: nat) -> nat {
    if k < ts.len() {
        k + 1
    } else {
        k
    }
}

/// The number of consecutive heading markers from `i`.
pub open spec fn marker_run(ts: Seq<TokenView>, i: nat) -> nat
    decreases ts.len() - i,
{
    if i < ts.len() && ts[i as int].token_type == TokenType::HeadingMarker {
        1 + marker_run(ts, i + 1)
    } else {
        0
    }
}

/// Where a missing heading marker is reported: the end of the token at `i`,
/// or, past the end of the tokens, the end of the last one; the start of the
/// source where there are no tokens.
pub open spec fn heading_error_at(ts: Seq<TokenView>, i: nat) -> PositionView {
    if i < ts.len() {
        ts[i as int].end
    } else if ts.len() > 0 {
        ts.last().end
    } else {
        PositionView { line: 0, column: 0 }
    }
}

/// Heading markers, whose number is the level, then a line of inline
/// elements.
pub open spec fn heading_spec(ts: Seq<TokenView>, i: nat) -> StatementParse {
    let level = marker_run(ts, i);
    if level == 0 {
        Err(ErrorView::ExpectedHeadingMarker { at: heading_error_at(ts, i) })
    } else {
        match run_spec(ts, i + level, TokenType::NewLine, true) {
            Err(e) => Err(e),
            Ok((xs, k)) => Ok((StatementView::Heading(level, xs), past_line_end(ts, k))),
        }
    }
}

pub open spec fn paragraph_spec(ts: Seq<TokenView>, i: nat) -> StatementParse {
    match run_spec(ts, i, TokenType::NewLine, true) {
        Err(e) => Err(e),
        Ok((xs, k)) => Ok((StatementView::Paragraph(xs), past_line_end(ts, k))),
    }
}

/// The lines of a list from `i`: each line's inline elements, its newline
/// consumed. The list goes on while the next line starts with a list
/// marker; a blank line after it ends it and is consumed, and so does the
/// end of the tokens or any other line, which is left in place.
pub open spec fn list_lines_spec(ts: Seq<TokenView>, i: nat) -> RunParse
    decreases ts.len() - i,
{
    match run_spec(ts, i, TokenType::NewLine, true) {
        Err(e) => Err(e),
        Ok((xs, k)) => {
            if k >= ts.len() {
                Ok((xs, k))
            } else {
                let j = k + 1;
                if j < ts.len() && ts[j as int].token_type == TokenType::ListMarker {
                    proof {
                        lemma_run_progress(ts, i, TokenType::NewLine, true);
                    }
                    prepend_inlines(xs, list_lines_spec(ts, j))
                } else if j < ts.len() && ts[j as int].token_type == TokenType::NewLine {
                    Ok((xs, j + 1))
                } else {
                    Ok((xs, j))
                }
            }
        },
    }
}

/// Consecutive lines that start with a list marker, as one list whose
/// elements are those of all its lines.
pub open spec fn unordered_list_spec(ts: Seq<TokenView>, i: nat) -> StatementParse {
    match list_lines_spec(ts, i) {
        Err(e) => Err(e),
        Ok((xs, k)) => Ok((StatementView::UnorderedList(xs), k)),
    }
}

/// A list where the line starts with a list marker, a paragraph elsewhere.
pub open spec fn block_spec(ts: Seq<TokenView>, i: nat) -> StatementParse {
    if i >= ts.len() {
        Err(ErrorView::UnexpectedEndOfStream)
    } else if ts[i as int].token_type == TokenType::ListMarker {
        unordered_list_spec(ts, i)
    } else {
        paragraph_spec(ts, i)
    }
}

/// A heading where the line starts with a heading marker, a block elsewhere.
pub open spec fn statement_spec(ts: Seq<TokenView>, i: nat) -> StatementParse {
    if i < ts.len() && ts[i as int].token_type == TokenType::HeadingMarker {
        heading_spec(ts, i)
    } else {
        block_spec(ts, i)
    }
}

/// Puts `s` in front of the statements of a successful result.
pub open spec fn prepend_statement(
    s: StatementView,
    r: Result<Seq<StatementView>, ErrorView>,
) -> Result<Seq<StatementView>, ErrorView> {
    match r {
        Ok(ss) => Ok(seq![s] + ss),
        Err(e) => Err(e),
    }
}

/// The statements from `i` to the end of the tokens. Every statement
/// consumes at least one token, so the guard `i < j` always holds.
pub open spec fn document_spec(ts: Seq<TokenView>, i: nat) -> Result<Seq<StatementView>, ErrorView>
    decreases ts.len() - i,
{
    if i == ts.len() {
        Ok(seq![])
    } else if i > ts.len() {
        Err(ErrorView::UnexpectedEndOfStream)
    } else {
        match statement_spec(ts, i) {
            Err(e) => Err(e),
            Ok((s, j)) => {
                if i < j <= ts.len() {
                    prepend_statement(s, document_spec(ts, j))
                } else {
                    Err(ErrorView::UnexpectedEndOfStream)
                }
            },
        }
    }
}


/// Where no error is met, each expected kind stands at its place.
pub proof fn lemma_pattern_matches(ts: Seq<TokenView>, i: nat, ks: Seq<TokenType>, m: nat)
    requires
        pattern_error(ts, i, ks, m) is None,
    ensures
        forall|q: int|
            m <= q < ks.len() ==> i + q < ts.len() && #[trigger] ts[i + q].token_type == ks[q],
    decreases ks.len() - m,
{
    if m < ks.len() {
        lemma_pattern_matches(ts, i, ks, m + 1);
    }
}

/// Every inline element consumes at least one token and stays within the
/// tokens.
pub proof fn lemma_inline_progress(ts: Seq<TokenView>, i: nat)
    ensures
        inline_spec(ts, i) matches Ok((_, j)) ==> i < j <= ts.len(),
    decreases ts.len() - i, 2nat,
{
    if i < ts.len() {
        match ts[i as int].token_type {
            TokenType::BoldText => {
                lemma_run_progress(ts, i + 1, TokenType::BoldText, false);
            },
            TokenType::ItalicText => {
                lemma_run_progress(ts, i + 1, TokenType::ItalicText, false);
            },
            TokenType::ListMarker => {
                lemma_run_progress(ts, i + 1, TokenType::NewLine, true);
            },
            TokenType::OpenAngle => {
                if pattern_error(ts, i, code_kinds(), 0) is None {
                    lemma_pattern_matches(ts, i, code_kinds(), 0);
                    assert(ts[i + 2int].token_type == code_kinds()[2]);
                }
            },
            TokenType::CloseAngle => {
                if pattern_error(ts, i, quote_kinds(), 0) is None {
                    lemma_pattern_matches(ts, i, quote_kinds(), 0);
                    assert(ts[i + 4int].token_type == quote_kinds()[4]);
                }
            },
            TokenType::OpenCurly => {
                if i + 1 < ts.len() {
                    if pattern_error(ts, i + 1, link_kinds(), 0) is None {
                        lemma_pattern_matches(ts, i + 1, link_kinds(), 0);
                        assert(ts[(i + 1) + 10int].token_type == link_kinds()[10]);
                    }
                    if pattern_error(ts, i + 1, image_kinds(), 0) is None {
                        lemma_pattern_matches(ts, i + 1, image_kinds(), 0);
                        assert(ts[(i + 1) + 7int].token_type == image_kinds()[7]);
                    }
                }
            },
            _ => {},
        }
    }
}

/// A run stops at a token of its stop kind, or at the end of the tokens
/// where that is allowed, never before its start.
pub proof fn lemma_run_progress(ts: Seq<TokenView>, i: nat, stop: TokenType, eos_ok: bool)
    ensures
        run_spec(ts, i, stop, eos_ok) matches Ok((_, k)) ==> {
            &&& i <= k
            &&& i <= ts.len() ==> k <= ts.len()
            &&& k < ts.len() ==> ts[k as int].token_type == stop
            &&& k >= ts.len() ==> eos_ok
        },
    decreases ts.len() - i, 3nat,
{
    if i < ts.len() && ts[i as int].token_type != stop {
        lemma_inline_progress(ts, i);
        match inline_spec(ts, i) {
            Ok((x, j)) => {
                lemma_run_progress(ts, j, stop, eos_ok);
            },
            Err(_) => {},
        }
    }
}

proof fn lemma_marker_run_bound(ts: Seq<TokenView>, i: nat)
    ensures
        i <= ts.len() ==> i + marker_run(ts, i) <= ts.len(),
        forall|q: int|
            i <= q < i + marker_run(ts, i) ==> #[trigger] ts[q].token_type
                == TokenType::HeadingMarker,
        i + marker_run(ts, i) < ts.len() ==> ts[(i + marker_run(ts, i)) as int].token_type
            != TokenType::HeadingMarker,
    decreases ts.len() - i,
{
    if i < ts.len() && ts[i as int].token_type == TokenType::HeadingMarker {
        lemma_marker_run_bound(ts, i + 1);
    }
}

/// Every statement consumes at least one token and stays within the tokens.
pub proof fn lemma_statement_progress(ts: Seq<TokenView>, i: nat)
    requires
        i < ts.len(),
    ensures
        statement_spec(ts, i) matches Ok((_, j)) ==> i < j <= ts.len(),
{
    lemma_marker_run_bound(ts, i);
    let level = marker_run(ts, i);
    lemma_run_progress(ts, i + level, TokenType::NewLine, true);
    lemma_run_progress(ts, i, TokenType::NewLine, true);
    lemma_list_lines_progress(ts, i);
}

/// The views of two sequences of inline elements, one after the other.
pub proof fn lemma_views_concat(a: Seq<InlineStatement>, b: Seq<InlineStatement>)
    ensures
        inline_views(a + b) == inline_views(a) + inline_views(b),
    decreases b.len(),
{
    if b.len() == 0 {
        assert(a + b =~= a);
        assert(inline_views(a) + inline_views(b) =~= inline_views(a));
    } else {
        assert((a + b).drop_last() =~= a + b.drop_last());
        lemma_views_concat(a, b.drop_last());
        assert(inline_views(a + b) =~= inline_views(a) + inline_views(b));
    }
}

/// A list consumes at least its first line and stays within the tokens.
pub proof fn lemma_list_lines_progress(ts: Seq<TokenView>, i: nat)
    requires
        i < ts.len(),
    ensures
        list_lines_spec(ts, i) matches Ok((_, k)) ==> i < k <= ts.len(),
    decreases ts.len() - i,
{
    lemma_run_progress(ts, i, TokenType::NewLine, true);
    match run_spec(ts, i, TokenType::NewLine, true) {
        Ok((xs, k)) => {
            if k < ts.len() && k + 1 < ts.len() {
                lemma_list_lines_progress(ts, k + 1);
            }
        },
        Err(_) => {},
    }
}


/// Reads a token stream with one cursor that only moves forward.
pub struct Parser {
    pub cursor: usize,
    pub stream: Vec<Token>,
    pub source_type: SourceType,
}

/// Puts `prefix` in front of the elements of a successful run.
pub open spec fn prepend_inlines(prefix: Seq<InlineView>, r: RunParse) -> RunParse {
    match r {
        Ok((xs, k)) => Ok((prefix + xs, k)),
        Err(e) => Err(e),
    }
}

/// Puts `prefix` in front of the statements of a successful result.
pub open spec fn prepend_statements(
    prefix: Seq<StatementView>,
    r: Result<Seq<StatementView>, ErrorView>,
) -> Result<Seq<StatementView>, ErrorView> {
    match r {
        Ok(ss) => Ok(prefix + ss),
        Err(e) => Err(e),
    }
}

/// `r` is what `expected` describes, with the cursor left at `cursor`.
pub open spec fn inline_outcome(
    r: Result<InlineStatement, JiraiErr>,
    expected: InlineParse,
    cursor: usize,
) -> bool {
    match expected {
        Ok((x, j)) => r is Ok && inline_view(r->Ok_0) == x && cursor == j,
        Err(e) => r is Err && r->Err_0@ == e,
    }
}

pub open spec fn run_outcome(
    r: Result<Vec<InlineStatement>, JiraiErr>,
    expected: RunParse,
    cursor: usize,
) -> bool {
    match expected {
        Ok((xs, k)) => r is Ok && inline_views(r->Ok_0@) == xs && cursor == k,
        Err(e) => r is Err && r->Err_0@ == e,
    }
}

pub open spec fn statement_outcome(
    r: Result<Statement, JiraiErr>,
    expected: StatementParse,
    cursor: usize,
) -> bool {
    match expected {
        Ok((s, j)) => r is Ok && statement_view(r->Ok_0) == s && cursor == j,
        Err(e) => r is Err && r->Err_0@ == e,
    }
}

impl Parser {
    /// The tokens as views.
    pub open spec fn tokens(&self) -> Seq<TokenView> {
        tokens_view(self.stream@)
    }

    /// The same stream and source type.
    pub open spec fn same_input(&self, other: &Parser) -> bool {
        self.stream == other.stream && self.source_type == other.source_type
    }

    /// A parser at the start of a copy of `stream`; an empty stream is an
    /// error.
    pub fn new(source_type: &SourceType, stream: &Vec<Token>) -> (r: Result<Parser, JiraiErr>)
        ensures
            stream@.len() == 0 ==> r is Err && r->Err_0@ == ErrorView::EmptyTokenStream,
            stream@.len() > 0 ==> r is Ok && r->Ok_0.cursor == 0 && r->Ok_0.stream@ == stream@
                && r->Ok_0.source_type == *source_type,
    {
        if stream.len() == 0 {
            return Err(JiraiErr::new(ErrorKind::EmptyTokenStream));
        }
        let mut copy: Vec<Token> = Vec::new();
        let mut k: usize = 0;
        while k < stream.len()
            invariant
                k <= stream.len(),
                copy@ == stream@.take(k as int),
            decreases stream.len() - k,
        {
            copy.push(copy_token(&stream[k]));
            proof {
                assert(copy@ =~= stream@.take(k + 1));
            }
            k = k + 1;
        }
        proof {
            assert(stream@.take(stream.len() as int) =~= stream@);
        }
        Ok(Parser { cursor: 0, stream: copy, source_type: *source_type })
    }

    pub fn advance(&mut self)
        requires
            old(self).cursor < usize::MAX,
        ensures
            final(self).cursor == old(self).cursor + 1,
            final(self).same_input(old(self)),
            old(self).cursor <= final(self).cursor,
    {
        self.cursor = self.cursor + 1;
    }

    pub fn is_done(&self) -> (r: bool)
        ensures
            r == (self.cursor == self.stream@.len()),
    {
        self.cursor == self.stream.len()
    }

    /// The token at the cursor, which stays where it is.
    pub fn peek(&mut self) -> (r: Result<Token, JiraiErr>)
        ensures
            *final(self) == *old(self),
            old(self).cursor < old(self).stream@.len() ==> r is Ok && r->Ok_0 == old(
                self,
            ).stream@[old(self).cursor as int],
            old(self).cursor >= old(self).stream@.len() ==> r is Err && r->Err_0@
                == ErrorView::UnexpectedEndOfStream,
    {
        if self.cursor < self.stream.len() {
            Ok(copy_token(&self.stream[self.cursor]))
        } else {
            Err(JiraiErr::new(ErrorKind::UnexpectedEndOfStream))
        }
    }

    /// Moves past the token at the cursor where it has kind `k`.
    fn consume(&mut self, k: TokenType) -> (r: Result<(), JiraiErr>)
        ensures
            final(self).same_input(old(self)),
            old(self).cursor <= final(self).cursor,
            match expect_at(old(self).tokens(), old(self).cursor as nat, k) {
                Ok(j) => r is Ok && final(self).cursor == j,
                Err(e) => r is Err && r->Err_0@ == e && final(self).cursor == old(self).cursor,
            },
    {
        if self.cursor >= self.stream.len() {
            return Err(JiraiErr::new(ErrorKind::UnexpectedEndOfStream));
        }
        let t = &self.stream[self.cursor];
        if t.token_type == k {
            self.advance();
            Ok(())
        } else {
            Err(JiraiErr::new(ErrorKind::ExpectedToken { wanted: k, at: t.start }))
        }
    }

    /// The token at the cursor, which moves past it, where it has kind
    /// `token_type`; an error, with the cursor left in place, elsewhere.
    pub fn expect(&mut self, token_type: &TokenType) -> (r: Result<Token, JiraiErr>)
        ensures
            final(self).same_input(old(self)),
            old(self).cursor <= final(self).cursor,
            match expect_at(old(self).tokens(), old(self).cursor as nat, *token_type) {
                Ok(j) => r is Ok && r->Ok_0 == old(self).stream@[old(self).cursor as int]
                    && final(self).cursor == j,
                Err(e) => r is Err && r->Err_0@ == e && final(self).cursor == old(self).cursor,
            },
    {
        let at = self.cursor;
        match self.consume(*token_type) {
            Ok(()) => Ok(copy_token(&self.stream[at])),
            Err(e) => Err(e),
        }
    }

    /// Moves past tokens of the kinds `kinds`, in order, or stops at the
    /// first that differs.
    fn expect_all(&mut self, kinds: &[TokenType]) -> (r: Result<(), JiraiErr>)
        ensures
            final(self).same_input(old(self)),
            old(self).cursor <= final(self).cursor,
            match pattern_error(old(self).tokens(), old(self).cursor as nat, kinds@, 0) {
                None => r is Ok && final(self).cursor == old(self).cursor + kinds@.len(),
                Some(e) => r is Err && r->Err_0@ == e,
            },
    {
        let ghost ts = self.tokens();
        let ghost c0 = self.cursor as nat;
        let mut m: usize = 0;
        while m < kinds.len()
            invariant
                self.same_input(old(self)),
                ts == self.tokens(),
                ts == old(self).tokens(),
                c0 == old(self).cursor,
                m <= kinds@.len(),
                self.cursor == c0 + m,
                pattern_error(ts, c0, kinds@, 0) == pattern_error(ts, c0, kinds@, m as nat),
            decreases kinds@.len() - m,
        {
            let k = kinds[m];
            assert(k == kinds@[m as int]);
            match self.consume(k) {
                Ok(()) => {},
                Err(e) => {
                    return Err(e);
                },
            }
            m = m + 1;
        }
        Ok(())
    }

    /// The text of the token at `at`.
    fn text_at(&self, at: usize) -> (r: Result<String, JiraiErr>)
        requires
            at < self.stream@.len(),
        ensures
            match text_of(self.tokens()[at as int]) {
                Ok(t) => r is Ok && r->Ok_0@ == t,
                Err(e) => r is Err && r->Err_0@ == e,
            },
    {
        let t = &self.stream[at];
        match &t.value {
            Some(v) => Ok(v.clone()),
            None => Err(JiraiErr::new(ErrorKind::MissingText { at: t.start })),
        }
    }

    /// Whether the stream opens with a document limiter.
    pub fn starts_with(&mut self) -> (r: bool)
        ensures
            *final(self) == *old(self),
            r == (old(self).stream@.len() > 0 && old(self).stream@[0].token_type
                == TokenType::DocumentLimiter),
    {
        if self.stream.len() > 0 {
            self.stream[0].token_type == TokenType::DocumentLimiter
        } else {
            false
        }
    }

    /// Whether the stream closes with a document limiter.
    pub fn ends_with(&mut self) -> (r: bool)
        ensures
            *final(self) == *old(self),
            r == (old(self).stream@.len() > 0 && old(self).stream@.last().token_type
                == TokenType::DocumentLimiter),
    {
        if self.stream.len() > 0 {
            self.stream[self.stream.len() - 1].token_type == TokenType::DocumentLimiter
        } else {
            false
        }
    }
}


impl Parser {
    /// Inline elements up to a token of kind `stop`, left in place; the
    /// end of the stream ends the run where `eos_ok` holds.
    fn parse_run(&mut self, stop: TokenType, eos_ok: bool) -> (r: Result<
        Vec<InlineStatement>,
        JiraiErr,
    >)
        ensures
            final(self).same_input(old(self)),
            old(self).cursor <= final(self).cursor,
            run_outcome(
                r,
                run_spec(old(self).tokens(), old(self).cursor as nat, stop, eos_ok),
                final(self).cursor,
            ),
        decreases old(self).stream@.len() - old(self).cursor, 3nat,
    {
        let ghost ts = self.tokens();
        let ghost c0 = self.cursor as nat;
        let mut items: Vec<InlineStatement> = Vec::new();
        loop
            invariant
                self.same_input(old(self)),
                ts == self.tokens(),
                ts == old(self).tokens(),
                c0 == old(self).cursor,
                ts.len() == self.stream@.len(),
                c0 <= self.cursor,
                run_spec(ts, c0, stop, eos_ok) == prepend_inlines(
                    inline_views(items@),
                    run_spec(ts, self.cursor as nat, stop, eos_ok),
                ),
            decreases self.stream@.len() - self.cursor,
        {
            if self.cursor >= self.stream.len() || self.stream[self.cursor].token_type == stop {
                if self.cursor < self.stream.len() || eos_ok {
                    proof {
                        assert(inline_views(items@) + seq![] =~= inline_views(items@));
                    }
                    return Ok(items);
                } else {
                    return Err(JiraiErr::new(ErrorKind::UnexpectedEndOfStream));
                }
            }
            let ghost before = self.cursor as nat;
            let x = match self.parse_inline_statement() {
                Ok(x) => x,
                Err(e) => {
                    return Err(e);
                },
            };
            proof {
                lemma_inline_progress(ts, before);
                let j = self.cursor as nat;
                let rest = run_spec(ts, j, stop, eos_ok);
                assert(run_spec(ts, before, stop, eos_ok) == prepend_inline(inline_view(x), rest));
                assert(items@.push(x).drop_last() =~= items@);
                match rest {
                    Ok((xs, k)) => {
                        assert(inline_views(items@) + (seq![inline_view(x)] + xs) =~= inline_views(
                            items@.push(x),
                        ) + xs);
                    },
                    Err(_) => {},
                }
            }
            items.push(x);
        }
    }

    /// The inline element at the cursor, chosen by the kind of its first
    /// token: bold, list item, code, link or image, italic, block quote, or
    /// else plain text.
    pub fn parse_inline_statement(&mut self) -> (r: Result<InlineStatement, JiraiErr>)
        ensures
            final(self).same_input(old(self)),
            old(self).cursor <= final(self).cursor,
            inline_outcome(
                r,
                inline_spec(old(self).tokens(), old(self).cursor as nat),
                final(self).cursor,
            ),
        decreases old(self).stream@.len() - old(self).cursor, 2nat,
    {
        if self.cursor >= self.stream.len() {
            return Err(JiraiErr::new(ErrorKind::UnexpectedEndOfStream));
        }
        match self.stream[self.cursor].token_type {
            TokenType::BoldText => self.parse_bold_text(),
            TokenType::ListMarker => self.parse_list_item(),
            TokenType::OpenAngle => self.parse_inline_code(),
            TokenType::OpenCurly => self.parse_linked_item(),
            TokenType::ItalicText => self.parse_italic_text(),
            TokenType::CloseAngle => self.parse_block_quote(),
            _ => self.parse_text(),
        }
    }

    /// `* ... *`: inline elements up to the closing marker.
    pub fn parse_bold_text(&mut self) -> (r: Result<InlineStatement, JiraiErr>)
        ensures
            final(self).same_input(old(self)),
            old(self).cursor <= final(self).cursor,
            inline_outcome(
                r,
                bold_spec(old(self).tokens(), old(self).cursor as nat),
                final(self).cursor,
            ),
        decreases old(self).stream@.len() - old(self).cursor, 1nat,
    {
        match self.consume(TokenType::BoldText) {
            Ok(()) => {},
            Err(e) => {
                return Err(e);
            },
        }
        let contents = match self.parse_run(TokenType::BoldText, false) {
            Ok(v) => v,
            Err(e) => {
                return Err(e);
            },
        };
        match self.consume(TokenType::BoldText) {
            Ok(()) => {},
            Err(e) => {
                return Err(e);
            },
        }
        Ok(InlineStatement::BoldText(Box::new(contents)))
    }

    /// `$ ... $`: inline elements up to the closing marker.
    pub fn parse_italic_text(&mut self) -> (r: Result<InlineStatement, JiraiErr>)
        ensures
            final(self).same_input(old(self)),
            old(self).cursor <= final(self).cursor,
            inline_outcome(
                r,
                italic_spec(old(self).tokens(), old(self).cursor as nat),
                final(self).cursor,
            ),
        decreases old(self).stream@.len() - old(self).cursor, 1nat,
    {
        match self.consume(TokenType::ItalicText) {
            Ok(()) => {},
            Err(e) => {
                return Err(e);
            },
        }
        let contents = match self.parse_run(TokenType::ItalicText, false) {
            Ok(v) => v,
            Err(e) => {
                return Err(e);
            },
        };
        match self.consume(TokenType::ItalicText) {
            Ok(()) => {},
            Err(e) => {
                return Err(e);
            },
        }
        Ok(InlineStatement::ItalicText(Box::new(contents)))
    }

    /// `~ ...`: inline elements up to the end of the line; the newline is
    /// left for the enclosing list.
    pub fn parse_list_item(&mut self) -> (r: Result<InlineStatement, JiraiErr>)
        ensures
            final(self).same_input(old(self)),
            old(self).cursor <= final(self).cursor,
            inline_outcome(
                r,
                list_item_spec(old(self).tokens(), old(self).cursor as nat),
                final(self).cursor,
            ),
        decreases old(self).stream@.len() - old(self).cursor, 1nat,
    {
        match self.consume(TokenType::ListMarker) {
            Ok(()) => {},
            Err(e) => {
                return Err(e);
            },
        }
        let contents = match self.parse_run(TokenType::NewLine, true) {
            Ok(v) => v,
            Err(e) => {
                return Err(e);
            },
        };
        Ok(InlineStatement::ListItem(Box::new(contents)))
    }

    /// `{` followed by a link or an image.
    pub fn parse_linked_item(&mut self) -> (r: Result<InlineStatement, JiraiErr>)
        ensures
            final(self).same_input(old(self)),
            old(self).cursor <= final(self).cursor,
            inline_outcome(
                r,
                linked_spec(old(self).tokens(), old(self).cursor as nat),
                final(self).cursor,
            ),
    {
        match self.consume(TokenType::OpenCurly) {
            Ok(()) => {},
            Err(e) => {
                return Err(e);
            },
        }
        if self.cursor >= self.stream.len() {
            return Err(JiraiErr::new(ErrorKind::UnexpectedEndOfStream));
        }
        let t = &self.stream[self.cursor];
        if t.token_type == TokenType::ImageMarker {
            self.parse_image_item()
        } else if t.token_type == TokenType::LinkMarker {
            self.parse_link_item()
        } else {
            Err(JiraiErr::new(ErrorKind::ExpectedLinkOrImageMarker { at: t.start }))
        }
    }

    /// `< text >`
    pub fn parse_inline_code(&mut self) -> (r: Result<InlineStatement, JiraiErr>)
        ensures
            final(self).same_input(old(self)),
            old(self).cursor <= final(self).cursor,
            inline_outcome(
                r,
                code_spec(old(self).tokens(), old(self).cursor as nat),
                final(self).cursor,
            ),
    {
        let at = self.cursor;
        let kinds = [TokenType::OpenAngle, TokenType::UserString, TokenType::CloseAngle];
        assert(kinds@ == code_kinds());
        match self.expect_all(&kinds) {
            Ok(()) => {},
            Err(e) => {
                return Err(e);
            },
        }
        proof {
            lemma_pattern_matches(old(self).tokens(), at as nat, code_kinds(), 0);
            assert(old(self).tokens()[at + 2int].token_type == code_kinds()[2]);
        }
        match self.text_at(at + 1) {
            Ok(t) => Ok(InlineStatement::Code(t)),
            Err(e) => Err(e),
        }
    }

    /// `> ( text ) <`
    pub fn parse_block_quote(&mut self) -> (r: Result<InlineStatement, JiraiErr>)
        ensures
            final(self).same_input(old(self)),
            old(self).cursor <= final(self).cursor,
            inline_outcome(
                r,
                quote_spec(old(self).tokens(), old(self).cursor as nat),
                final(self).cursor,
            ),
    {
        let at = self.cursor;
        let kinds = [
            TokenType::CloseAngle,
            TokenType::OpenBracket,
            TokenType::UserString,
            TokenType::CloseBracket,
            TokenType::OpenAngle,
        ];
        assert(kinds@ == quote_kinds());
        match self.expect_all(&kinds) {
            Ok(()) => {},
            Err(e) => {
                return Err(e);
            },
        }
        proof {
            lemma_pattern_matches(old(self).tokens(), at as nat, quote_kinds(), 0);
            assert(old(self).tokens()[at + 4int].token_type == quote_kinds()[4]);
        }
        match self.text_at(at + 2) {
            Ok(t) => Ok(InlineStatement::BlockQuote(t)),
            Err(e) => Err(e),
        }
    }

    /// `# [ alt ] [ text ] [ url ] }`
    pub fn parse_link_item(&mut self) -> (r: Result<InlineStatement, JiraiErr>)
        ensures
            final(self).same_input(old(self)),
            old(self).cursor <= final(self).cursor,
            inline_outcome(
                r,
                link_spec(old(self).tokens(), old(self).cursor as nat),
                final(self).cursor,
            ),
    {
        let at = self.cursor;
        let kinds = [
            TokenType::LinkMarker,
            TokenType::OpenSquare,
            TokenType::UserString,
            TokenType::CloseSquare,
            TokenType::OpenSquare,
            TokenType::UserString,
            TokenType::CloseSquare,
            TokenType::OpenSquare,
            TokenType::UserString,
            TokenType::CloseSquare,
            TokenType::CloseCurly,
        ];
        assert(kinds@ == link_kinds());
        match self.expect_all(&kinds) {
            Ok(()) => {},
            Err(e) => {
                return Err(e);
            },
        }
        proof {
            lemma_pattern_matches(old(self).tokens(), at as nat, link_kinds(), 0);
            assert(old(self).tokens()[at + 10int].token_type == link_kinds()[10]);
        }
        let link_text = match self.text_at(at + 5) {
            Ok(t) => t,
            Err(e) => {
                return Err(e);
            },
        };
        let url = match self.text_at(at + 8) {
            Ok(t) => t,
            Err(e) => {
                return Err(e);
            },
        };
        let alt = copy_text(&self.stream[at + 2].value);
        Ok(InlineStatement::Link(Link { alt, url, link_text }))
    }

    /// `@ [ alt ] [ url ] }`
    pub fn parse_image_item(&mut self) -> (r: Result<InlineStatement, JiraiErr>)
        ensures
            final(self).same_input(old(self)),
            old(self).cursor <= final(self).cursor,
            inline_outcome(
                r,
                image_spec(old(self).tokens(), old(self).cursor as nat),
                final(self).cursor,
            ),
    {
        let at = self.cursor;
        let kinds = [
            TokenType::ImageMarker,
            TokenType::OpenSquare,
            TokenType::UserString,
            TokenType::CloseSquare,
            TokenType::OpenSquare,
            TokenType::UserString,
            TokenType::CloseSquare,
            TokenType::CloseCurly,
        ];
        assert(kinds@ == image_kinds());
        match self.expect_all(&kinds) {
            Ok(()) => {},
            Err(e) => {
                return Err(e);
            },
        }
        proof {
            lemma_pattern_matches(old(self).tokens(), at as nat, image_kinds(), 0);
            assert(old(self).tokens()[at + 7int].token_type == image_kinds()[7]);
        }
        let url = match self.text_at(at + 5) {
            Ok(t) => t,
            Err(e) => {
                return Err(e);
            },
        };
        let alt = copy_text(&self.stream[at + 2].value);
        Ok(InlineStatement::Image(Image { alt, url }))
    }

    /// One text token.
    pub fn parse_text(&mut self) -> (r: Result<InlineStatement, JiraiErr>)
        ensures
            final(self).same_input(old(self)),
            old(self).cursor <= final(self).cursor,
            inline_outcome(
                r,
                text_spec(old(self).tokens(), old(self).cursor as nat),
                final(self).cursor,
            ),
            r is Err ==> final(self).cursor == old(self).cursor,
    {
        if self.cursor >= self.stream.len() {
            return Err(JiraiErr::new(ErrorKind::UnexpectedEndOfStream));
        }
        let t = &self.stream[self.cursor];
        if t.token_type != TokenType::UserString {
            return Err(
                JiraiErr::new(ErrorKind::ExpectedToken { wanted: TokenType::UserString, at: t.start }),
            );
        }
        let text = match self.text_at(self.cursor) {
            Ok(text) => text,
            Err(e) => {
                return Err(e);
            },
        };
        self.advance();
        Ok(InlineStatement::Text(text))
    }
}


impl Parser {
    /// Moves past the newline that ends a line, where there is one.
    fn finish_line(&mut self)
        ensures
            final(self).same_input(old(self)),
            old(self).cursor <= final(self).cursor,
            final(self).cursor == past_line_end(old(self).tokens(), old(self).cursor as nat),
    {
        if self.cursor < self.stream.len() {
            self.advance();
        }
    }

    /// Heading markers, whose number is the level, then inline elements up
    /// to the end of the line, whose newline is consumed.
    pub fn parse_heading(&mut self) -> (r: Result<Statement, JiraiErr>)
        ensures
            final(self).same_input(old(self)),
            old(self).cursor <= final(self).cursor,
            statement_outcome(
                r,
                heading_spec(old(self).tokens(), old(self).cursor as nat),
                final(self).cursor,
            ),
            marker_run(old(self).tokens(), old(self).cursor as nat) == 0 ==> final(self).cursor
                == old(self).cursor,
    {
        let ghost ts = self.tokens();
        let ghost c0 = self.cursor as nat;
        let mut level: usize = 0;
        while self.cursor < self.stream.len() && self.stream[self.cursor].token_type
            == TokenType::HeadingMarker
            invariant
                self.same_input(old(self)),
                ts == self.tokens(),
                ts == old(self).tokens(),
                c0 == old(self).cursor,
                self.cursor == c0 + level,
                marker_run(ts, c0) == level + marker_run(ts, self.cursor as nat),
            decreases self.stream@.len() - self.cursor,
        {
            level = level + 1;
            self.advance();
        }
        if level == 0 {
            let at = if self.cursor < self.stream.len() {
                self.stream[self.cursor].end
            } else if self.stream.len() > 0 {
                self.stream[self.stream.len() - 1].end
            } else {
                Position { line: 0, column: 0 }
            };
            return Err(JiraiErr::new(ErrorKind::ExpectedHeadingMarker { at }));
        }
        let contents = match self.parse_run(TokenType::NewLine, true) {
            Ok(v) => v,
            Err(e) => {
                return Err(e);
            },
        };
        proof {
            lemma_marker_run_bound(ts, c0);
            lemma_run_progress(ts, c0 + level as nat, TokenType::NewLine, true);
        }
        self.finish_line();
        Ok(Statement::Heading(level, contents))
    }

    /// An unordered list where the cursor is at a list marker, a paragraph
    /// elsewhere.
    pub fn parse_block_element(&mut self) -> (r: Result<Statement, JiraiErr>)
        ensures
            final(self).same_input(old(self)),
            old(self).cursor <= final(self).cursor,
            statement_outcome(
                r,
                block_spec(old(self).tokens(), old(self).cursor as nat),
                final(self).cursor,
            ),
    {
        if self.cursor >= self.stream.len() {
            return Err(JiraiErr::new(ErrorKind::UnexpectedEndOfStream));
        }
        if self.stream[self.cursor].token_type == TokenType::ListMarker {
            self.parse_unordered_list()
        } else {
            self.parse_paragraph()
        }
    }

    /// Inline elements up to the end of the line, whose newline is consumed.
    pub fn parse_paragraph(&mut self) -> (r: Result<Statement, JiraiErr>)
        ensures
            final(self).same_input(old(self)),
            old(self).cursor <= final(self).cursor,
            statement_outcome(
                r,
                paragraph_spec(old(self).tokens(), old(self).cursor as nat),
                final(self).cursor,
            ),
    {
        let ghost c0 = self.cursor as nat;
        let contents = match self.parse_run(TokenType::NewLine, true) {
            Ok(v) => v,
            Err(e) => {
                return Err(e);
            },
        };
        proof {
            lemma_run_progress(old(self).tokens(), c0, TokenType::NewLine, true);
        }
        self.finish_line();
        Ok(Statement::Paragraph(contents))
    }

    /// Inline elements, list items among them, up to the end of the line,
    /// whose newline is consumed.
    pub fn parse_unordered_list(&mut self) -> (r: Result<Statement, JiraiErr>)
        ensures
            final(self).same_input(old(self)),
            old(self).cursor <= final(self).cursor,
            statement_outcome(
                r,
                unordered_list_spec(old(self).tokens(), old(self).cursor as nat),
                final(self).cursor,
            ),
    {
        let ghost ts = self.tokens();
        let ghost c0 = self.cursor as nat;
        let mut contents: Vec<InlineStatement> = Vec::new();
        loop
            invariant
                self.same_input(old(self)),
                ts == self.tokens(),
                ts == old(self).tokens(),
                c0 == old(self).cursor,
                ts.len() == self.stream@.len(),
                c0 <= self.cursor,
                list_lines_spec(ts, c0) == prepend_inlines(
                    inline_views(contents@),
                    list_lines_spec(ts, self.cursor as nat),
                ),
            decreases self.stream@.len() - self.cursor,
        {
            let ghost before = self.cursor as nat;
            let mut line = match self.parse_run(TokenType::NewLine, true) {
                Ok(v) => v,
                Err(e) => {
                    return Err(e);
                },
            };
            let ghost rest = list_lines_spec(ts, self.cursor as nat + 1);
            proof {
                lemma_run_progress(ts, before, TokenType::NewLine, true);
                lemma_views_concat(contents@, line@);
                match rest {
                    Ok((ys, k)) => {
                        assert(inline_views(contents@) + (inline_views(line@) + ys) =~= (
                        inline_views(contents@) + inline_views(line@)) + ys);
                    },
                    Err(_) => {},
                }
            }
            contents.append(&mut line);
            if self.cursor >= self.stream.len() {
                return Ok(Statement::UnorderedList(contents));
            }
            self.advance();
            if self.cursor < self.stream.len() && self.stream[self.cursor].token_type
                == TokenType::ListMarker {
                continue;
            }
            if self.cursor < self.stream.len() && self.stream[self.cursor].token_type
                == TokenType::NewLine {
                self.advance();
            }
            return Ok(Statement::UnorderedList(contents));
        }
    }

    /// The statements from the cursor to the end of the stream: a heading
    /// where a line starts with a heading marker, a list or a paragraph
    /// elsewhere.
    pub fn parse(&mut self) -> (r: Result<Vec<Statement>, JiraiErr>)
        ensures
            final(self).same_input(old(self)),
            old(self).cursor <= final(self).cursor,
            match document_spec(old(self).tokens(), old(self).cursor as nat) {
                Ok(ss) => r is Ok && statements_view(r->Ok_0@) == ss,
                Err(e) => r is Err && r->Err_0@ == e,
            },
            r is Ok ==> final(self).cursor == final(self).stream@.len(),
            r is Ok ==> r->Ok_0@.len() <= final(self).cursor - old(self).cursor,
    {
        let ghost ts = self.tokens();
        let ghost c0 = self.cursor as nat;
        let mut statements: Vec<Statement> = Vec::new();
        while !self.is_done()
            invariant
                self.same_input(old(self)),
                ts == self.tokens(),
                ts == old(self).tokens(),
                c0 == old(self).cursor,
                ts.len() == self.stream@.len(),
                c0 <= self.cursor,
                statements@.len() <= self.cursor - c0,
                document_spec(ts, c0) == prepend_statements(
                    statements_view(statements@),
                    document_spec(ts, self.cursor as nat),
                ),
            decreases self.stream@.len() - self.cursor,
        {
            if self.cursor > self.stream.len() {
                return Err(JiraiErr::new(ErrorKind::UnexpectedEndOfStream));
            }
            let ghost before = self.cursor as nat;
            let next = if self.stream[self.cursor].token_type == TokenType::HeadingMarker {
                self.parse_heading()
            } else {
                self.parse_block_element()
            };
            let s = match next {
                Ok(s) => s,
                Err(e) => {
                    return Err(e);
                },
            };
            proof {
                lemma_statement_progress(ts, before);
                let j = self.cursor as nat;
                let rest = document_spec(ts, j);
                assert(document_spec(ts, before) == prepend_statement(statement_view(s), rest));
                assert(statements_view(statements@.push(s)) =~= statements_view(statements@).push(
                    statement_view(s),
                ));
                match rest {
                    Ok(ss) => {
                        assert(statements_view(statements@) + (seq![statement_view(s)] + ss)
                            =~= statements_view(statements@.push(s)) + ss);
                    },
                    Err(_) => {},
                }
            }
            statements.push(s);
        }
        proof {
            assert(statements_view(statements@) + seq![] =~= statements_view(statements@));
        }
        Ok(statements)
    }
}


proof fn lemma_text_run_inside(s: Seq<char>, n: nat, i: nat)
    requires
        s.len() == n + 2,
        1 <= i <= n + 1,
        forall|k: int| 1 <= k <= n ==> crate::lexer::is_text_char(#[trigger] s[k]),
        !crate::lexer::is_text_char(s[n + 1int]),
    ensures
        crate::lexer::text_run_len(s, i) == n + 1 - i,
    decreases n + 1 - i,
{
    if i <= n {
        lemma_text_run_inside(s, n, i + 1);
    }
}

/// The tokens of `d t d`, for a delimiter `d` of kind `kind` around a text
/// run `t`.
proof fn lemma_lex_span(t: Seq<char>, d: char, kind: TokenType)
    requires
        t.len() > 0,
        forall|k: int| 0 <= k < t.len() ==> crate::lexer::is_text_char(#[trigger] t[k]),
        d == '*' || d == '$',
        crate::lexer::single_char_kind(d) == Some(kind),
    ensures
        crate::lexer::lex(seq![d] + t + seq![d]) == Ok::<Seq<TokenView>, ErrorView>(
            seq![
                crate::lexer::token_at(seq![d] + t + seq![d], 0, 1, 0, kind),
                crate::lexer::token_at(seq![d] + t + seq![d], 1, t.len(), 0, TokenType::UserString),
                crate::lexer::token_at(seq![d] + t + seq![d], t.len() + 1, 1, 0, kind),
            ],
        ),
{
    let s = seq![d] + t + seq![d];
    let n = t.len();
    assert(s.len() == n + 2);
    assert(s[0] == d);
    assert(s[n + 1int] == d);
    assert forall|k: int| 1 <= k <= n implies crate::lexer::is_text_char(#[trigger] s[k]) by {
        assert(s[k] == t[k - 1]);
    }
    lemma_text_run_inside(s, n, 1);
    assert(s[1] == t[0]);
    let tok0 = crate::lexer::token_at(s, 0, 1, 0, kind);
    let tok1 = crate::lexer::token_at(s, 1, n, 0, TokenType::UserString);
    let tok2 = crate::lexer::token_at(s, n + 1, 1, 0, kind);
    assert(crate::lexer::token_shape(s, n + 1) == Some((kind, 1nat)));
    assert(crate::lexer::lex_from(s, n + 2, 0) == Ok::<Seq<TokenView>, ErrorView>(seq![]));
    assert(crate::lexer::lex_from(s, n + 1, 0) == Ok::<Seq<TokenView>, ErrorView>(
        seq![tok2] + seq![],
    ));
    assert(crate::lexer::token_shape(s, 1) == Some((TokenType::UserString, n)));
    assert(crate::lexer::lex_from(s, 1, 0) == Ok::<Seq<TokenView>, ErrorView>(
        seq![tok1] + (seq![tok2] + seq![]),
    ));
    assert(crate::lexer::token_shape(s, 0) == Some((kind, 1nat)));
    assert(seq![tok0] + (seq![tok1] + (seq![tok2] + seq![])) =~= seq![tok0, tok1, tok2]);
}

/// A bold span `*t*` around a non-empty run `t` of text characters is read
/// as one paragraph holding one bold element that holds one text element
/// equal to `t`; an italic span `$t$` likewise, with an italic element.
pub proof fn lemma_delimiter_round_trip(t: Seq<char>)
    requires
        t.len() > 0,
        forall|k: int| 0 <= k < t.len() ==> crate::lexer::is_text_char(#[trigger] t[k]),
    ensures
        crate::lexer::lex(seq!['*'] + t + seq!['*']) matches Ok(ts) && document_spec(ts, 0)
            == Ok::<Seq<StatementView>, ErrorView>(
            seq![StatementView::Paragraph(seq![InlineView::BoldText(seq![InlineView::Text(t)])])],
        ),
        crate::lexer::lex(seq!['$'] + t + seq!['$']) matches Ok(ts) && document_spec(ts, 0)
            == Ok::<Seq<StatementView>, ErrorView>(
            seq![
                StatementView::Paragraph(seq![InlineView::ItalicText(seq![InlineView::Text(t)])]),
            ],
        ),
{
    lemma_lex_span(t, '*', TokenType::BoldText);
    lemma_parse_span(t, '*', TokenType::BoldText);
    lemma_lex_span(t, '$', TokenType::ItalicText);
    lemma_parse_span(t, '$', TokenType::ItalicText);
}

proof fn lemma_parse_span(t: Seq<char>, d: char, kind: TokenType)
    requires
        t.len() > 0,
        kind == TokenType::BoldText || kind == TokenType::ItalicText,
    ensures
        ({
            let s = seq![d] + t + seq![d];
            let ts = seq![
                crate::lexer::token_at(s, 0, 1, 0, kind),
                crate::lexer::token_at(s, 1, t.len(), 0, TokenType::UserString),
                crate::lexer::token_at(s, t.len() + 1, 1, 0, kind),
            ];
            let inner = seq![InlineView::Text(t)];
            let x = if kind == TokenType::BoldText {
                InlineView::BoldText(inner)
            } else {
                InlineView::ItalicText(inner)
            };
            document_spec(ts, 0) == Ok::<Seq<StatementView>, ErrorView>(
                seq![StatementView::Paragraph(seq![x])],
            )
        }),
{
    let s = seq![d] + t + seq![d];
    let n = t.len();
    let ts = seq![
        crate::lexer::token_at(s, 0, 1, 0, kind),
        crate::lexer::token_at(s, 1, n, 0, TokenType::UserString),
        crate::lexer::token_at(s, n + 1, 1, 0, kind),
    ];
    assert(s.subrange(1, n + 1int) =~= t);
    let inner = seq![InlineView::Text(t)];
    let x = if kind == TokenType::BoldText {
        InlineView::BoldText(inner)
    } else {
        InlineView::ItalicText(inner)
    };
    assert(text_spec(ts, 1) == Ok::<(InlineView, nat), ErrorView>((InlineView::Text(t), 2)));
    assert(inline_spec(ts, 1) == text_spec(ts, 1));
    assert(run_spec(ts, 2, kind, false) == Ok::<(Seq<InlineView>, nat), ErrorView>((seq![], 2)));
    assert(run_spec(ts, 1, kind, false) == Ok::<(Seq<InlineView>, nat), ErrorView>(
        (seq![InlineView::Text(t)] + seq![], 2),
    ));
    assert(seq![InlineView::Text(t)] + seq![] =~= inner);
    if kind == TokenType::BoldText {
        assert(bold_spec(ts, 0) == Ok::<(InlineView, nat), ErrorView>((x, 3)));
    } else {
        assert(italic_spec(ts, 0) == Ok::<(InlineView, nat), ErrorView>((x, 3)));
    }
    assert(inline_spec(ts, 0) == Ok::<(InlineView, nat), ErrorView>((x, 3)));
    assert(run_spec(ts, 3, TokenType::NewLine, true) == Ok::<(Seq<InlineView>, nat), ErrorView>(
        (seq![], 3),
    ));
    assert(run_spec(ts, 0, TokenType::NewLine, true) == Ok::<(Seq<InlineView>, nat), ErrorView>(
        (seq![x] + seq![], 3),
    ));
    assert(seq![x] + seq![] =~= seq![x]);
    assert(statement_spec(ts, 0) == Ok::<(StatementView, nat), ErrorView>(
        (StatementView::Paragraph(seq![x]), 3),
    ));
    assert(document_spec(ts, 3) == Ok::<Seq<StatementView>, ErrorView>(seq![]));
    assert(seq![StatementView::Paragraph(seq![x])] + seq![] =~= seq![
        StatementView::Paragraph(seq![x]),
    ]);
}

} // verus!
