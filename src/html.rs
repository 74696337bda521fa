use vstd::prelude::*;
use vstd::string::*;

use crate::err::ErrorKind;
use crate::err::ErrorView;
use crate::err::JiraiErr;
use crate::numerals::decimal;
use crate::numerals::decimal_string;
use crate::parser::copy_statement;
use crate::parser::inline_view;
use crate::parser::inline_views;
use crate::parser::statement_view;
use crate::parser::statements_view;
use crate::parser::Image;
use crate::parser::InlineStatement;
use crate::parser::InlineView;
use crate::parser::Link;
use crate::parser::Statement;
use crate::parser::StatementView;

verus! {

/// HTML text, or the first error met while producing it.
pub type Rendered = Result<Seq<char>, ErrorView>;

/// HTML fragments, or the first error met while producing them.
pub type Fragments = Result<Seq<Seq<char>>, ErrorView>;

/// What stands between sibling fragments: nothing when minifying, a
/// newline otherwise.
pub open spec fn separator(minify: bool) -> Seq<char> {
    if minify {
        seq![]
    } else {
        seq!['\n']
    }
}

/// The fragments with `sep` between each two of them.
pub open spec fn join(frags: Seq<Seq<char>>, sep: Seq<char>) -> Seq<char>
    decreases frags.len(),
{
    if frags.len() == 0 {
        seq![]
    } else if frags.len() == 1 {
        frags[0]
    } else {
        join(frags.drop_last(), sep) + sep + frags.last()
    }
}

/// `open + s + close` for a successful `s`.
pub open spec fn wrapped(open: Seq<char>, r: Rendered, close: Seq<char>) -> Rendered {
    match r {
        Ok(s) => Ok(open + s + close),
        Err(e) => Err(e),
    }
}

/// A link; without alt text it is an error where alt text is enforced.
pub open spec fn link_html(
    alt: Option<Seq<char>>,
    url: Seq<char>,
    link_text: Seq<char>,
    alt_enforcing: bool,
) -> Rendered {
    match alt {
        Some(a) => Ok(
            "<a alt=\""@ + a + "\" href=\""@ + url + "\">"@ + link_text + "</a>"@,
        ),
        None => if alt_enforcing {
            Err(ErrorView::MissingAltText { url, image: false })
        } else {
            Ok("<a href=\""@ + url + "\">"@ + link_text + "</a>"@)
        },
    }
}

/// An image; without alt text it is an error where alt text is enforced.
pub open spec fn image_html(alt: Option<Seq<char>>, url: Seq<char>, alt_enforcing: bool) -> Rendered {
    match alt {
        Some(a) => Ok("<img alt=\""@ + a + "\" src=\""@ + url + "\"/>"@),
        None => if alt_enforcing {
            Err(ErrorView::MissingAltText { url, image: true })
        } else {
            Ok("<img src=\""@ + url + "\"/>"@)
        },
    }
}

/// The HTML of an inline element. Text is written as it is.
pub open spec fn render_inline(x: InlineView, minify: bool, alt_enforcing: bool) -> Rendered
    decreases x, 2nat,
{
    match x {
        InlineView::Text(t) => Ok(t),
        InlineView::Code(c) => Ok("<code>"@ + c + "</code>"@),
        InlineView::BlockQuote(q) => Ok("<blockquote>"@ + q + "</blockquote>"@),
        InlineView::Link { alt, url, link_text } => link_html(alt, url, link_text, alt_enforcing),
        InlineView::Image { alt, url } => image_html(alt, url, alt_enforcing),
        InlineView::BoldText(xs) => wrapped(
            "<b>"@,
            render_inlines(xs, minify, alt_enforcing),
            "</b>"@,
        ),
        InlineView::ItalicText(xs) => wrapped(
            "<i>"@,
            render_inlines(xs, minify, alt_enforcing),
            "</i>"@,
        ),
        InlineView::ListItem(xs) => wrapped(
            "<li>"@,
            render_inlines(xs, minify, alt_enforcing),
            "</li>"@,
        ),
    }
}

/// The HTML of sibling inline elements, joined.
pub open spec fn render_inlines(xs: Seq<InlineView>, minify: bool, alt_enforcing: bool) -> Rendered
    decreases xs, 1nat,
{
    match inline_fragments(xs, minify, alt_enforcing) {
        Ok(fs) => Ok(join(fs, separator(minify))),
        Err(e) => Err(e),
    }
}

/// The HTML of each inline element, in order; the first error stops it.
pub open spec fn inline_fragments(xs: Seq<InlineView>, minify: bool, alt_enforcing: bool) -> Fragments
    decreases xs, 0nat,
{
    if xs.len() == 0 {
        Ok(seq![])
    } else {
        match inline_fragments(xs.drop_last(), minify, alt_enforcing) {
            Err(e) => Err(e),
            Ok(fs) => match render_inline(xs.last(), minify, alt_enforcing) {
                Err(e) => Err(e),
                Ok(f) => Ok(fs.push(f)),
            },
        }
    }
}

/// The HTML of a statement.
pub open spec fn render_statement(s: StatementView, minify: bool, alt_enforcing: bool) -> Rendered {
    match s {
        StatementView::Heading(level, xs) => wrapped(
            "<h"@ + decimal(level) + ">"@,
            render_inlines(xs, minify, alt_enforcing),
            "</h"@ + decimal(level) + ">"@,
        ),
        StatementView::Paragraph(xs) => wrapped(
            "<p>"@,
            render_inlines(xs, minify, alt_enforcing),
            "</p>"@,
        ),
        StatementView::UnorderedList(xs) => wrapped(
            "<ul>"@,
            render_inlines(xs, minify, alt_enforcing),
            "</ul>"@,
        ),
    }
}

/// The HTML of each statement, in order; the first error stops it.
pub open spec fn statement_fragments(
    ss: Seq<StatementView>,
    minify: bool,
    alt_enforcing: bool,
) -> Fragments
    decreases ss.len(),
{
    if ss.len() == 0 {
        Ok(seq![])
    } else {
        match statement_fragments(ss.drop_last(), minify, alt_enforcing) {
            Err(e) => Err(e),
            Ok(fs) => match render_statement(ss.last(), minify, alt_enforcing) {
                Err(e) => Err(e),
                Ok(f) => Ok(fs.push(f)),
            },
        }
    }
}

/// The HTML of a document: its statements' fragments, joined.
pub open spec fn render_document(ss: Seq<StatementView>, minify: bool, alt_enforcing: bool) -> Rendered {
    match statement_fragments(ss, minify, alt_enforcing) {
        Ok(fs) => Ok(join(fs, separator(minify))),
        Err(e) => Err(e),
    }
}

/// `r` is what `expected` describes.
pub open spec fn html_outcome(r: Result<String, JiraiErr>, expected: Rendered) -> bool {
    match expected {
        Ok(s) => r is Ok && r->Ok_0@ == s,
        Err(e) => r is Err && r->Err_0@ == e,
    }
}

/// Where the fragments of a prefix fail, those of the whole fail alike.
pub proof fn lemma_inline_fragments_prefix(
    xs: Seq<InlineView>,
    k: int,
    minify: bool,
    alt_enforcing: bool,
)
    requires
        0 <= k <= xs.len(),
        inline_fragments(xs.take(k), minify, alt_enforcing) is Err,
    ensures
        inline_fragments(xs, minify, alt_enforcing) == inline_fragments(
            xs.take(k),
            minify,
            alt_enforcing,
        ),
    decreases xs.len() - k,
{
    if k == xs.len() {
        assert(xs.take(k) =~= xs);
    } else {
        assert(xs.drop_last().take(k) =~= xs.take(k));
        lemma_inline_fragments_prefix(xs.drop_last(), k, minify, alt_enforcing);
    }
}

/// Where the fragments of a prefix fail, those of the whole fail alike.
pub proof fn lemma_statement_fragments_prefix(
    ss: Seq<StatementView>,
    k: int,
    minify: bool,
    alt_enforcing: bool,
)
    requires
        0 <= k <= ss.len(),
        statement_fragments(ss.take(k), minify, alt_enforcing) is Err,
    ensures
        statement_fragments(ss, minify, alt_enforcing) == statement_fragments(
            ss.take(k),
            minify,
            alt_enforcing,
        ),
    decreases ss.len() - k,
{
    if k == ss.len() {
        assert(ss.take(k) =~= ss);
    } else {
        assert(ss.drop_last().take(k) =~= ss.take(k));
        lemma_statement_fragments_prefix(ss.drop_last(), k, minify, alt_enforcing);
    }
}

/// Adding one fragment at the end of a join.
pub proof fn lemma_join_push(fs: Seq<Seq<char>>, f: Seq<char>, sep: Seq<char>)
    ensures
        join(fs.push(f), sep) == if fs.len() == 0 {
            f
        } else {
            join(fs, sep) + sep + f
        },
{
    assert(fs.push(f).drop_last() =~= fs);
}


/// Walks a statement sequence with a cursor and writes it as HTML.
pub struct HTMLCodeGenerator {
    pub minify: bool,
    pub cursor: usize,
    pub alt_enforcing: bool,
    pub statements: Vec<Statement>,
}

fn framed(open: &str, middle: &str, close: &str) -> (r: String)
    ensures
        r@ == open@ + middle@ + close@,
{
    let mut s = String::from_str(open);
    s.append(middle);
    s.append(close);
    s
}

impl HTMLCodeGenerator {
    /// A generator at the start of a copy of `ast`; an empty AST is an error.
    pub fn new(minify: &bool, alt_enforcing: &bool, ast: &Vec<Statement>) -> (r: Result<
        HTMLCodeGenerator,
        JiraiErr,
    >)
        ensures
            ast@.len() == 0 ==> r is Err && r->Err_0@ == ErrorView::EmptyAst,
            ast@.len() > 0 ==> r is Ok && r->Ok_0.cursor == 0 && r->Ok_0.minify == *minify
                && r->Ok_0.alt_enforcing == *alt_enforcing && statements_view(
                r->Ok_0.statements@,
            ) == statements_view(ast@),
    {
        if ast.len() == 0 {
            return Err(JiraiErr::new(ErrorKind::EmptyAst));
        }
        let mut copy: Vec<Statement> = Vec::new();
        let mut k: usize = 0;
        while k < ast.len()
            invariant
                k <= ast.len(),
                copy@.len() == k,
                forall|q: int|
                    0 <= q < k ==> statement_view(#[trigger] copy@[q]) == statement_view(ast@[q]),
            decreases ast.len() - k,
        {
            let s = copy_statement(&ast[k]);
            copy.push(s);
            k = k + 1;
        }
        proof {
            assert(statements_view(copy@) =~= statements_view(ast@));
        }
        Ok(
            HTMLCodeGenerator {
                cursor: 0,
                minify: *minify,
                alt_enforcing: *alt_enforcing,
                statements: copy,
            },
        )
    }

    pub fn advance(&mut self)
        requires
            old(self).cursor < usize::MAX,
        ensures
            final(self).cursor == old(self).cursor + 1,
            final(self).minify == old(self).minify,
            final(self).alt_enforcing == old(self).alt_enforcing,
            final(self).statements == old(self).statements,
    {
        self.cursor = self.cursor + 1;
    }

    pub fn is_done(&self) -> (r: bool)
        ensures
            r == (self.cursor == self.statements@.len()),
    {
        self.statements.len() == self.cursor
    }

    /// A copy of the statement at the cursor.
    pub fn current(&self) -> (r: Result<Statement, JiraiErr>)
        ensures
            self.cursor < self.statements@.len() ==> r is Ok && statement_view(r->Ok_0)
                == statement_view(self.statements@[self.cursor as int]),
            self.cursor >= self.statements@.len() ==> r is Err && r->Err_0@
                == ErrorView::UnexpectedEndOfStream,
    {
        if self.cursor < self.statements.len() {
            Ok(copy_statement(&self.statements[self.cursor]))
        } else {
            Err(JiraiErr::new(ErrorKind::UnexpectedEndOfStream))
        }
    }

    /// The HTML of sibling inline elements, joined.
    fn generate_children(&mut self, inline_statements: &Vec<InlineStatement>) -> (r: Result<
        String,
        JiraiErr,
    >)
        ensures
            *final(self) == *old(self),
            html_outcome(
                r,
                render_inlines(inline_views(inline_statements@), old(self).minify, old(self).alt_enforcing),
            ),
        decreases *inline_statements, 0nat,
    {
        let ghost xs = inline_views(inline_statements@);
        let ghost m = self.minify;
        let ghost a = self.alt_enforcing;
        let mut out = String::new();
        let mut k: usize = 0;
        while k < inline_statements.len()
            invariant
                *self == *old(self),
                m == self.minify,
                a == self.alt_enforcing,
                xs == inline_views(inline_statements@),
                k <= inline_statements@.len(),
                inline_fragments(inline_views(inline_statements@.take(k as int)), m, a) is Ok,
                out@ == join(
                    inline_fragments(inline_views(inline_statements@.take(k as int)), m, a)->Ok_0,
                    separator(m),
                ),
            decreases inline_statements@.len() - k,
        {
            let ghost prefix = inline_views(inline_statements@.take(k as int));
            let ghost next = inline_views(inline_statements@.take(k + 1));
            proof {
                assert(inline_statements@.take(k + 1).drop_last() =~= inline_statements@.take(
                    k as int,
                ));
                assert(next.drop_last() == prefix);
                assert(next.last() == inline_view(inline_statements@[k as int]));
            }
            let f = match self.generate_inline_statement(&inline_statements[k]) {
                Ok(f) => f,
                Err(e) => {
                    proof {
                        assert(inline_statements@.take(inline_statements@.len() as int)
                            =~= inline_statements@);
                        lemma_views_len(inline_statements@);
                        lemma_views_take(inline_statements@, k as int + 1);
                        lemma_inline_fragments_prefix(xs, k + 1, m, a);
                    }
                    return Err(e);
                },
            };
            proof {
                let fs = inline_fragments(prefix, m, a)->Ok_0;
                lemma_join_push(fs, f@, separator(m));
                reveal_strlit("\n");
            }
            if k > 0 && !self.minify {
                out.append("\n");
            }
            out.append(f.as_str());
            proof {
                let fs = inline_fragments(prefix, m, a)->Ok_0;
                if k == 0 {
                    assert(fs.len() == 0);
                    assert(out@ =~= f@);
                } else if m {
                    assert(out@ =~= join(fs, separator(m)) + separator(m) + f@);
                }
            }
            k = k + 1;
        }
        proof {
            assert(inline_statements@.take(inline_statements@.len() as int) =~= inline_statements@);
        }
        Ok(out)
    }

    /// The HTML of one inline element.
    pub fn generate_inline_statement(&mut self, inline_statement: &InlineStatement) -> (r: Result<
        String,
        JiraiErr,
    >)
        ensures
            *final(self) == *old(self),
            html_outcome(
                r,
                render_inline(inline_view(*inline_statement), old(self).minify, old(self).alt_enforcing),
            ),
        decreases *inline_statement, 2nat,
    {
        match inline_statement {
            InlineStatement::Text(text) => Ok(text.clone()),
            InlineStatement::Code(code) => Ok(self.generate_code_code(code.as_str())),
            InlineStatement::Link(link) => self.generate_link_code(link),
            InlineStatement::Image(image) => self.generate_image_code(image),
            InlineStatement::BoldText(nested) => self.generate_bold_code(nested),
            InlineStatement::ItalicText(nested) => self.generate_italic_code(nested),
            InlineStatement::ListItem(nested) => self.generate_list_item_code(nested),
            InlineStatement::BlockQuote(quote) => Ok(self.generate_block_quote_code(quote.as_str())),
        }
    }

    /// `<img alt="ALT" src="URL"/>`, or `<img src="URL"/>` without alt text
    /// where it is not enforced.
    pub fn generate_image_code(&mut self, image: &Image) -> (r: Result<String, JiraiErr>)
        ensures
            *final(self) == *old(self),
            html_outcome(
                r,
                image_html(
                    crate::lexer::text_view(image.alt),
                    image.url@,
                    old(self).alt_enforcing,
                ),
            ),
    {
        match &image.alt {
            Some(alt_text) => {
                let head = framed("<img alt=\"", alt_text.as_str(), "\" src=\"");
                Ok(framed(head.as_str(), image.url.as_str(), "\"/>"))
            },
            None => {
                if self.alt_enforcing {
                    Err(
                        JiraiErr::new(
                            ErrorKind::MissingAltText { url: image.url.clone(), image: true },
                        ),
                    )
                } else {
                    Ok(framed("<img src=\"", image.url.as_str(), "\"/>"))
                }
            },
        }
    }

    /// `<a alt="ALT" href="URL">TEXT</a>`, or `<a href="URL">TEXT</a>`
    /// without alt text where it is not enforced.
    pub fn generate_link_code(&mut self, link: &Link) -> (r: Result<String, JiraiErr>)
        ensures
            *final(self) == *old(self),
            html_outcome(
                r,
                link_html(
                    crate::lexer::text_view(link.alt),
                    link.url@,
                    link.link_text@,
                    old(self).alt_enforcing,
                ),
            ),
    {
        match &link.alt {
            Some(alt_text) => {
                let head = framed("<a alt=\"", alt_text.as_str(), "\" href=\"");
                let middle = framed(head.as_str(), link.url.as_str(), "\">");
                Ok(framed(middle.as_str(), link.link_text.as_str(), "</a>"))
            },
            None => {
                if self.alt_enforcing {
                    Err(
                        JiraiErr::new(
                            ErrorKind::MissingAltText { url: link.url.clone(), image: false },
                        ),
                    )
                } else {
                    let head = framed("<a href=\"", link.url.as_str(), "\">");
                    Ok(framed(head.as_str(), link.link_text.as_str(), "</a>"))
                }
            },
        }
    }

    /// `<code>CODE</code>`
    pub fn generate_code_code(&mut self, code: &str) -> (r: String)
        ensures
            *final(self) == *old(self),
            r@ == "<code>"@ + code@ + "</code>"@,
    {
        framed("<code>", code, "</code>")
    }

    /// `<blockquote>QUOTE</blockquote>`
    pub fn generate_block_quote_code(&mut self, quote: &str) -> (r: String)
        ensures
            *final(self) == *old(self),
            r@ == "<blockquote>"@ + quote@ + "</blockquote>"@,
    {
        framed("<blockquote>", quote, "</blockquote>")
    }

    /// `<i>...</i>` around the children.
    pub fn generate_italic_code(&mut self, inline_statements: &Vec<InlineStatement>) -> (r: Result<
        String,
        JiraiErr,
    >)
        ensures
            *final(self) == *old(self),
            html_outcome(
                r,
                render_inline(
                    InlineView::ItalicText(inline_views(inline_statements@)),
                    old(self).minify,
                    old(self).alt_enforcing,
                ),
            ),
        decreases *inline_statements, 1nat,
    {
        match self.generate_children(inline_statements) {
            Ok(joined) => Ok(framed("<i>", joined.as_str(), "</i>")),
            Err(e) => Err(e),
        }
    }

    /// `<b>...</b>` around the children.
    pub fn generate_bold_code(&mut self, inline_statements: &Vec<InlineStatement>) -> (r: Result<
        String,
        JiraiErr,
    >)
        ensures
            *final(self) == *old(self),
            html_outcome(
                r,
                render_inline(
                    InlineView::BoldText(inline_views(inline_statements@)),
                    old(self).minify,
                    old(self).alt_enforcing,
                ),
            ),
        decreases *inline_statements, 1nat,
    {
        match self.generate_children(inline_statements) {
            Ok(joined) => Ok(framed("<b>", joined.as_str(), "</b>")),
            Err(e) => Err(e),
        }
    }

    /// `<li>...</li>` around the children.
    pub fn generate_list_item_code(&mut self, inline_statements: &Vec<InlineStatement>) -> (r:
        Result<String, JiraiErr>)
        ensures
            *final(self) == *old(self),
            html_outcome(
                r,
                render_inline(
                    InlineView::ListItem(inline_views(inline_statements@)),
                    old(self).minify,
                    old(self).alt_enforcing,
                ),
            ),
        decreases *inline_statements, 1nat,
    {
        match self.generate_children(inline_statements) {
            Ok(joined) => Ok(framed("<li>", joined.as_str(), "</li>")),
            Err(e) => Err(e),
        }
    }
}

proof fn lemma_views_take(v: Seq<InlineStatement>, k: int)
    requires
        0 <= k <= v.len(),
    ensures
        inline_views(v.take(k)) == inline_views(v).take(k),
    decreases v.len() - k,
{
    lemma_views_len(v);
    lemma_views_len(v.take(k));
    if k < v.len() {
        assert(v.drop_last().take(k) =~= v.take(k));
        lemma_views_take(v.drop_last(), k);
        lemma_views_len(v.drop_last());
        assert(inline_views(v).drop_last() == inline_views(v.drop_last()));
        assert(inline_views(v).take(k) =~= inline_views(v).drop_last().take(k));
    } else {
        assert(v.take(k) =~= v);
        assert(inline_views(v).take(k) =~= inline_views(v));
    }
}

proof fn lemma_views_len(v: Seq<InlineStatement>)
    ensures
        inline_views(v).len() == v.len(),
    decreases v.len(),
{
    if v.len() > 0 {
        lemma_views_len(v.drop_last());
    }
}


impl HTMLCodeGenerator {
    /// `<hN>...</hN>` around the inline elements, `N` being the level.
    pub fn generate_heading_code(
        &mut self,
        level: &usize,
        inline_statements: &Vec<InlineStatement>,
    ) -> (r: Result<String, JiraiErr>)
        ensures
            *final(self) == *old(self),
            html_outcome(
                r,
                render_statement(
                    StatementView::Heading(*level as nat, inline_views(inline_statements@)),
                    old(self).minify,
                    old(self).alt_enforcing,
                ),
            ),
    {
        let joined = match self.generate_children(inline_statements) {
            Ok(j) => j,
            Err(e) => {
                return Err(e);
            },
        };
        let n = decimal_string(*level);
        let open = framed("<h", n.as_str(), ">");
        let close = framed("</h", n.as_str(), ">");
        Ok(framed(open.as_str(), joined.as_str(), close.as_str()))
    }

    /// `<p>...</p>` around the inline elements.
    pub fn generate_paragraph_code(&mut self, inline_statements: &Vec<InlineStatement>) -> (r:
        Result<String, JiraiErr>)
        ensures
            *final(self) == *old(self),
            html_outcome(
                r,
                render_statement(
                    StatementView::Paragraph(inline_views(inline_statements@)),
                    old(self).minify,
                    old(self).alt_enforcing,
                ),
            ),
    {
        match self.generate_children(inline_statements) {
            Ok(joined) => Ok(framed("<p>", joined.as_str(), "</p>")),
            Err(e) => Err(e),
        }
    }

    /// `<ul>...</ul>` around the inline elements; list items bring their
    /// own `<li>`.
    pub fn generate_unordered_list_code(&mut self, inline_statements: &Vec<InlineStatement>) -> (r:
        Result<String, JiraiErr>)
        ensures
            *final(self) == *old(self),
            html_outcome(
                r,
                render_statement(
                    StatementView::UnorderedList(inline_views(inline_statements@)),
                    old(self).minify,
                    old(self).alt_enforcing,
                ),
            ),
    {
        match self.generate_children(inline_statements) {
            Ok(joined) => Ok(framed("<ul>", joined.as_str(), "</ul>")),
            Err(e) => Err(e),
        }
    }

    /// The HTML of the statements from the cursor to the end, which the
    /// cursor reaches on success.
    pub fn generate(&mut self) -> (r: Result<String, JiraiErr>)
        ensures
            final(self).minify == old(self).minify,
            final(self).alt_enforcing == old(self).alt_enforcing,
            final(self).statements == old(self).statements,
            old(self).cursor > old(self).statements@.len() ==> r is Err && r->Err_0@
                == ErrorView::UnexpectedEndOfStream,
            old(self).cursor <= old(self).statements@.len() ==> html_outcome(
                r,
                render_document(
                    statements_view(old(self).statements@).subrange(
                        old(self).cursor as int,
                        old(self).statements@.len() as int,
                    ),
                    old(self).minify,
                    old(self).alt_enforcing,
                ),
            ),
            r is Ok ==> final(self).cursor == final(self).statements@.len(),
    {
        if self.cursor > self.statements.len() {
            return Err(JiraiErr::new(ErrorKind::UnexpectedEndOfStream));
        }
        let start = self.cursor;
        let ghost c0 = start as int;
        let ghost m = self.minify;
        let ghost a = self.alt_enforcing;
        let ghost ss = statements_view(self.statements@).subrange(
            c0,
            self.statements@.len() as int,
        );
        let mut out = String::new();
        while !self.is_done()
            invariant
                self.minify == old(self).minify,
                self.alt_enforcing == old(self).alt_enforcing,
                self.statements == old(self).statements,
                m == self.minify,
                a == self.alt_enforcing,
                c0 == old(self).cursor,
                c0 == start,
                c0 <= self.cursor <= self.statements@.len(),
                ss == statements_view(self.statements@).subrange(
                    c0,
                    self.statements@.len() as int,
                ),
                statement_fragments(ss.take(self.cursor - c0), m, a) is Ok,
                out@ == join(
                    statement_fragments(ss.take(self.cursor - c0), m, a)->Ok_0,
                    separator(m),
                ),
            decreases self.statements@.len() - self.cursor,
        {
            let k = self.cursor;
            let ghost prefix = ss.take(k - c0);
            let ghost next = ss.take(k - c0 + 1);
            proof {
                assert(next.drop_last() =~= prefix);
                assert(next.last() == statement_view(self.statements@[k as int]));
            }
            let current = match self.current() {
                Ok(s) => s,
                Err(e) => {
                    return Err(e);
                },
            };
            let rendered = match &current {
                Statement::Heading(level, i_statements) => self.generate_heading_code(
                    level,
                    i_statements,
                ),
                Statement::Paragraph(i_statements) => self.generate_paragraph_code(i_statements),
                Statement::UnorderedList(i_statements) => self.generate_unordered_list_code(
                    i_statements,
                ),
            };
            let f = match rendered {
                Ok(f) => f,
                Err(e) => {
                    proof {
                        assert(ss.take(ss.len() as int) =~= ss);
                        lemma_statement_fragments_prefix(ss, k - c0 + 1, m, a);
                    }
                    return Err(e);
                },
            };
            proof {
                let fs = statement_fragments(prefix, m, a)->Ok_0;
                lemma_join_push(fs, f@, separator(m));
                reveal_strlit("\n");
            }
            if k > start && !self.minify {
                out.append("\n");
            }
            out.append(f.as_str());
            proof {
                let fs = statement_fragments(prefix, m, a)->Ok_0;
                if k == c0 {
                    assert(fs.len() == 0);
                    assert(out@ =~= f@);
                } else if m {
                    assert(out@ =~= join(fs, separator(m)) + separator(m) + f@);
                }
            }
            let n = self.statements.len();
            assert(k < n);
            self.advance();
        }
        proof {
            assert(ss.take(ss.len() as int) =~= ss);
        }
        Ok(out)
    }
}


/// Whether a sequence of inline elements has at most one element, and that
/// element, at any depth, no siblings either.
pub open spec fn without_siblings(xs: Seq<InlineView>) -> bool
    decreases xs, 0nat,
{
    xs.len() <= 1 && (xs.len() == 1 ==> inline_without_siblings(xs[0]))
}

pub open spec fn inline_without_siblings(x: InlineView) -> bool
    decreases x, 1nat,
{
    match x {
        InlineView::BoldText(xs) => without_siblings(xs),
        InlineView::ItalicText(xs) => without_siblings(xs),
        InlineView::ListItem(xs) => without_siblings(xs),
        _ => true,
    }
}

pub open spec fn statement_without_siblings(s: StatementView) -> bool {
    match s {
        StatementView::Heading(_, xs) => without_siblings(xs),
        StatementView::Paragraph(xs) => without_siblings(xs),
        StatementView::UnorderedList(xs) => without_siblings(xs),
    }
}

proof fn lemma_inline_minify_neutral(x: InlineView, alt_enforcing: bool)
    requires
        inline_without_siblings(x),
    ensures
        render_inline(x, true, alt_enforcing) == render_inline(x, false, alt_enforcing),
    decreases x, 1nat,
{
    match x {
        InlineView::BoldText(xs) => lemma_inlines_minify_neutral(xs, alt_enforcing),
        InlineView::ItalicText(xs) => lemma_inlines_minify_neutral(xs, alt_enforcing),
        InlineView::ListItem(xs) => lemma_inlines_minify_neutral(xs, alt_enforcing),
        _ => {},
    }
}

proof fn lemma_inlines_minify_neutral(xs: Seq<InlineView>, alt_enforcing: bool)
    requires
        without_siblings(xs),
    ensures
        render_inlines(xs, true, alt_enforcing) == render_inlines(xs, false, alt_enforcing),
    decreases xs, 0nat,
{
    if xs.len() == 1 {
        lemma_inline_minify_neutral(xs[0], alt_enforcing);
        assert(xs.drop_last() =~= Seq::<InlineView>::empty());
        assert(inline_fragments(xs.drop_last(), true, alt_enforcing) == inline_fragments(
            xs.drop_last(),
            false,
            alt_enforcing,
        ));
    }
}

proof fn lemma_statement_fragments_neutral(ss: Seq<StatementView>, alt_enforcing: bool)
    requires
        forall|k: int| 0 <= k < ss.len() ==> statement_without_siblings(#[trigger] ss[k]),
    ensures
        statement_fragments(ss, true, alt_enforcing) == statement_fragments(
            ss,
            false,
            alt_enforcing,
        ),
        statement_fragments(ss, true, alt_enforcing) matches Ok(fs) ==> fs.len() == ss.len(),
    decreases ss.len(),
{
    if ss.len() > 0 {
        lemma_statement_fragments_neutral(ss.drop_last(), alt_enforcing);
        let s = ss.last();
        assert(statement_without_siblings(ss[ss.len() - 1]));
        match s {
            StatementView::Heading(_, xs) => lemma_inlines_minify_neutral(xs, alt_enforcing),
            StatementView::Paragraph(xs) => lemma_inlines_minify_neutral(xs, alt_enforcing),
            StatementView::UnorderedList(xs) => lemma_inlines_minify_neutral(xs, alt_enforcing),
        }
    }
}

/// The HTML of a document of N statements is its N statement fragments,
/// concatenated with nothing between them when minifying and joined by
/// newlines otherwise. Minifying also joins the children inside each
/// fragment, so the fragments are the same in both modes only where no
/// inline element has a sibling; this law is stated for such documents.
pub proof fn lemma_minify_join(ss: Seq<StatementView>, alt_enforcing: bool)
    requires
        forall|k: int| 0 <= k < ss.len() ==> statement_without_siblings(#[trigger] ss[k]),
    ensures
        statement_fragments(ss, true, alt_enforcing) == statement_fragments(
            ss,
            false,
            alt_enforcing,
        ),
        statement_fragments(ss, true, alt_enforcing) matches Ok(fs) ==> {
            &&& fs.len() == ss.len()
            &&& render_document(ss, true, alt_enforcing) == Ok::<Seq<char>, ErrorView>(
                join(fs, seq![]),
            )
            &&& render_document(ss, false, alt_enforcing) == Ok::<Seq<char>, ErrorView>(
                join(fs, seq!['\n']),
            )
        },
        statement_fragments(ss, true, alt_enforcing) matches Err(e) ==> {
            &&& render_document(ss, true, alt_enforcing) == Err::<Seq<char>, ErrorView>(e)
            &&& render_document(ss, false, alt_enforcing) == Err::<Seq<char>, ErrorView>(e)
        },
{
    lemma_statement_fragments_neutral(ss, alt_enforcing);
}

} // verus!
