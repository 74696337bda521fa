use vstd::prelude::*;
use vstd::string::*;

use crate::err::ErrorKind;
use crate::err::ErrorView;
use crate::err::JiraiErr;
use crate::numerals::decimal;
use crate::numerals::decimal_string;

verus! {

/// Every kind of token that Jirai source code is split into.
#[derive(Clone, Copy, Debug, PartialEq, Eq, Structural)]
pub enum TokenType {
    NewLine,
    BoldText,
    OpenCurly,
    OpenAngle,
    UserString,
    CloseAngle,
    CloseCurly,
    ListMarker,
    ItalicText,
    LinkMarker,
    OpenSquare,
    ImageMarker,
    CloseSquare,
    OpenBracket,
    CloseBracket,
    HeadingMarker,
    DocumentLimiter,
}

/// A zero-based point in the source: the line, and the number of
/// characters consumed before it.
#[derive(Clone, Copy, Debug, PartialEq, Eq, Structural)]
pub struct Position {
    pub line: usize,
    pub column: usize,
}

/// A position as a pair of natural numbers.
pub struct PositionView {
    pub line: nat,
    pub column: nat,
}

impl View for Position {
    type V = PositionView;

    open spec fn view(&self) -> PositionView {
        PositionView { line: self.line as nat, column: self.column as nat }
    }
}

/// A classified piece of source text with its span. Only `UserString`
/// tokens carry a value.
#[derive(Clone, Debug, PartialEq)]
pub struct Token {
    pub end: Position,
    pub start: Position,
    pub token_type: TokenType,
    pub value: Option<String>,
}

/// A token with its text as a sequence of characters.
pub struct TokenView {
    pub token_type: TokenType,
    pub start: PositionView,
    pub end: PositionView,
    pub value: Option<Seq<char>>,
}

/// An optional text as an optional sequence of characters.
pub open spec fn text_view(o: Option<String>) -> Option<Seq<char>> {
    match o {
        Some(s) => Some(s@),
        None => None,
    }
}

impl View for Token {
    type V = TokenView;

    open spec fn view(&self) -> TokenView {
        TokenView {
            token_type: self.token_type,
            start: self.start@,
            end: self.end@,
            value: text_view(self.value),
        }
    }
}

/// Tokens as views.
pub open spec fn tokens_view(ts: Seq<Token>) -> Seq<TokenView> {
    ts.map_values(|t: Token| t@)
}

/// A copy of an optional text.
pub fn copy_text(o: &Option<String>) -> (r: Option<String>)
    ensures
        r == *o,
{
    match o {
        Some(s) => Some(s.clone()),
        None => None,
    }
}

/// A copy of `t` whose fields equal those of `t`.
pub fn copy_token(t: &Token) -> (r: Token)
    ensures
        r == *t,
{
    Token { end: t.end, start: t.start, token_type: t.token_type, value: copy_text(&t.value) }
}

impl Token {
    pub fn new(
        end: &Position,
        start: &Position,
        token_type: &TokenType,
        value: &Option<String>,
    ) -> (r: Token)
        ensures
            r.end == *end,
            r.start == *start,
            r.token_type == *token_type,
            r.value == *value,
    {
        Token { end: *end, start: *start, token_type: *token_type, value: copy_text(value) }
    }
}

/// `line:column`, both in decimal.
pub open spec fn position_text(p: PositionView) -> Seq<char> {
    decimal(p.line) + seq![':'] + decimal(p.column)
}

impl Position {
    pub fn new(line: &usize, column: &usize) -> (r: Position)
        ensures
            r.line == *line,
            r.column == *column,
    {
        Position { line: *line, column: *column }
    }

    pub fn to_string(&self) -> (r: String)
        ensures
            r@ == position_text(self@),
    {
        let mut s = decimal_string(self.line);
        proof { reveal_strlit(":"); }
        s.append(":");
        let c = decimal_string(self.column);
        s.append(c.as_str());
        s
    }
}


/// The name under which a token kind is reported.
pub open spec fn kind_name(t: TokenType) -> Seq<char> {
    match t {
        TokenType::NewLine => "NewLine"@,
        TokenType::BoldText => "BoldText"@,
        TokenType::OpenCurly => "OpenCurly"@,
        TokenType::OpenAngle => "OpenAngle"@,
        TokenType::UserString => "UserString"@,
        TokenType::CloseAngle => "CloseAngle"@,
        TokenType::CloseCurly => "CloseCurly"@,
        TokenType::ListMarker => "ListMarker"@,
        TokenType::ItalicText => "ItalicText"@,
        TokenType::LinkMarker => "LinkMarker"@,
        TokenType::OpenSquare => "OpenSquare"@,
        TokenType::ImageMarker => "ImageMarker"@,
        TokenType::CloseSquare => "CloseSquare"@,
        TokenType::OpenBracket => "OpenBracket"@,
        TokenType::CloseBracket => "CloseBracket"@,
        TokenType::HeadingMarker => "HeadingMarker"@,
        TokenType::DocumentLimiter => "DocumentLimiter"@,
    }
}

impl TokenType {
    pub fn name(&self) -> (r: &'static str)
        ensures
            r@ == kind_name(*self),
    {
        match self {
            TokenType::NewLine => "NewLine",
            TokenType::BoldText => "BoldText",
            TokenType::OpenCurly => "OpenCurly",
            TokenType::OpenAngle => "OpenAngle",
            TokenType::UserString => "UserString",
            TokenType::CloseAngle => "CloseAngle",
            TokenType::CloseCurly => "CloseCurly",
            TokenType::ListMarker => "ListMarker",
            TokenType::ItalicText => "ItalicText",
            TokenType::LinkMarker => "LinkMarker",
            TokenType::OpenSquare => "OpenSquare",
            TokenType::ImageMarker => "ImageMarker",
            TokenType::CloseSquare => "CloseSquare",
            TokenType::OpenBracket => "OpenBracket",
            TokenType::CloseBracket => "CloseBracket",
            TokenType::HeadingMarker => "HeadingMarker",
            TokenType::DocumentLimiter => "DocumentLimiter",
        }
    }
}


/// The characters that never stand in a text run.
pub open spec fn is_reserved(c: char) -> bool {
    c == '<' || c == '>' || c == '*' || c == '$' || c == '(' || c == ')' || c == '[' || c == ']'
        || c == '{' || c == '}' || c == '^' || c == '-' || c == '~' || c == '#' || c == '@' || c
        == '\n' || c == '\r'
}

pub open spec fn is_text_char(c: char) -> bool {
    !is_reserved(c)
}

/// The token kind of a reserved character that forms a token on its own.
/// `^` and `-` form none: they only occur inside the document limiter.
pub open spec fn single_char_kind(c: char) -> Option<TokenType> {
    if c == '~' {
        Some(TokenType::ListMarker)
    } else if c == '>' {
        Some(TokenType::CloseAngle)
    } else if c == '<' {
        Some(TokenType::OpenAngle)
    } else if c == '[' {
        Some(TokenType::OpenSquare)
    } else if c == ']' {
        Some(TokenType::CloseSquare)
    } else if c == '{' {
        Some(TokenType::OpenCurly)
    } else if c == '}' {
        Some(TokenType::CloseCurly)
    } else if c == '$' {
        Some(TokenType::ItalicText)
    } else if c == '*' {
        Some(TokenType::BoldText)
    } else if c == '@' {
        Some(TokenType::ImageMarker)
    } else if c == '#' {
        Some(TokenType::LinkMarker)
    } else if c == '\n' || c == '\r' {
        Some(TokenType::NewLine)
    } else if c == '(' {
        Some(TokenType::OpenBracket)
    } else if c == ')' {
        Some(TokenType::CloseBracket)
    } else {
        None
    }
}

/// The length of the longest run of text characters that starts at `i`.
pub open spec fn text_run_len(s: Seq<char>, i: nat) -> nat
    decreases s.len() - i,
{
    if i < s.len() && is_text_char(s[i as int]) {
        1 + text_run_len(s, i + 1)
    } else {
        0
    }
}

pub open spec fn starts_heading_marker(s: Seq<char>, i: nat) -> bool {
    i + 1 < s.len() && s[i as int] == '<' && s[i + 1int] == '3'
}

pub open spec fn starts_document_limiter(s: Seq<char>, i: nat) -> bool {
    &&& i + 4 < s.len()
    &&& s[i as int] == '('
    &&& s[i + 1int] == '^'
    &&& s[i + 2int] == '-'
    &&& s[i + 3int] == '^'
    &&& s[i + 4int] == ')'
}

/// The kind and the length of the token that starts at `i < s.len()`,
/// by the rules in their order of precedence; `None` where no rule applies.
/// A `\r\n` pair gives two newline tokens.
pub open spec fn token_shape(s: Seq<char>, i: nat) -> Option<(TokenType, nat)> {
    if starts_heading_marker(s, i) {
        Some((TokenType::HeadingMarker, 2))
    } else if starts_document_limiter(s, i) {
        Some((TokenType::DocumentLimiter, 5))
    } else if is_text_char(s[i as int]) {
        Some((TokenType::UserString, text_run_len(s, i)))
    } else {
        match single_char_kind(s[i as int]) {
            Some(k) => Some((k, 1)),
            None => None,
        }
    }
}

/// The token of kind `kind` that spans `s[i..i + n]` on line `line`.
pub open spec fn token_at(s: Seq<char>, i: nat, n: nat, line: nat, kind: TokenType) -> TokenView {
    TokenView {
        token_type: kind,
        start: PositionView { line, column: i },
        end: PositionView { line, column: i + n },
        value: if kind == TokenType::UserString {
            Some(s.subrange(i as int, (i + n) as int))
        } else {
            None
        },
    }
}

/// Puts `prefix` in front of the tokens of a successful result.
pub open spec fn prepend_tokens(
    prefix: Seq<TokenView>,
    r: Result<Seq<TokenView>, ErrorView>,
) -> Result<Seq<TokenView>, ErrorView> {
    match r {
        Ok(ts) => Ok(prefix + ts),
        Err(e) => Err(e),
    }
}

/// The tokens of `s[i..]`, where line `line` holds position `i`.
/// Columns count the characters consumed from the start of the source.
pub open spec fn lex_from(s: Seq<char>, i: nat, line: nat) -> Result<Seq<TokenView>, ErrorView>
    decreases s.len() - i,
{
    if i >= s.len() {
        Ok(seq![])
    } else {
        match token_shape(s, i) {
            None => Err(
                ErrorView::IllegalCharacter {
                    at: PositionView { line, column: i },
                    character: s[i as int],
                },
            ),
            Some((kind, n)) => {
                proof {
                    lemma_token_shape_len(s, i);
                }
                let next_line = if kind == TokenType::NewLine {
                    line + 1
                } else {
                    line
                };
                prepend_tokens(seq![token_at(s, i, n, line, kind)], lex_from(s, i + n, next_line))
            },
        }
    }
}

/// The result of tokenizing the source `s`.
pub open spec fn lex(s: Seq<char>) -> Result<Seq<TokenView>, ErrorView> {
    if s.len() == 0 {
        Err(ErrorView::EmptySource)
    } else {
        lex_from(s, 0, 0)
    }
}

/// A token never has length zero.
pub proof fn lemma_token_shape_len(s: Seq<char>, i: nat)
    requires
        i < s.len(),
    ensures
        match token_shape(s, i) {
            Some((_, n)) => 1 <= n && i + n <= s.len(),
            None => true,
        },
{
    if !starts_heading_marker(s, i) && !starts_document_limiter(s, i) && is_text_char(s[i as int]) {
        lemma_text_run_bound(s, i);
    }
}

proof fn lemma_text_run_bound(s: Seq<char>, i: nat)
    ensures
        i <= s.len() ==> i + text_run_len(s, i) <= s.len(),
        forall|k: int| i <= k < i + text_run_len(s, i) ==> is_text_char(#[trigger] s[k]),
    decreases s.len() - i,
{
    if i < s.len() && is_text_char(s[i as int]) {
        lemma_text_run_bound(s, i + 1);
    }
}

/// Whether `c` is a text character, not one of the reserved characters
/// `< > * $ ( ) [ ] { } ^ - ~ # @`, newline and carriage return.
pub fn is_text(sub: &char) -> (r: bool)
    ensures
        r == is_text_char(*sub),
{
    let c = *sub;
    !(c == '<' || c == '>' || c == '*' || c == '$' || c == '(' || c == ')' || c == '[' || c
        == ']' || c == '{' || c == '}' || c == '^' || c == '-' || c == '~' || c == '#' || c == '@'
        || c == '\n' || c == '\r')
}

/// Relies on `String::push`: appends one character.
#[verifier::external_body]
pub(crate) fn push_char(s: &mut String, c: char)
    ensures
        final(s)@ == old(s)@.push(c),
{
    s.push(c)
}

fn single_kind(c: char) -> (r: Option<TokenType>)
    ensures
        r == single_char_kind(c),
{
    if c == '~' {
        Some(TokenType::ListMarker)
    } else if c == '>' {
        Some(TokenType::CloseAngle)
    } else if c == '<' {
        Some(TokenType::OpenAngle)
    } else if c == '[' {
        Some(TokenType::OpenSquare)
    } else if c == ']' {
        Some(TokenType::CloseSquare)
    } else if c == '{' {
        Some(TokenType::OpenCurly)
    } else if c == '}' {
        Some(TokenType::CloseCurly)
    } else if c == '$' {
        Some(TokenType::ItalicText)
    } else if c == '*' {
        Some(TokenType::BoldText)
    } else if c == '@' {
        Some(TokenType::ImageMarker)
    } else if c == '#' {
        Some(TokenType::LinkMarker)
    } else if c == '\n' || c == '\r' {
        Some(TokenType::NewLine)
    } else if c == '(' {
        Some(TokenType::OpenBracket)
    } else if c == ')' {
        Some(TokenType::CloseBracket)
    } else {
        None
    }
}

fn source_chars(s: &str) -> (r: Vec<char>)
    ensures
        r@ == s@,
{
    let mut out: Vec<char> = Vec::new();
    for c in it: s.chars()
        invariant
            out@ == it.seq().take(it.index() as int),
            it.seq() == s@,
    {
        out.push(c);
    }
    out
}

/// Splits Jirai source code into tokens, left to right. Fails on an empty
/// source, and on a character that starts no token.
pub fn tokenize_string(sub: &str) -> (r: Result<Vec<Token>, JiraiErr>)
    ensures
        match lex(sub@) {
            Ok(ts) => r is Ok && tokens_view(r->Ok_0@) == ts,
            Err(e) => r is Err && r->Err_0@ == e,
        },
{
    let chars = source_chars(sub);
    let len = chars.len();
    if len == 0 {
        return Err(JiraiErr::new(ErrorKind::EmptySource));
    }
    let ghost s = sub@;
    let mut result: Vec<Token> = Vec::new();
    let mut cursor: usize = 0;
    let mut line_count: usize = 0;
    while cursor < len
        invariant
            chars@ == s,
            len == s.len(),
            s == sub@,
            s.len() > 0,
            cursor <= len,
            line_count <= cursor,
            lex(s) == prepend_tokens(tokens_view(result@), lex_from(s, cursor as nat, line_count as nat)),
        decreases len - cursor,
    {
        let ghost before = tokens_view(result@);
        let ghost cur0 = cursor as nat;
        let ghost line0 = line_count as nat;
        let c = chars[cursor];
        let start = Position { line: line_count, column: cursor };
        let kind: TokenType;
        let n: usize;
        let mut value: Option<String> = None;
        if c == '<' && cursor + 1 < len && chars[cursor + 1] == '3' {
            kind = TokenType::HeadingMarker;
            n = 2;
        } else if c == '(' && len - cursor > 4 && chars[cursor + 1] == '^' && chars[cursor + 2]
            == '-' && chars[cursor + 3] == '^' && chars[cursor + 4] == ')' {
            kind = TokenType::DocumentLimiter;
            n = 5;
        } else if is_text(&c) {
            let mut end = cursor;
            let mut run = String::new();
            while end < len && is_text(&chars[end])
                invariant
                    chars@ == s,
                    len == s.len(),
                    cursor <= end <= len,
                    text_run_len(s, cursor as nat) == (end - cursor) + text_run_len(s, end as nat),
                    run@ == s.subrange(cursor as int, end as int),
                decreases len - end,
            {
                push_char(&mut run, chars[end]);
                end = end + 1;
                assert(run@ =~= s.subrange(cursor as int, end as int));
            }
            kind = TokenType::UserString;
            n = end - cursor;
            value = Some(run);
        } else {
            match single_kind(c) {
                Some(k) => {
                    kind = k;
                    n = 1;
                },
                None => {
                    return Err(
                        JiraiErr::new(ErrorKind::IllegalCharacter { at: start, character: c }),
                    );
                },
            }
        }
        proof {
            lemma_token_shape_len(s, cursor as nat);
        }
        let end_pos = Position { line: line_count, column: cursor + n };
        result.push(Token { end: end_pos, start, token_type: kind, value });
        cursor = cursor + n;
        if kind == TokenType::NewLine {
            line_count = line_count + 1;
        }
        proof {
            assert(token_shape(s, cur0) == Some((kind, n as nat)));
            assert(result@.last()@ == token_at(s, cur0, n as nat, line0, kind));
            assert(tokens_view(result@) =~= before + seq![result@.last()@]);
            let rest = lex_from(s, cursor as nat, line_count as nat);
            assert(lex_from(s, cur0, line0) == prepend_tokens(seq![result@.last()@], rest));
            match rest {
                Ok(ts) => {
                    assert(before + (seq![result@.last()@] + ts) =~= tokens_view(result@) + ts);
                },
                Err(e) => {},
            }
        }
    }
    Ok(result)
}


/// The number of characters that the tokens consume together.
pub open spec fn consumed(ts: Seq<TokenView>) -> int
    decreases ts.len(),
{
    if ts.len() == 0 {
        0
    } else {
        (ts[0].end.column - ts[0].start.column) + consumed(ts.drop_first())
    }
}

/// Whether position `a` is not earlier than position `b`, by line, then column.
pub open spec fn not_before(a: PositionView, b: PositionView) -> bool {
    a.line > b.line || (a.line == b.line && a.column >= b.column)
}

/// The error that tokenizing `s` from `i` stops at, if any, is an illegal
/// `^` or `-` at its own position.
pub open spec fn is_illegal_char_error(s: Seq<char>, e: ErrorView) -> bool {
    &&& e is IllegalCharacter
    &&& e->IllegalCharacter_at.column < s.len()
    &&& e->IllegalCharacter_character == s[e->IllegalCharacter_at.column as int]
    &&& (e->IllegalCharacter_character == '^' || e->IllegalCharacter_character == '-')
}

proof fn lemma_lex_from_total(s: Seq<char>, i: nat, line: nat)
    requires
        i <= s.len(),
    ensures
        match lex_from(s, i, line) {
            Ok(ts) => consumed(ts) == s.len() - i,
            Err(e) => is_illegal_char_error(s, e),
        },
    decreases s.len() - i,
{
    if i < s.len() {
        lemma_token_shape_len(s, i);
        match token_shape(s, i) {
            None => {},
            Some((kind, n)) => {
                let next_line = if kind == TokenType::NewLine {
                    line + 1
                } else {
                    line
                };
                lemma_lex_from_total(s, i + n, next_line);
                match lex_from(s, i + n, next_line) {
                    Ok(rest) => {
                        let all = seq![token_at(s, i, n, line, kind)] + rest;
                        assert(all.drop_first() =~= rest);
                    },
                    Err(e) => {},
                }
            },
        }
    }
}

/// Tokenizing a non-empty source either succeeds with tokens that consume,
/// together, exactly the characters of the source, or fails on an illegal
/// character: a `^` or `-` that is not part of a document limiter.
pub proof fn lemma_tokenize_total(s: Seq<char>)
    requires
        s.len() > 0,
    ensures
        match lex(s) {
            Ok(ts) => consumed(ts) == s.len(),
            Err(e) => is_illegal_char_error(s, e),
        },
{
    lemma_lex_from_total(s, 0, 0);
}

/// Whether the character at `p` is a `^` or `-` that no document limiter
/// covers: no token rule takes it.
pub open spec fn is_stray_mark(s: Seq<char>, p: int) -> bool {
    &&& 0 <= p < s.len()
    &&& (s[p] == '^' || s[p] == '-')
    &&& !(p >= 1 && starts_document_limiter(s, (p - 1) as nat))
    &&& !(p >= 2 && starts_document_limiter(s, (p - 2) as nat))
    &&& !(p >= 3 && starts_document_limiter(s, (p - 3) as nat))
}

/// Whether a document limiter starts before `i` and ends after it.
pub open spec fn limiter_straddles(s: Seq<char>, i: nat) -> bool {
    ||| (i >= 1 && starts_document_limiter(s, (i - 1) as nat))
    ||| (i >= 2 && starts_document_limiter(s, (i - 2) as nat))
    ||| (i >= 3 && starts_document_limiter(s, (i - 3) as nat))
    ||| (i >= 4 && starts_document_limiter(s, (i - 4) as nat))
}

/// No document limiter starts before the end of the token at `i` and ends
/// after it.
proof fn lemma_no_limiter_across(s: Seq<char>, i: nat, q: nat)
    requires
        i < s.len(),
        !limiter_straddles(s, i),
        token_shape(s, i) matches Some((_, n)) && q < i + n && i + n <= q + 4,
    ensures
        !starts_document_limiter(s, q),
{
    lemma_text_run_bound(s, i);
    if starts_document_limiter(s, q) {
        if q < i {
            assert(limiter_straddles(s, i));
        } else if q > i {
            assert(s[q as int] == '(');
            if !starts_heading_marker(s, i) && !starts_document_limiter(s, i) && is_text_char(
                s[i as int],
            ) {
                assert(is_text_char(s[q as int]));
            }
        }
    }
}

proof fn lemma_lex_from_stray(s: Seq<char>, i: nat, line: nat)
    requires
        i <= s.len(),
        !limiter_straddles(s, i),
    ensures
        match lex_from(s, i, line) {
            Ok(_) => forall|p: int| i <= p < s.len() ==> !is_stray_mark(s, p),
            Err(e) => {
                &&& e is IllegalCharacter
                &&& i <= e->IllegalCharacter_at.column
                &&& is_stray_mark(s, e->IllegalCharacter_at.column as int)
                &&& forall|p: int|
                    i <= p < e->IllegalCharacter_at.column ==> !is_stray_mark(s, p)
            },
        },
    decreases s.len() - i,
{
    if i < s.len() {
        lemma_token_shape_len(s, i);
        lemma_text_run_bound(s, i);
        match token_shape(s, i) {
            None => {},
            Some((kind, n)) => {
                let next_line = if kind == TokenType::NewLine {
                    line + 1
                } else {
                    line
                };
                assert forall|p: int| i <= p < i + n implies !is_stray_mark(s, p) by {
                    if starts_heading_marker(s, i) {
                    } else if starts_document_limiter(s, i) {
                    } else if is_text_char(s[i as int]) {
                        assert(is_text_char(s[p]));
                    } else {
                        assert(p == i);
                    }
                }
                let j = i + n;
                if j >= 1 {
                    lemma_no_limiter_across(s, i, (j - 1) as nat);
                }
                if j >= 2 {
                    lemma_no_limiter_across(s, i, (j - 2) as nat);
                }
                if j >= 3 {
                    lemma_no_limiter_across(s, i, (j - 3) as nat);
                }
                if j >= 4 {
                    lemma_no_limiter_across(s, i, (j - 4) as nat);
                }
                assert(!limiter_straddles(s, j)) by {
                    if j >= 1 {
                        assert(!starts_document_limiter(s, (j - 1) as nat));
                    }
                    if j >= 2 {
                        assert(!starts_document_limiter(s, (j - 2) as nat));
                    }
                    if j >= 3 {
                        assert(!starts_document_limiter(s, (j - 3) as nat));
                    }
                    if j >= 4 {
                        assert(!starts_document_limiter(s, (j - 4) as nat));
                    }
                }
                lemma_lex_from_stray(s, j, next_line);
            },
        }
    }
}

/// A non-empty source tokenizes exactly when it holds no stray `^` or `-`
/// (one outside every document limiter); otherwise the error names the
/// first stray mark, at its own position.
pub proof fn lemma_tokenize_fails_on_stray_mark(s: Seq<char>)
    requires
        s.len() > 0,
    ensures
        lex(s) is Ok <==> forall|p: int| 0 <= p < s.len() ==> !is_stray_mark(s, p),
        lex(s) matches Err(e) ==> {
            &&& e is IllegalCharacter
            &&& is_stray_mark(s, e->IllegalCharacter_at.column as int)
            &&& e->IllegalCharacter_character == s[e->IllegalCharacter_at.column as int]
            &&& forall|p: int| 0 <= p < e->IllegalCharacter_at.column ==> !is_stray_mark(s, p)
        },
{
    lemma_lex_from_stray(s, 0, 0);
    lemma_lex_from_total(s, 0, 0);
}

proof fn lemma_lex_from_monotone(s: Seq<char>, i: nat, line: nat)
    ensures
        lex_from(s, i, line) matches Ok(ts) ==> {
            &&& ts.len() > 0 ==> ts[0].start == PositionView { line, column: i }
            &&& forall|k: int|
                0 <= k < ts.len() - 1 ==> not_before(#[trigger] ts[k + 1].start, ts[k].end)
                    && ts[k + 1].start.column == ts[k].end.column
        },
    decreases s.len() - i,
{
    if i < s.len() {
        lemma_token_shape_len(s, i);
        match token_shape(s, i) {
            None => {},
            Some((kind, n)) => {
                let next_line = if kind == TokenType::NewLine {
                    line + 1
                } else {
                    line
                };
                lemma_lex_from_monotone(s, i + n, next_line);
                match lex_from(s, i + n, next_line) {
                    Ok(rest) => {
                        let tok = token_at(s, i, n, line, kind);
                        let all = seq![tok] + rest;
                        assert forall|k: int| 0 <= k < all.len() - 1 implies not_before(
                            #[trigger] all[k + 1].start,
                            all[k].end,
                        ) && all[k + 1].start.column == all[k].end.column by {
                            if k > 0 {
                                assert(all[k + 1] == rest[(k - 1) + 1]);
                                assert(all[k] == rest[k - 1]);
                            } else {
                                assert(all[1] == rest[0]);
                            }
                        }
                    },
                    Err(e) => {},
                }
            },
        }
    }
}

/// Along the tokens of any source, no token starts before the end of the
/// token ahead of it; no character is skipped, so each token starts at the
/// column where the one ahead of it ends.
pub proof fn lemma_positions_monotone(s: Seq<char>)
    ensures
        lex(s) matches Ok(ts) ==> forall|k: int|
            0 <= k < ts.len() - 1 ==> not_before(#[trigger] ts[k + 1].start, ts[k].end)
                && ts[k + 1].start.column == ts[k].end.column,
{
    lemma_lex_from_monotone(s, 0, 0);
}

} // verus!
