//! The projection language: a read model described as
//!
//! ```text
//! projection Name {
//!     query tag.starts_with("prefix:") as alias
//!     field:   alias.Event.path | alias.Other.path
//!     opt?:    alias.Event.path | alias.Cleared = null
//!     total:   |+ alias.Added.amount |- alias.Removed.amount
//!     obj? { sub: alias.Event.path } cleared_by alias.Event
//! }
//! ```
//!
//! The input is a flat token sequence (a group is its opening delimiter, its
//! contents and its closing delimiter). Parsing gives the syntax tree, from
//! which the projection definition and the layout of the generated structs
//! follow.
use vstd::prelude::*;

use crate::text::text_is;

verus! {

/// Delimiter of a token group.
#[derive(Debug, Clone, Copy, PartialEq, Eq, Structural)]
pub enum Delimiter {
    Parenthesis,
    Brace,
    Bracket,
}

/// One token of the input.
#[derive(Debug, Clone, PartialEq, Eq)]
pub enum Token {
    /// An identifier or a keyword, as written.
    Ident(String),
    /// A punctuation character.
    Punct(char),
    /// A string literal, by its value.
    Str(String),
    /// Any other literal, as written.
    Lit(String),
    /// The start of a group.
    Open(Delimiter),
    /// The end of a group.
    Close(Delimiter),
}

/// A token as plain values.
pub ghost enum TokenView {
    Ident(Seq<char>),
    Punct(char),
    Str(Seq<char>),
    Lit(Seq<char>),
    Open(Delimiter),
    Close(Delimiter),
}

impl View for Token {
    type V = TokenView;

    open spec fn view(&self) -> TokenView {
        match self {
            Token::Ident(s) => TokenView::Ident(s@),
            Token::Punct(c) => TokenView::Punct(*c),
            Token::Str(s) => TokenView::Str(s@),
            Token::Lit(s) => TokenView::Lit(s@),
            Token::Open(d) => TokenView::Open(*d),
            Token::Close(d) => TokenView::Close(*d),
        }
    }
}

/// The tag filter of the `query` line.
#[derive(Debug, Clone, PartialEq, Eq)]
pub enum QuerySpec {
    StartsWith(String),
    EndsWith(String),
    Equals(String),
}

/// What a handler does.
#[derive(Debug, Clone, PartialEq, Eq)]
pub enum OperationDecl {
    /// `alias.Event.path`: copy the value at `$.path`.
    FromPath(String),
    /// `alias.Event = null`.
    ValueNull,
    /// `alias.Event = "literal"`.
    ValueString(String),
    /// `|+ alias.Event.path`: add the value at `$.path`.
    IncrementBy(String),
    /// `|- alias.Event.path`: subtract the value at `$.path`.
    DecrementBy(String),
}

/// A handler: the event type it reacts to and what it does.
#[derive(Debug, Clone, PartialEq, Eq)]
pub struct HandlerDecl {
    pub event_type: String,
    pub operation: OperationDecl,
}

/// A scalar field inside an object block.
#[derive(Debug, Clone, PartialEq, Eq)]
pub struct ScalarFieldDecl {
    pub name: String,
    pub handlers: Vec<HandlerDecl>,
}

/// A field declaration: a scalar with its handlers, or an object with its
/// scalar sub-fields and the event that clears it.
#[derive(Debug, Clone, PartialEq, Eq)]
pub enum FieldDecl {
    Scalar { name: String, optional: bool, handlers: Vec<HandlerDecl> },
    Object { name: String, optional: bool, sub_fields: Vec<ScalarFieldDecl>, cleared_by_event: Option<String> },
}

/// The value of a Rust string literal written `text`, as `syn` reads it
/// (escapes resolved), or nothing when `text` is not a string literal.
pub uninterp spec fn string_literal_value(text: Seq<char>) -> Option<Seq<char>>;

/// Calls `syn::parse_str::<syn::LitStr>` on the literal's text and, when it
/// parses, `LitStr::value`.
#[verifier::external_body]
fn parse_string_literal(text: &str) -> (result: Option<String>)
    ensures
        match result {
            Some(v) => string_literal_value(text@) == Some(v@),
            None => string_literal_value(text@) is None,
        },
{
    match syn::parse_str::<syn::LitStr>(text) {
        Ok(lit) => Some(lit.value()),
        Err(_) => None,
    }
}

/// The token of a literal written `text`: a string literal by its value,
/// any other literal as written.
pub fn literal_token(text: &str) -> (result: Token)
    ensures
        result@ == match string_literal_value(text@) {
            Some(v) => TokenView::Str(v),
            None => TokenView::Lit(text@),
        },
{
    match parse_string_literal(text) {
        Some(v) => Token::Str(v),
        None => Token::Lit(text.to_owned()),
    }
}

/// A whole projection.
#[derive(Debug, Clone, PartialEq, Eq)]
pub struct ProjectionInput {
    pub name: String,
    pub query: QuerySpec,
    pub fields: Vec<FieldDecl>,
}

pub ghost enum QueryView {
    StartsWith(Seq<char>),
    EndsWith(Seq<char>),
    Equals(Seq<char>),
}

pub ghost enum OperationView {
    FromPath(Seq<char>),
    ValueNull,
    ValueString(Seq<char>),
    IncrementBy(Seq<char>),
    DecrementBy(Seq<char>),
}

pub ghost struct HandlerView {
    pub event_type: Seq<char>,
    pub operation: OperationView,
}

pub ghost struct ScalarFieldView {
    pub name: Seq<char>,
    pub handlers: Seq<HandlerView>,
}

pub ghost enum FieldView {
    Scalar { name: Seq<char>, optional: bool, handlers: Seq<HandlerView> },
    Object { name: Seq<char>, optional: bool, sub_fields: Seq<ScalarFieldView>, cleared_by_event: Option<Seq<char>> },
}

pub ghost struct ProjectionView {
    pub name: Seq<char>,
    pub query: QueryView,
    pub fields: Seq<FieldView>,
}

/// The handlers as plain values.
pub open spec fn handler_views(hs: Seq<HandlerDecl>) -> Seq<HandlerView> {
    hs.map_values(|h: HandlerDecl| h@)
}

/// The scalar fields as plain values.
pub open spec fn scalar_field_views(fs: Seq<ScalarFieldDecl>) -> Seq<ScalarFieldView> {
    fs.map_values(|f: ScalarFieldDecl| f@)
}

/// The fields as plain values.
pub open spec fn field_views(fs: Seq<FieldDecl>) -> Seq<FieldView> {
    fs.map_values(|f: FieldDecl| f@)
}

impl View for QuerySpec {
    type V = QueryView;

    open spec fn view(&self) -> QueryView {
        match self {
            QuerySpec::StartsWith(s) => QueryView::StartsWith(s@),
            QuerySpec::EndsWith(s) => QueryView::EndsWith(s@),
            QuerySpec::Equals(s) => QueryView::Equals(s@),
        }
    }
}

impl View for OperationDecl {
    type V = OperationView;

    open spec fn view(&self) -> OperationView {
        match self {
            OperationDecl::FromPath(s) => OperationView::FromPath(s@),
            OperationDecl::ValueNull => OperationView::ValueNull,
            OperationDecl::ValueString(s) => OperationView::ValueString(s@),
            OperationDecl::IncrementBy(s) => OperationView::IncrementBy(s@),
            OperationDecl::DecrementBy(s) => OperationView::DecrementBy(s@),
        }
    }
}

impl View for HandlerDecl {
    type V = HandlerView;

    open spec fn view(&self) -> HandlerView {
        HandlerView { event_type: self.event_type@, operation: self.operation@ }
    }
}

impl View for ScalarFieldDecl {
    type V = ScalarFieldView;

    open spec fn view(&self) -> ScalarFieldView {
        ScalarFieldView { name: self.name@, handlers: handler_views(self.handlers@) }
    }
}

impl View for FieldDecl {
    type V = FieldView;

    open spec fn view(&self) -> FieldView {
        match self {
            FieldDecl::Scalar { name, optional, handlers } => FieldView::Scalar {
                name: name@,
                optional: *optional,
                handlers: handler_views(handlers@),
            },
            FieldDecl::Object { name, optional, sub_fields, cleared_by_event } => FieldView::Object {
                name: name@,
                optional: *optional,
                sub_fields: scalar_field_views(sub_fields@),
                cleared_by_event: match cleared_by_event {
                    Some(e) => Some(e@),
                    None => None,
                },
            },
        }
    }
}

impl View for ProjectionInput {
    type V = ProjectionView;

    open spec fn view(&self) -> ProjectionView {
        ProjectionView { name: self.name@, query: self.query@, fields: field_views(self.fields@) }
    }
}

/// A word that the grammar expects at a place.
#[derive(Debug, Clone, Copy, PartialEq, Eq, Structural)]
pub enum Keyword {
    Projection,
    Query,
    Tag,
    As,
}

/// Why a token sequence is not a projection; `at` is the index of the token
/// where parsing stopped (the sequence's length when it ran out).
#[derive(Debug, Clone, Copy, PartialEq, Eq, Structural)]
pub enum ParseError {
    /// An identifier (not a keyword) was expected.
    ExpectedIdent { at: usize },
    /// The keyword was expected.
    ExpectedKeyword { at: usize, keyword: Keyword },
    /// The punctuation character was expected.
    ExpectedPunct { at: usize, punct: char },
    /// A group with this delimiter was expected.
    ExpectedGroup { at: usize, delimiter: Delimiter },
    /// A string literal was expected.
    ExpectedStr { at: usize },
    /// `starts_with(..)`, `ends_with(..)` or `equals(..)` was expected after `tag.`.
    ExpectedTagMethod { at: usize },
    /// A handler names another alias than the query's.
    HandlerAliasMismatch { at: usize },
    /// `cleared_by` names another alias than the query's.
    ClearedByAliasMismatch { at: usize },
    /// After `=` only `null` or a string literal may stand.
    ExpectedNullOrString { at: usize },
    /// Tokens were left over where the input should have ended.
    UnexpectedToken { at: usize },
}

/// Rust keywords, which are not identifiers.
pub open spec fn is_keyword(s: Seq<char>) -> bool {
    s == "_"@ || s == "abstract"@ || s == "as"@ || s == "async"@ || s == "await"@ || s == "become"@
        || s == "box"@ || s == "break"@ || s == "const"@ || s == "continue"@ || s == "crate"@
        || s == "do"@ || s == "dyn"@ || s == "else"@ || s == "enum"@ || s == "extern"@
        || s == "false"@ || s == "final"@ || s == "fn"@ || s == "for"@ || s == "if"@
        || s == "impl"@ || s == "in"@ || s == "let"@ || s == "loop"@ || s == "macro"@
        || s == "match"@ || s == "mod"@ || s == "move"@ || s == "mut"@ || s == "override"@
        || s == "priv"@ || s == "pub"@ || s == "ref"@ || s == "return"@ || s == "Self"@
        || s == "self"@ || s == "static"@ || s == "struct"@ || s == "super"@ || s == "trait"@
        || s == "true"@ || s == "try"@ || s == "type"@ || s == "typeof"@ || s == "unsafe"@
        || s == "unsized"@ || s == "use"@ || s == "virtual"@ || s == "where"@ || s == "while"@
        || s == "yield"@
}

pub open spec fn keyword_text(k: Keyword) -> Seq<char> {
    match k {
        Keyword::Projection => "projection"@,
        Keyword::Query => "query"@,
        Keyword::Tag => "tag"@,
        Keyword::As => "as"@,
    }
}

/// An identifier (not a keyword) stands at `i`.
pub open spec fn ident_at(ts: Seq<TokenView>, i: int) -> bool {
    &&& 0 <= i < ts.len()
    &&& ts[i] matches TokenView::Ident(s) && !is_keyword(s)
}

/// The text of the identifier or keyword at `i`.
pub open spec fn word_text(ts: Seq<TokenView>, i: int) -> Seq<char> {
    match ts[i] {
        TokenView::Ident(s) => s,
        _ => Seq::empty(),
    }
}

/// The word `w` stands at `i`.
pub open spec fn word_at(ts: Seq<TokenView>, i: int, w: Seq<char>) -> bool {
    &&& 0 <= i < ts.len()
    &&& ts[i] matches TokenView::Ident(s) && s == w
}

pub open spec fn punct_at(ts: Seq<TokenView>, i: int, c: char) -> bool {
    0 <= i < ts.len() && ts[i] == TokenView::Punct(c)
}

pub open spec fn open_at(ts: Seq<TokenView>, i: int, d: Delimiter) -> bool {
    0 <= i < ts.len() && ts[i] == TokenView::Open(d)
}

pub open spec fn str_at(ts: Seq<TokenView>, i: int) -> bool {
    0 <= i < ts.len() && ts[i] is Str
}

pub open spec fn str_text(ts: Seq<TokenView>, i: int) -> Seq<char> {
    match ts[i] {
        TokenView::Str(s) => s,
        _ => Seq::empty(),
    }
}

/// The current group (or the input) has no more tokens at `i`.
pub open spec fn group_ends_at(ts: Seq<TokenView>, i: int) -> bool {
    i >= ts.len() || ts[i] is Close
}

/// The position after the end of the group whose contents continue at `i`
/// with nesting `depth` (0: the group itself).
pub open spec fn skip_group(ts: Seq<TokenView>, i: int, depth: nat) -> int
    decreases ts.len() - i,
{
    if i < 0 || i >= ts.len() {
        ts.len() as int
    } else {
        match ts[i] {
            TokenView::Close(_) => if depth == 0 {
                i + 1
            } else {
                skip_group(ts, i + 1, (depth - 1) as nat)
            },
            TokenView::Open(_) => skip_group(ts, i + 1, depth + 1),
            _ => skip_group(ts, i + 1, depth),
        }
    }
}

/// Steps past the end of the current group.
pub open spec fn close_group(ts: Seq<TokenView>, i: int) -> int {
    if i < ts.len() { i + 1 } else { i }
}

/// The names that continue a dotted path after its first name: `.name` as
/// long as a `.` is followed by an identifier.
pub open spec fn path_rest(ts: Seq<TokenView>, i: int) -> (Seq<Seq<char>>, int)
    decreases ts.len() - i,
{
    if 0 <= i && punct_at(ts, i, '.') && ident_at(ts, i + 1) {
        let (rest, j) = path_rest(ts, i + 2);
        (seq![word_text(ts, i + 1)] + rest, j)
    } else {
        (Seq::empty(), i)
    }
}

/// The JSON path `$.a.b.c` of the names `a`, `b`, `c`.
pub open spec fn json_path_of(first: Seq<char>, rest: Seq<Seq<char>>) -> Seq<char>
    decreases rest.len(),
{
    if rest.len() == 0 {
        "$."@ + first
    } else {
        json_path_of(first, rest.drop_last()) + "."@ + rest.last()
    }
}

/// A dotted path `a.b.c`, as the JSON path `$.a.b.c`.
pub open spec fn parse_path(ts: Seq<TokenView>, i: int) -> Result<(Seq<char>, int), ParseError> {
    if !ident_at(ts, i) {
        Err(ParseError::ExpectedIdent { at: i as usize })
    } else {
        let (rest, j) = path_rest(ts, i + 1);
        Ok((json_path_of(word_text(ts, i), rest), j))
    }
}

/// `alias.Event` at `i`; the event type and the position after it.
pub open spec fn parse_alias_event(ts: Seq<TokenView>, i: int, alias: Seq<char>) -> Result<(Seq<char>, int), ParseError> {
    if !ident_at(ts, i) {
        Err(ParseError::ExpectedIdent { at: i as usize })
    } else if word_text(ts, i) != alias {
        Err(ParseError::HandlerAliasMismatch { at: i as usize })
    } else if !punct_at(ts, i + 1, '.') {
        Err(ParseError::ExpectedPunct { at: (i + 1) as usize, punct: '.' })
    } else if !ident_at(ts, i + 2) {
        Err(ParseError::ExpectedIdent { at: (i + 2) as usize })
    } else {
        Ok((word_text(ts, i + 2), i + 3))
    }
}

/// `alias.Event.path` or `alias.Event = null` or `alias.Event = "text"`.
pub open spec fn parse_handler_rhs(ts: Seq<TokenView>, i: int, alias: Seq<char>) -> Result<(HandlerView, int), ParseError> {
    match parse_alias_event(ts, i, alias) {
        Err(e) => Err(e),
        Ok((event_type, j)) => if punct_at(ts, j, '=') {
            if str_at(ts, j + 1) {
                Ok((HandlerView { event_type, operation: OperationView::ValueString(str_text(ts, j + 1)) }, j + 2))
            } else if !ident_at(ts, j + 1) {
                Err(ParseError::ExpectedIdent { at: (j + 1) as usize })
            } else if word_text(ts, j + 1) != "null"@ {
                Err(ParseError::ExpectedNullOrString { at: (j + 1) as usize })
            } else {
                Ok((HandlerView { event_type, operation: OperationView::ValueNull }, j + 2))
            }
        } else if !punct_at(ts, j, '.') {
            Err(ParseError::ExpectedPunct { at: j as usize, punct: '.' })
        } else {
            match parse_path(ts, j + 1) {
                Err(e) => Err(e),
                Ok((path, k)) => Ok((HandlerView { event_type, operation: OperationView::FromPath(path) }, k)),
            }
        },
    }
}

/// `alias.Event.path` after `|+` (increment) or `|-` (decrement).
pub open spec fn parse_handler_rhs_path(ts: Seq<TokenView>, i: int, alias: Seq<char>, increment: bool) -> Result<(HandlerView, int), ParseError> {
    match parse_alias_event(ts, i, alias) {
        Err(e) => Err(e),
        Ok((event_type, j)) => if !punct_at(ts, j, '.') {
            Err(ParseError::ExpectedPunct { at: j as usize, punct: '.' })
        } else {
            match parse_path(ts, j + 1) {
                Err(e) => Err(e),
                Ok((path, k)) => Ok((HandlerView {
                    event_type,
                    operation: if increment { OperationView::IncrementBy(path) } else { OperationView::DecrementBy(path) },
                }, k)),
            }
        },
    }
}

/// A handler after `|`: `+ path-handler`, `- path-handler` or a plain one.
pub open spec fn parse_after_bar(ts: Seq<TokenView>, i: int, alias: Seq<char>) -> Result<(HandlerView, int), ParseError> {
    if punct_at(ts, i, '+') {
        parse_handler_rhs_path(ts, i + 1, alias, true)
    } else if punct_at(ts, i, '-') {
        parse_handler_rhs_path(ts, i + 1, alias, false)
    } else {
        parse_handler_rhs(ts, i, alias)
    }
}

/// Further handlers, each after a `|`.
pub open spec fn parse_more_handlers(ts: Seq<TokenView>, i: int, alias: Seq<char>) -> Result<(Seq<HandlerView>, int), ParseError>
    decreases ts.len() - i,
{
    if !(0 <= i && punct_at(ts, i, '|')) {
        Ok((Seq::empty(), i))
    } else {
        match parse_after_bar(ts, i + 1, alias) {
            Err(e) => Err(e),
            Ok((h, j)) => if j <= i || j > ts.len() {
                Ok((seq![h], j))
            } else {
                match parse_more_handlers(ts, j, alias) {
                    Err(e) => Err(e),
                    Ok((rest, k)) => Ok((seq![h] + rest, k)),
                }
            },
        }
    }
}

/// The handlers of a field: the first may start with `|`; each further one
/// starts with `|`.
pub open spec fn parse_handlers(ts: Seq<TokenView>, i: int, alias: Seq<char>) -> Result<(Seq<HandlerView>, int), ParseError> {
    let first = if punct_at(ts, i, '|') { parse_after_bar(ts, i + 1, alias) } else { parse_handler_rhs(ts, i, alias) };
    match first {
        Err(e) => Err(e),
        Ok((h, j)) => match parse_more_handlers(ts, j, alias) {
            Err(e) => Err(e),
            Ok((rest, k)) => Ok((seq![h] + rest, k)),
        },
    }
}

/// `name: handlers` inside an object block.
pub open spec fn parse_scalar_field(ts: Seq<TokenView>, i: int, alias: Seq<char>) -> Result<(ScalarFieldView, int), ParseError> {
    if !ident_at(ts, i) {
        Err(ParseError::ExpectedIdent { at: i as usize })
    } else if !punct_at(ts, i + 1, ':') {
        Err(ParseError::ExpectedPunct { at: (i + 1) as usize, punct: ':' })
    } else {
        match parse_handlers(ts, i + 2, alias) {
            Err(e) => Err(e),
            Ok((handlers, j)) => Ok((ScalarFieldView { name: word_text(ts, i), handlers }, j)),
        }
    }
}

/// The scalar fields of an object block, up to the end of the block.
pub open spec fn parse_scalar_fields(ts: Seq<TokenView>, i: int, alias: Seq<char>) -> Result<(Seq<ScalarFieldView>, int), ParseError>
    decreases ts.len() - i,
{
    if i < 0 || group_ends_at(ts, i) {
        Ok((Seq::empty(), i))
    } else {
        match parse_scalar_field(ts, i, alias) {
            Err(e) => Err(e),
            Ok((f, j)) => if j <= i || j > ts.len() {
                Ok((seq![f], j))
            } else {
                match parse_scalar_fields(ts, j, alias) {
                    Err(e) => Err(e),
                    Ok((rest, k)) => Ok((seq![f] + rest, k)),
                }
            },
        }
    }
}

/// `cleared_by alias.Event` after an object block, if present.
pub open spec fn parse_cleared_by(ts: Seq<TokenView>, i: int, alias: Seq<char>) -> Result<(Option<Seq<char>>, int), ParseError> {
    if !word_at(ts, i, "cleared_by"@) {
        Ok((None, i))
    } else if !ident_at(ts, i + 1) {
        Err(ParseError::ExpectedIdent { at: (i + 1) as usize })
    } else if word_text(ts, i + 1) != alias {
        Err(ParseError::ClearedByAliasMismatch { at: (i + 1) as usize })
    } else if !punct_at(ts, i + 2, '.') {
        Err(ParseError::ExpectedPunct { at: (i + 2) as usize, punct: '.' })
    } else if !ident_at(ts, i + 3) {
        Err(ParseError::ExpectedIdent { at: (i + 3) as usize })
    } else {
        Ok((Some(word_text(ts, i + 3)), i + 4))
    }
}

/// One field declaration: `name[?]: handlers` or `name[?] { .. } [cleared_by alias.Event]`.
pub open spec fn parse_field(ts: Seq<TokenView>, i: int, alias: Seq<char>) -> Result<(FieldView, int), ParseError> {
    if !ident_at(ts, i) {
        Err(ParseError::ExpectedIdent { at: i as usize })
    } else {
        let name = word_text(ts, i);
        let optional = punct_at(ts, i + 1, '?');
        let j = if optional { i + 2 } else { i + 1 };
        if open_at(ts, j, Delimiter::Brace) {
            match parse_scalar_fields(ts, j + 1, alias) {
                Err(e) => Err(e),
                Ok((sub_fields, k)) => match parse_cleared_by(ts, close_group(ts, k), alias) {
                    Err(e) => Err(e),
                    Ok((cleared_by_event, m)) => Ok((FieldView::Object { name, optional, sub_fields, cleared_by_event }, m)),
                },
            }
        } else if !punct_at(ts, j, ':') {
            Err(ParseError::ExpectedPunct { at: j as usize, punct: ':' })
        } else {
            match parse_handlers(ts, j + 1, alias) {
                Err(e) => Err(e),
                Ok((handlers, k)) => Ok((FieldView::Scalar { name, optional, handlers }, k)),
            }
        }
    }
}

/// The field declarations of the projection body, up to its end.
pub open spec fn parse_fields(ts: Seq<TokenView>, i: int, alias: Seq<char>) -> Result<(Seq<FieldView>, int), ParseError>
    decreases ts.len() - i,
{
    if i < 0 || group_ends_at(ts, i) {
        Ok((Seq::empty(), i))
    } else {
        match parse_field(ts, i, alias) {
            Err(e) => Err(e),
            Ok((f, j)) => if j <= i || j > ts.len() {
                Ok((seq![f], j))
            } else {
                match parse_fields(ts, j, alias) {
                    Err(e) => Err(e),
                    Ok((rest, k)) => Ok((seq![f] + rest, k)),
                }
            },
        }
    }
}

/// `query tag.method("text")`: the query, the position after the
/// parenthesized group, and the position of a token left over inside it.
pub open spec fn parse_query(ts: Seq<TokenView>, i: int) -> Result<(QueryView, int, Option<int>), ParseError> {
    if !word_at(ts, i, "query"@) {
        Err(ParseError::ExpectedKeyword { at: i as usize, keyword: Keyword::Query })
    } else if !word_at(ts, i + 1, "tag"@) {
        Err(ParseError::ExpectedKeyword { at: (i + 1) as usize, keyword: Keyword::Tag })
    } else if !punct_at(ts, i + 2, '.') {
        Err(ParseError::ExpectedPunct { at: (i + 2) as usize, punct: '.' })
    } else if !(word_at(ts, i + 3, "starts_with"@) || word_at(ts, i + 3, "ends_with"@) || word_at(ts, i + 3, "equals"@)) {
        Err(ParseError::ExpectedTagMethod { at: (i + 3) as usize })
    } else if !open_at(ts, i + 4, Delimiter::Parenthesis) {
        Err(ParseError::ExpectedGroup { at: (i + 4) as usize, delimiter: Delimiter::Parenthesis })
    } else if !str_at(ts, i + 5) {
        Err(ParseError::ExpectedStr { at: (i + 5) as usize })
    } else {
        let text = str_text(ts, i + 5);
        let query = if word_at(ts, i + 3, "starts_with"@) {
            QueryView::StartsWith(text)
        } else if word_at(ts, i + 3, "ends_with"@) {
            QueryView::EndsWith(text)
        } else {
            QueryView::Equals(text)
        };
        let leftover = if group_ends_at(ts, i + 6) { None } else { Some(i + 6) };
        Ok((query, skip_group(ts, i + 6, 0), leftover))
    }
}

/// The projection body after its `{`: the query line, `as alias`, and the
/// fields; with the position after the body and any leftover inside the query.
pub open spec fn parse_body(ts: Seq<TokenView>, i: int) -> Result<(QueryView, Seq<char>, Seq<FieldView>, int, Option<int>), ParseError> {
    match parse_query(ts, i) {
        Err(e) => Err(e),
        Ok((query, j, leftover)) => if !word_at(ts, j, "as"@) {
            Err(ParseError::ExpectedKeyword { at: j as usize, keyword: Keyword::As })
        } else if !ident_at(ts, j + 1) {
            Err(ParseError::ExpectedIdent { at: (j + 1) as usize })
        } else {
            let alias = word_text(ts, j + 1);
            match parse_fields(ts, j + 2, alias) {
                Err(e) => Err(e),
                Ok((fields, k)) => Ok((query, alias, fields, close_group(ts, k), leftover)),
            }
        },
    }
}

/// The whole input: `projection Name { body }` and nothing after it. Tokens
/// left over inside the query's parentheses are reported before tokens left
/// over after the body.
pub open spec fn parse_projection(ts: Seq<TokenView>) -> Result<ProjectionView, ParseError> {
    if !word_at(ts, 0, "projection"@) {
        Err(ParseError::ExpectedKeyword { at: 0, keyword: Keyword::Projection })
    } else if !ident_at(ts, 1) {
        Err(ParseError::ExpectedIdent { at: 1 })
    } else if !open_at(ts, 2, Delimiter::Brace) {
        Err(ParseError::ExpectedGroup { at: 2, delimiter: Delimiter::Brace })
    } else {
        match parse_body(ts, 3) {
            Err(e) => Err(e),
            Ok((query, alias, fields, end, leftover)) => match leftover {
                Some(at) => Err(ParseError::UnexpectedToken { at: at as usize }),
                None => if end < ts.len() {
                    Err(ParseError::UnexpectedToken { at: end as usize })
                } else {
                    Ok(ProjectionView { name: word_text(ts, 1), query, fields })
                },
            },
        }
    }
}

/// The tokens as plain values.
pub open spec fn tokens_view(ts: Seq<Token>) -> Seq<TokenView> {
    ts.map_values(|t: Token| t@)
}

/// `acc` followed by the items of `r`, or `r`'s error.
pub open spec fn prepend<V>(acc: Seq<V>, r: Result<(Seq<V>, int), ParseError>) -> Result<(Seq<V>, int), ParseError> {
    match r {
        Ok((rest, k)) => Ok((acc + rest, k)),
        Err(e) => Err(e),
    }
}

/// Whether `s` is a Rust keyword (and so not an identifier).
fn is_keyword_text(s: &String) -> (result: bool)
    ensures
        result == is_keyword(s@),
{
    let s = s.as_str();
    text_is(s, "_") || text_is(s, "abstract") || text_is(s, "as") || text_is(s, "async") || text_is(s, "await")
        || text_is(s, "become") || text_is(s, "box") || text_is(s, "break") || text_is(s, "const")
        || text_is(s, "continue") || text_is(s, "crate") || text_is(s, "do") || text_is(s, "dyn")
        || text_is(s, "else") || text_is(s, "enum") || text_is(s, "extern") || text_is(s, "false")
        || text_is(s, "final") || text_is(s, "fn") || text_is(s, "for") || text_is(s, "if")
        || text_is(s, "impl") || text_is(s, "in") || text_is(s, "let") || text_is(s, "loop")
        || text_is(s, "macro") || text_is(s, "match") || text_is(s, "mod") || text_is(s, "move")
        || text_is(s, "mut") || text_is(s, "override") || text_is(s, "priv") || text_is(s, "pub")
        || text_is(s, "ref") || text_is(s, "return") || text_is(s, "Self") || text_is(s, "self")
        || text_is(s, "static") || text_is(s, "struct") || text_is(s, "super") || text_is(s, "trait")
        || text_is(s, "true") || text_is(s, "try") || text_is(s, "type") || text_is(s, "typeof")
        || text_is(s, "unsafe") || text_is(s, "unsized") || text_is(s, "use") || text_is(s, "virtual")
        || text_is(s, "where") || text_is(s, "while") || text_is(s, "yield")
}

fn ident_at_exec(ts: &Vec<Token>, i: usize) -> (result: bool)
    ensures
        result == ident_at(tokens_view(ts@), i as int),
        result ==> i < ts@.len(),
        ts@.len() <= usize::MAX,
{
    if i < ts.len() {
        match &ts[i] {
            Token::Ident(s) => !is_keyword_text(s),
            _ => false,
        }
    } else {
        false
    }
}

fn word_at_exec(ts: &Vec<Token>, i: usize, w: &str) -> (result: bool)
    ensures
        result == word_at(tokens_view(ts@), i as int, w@),
        result ==> i < ts@.len(),
        ts@.len() <= usize::MAX,
{
    if i < ts.len() {
        match &ts[i] {
            Token::Ident(s) => text_is(s.as_str(), w),
            _ => false,
        }
    } else {
        false
    }
}

fn punct_at_exec(ts: &Vec<Token>, i: usize, c: char) -> (result: bool)
    ensures
        result == punct_at(tokens_view(ts@), i as int, c),
        result ==> i < ts@.len(),
        ts@.len() <= usize::MAX,
{
    if i < ts.len() {
        match &ts[i] {
            Token::Punct(p) => *p == c,
            _ => false,
        }
    } else {
        false
    }
}

fn open_at_exec(ts: &Vec<Token>, i: usize, d: Delimiter) -> (result: bool)
    ensures
        result == open_at(tokens_view(ts@), i as int, d),
        result ==> i < ts@.len(),
        ts@.len() <= usize::MAX,
{
    if i < ts.len() {
        match &ts[i] {
            Token::Open(x) => *x == d,
            _ => false,
        }
    } else {
        false
    }
}

fn str_at_exec(ts: &Vec<Token>, i: usize) -> (result: bool)
    ensures
        result == str_at(tokens_view(ts@), i as int),
        result ==> i < ts@.len(),
        ts@.len() <= usize::MAX,
{
    if i < ts.len() {
        match &ts[i] {
            Token::Str(_) => true,
            _ => false,
        }
    } else {
        false
    }
}

fn group_ends_at_exec(ts: &Vec<Token>, i: usize) -> (result: bool)
    ensures
        result == group_ends_at(tokens_view(ts@), i as int),
        !result ==> i < ts@.len(),
        ts@.len() <= usize::MAX,
{
    if i < ts.len() {
        match &ts[i] {
            Token::Close(_) => true,
            _ => false,
        }
    } else {
        true
    }
}

fn word_text_exec(ts: &Vec<Token>, i: usize) -> (result: String)
    requires
        i < ts@.len(),
    ensures
        result@ == word_text(tokens_view(ts@), i as int),
{
    match &ts[i] {
        Token::Ident(s) => s.clone(),
        _ => String::new(),
    }
}

fn str_text_exec(ts: &Vec<Token>, i: usize) -> (result: String)
    requires
        i < ts@.len(),
    ensures
        result@ == str_text(tokens_view(ts@), i as int),
{
    match &ts[i] {
        Token::Str(s) => s.clone(),
        _ => String::new(),
    }
}

fn close_group_exec(ts: &Vec<Token>, i: usize) -> (result: usize)
    requires
        i <= ts@.len(),
    ensures
        result as int == close_group(tokens_view(ts@), i as int),
        result <= ts@.len(),
{
    if i < ts.len() { i + 1 } else { i }
}

fn skip_group_exec(ts: &Vec<Token>, start: usize) -> (result: usize)
    requires
        start <= ts@.len(),
    ensures
        result as int == skip_group(tokens_view(ts@), start as int, 0),
        start <= result <= ts@.len(),
{
    let ghost v = tokens_view(ts@);
    let mut i = start;
    let mut depth: usize = 0;
    while i < ts.len()
        invariant
            start <= i <= ts@.len(),
            v == tokens_view(ts@),
            depth <= i - start,
            skip_group(v, i as int, depth as nat) == skip_group(v, start as int, 0),
        decreases ts@.len() - i,
    {
        match &ts[i] {
            Token::Close(_) => {
                if depth == 0 {
                    return i + 1;
                }
                depth = depth - 1;
            },
            Token::Open(_) => {
                depth = depth + 1;
            },
            _ => {},
        }
        i = i + 1;
    }
    i
}

/// `a.b.c` at `i`, as the JSON path `$.a.b.c`.
fn parse_path_exec(ts: &Vec<Token>, i: usize) -> (result: Result<(String, usize), ParseError>)
    requires
        i <= ts@.len(),
    ensures
        match result {
            Ok((p, j)) => parse_path(tokens_view(ts@), i as int) == Ok::<(Seq<char>, int), ParseError>((p@, j as int)) && i < j <= ts@.len(),
            Err(e) => parse_path(tokens_view(ts@), i as int) == Err::<(Seq<char>, int), ParseError>(e),
        },
{
    let ghost v = tokens_view(ts@);
    if !ident_at_exec(ts, i) {
        return Err(ParseError::ExpectedIdent { at: i });
    }
    let first = word_text_exec(ts, i);
    let mut path = String::from_str("$.");
    path.append(first.as_str());
    let mut k = i + 1;
    let ghost mut names: Seq<Seq<char>> = Seq::empty();
    while punct_at_exec(ts, k, '.') && ident_at_exec(ts, k + 1)
        invariant
            i < k <= ts@.len(),
            v == tokens_view(ts@),
            path@ == json_path_of(first@, names),
            path_rest(v, (i + 1) as int) == (names + path_rest(v, k as int).0, path_rest(v, k as int).1),
        decreases ts@.len() - k,
    {
        let name = word_text_exec(ts, k + 1);
        proof {
            let (rest, j) = path_rest(v, (k + 2) as int);
            assert(path_rest(v, k as int) == (seq![name@] + rest, j));
            assert(names + (seq![name@] + rest) =~= names.push(name@) + rest);
            assert(names.push(name@).drop_last() =~= names);
        }
        path.append(".");
        path.append(name.as_str());
        proof {
            names = names.push(name@);
        }
        k = k + 2;
    }
    proof {
        assert(names + Seq::<Seq<char>>::empty() =~= names);
    }
    Ok((path, k))
}

/// `alias.Event` at `i`.
fn parse_alias_event_exec(ts: &Vec<Token>, i: usize, alias: &String) -> (result: Result<(String, usize), ParseError>)
    requires
        i <= ts@.len(),
    ensures
        match result {
            Ok((e, j)) => parse_alias_event(tokens_view(ts@), i as int, alias@) == Ok::<(Seq<char>, int), ParseError>((e@, j as int)) && j == i + 3 && j <= ts@.len(),
            Err(e) => parse_alias_event(tokens_view(ts@), i as int, alias@) == Err::<(Seq<char>, int), ParseError>(e),
        },
{
    if !ident_at_exec(ts, i) {
        return Err(ParseError::ExpectedIdent { at: i });
    }
    let a = word_text_exec(ts, i);
    if a != *alias {
        return Err(ParseError::HandlerAliasMismatch { at: i });
    }
    if !punct_at_exec(ts, i + 1, '.') {
        return Err(ParseError::ExpectedPunct { at: i + 1, punct: '.' });
    }
    if !ident_at_exec(ts, i + 2) {
        return Err(ParseError::ExpectedIdent { at: i + 2 });
    }
    let event_type = word_text_exec(ts, i + 2);
    Ok((event_type, i + 3))
}

/// The result of a handler parse matches the grammar.
pub open spec fn handler_result(r: Result<(HandlerDecl, usize), ParseError>, s: Result<(HandlerView, int), ParseError>) -> bool {
    match r {
        Ok((h, j)) => s == Ok::<(HandlerView, int), ParseError>((h@, j as int)),
        Err(e) => s == Err::<(HandlerView, int), ParseError>(e),
    }
}

fn parse_handler_rhs_exec(ts: &Vec<Token>, i: usize, alias: &String) -> (result: Result<(HandlerDecl, usize), ParseError>)
    requires
        i <= ts@.len(),
    ensures
        handler_result(result, parse_handler_rhs(tokens_view(ts@), i as int, alias@)),
        result matches Ok((_, j)) ==> i < j <= ts@.len(),
{
    let (event_type, j) = match parse_alias_event_exec(ts, i, alias) {
        Err(e) => return Err(e),
        Ok(x) => x,
    };
    if punct_at_exec(ts, j, '=') {
        if str_at_exec(ts, j + 1) {
            let text = str_text_exec(ts, j + 1);
            Ok((HandlerDecl { event_type, operation: OperationDecl::ValueString(text) }, j + 2))
        } else if !ident_at_exec(ts, j + 1) {
            Err(ParseError::ExpectedIdent { at: j + 1 })
        } else {
            let word = word_text_exec(ts, j + 1);
            if !text_is(word.as_str(), "null") {
                Err(ParseError::ExpectedNullOrString { at: j + 1 })
            } else {
                Ok((HandlerDecl { event_type, operation: OperationDecl::ValueNull }, j + 2))
            }
        }
    } else if !punct_at_exec(ts, j, '.') {
        Err(ParseError::ExpectedPunct { at: j, punct: '.' })
    } else {
        match parse_path_exec(ts, j + 1) {
            Err(e) => Err(e),
            Ok((path, k)) => Ok((HandlerDecl { event_type, operation: OperationDecl::FromPath(path) }, k)),
        }
    }
}

fn parse_handler_rhs_path_exec(ts: &Vec<Token>, i: usize, alias: &String, increment: bool) -> (result: Result<(HandlerDecl, usize), ParseError>)
    requires
        i <= ts@.len(),
    ensures
        handler_result(result, parse_handler_rhs_path(tokens_view(ts@), i as int, alias@, increment)),
        result matches Ok((_, j)) ==> i < j <= ts@.len(),
{
    let (event_type, j) = match parse_alias_event_exec(ts, i, alias) {
        Err(e) => return Err(e),
        Ok(x) => x,
    };
    if !punct_at_exec(ts, j, '.') {
        return Err(ParseError::ExpectedPunct { at: j, punct: '.' });
    }
    match parse_path_exec(ts, j + 1) {
        Err(e) => Err(e),
        Ok((path, k)) => {
            let operation = if increment { OperationDecl::IncrementBy(path) } else { OperationDecl::DecrementBy(path) };
            Ok((HandlerDecl { event_type, operation }, k))
        },
    }
}

fn parse_after_bar_exec(ts: &Vec<Token>, i: usize, alias: &String) -> (result: Result<(HandlerDecl, usize), ParseError>)
    requires
        i <= ts@.len(),
    ensures
        handler_result(result, parse_after_bar(tokens_view(ts@), i as int, alias@)),
        result matches Ok((_, j)) ==> i < j <= ts@.len(),
{
    if punct_at_exec(ts, i, '+') {
        parse_handler_rhs_path_exec(ts, i + 1, alias, true)
    } else if punct_at_exec(ts, i, '-') {
        parse_handler_rhs_path_exec(ts, i + 1, alias, false)
    } else {
        parse_handler_rhs_exec(ts, i, alias)
    }
}

/// The result of parsing a list of handlers matches the grammar.
pub open spec fn handlers_result(r: Result<(Vec<HandlerDecl>, usize), ParseError>, s: Result<(Seq<HandlerView>, int), ParseError>) -> bool {
    match r {
        Ok((hs, j)) => s == Ok::<(Seq<HandlerView>, int), ParseError>((handler_views(hs@), j as int)),
        Err(e) => s == Err::<(Seq<HandlerView>, int), ParseError>(e),
    }
}

fn parse_handlers_exec(ts: &Vec<Token>, i: usize, alias: &String) -> (result: Result<(Vec<HandlerDecl>, usize), ParseError>)
    requires
        i <= ts@.len(),
    ensures
        handlers_result(result, parse_handlers(tokens_view(ts@), i as int, alias@)),
        result matches Ok((_, j)) ==> i < j <= ts@.len(),
{
    let ghost v = tokens_view(ts@);
    let first = if punct_at_exec(ts, i, '|') {
        parse_after_bar_exec(ts, i + 1, alias)
    } else {
        parse_handler_rhs_exec(ts, i, alias)
    };
    let (h, j) = match first {
        Err(e) => return Err(e),
        Ok(x) => x,
    };
    let mut handlers: Vec<HandlerDecl> = Vec::new();
    handlers.push(h);
    let mut k = j;
    while punct_at_exec(ts, k, '|')
        invariant
            i < k <= ts@.len(),
            v == tokens_view(ts@),
            handlers@.len() > 0,
            parse_more_handlers(v, j as int, alias@) == prepend(
                handler_views(handlers@).subrange(1, handlers@.len() as int),
                parse_more_handlers(v, k as int, alias@),
            ),
            handler_views(handlers@)[0] == h@,
            parse_handlers(v, i as int, alias@) == prepend(seq![h@], parse_more_handlers(v, j as int, alias@)),
        decreases ts@.len() - k,
    {
        let ghost before = handler_views(handlers@);
        match parse_after_bar_exec(ts, k + 1, alias) {
            Err(e) => {
                proof {
                    assert(parse_more_handlers(v, k as int, alias@) == Err::<(Seq<HandlerView>, int), ParseError>(e));
                }
                return Err(e);
            },
            Ok((next, m)) => {
                proof {
                    let rest = parse_more_handlers(v, m as int, alias@);
                    assert(parse_more_handlers(v, k as int, alias@) == prepend(seq![next@], rest));
                    match rest {
                        Ok((r, _)) => {
                            assert(before.subrange(1, before.len() as int) + (seq![next@] + r)
                                =~= before.push(next@).subrange(1, before.len() + 1 as int) + r);
                        },
                        Err(_) => {},
                    }
                }
                handlers.push(next);
                proof {
                    assert(handler_views(handlers@) =~= before.push(next@));
                }
                k = m;
            },
        }
    }
    proof {
        let all = handler_views(handlers@);
        assert(all.subrange(1, all.len() as int) + Seq::<HandlerView>::empty() =~= all.subrange(1, all.len() as int));
        assert(seq![h@] + all.subrange(1, all.len() as int) =~= all);
    }
    Ok((handlers, k))
}

fn parse_scalar_field_exec(ts: &Vec<Token>, i: usize, alias: &String) -> (result: Result<(ScalarFieldDecl, usize), ParseError>)
    requires
        i <= ts@.len(),
    ensures
        match result {
            Ok((f, j)) => parse_scalar_field(tokens_view(ts@), i as int, alias@) == Ok::<(ScalarFieldView, int), ParseError>((f@, j as int)) && i < j <= ts@.len(),
            Err(e) => parse_scalar_field(tokens_view(ts@), i as int, alias@) == Err::<(ScalarFieldView, int), ParseError>(e),
        },
{
    if !ident_at_exec(ts, i) {
        return Err(ParseError::ExpectedIdent { at: i });
    }
    if !punct_at_exec(ts, i + 1, ':') {
        return Err(ParseError::ExpectedPunct { at: i + 1, punct: ':' });
    }
    let name = word_text_exec(ts, i);
    match parse_handlers_exec(ts, i + 2, alias) {
        Err(e) => Err(e),
        Ok((handlers, j)) => Ok((ScalarFieldDecl { name, handlers }, j)),
    }
}

fn parse_scalar_fields_exec(ts: &Vec<Token>, i: usize, alias: &String) -> (result: Result<(Vec<ScalarFieldDecl>, usize), ParseError>)
    requires
        i <= ts@.len(),
    ensures
        match result {
            Ok((fs, j)) => parse_scalar_fields(tokens_view(ts@), i as int, alias@)
                == Ok::<(Seq<ScalarFieldView>, int), ParseError>((scalar_field_views(fs@), j as int))
                && i <= j <= ts@.len(),
            Err(e) => parse_scalar_fields(tokens_view(ts@), i as int, alias@) == Err::<(Seq<ScalarFieldView>, int), ParseError>(e),
        },
{
    let ghost v = tokens_view(ts@);
    let mut fields: Vec<ScalarFieldDecl> = Vec::new();
    let mut k = i;
    while !group_ends_at_exec(ts, k)
        invariant
            i <= k <= ts@.len(),
            v == tokens_view(ts@),
            parse_scalar_fields(v, i as int, alias@) == prepend(
                scalar_field_views(fields@),
                parse_scalar_fields(v, k as int, alias@),
            ),
        decreases ts@.len() - k,
    {
        let ghost before = scalar_field_views(fields@);
        match parse_scalar_field_exec(ts, k, alias) {
            Err(e) => {
                return Err(e);
            },
            Ok((f, m)) => {
                proof {
                    let rest = parse_scalar_fields(v, m as int, alias@);
                    assert(parse_scalar_fields(v, k as int, alias@) == prepend(seq![f@], rest));
                    match rest {
                        Ok((r, _)) => {
                            assert(before + (seq![f@] + r) =~= before.push(f@) + r);
                        },
                        Err(_) => {},
                    }
                }
                fields.push(f);
                proof {
                    assert(scalar_field_views(fields@) =~= before.push(f@));
                }
                k = m;
            },
        }
    }
    proof {
        let all = scalar_field_views(fields@);
        assert(all + Seq::<ScalarFieldView>::empty() =~= all);
    }
    Ok((fields, k))
}

fn parse_cleared_by_exec(ts: &Vec<Token>, i: usize, alias: &String) -> (result: Result<(Option<String>, usize), ParseError>)
    requires
        i <= ts@.len(),
    ensures
        match result {
            Ok((c, j)) => parse_cleared_by(tokens_view(ts@), i as int, alias@) == Ok::<(Option<Seq<char>>, int), ParseError>((
                match c { Some(e) => Some(e@), None => None }, j as int)) && i <= j <= ts@.len(),
            Err(e) => parse_cleared_by(tokens_view(ts@), i as int, alias@) == Err::<(Option<Seq<char>>, int), ParseError>(e),
        },
{
    if !word_at_exec(ts, i, "cleared_by") {
        return Ok((None, i));
    }
    if !ident_at_exec(ts, i + 1) {
        return Err(ParseError::ExpectedIdent { at: i + 1 });
    }
    let a = word_text_exec(ts, i + 1);
    if a != *alias {
        return Err(ParseError::ClearedByAliasMismatch { at: i + 1 });
    }
    if !punct_at_exec(ts, i + 2, '.') {
        return Err(ParseError::ExpectedPunct { at: i + 2, punct: '.' });
    }
    if !ident_at_exec(ts, i + 3) {
        return Err(ParseError::ExpectedIdent { at: i + 3 });
    }
    let event_type = word_text_exec(ts, i + 3);
    Ok((Some(event_type), i + 4))
}

fn parse_field_exec(ts: &Vec<Token>, i: usize, alias: &String) -> (result: Result<(FieldDecl, usize), ParseError>)
    requires
        i <= ts@.len(),
    ensures
        match result {
            Ok((f, j)) => parse_field(tokens_view(ts@), i as int, alias@) == Ok::<(FieldView, int), ParseError>((f@, j as int)) && i < j <= ts@.len(),
            Err(e) => parse_field(tokens_view(ts@), i as int, alias@) == Err::<(FieldView, int), ParseError>(e),
        },
{
    if !ident_at_exec(ts, i) {
        return Err(ParseError::ExpectedIdent { at: i });
    }
    let name = word_text_exec(ts, i);
    let optional = punct_at_exec(ts, i + 1, '?');
    let j = if optional { i + 2 } else { i + 1 };
    if open_at_exec(ts, j, Delimiter::Brace) {
        let (sub_fields, k) = match parse_scalar_fields_exec(ts, j + 1, alias) {
            Err(e) => return Err(e),
            Ok(x) => x,
        };
        let after = close_group_exec(ts, k);
        match parse_cleared_by_exec(ts, after, alias) {
            Err(e) => Err(e),
            Ok((cleared_by_event, m)) => {
                let f = FieldDecl::Object { name, optional, sub_fields, cleared_by_event };
                Ok((f, m))
            },
        }
    } else if !punct_at_exec(ts, j, ':') {
        Err(ParseError::ExpectedPunct { at: j, punct: ':' })
    } else {
        match parse_handlers_exec(ts, j + 1, alias) {
            Err(e) => Err(e),
            Ok((handlers, k)) => Ok((FieldDecl::Scalar { name, optional, handlers }, k)),
        }
    }
}

fn parse_fields_exec(ts: &Vec<Token>, i: usize, alias: &String) -> (result: Result<(Vec<FieldDecl>, usize), ParseError>)
    requires
        i <= ts@.len(),
    ensures
        match result {
            Ok((fs, j)) => parse_fields(tokens_view(ts@), i as int, alias@)
                == Ok::<(Seq<FieldView>, int), ParseError>((field_views(fs@), j as int))
                && i <= j <= ts@.len(),
            Err(e) => parse_fields(tokens_view(ts@), i as int, alias@) == Err::<(Seq<FieldView>, int), ParseError>(e),
        },
{
    let ghost v = tokens_view(ts@);
    let mut fields: Vec<FieldDecl> = Vec::new();
    let mut k = i;
    while !group_ends_at_exec(ts, k)
        invariant
            i <= k <= ts@.len(),
            v == tokens_view(ts@),
            parse_fields(v, i as int, alias@) == prepend(
                field_views(fields@),
                parse_fields(v, k as int, alias@),
            ),
        decreases ts@.len() - k,
    {
        let ghost before = field_views(fields@);
        match parse_field_exec(ts, k, alias) {
            Err(e) => {
                return Err(e);
            },
            Ok((f, m)) => {
                proof {
                    let rest = parse_fields(v, m as int, alias@);
                    assert(parse_fields(v, k as int, alias@) == prepend(seq![f@], rest));
                    match rest {
                        Ok((r, _)) => {
                            assert(before + (seq![f@] + r) =~= before.push(f@) + r);
                        },
                        Err(_) => {},
                    }
                }
                fields.push(f);
                proof {
                    assert(field_views(fields@) =~= before.push(f@));
                }
                k = m;
            },
        }
    }
    proof {
        let all = field_views(fields@);
        assert(all + Seq::<FieldView>::empty() =~= all);
    }
    Ok((fields, k))
}

fn parse_query_exec(ts: &Vec<Token>, i: usize) -> (result: Result<(QuerySpec, usize, Option<usize>), ParseError>)
    requires
        i <= ts@.len(),
    ensures
        match result {
            Ok((q, j, left)) => parse_query(tokens_view(ts@), i as int) == Ok::<(QueryView, int, Option<int>), ParseError>((
                q@, j as int, match left { Some(x) => Some(x as int), None => None })) && i < j <= ts@.len(),
            Err(e) => parse_query(tokens_view(ts@), i as int) == Err::<(QueryView, int, Option<int>), ParseError>(e),
        },
{
    if !word_at_exec(ts, i, "query") {
        return Err(ParseError::ExpectedKeyword { at: i, keyword: Keyword::Query });
    }
    if !word_at_exec(ts, i + 1, "tag") {
        return Err(ParseError::ExpectedKeyword { at: i + 1, keyword: Keyword::Tag });
    }
    if !punct_at_exec(ts, i + 2, '.') {
        return Err(ParseError::ExpectedPunct { at: i + 2, punct: '.' });
    }
    let starts = word_at_exec(ts, i + 3, "starts_with");
    let ends = word_at_exec(ts, i + 3, "ends_with");
    let equals = word_at_exec(ts, i + 3, "equals");
    if !(starts || ends || equals) {
        return Err(ParseError::ExpectedTagMethod { at: i + 3 });
    }
    if !open_at_exec(ts, i + 4, Delimiter::Parenthesis) {
        return Err(ParseError::ExpectedGroup { at: i + 4, delimiter: Delimiter::Parenthesis });
    }
    if !str_at_exec(ts, i + 5) {
        return Err(ParseError::ExpectedStr { at: i + 5 });
    }
    let text = str_text_exec(ts, i + 5);
    let query = if starts {
        QuerySpec::StartsWith(text)
    } else if ends {
        QuerySpec::EndsWith(text)
    } else {
        QuerySpec::Equals(text)
    };
    let leftover = if group_ends_at_exec(ts, i + 6) { None } else { Some(i + 6) };
    let end = skip_group_exec(ts, i + 6);
    Ok((query, end, leftover))
}

/// Parses a projection from its tokens. The result is exactly what the
/// grammar (`parse_projection`) gives for the tokens.
pub fn parse_projection_tokens(ts: &Vec<Token>) -> (result: Result<ProjectionInput, ParseError>)
    ensures
        match result {
            Ok(p) => parse_projection(tokens_view(ts@)) == Ok::<ProjectionView, ParseError>(p@),
            Err(e) => parse_projection(tokens_view(ts@)) == Err::<ProjectionView, ParseError>(e),
        },
{
    let ghost v = tokens_view(ts@);
    if !word_at_exec(ts, 0, "projection") {
        return Err(ParseError::ExpectedKeyword { at: 0, keyword: Keyword::Projection });
    }
    if !ident_at_exec(ts, 1) {
        return Err(ParseError::ExpectedIdent { at: 1 });
    }
    if !open_at_exec(ts, 2, Delimiter::Brace) {
        return Err(ParseError::ExpectedGroup { at: 2, delimiter: Delimiter::Brace });
    }
    let name = word_text_exec(ts, 1);
    let (query, j, leftover) = match parse_query_exec(ts, 3) {
        Err(e) => return Err(e),
        Ok(x) => x,
    };
    if !word_at_exec(ts, j, "as") {
        return Err(ParseError::ExpectedKeyword { at: j, keyword: Keyword::As });
    }
    if !ident_at_exec(ts, j + 1) {
        return Err(ParseError::ExpectedIdent { at: j + 1 });
    }
    let alias = word_text_exec(ts, j + 1);
    let (fields, k) = match parse_fields_exec(ts, j + 2, &alias) {
        Err(e) => return Err(e),
        Ok(x) => x,
    };
    let end = close_group_exec(ts, k);
    match leftover {
        Some(at) => Err(ParseError::UnexpectedToken { at }),
        None => if end < ts.len() {
            Err(ParseError::UnexpectedToken { at: end })
        } else {
            let p = ProjectionInput { name, query, fields };
            Ok(p)
        },
    }
}

/// The position of the query's alias (`as alias`), when the input starts
/// with `projection Name { query tag.method("text") as alias`.
pub open spec fn query_alias_position(ts: Seq<TokenView>) -> Option<int> {
    if word_at(ts, 0, "projection"@) && ident_at(ts, 1) && open_at(ts, 2, Delimiter::Brace) {
        match parse_query(ts, 3) {
            Ok((_, j, _)) => if word_at(ts, j, "as"@) && ident_at(ts, j + 1) {
                Some(j + 1)
            } else {
                None
            },
            Err(_) => None,
        }
    } else {
        None
    }
}

/// Finds the position of the query's alias, which error reports about a
/// mismatched alias name.
pub fn query_alias_at(ts: &Vec<Token>) -> (result: Option<usize>)
    ensures
        match result {
            Some(k) => query_alias_position(tokens_view(ts@)) == Some(k as int),
            None => query_alias_position(tokens_view(ts@)) is None,
        },
{
    if !word_at_exec(ts, 0, "projection") || !ident_at_exec(ts, 1) || !open_at_exec(ts, 2, Delimiter::Brace) {
        return None;
    }
    match parse_query_exec(ts, 3) {
        Err(_) => None,
        Ok((_, j, _)) => if word_at_exec(ts, j, "as") && ident_at_exec(ts, j + 1) {
            Some(j + 1)
        } else {
            None
        },
    }
}

/// In a projection that parses, the query line reads
/// `query tag.method("text")` at tokens 3 to 9: the method written there
/// fixes the kind of the query (`starts_with`, `ends_with` or `equals`),
/// and the literal is its text.
pub proof fn lemma_query_follows_method(ts: Seq<TokenView>)
    requires
        parse_projection(ts) is Ok,
    ensures
        word_at(ts, 6, "starts_with"@) || word_at(ts, 6, "ends_with"@) || word_at(ts, 6, "equals"@),
        str_at(ts, 8),
        word_at(ts, 6, "starts_with"@) ==> parse_projection(ts)->Ok_0.query == QueryView::StartsWith(str_text(ts, 8)),
        word_at(ts, 6, "ends_with"@) ==> parse_projection(ts)->Ok_0.query == QueryView::EndsWith(str_text(ts, 8)),
        word_at(ts, 6, "equals"@) ==> parse_projection(ts)->Ok_0.query == QueryView::Equals(str_text(ts, 8)),
{
    reveal_strlit("starts_with");
    reveal_strlit("ends_with");
    reveal_strlit("equals");
    assert("starts_with"@[0] == 's' && "ends_with"@[0] == 'e' && "equals"@[0] == 'e');
    assert("ends_with"@.len() != "equals"@.len());
    assert(parse_body(ts, 3) is Ok);
    assert(parse_query(ts, 3) is Ok);
}

/// In a field declaration that parses at `i`: the field's name is the
/// identifier at `i`; it is optional exactly when `?` follows the name; and
/// it is an object exactly when a `{` group follows (after the `?`, if any).
pub proof fn lemma_field_follows_tokens(ts: Seq<TokenView>, i: int, alias: Seq<char>)
    requires
        parse_field(ts, i, alias) is Ok,
    ensures
        ({
            let f = parse_field(ts, i, alias)->Ok_0.0;
            let after = if punct_at(ts, i + 1, '?') { i + 2 } else { i + 1 };
            &&& ident_at(ts, i)
            &&& (f is Object) == open_at(ts, after, Delimiter::Brace)
            &&& match f {
                FieldView::Scalar { name, optional, .. } => name == word_text(ts, i) && optional == punct_at(ts, i + 1, '?'),
                FieldView::Object { name, optional, .. } => name == word_text(ts, i) && optional == punct_at(ts, i + 1, '?'),
            }
        }),
{
}

/// A handler after `|` that parses at `i`: `+` makes it add and `-` makes
/// it subtract the value at its path; without either it neither adds nor
/// subtracts, and it sets `null` after `= null`, the literal after
/// `= "text"`, and otherwise copies the value at its path. Its event type
/// is the identifier after `alias.`.
pub proof fn lemma_handler_follows_tokens(ts: Seq<TokenView>, i: int, alias: Seq<char>)
    requires
        parse_after_bar(ts, i, alias) is Ok,
    ensures
        ({
            let h = parse_after_bar(ts, i, alias)->Ok_0.0;
            let arith = punct_at(ts, i, '+') || punct_at(ts, i, '-');
            let j = if arith { i + 1 } else { i };
            &&& word_text(ts, j) == alias
            &&& h.event_type == word_text(ts, j + 2)
            &&& punct_at(ts, i, '+') ==> h.operation is IncrementBy
            &&& (punct_at(ts, i, '-') && !punct_at(ts, i, '+')) ==> h.operation is DecrementBy
            &&& !arith ==> {
                &&& !(h.operation is IncrementBy) && !(h.operation is DecrementBy)
                &&& (punct_at(ts, j + 3, '=') && str_at(ts, j + 4)) ==> h.operation == OperationView::ValueString(str_text(ts, j + 4))
                &&& (punct_at(ts, j + 3, '=') && !str_at(ts, j + 4)) ==> h.operation is ValueNull && word_text(ts, j + 4) == "null"@
                &&& !punct_at(ts, j + 3, '=') ==> h.operation is FromPath
            }
        }),
{
    reveal_strlit("null");
}

} // verus!
