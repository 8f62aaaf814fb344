//! Parsing a line of tokens into a statement of the query language.

use crate::vm::tokenizer::{Token, TokenType, TokenView};
use vstd::prelude::*;
use vstd::string::StringSliceAdditionalSpecFns;
use vstd::utf8::encode_utf8_decode_utf8;

verus! {

/// The tokens do not make a statement.
#[derive(Debug, Clone, Copy, PartialEq, Eq, Structural)]
pub struct SyntaxError;

impl SyntaxError {
    /// The text shown to the user for this error.
    pub fn message(&self) -> (text: String)
        ensures
            text@ == "Syntax error"@,
    {
        "Syntax error".to_owned()
    }
}


/// What a statement of the query language does.
#[derive(Debug, Clone, Copy, PartialEq, Eq, Structural)]
pub enum QueryType {
    Select,
    Insert,
    Create,
    Update,
}

/// A parsed statement: what it does, and on which table.
#[derive(Debug)]
pub struct Stmt {
    pub query_type: QueryType,
    pub table: String,
}

/// The mathematical value of a parsed statement.
pub struct StmtView {
    pub query_type: QueryType,
    pub table: Seq<char>,
}

impl View for Stmt {
    type V = StmtView;

    open spec fn view(&self) -> StmtView {
        StmtView { query_type: self.query_type, table: self.table@ }
    }
}

impl Stmt {
    /// A statement on the table `foo`.
    pub fn new(query_type: QueryType) -> (stmt: Stmt)
        ensures
            stmt@ == (StmtView { query_type, table: "foo"@ }),
    {
        Stmt { query_type, table: "foo".to_owned() }
    }

    /// A statement on the table `table`.
    pub fn with_table(query_type: QueryType, table: String) -> (stmt: Stmt)
        ensures
            stmt@ == (StmtView { query_type, table: table@ }),
    {
        Stmt { query_type, table }
    }
}

/// The statement kind that the word `text` names, in small letters only.
pub open spec fn keyword(text: Seq<char>) -> Option<QueryType> {
    if text == "select"@ {
        Some(QueryType::Select)
    } else if text == "insert"@ {
        Some(QueryType::Insert)
    } else if text == "create"@ {
        Some(QueryType::Create)
    } else if text == "update"@ {
        Some(QueryType::Update)
    } else {
        None
    }
}

/// The token is the identifier `from`.
pub open spec fn is_from(token: TokenView) -> bool {
    token.token_type == TokenType::Ident && token.lexeme == Some("from"@)
}

/// The index of the first `from` at or after `i`; `tokens.len()` if there is none.
pub open spec fn from_index(tokens: Seq<TokenView>, i: int) -> int
    decreases tokens.len() - i,
{
    if i < 0 || i >= tokens.len() {
        tokens.len() as int
    } else if is_from(tokens[i]) {
        i
    } else {
        from_index(tokens, i + 1)
    }
}

/// The select statement whose tokens, after the keyword, start at `start`:
/// whatever stands before the first `from` is passed over, and the
/// identifier after that `from` names the table. What follows is not read.
pub open spec fn parse_select_spec(tokens: Seq<TokenView>, start: int) -> Result<
    StmtView,
    SyntaxError,
> {
    let from = from_index(tokens, start);
    if from + 1 < tokens.len() && tokens[from + 1].token_type == TokenType::Ident {
        Ok(StmtView { query_type: QueryType::Select, table: tokens[from + 1].lexeme->0 })
    } else {
        Err(SyntaxError)
    }
}

/// The statement that `tokens` make. The first token is an identifier that
/// names the kind of statement; only select statements are parsed, every
/// other kind is a syntax error.
pub open spec fn parse_spec(tokens: Seq<TokenView>) -> Result<StmtView, SyntaxError> {
    if tokens.len() > 0 && tokens[0].token_type == TokenType::Ident && keyword(
        tokens[0].lexeme->0,
    ) == Some(QueryType::Select) {
        parse_select_spec(tokens, 1)
    } else {
        Err(SyntaxError)
    }
}

/// The views of the tokens of a slice.
pub open spec fn token_views(tokens: Seq<Token>) -> Seq<TokenView> {
    Seq::new(tokens.len(), |k: int| tokens[k]@)
}

/// The view of a parsed statement, or the error unchanged.
pub open spec fn parsed_view(result: Result<Stmt, SyntaxError>) -> Result<StmtView, SyntaxError> {
    match result {
        Ok(stmt) => Ok(stmt@),
        Err(e) => Err(e),
    }
}

/// Tells whether two strings hold the same text.
pub fn same_text(a: &str, b: &str) -> (same: bool)
    ensures
        same == (a@ == b@),
{
    let x = a.as_bytes();
    let y = b.as_bytes();
    proof {
        encode_utf8_decode_utf8(a@);
        encode_utf8_decode_utf8(b@);
    }
    if x.len() != y.len() {
        return false;
    }
    let mut i: usize = 0;
    while i < x.len()
        invariant
            i <= x@.len() == y@.len(),
            x@ == a.spec_bytes(),
            y@ == b.spec_bytes(),
            forall|k: int| 0 <= k < i ==> x@[k] == y@[k],
        decreases x@.len() - i,
    {
        if x[i] != y[i] {
            return false;
        }
        i = i + 1;
    }
    assert(x@ =~= y@);
    true
}

/// The statement kind that `lexeme` names.
pub fn match_keyword(lexeme: &str) -> (kind: Option<QueryType>)
    ensures
        kind == keyword(lexeme@),
{
    if same_text(lexeme, "select") {
        Some(QueryType::Select)
    } else if same_text(lexeme, "insert") {
        Some(QueryType::Insert)
    } else if same_text(lexeme, "create") {
        Some(QueryType::Create)
    } else if same_text(lexeme, "update") {
        Some(QueryType::Update)
    } else {
        None
    }
}

fn token_is_from(token: &Token) -> (found: bool)
    requires
        token@.wf(),
    ensures
        found == is_from(token@),
{
    match token.token_type {
        TokenType::Ident => same_text(token.get_lexeme(), "from"),
        _ => false,
    }
}

/// Parses the rest of a select statement, from the token with index `start`.
pub fn parse_select(tokens: &[Token], start: usize) -> (result: Result<Stmt, SyntaxError>)
    requires
        start <= tokens@.len(),
        forall|k: int| 0 <= k < tokens@.len() ==> (#[trigger] tokens@[k])@.wf(),
    ensures
        parsed_view(result) == parse_select_spec(token_views(tokens@), start as int),
{
    let ghost views = token_views(tokens@);
    let len = tokens.len();
    let mut from: usize = start;
    while from < len && !token_is_from(&tokens[from])
        invariant
            start <= from <= len == tokens@.len(),
            views == token_views(tokens@),
            forall|k: int| 0 <= k < tokens@.len() ==> (#[trigger] tokens@[k])@.wf(),
            from_index(views, start as int) == from_index(views, from as int),
        decreases len - from,
    {
        from = from + 1;
    }
    if from >= len || len - from < 2 {
        return Err(SyntaxError);
    }
    let token = &tokens[from + 1];
    match token.token_type {
        TokenType::Ident => {
            let table = token.get_lexeme().to_owned();
            Ok(Stmt::with_table(QueryType::Select, table))
        },
        _ => Err(SyntaxError),
    }
}

/// Parses the statement that `tokens` make.
pub fn parse_stmt(tokens: &[Token]) -> (result: Result<Stmt, SyntaxError>)
    requires
        forall|k: int| 0 <= k < tokens@.len() ==> (#[trigger] tokens@[k])@.wf(),
    ensures
        parsed_view(result) == parse_spec(token_views(tokens@)),
{
    if tokens.len() == 0 {
        return Err(SyntaxError);
    }
    let first = &tokens[0];
    let query_type = match first.token_type {
        TokenType::Ident => match match_keyword(first.get_lexeme()) {
            Some(kind) => kind,
            None => {
                return Err(SyntaxError);
            },
        },
        _ => {
            return Err(SyntaxError);
        },
    };
    match query_type {
        QueryType::Select => parse_select(tokens, 1),
        _ => Err(SyntaxError),
    }
}

} // verus!
