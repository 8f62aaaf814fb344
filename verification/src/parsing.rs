//! Statements of the command language and the rows they carry.

use crate::consts::{EMAIL_SIZE, USERNAME_SIZE};
use crate::words::{find_word, nth_word, parse_u32, parse_u32_spec};
use vstd::prelude::*;
use vstd::string::StringSliceAdditionalSpecFns;

verus! {

/// A fixed-width record: an identifier and two zero-padded byte fields.
#[derive(Debug, Clone, Copy, PartialEq)]
pub struct Row {
    pub id: u32,
    pub username: [u8; USERNAME_SIZE],
    pub email: [u8; EMAIL_SIZE],
}

/// The mathematical value of a row: its identifier and the bytes of its two fields.
pub struct RowView {
    pub id: u32,
    pub username: Seq<u8>,
    pub email: Seq<u8>,
}

impl RowView {
    /// Both fields have exactly their fixed sizes.
    pub open spec fn wf(self) -> bool {
        &&& self.username.len() == USERNAME_SIZE
        &&& self.email.len() == EMAIL_SIZE
    }
}

impl View for Row {
    type V = RowView;

    open spec fn view(&self) -> RowView {
        RowView { id: self.id, username: self.username@, email: self.email@ }
    }
}

/// Two rows with the same view are the same row.
pub proof fn lemma_row_view_injective(a: Row, b: Row)
    requires
        a@ == b@,
    ensures
        a == b,
{
    assert(a.username =~= b.username);
    assert(a.email =~= b.email);
}

/// Why a line of input is not a statement.
#[derive(Debug, PartialEq)]
pub enum PrepareError {
    UnrecognisedStmt,
    SyntaxError,
    StringTooLong,
    IdSyntaxError,
}

impl PrepareError {
    /// The text shown to the user for this error.
    pub open spec fn message_spec(self) -> Seq<char> {
        match self {
            PrepareError::UnrecognisedStmt => "Unrecognised statement"@,
            PrepareError::SyntaxError => "Syntax error"@,
            PrepareError::StringTooLong => "Maximum string length exceeded"@,
            PrepareError::IdSyntaxError => "ID must be a positive integer"@,
        }
    }

    /// The text shown to the user for this error.
    pub fn message(&self) -> (text: String)
        ensures
            text@ == self.message_spec(),
    {
        match self {
            PrepareError::UnrecognisedStmt => "Unrecognised statement".to_owned(),
            PrepareError::SyntaxError => "Syntax error".to_owned(),
            PrepareError::StringTooLong => "Maximum string length exceeded".to_owned(),
            PrepareError::IdSyntaxError => "ID must be a positive integer".to_owned(),
        }
    }
}

/// What a statement asks for.
#[derive(Debug, PartialEq)]
pub enum StmtType {
    Select,
    Insert(Box<Row>),
}

/// The mathematical value of a statement.
pub enum StmtView {
    Select,
    Insert(RowView),
}

impl View for StmtType {
    type V = StmtView;

    open spec fn view(&self) -> StmtView {
        match self {
            StmtType::Select => StmtView::Select,
            StmtType::Insert(row) => StmtView::Insert(row@),
        }
    }
}

/// A prepared statement.
#[derive(Debug)]
pub struct Stmt {
    pub stmt_type: StmtType,
}

impl View for Stmt {
    type V = StmtView;

    open spec fn view(&self) -> StmtView {
        self.stmt_type@
    }
}

impl Stmt {
    /// The statement that reads every row.
    pub fn select() -> (stmt: Stmt)
        ensures
            stmt@ == StmtView::Select,
    {
        Stmt { stmt_type: StmtType::Select }
    }

    /// The statement that appends `row`.
    pub fn insert(row: Row) -> (stmt: Stmt)
        ensures
            stmt@ == StmtView::Insert(row@),
    {
        Stmt { stmt_type: StmtType::Insert(Box::new(row)) }
    }
}


/// An ASCII capital letter becomes its small letter; every other byte stays.
pub open spec fn ascii_lower(b: u8) -> u8 {
    if 0x41 <= b <= 0x5A {
        (b + 0x20) as u8
    } else {
        b
    }
}

/// The first bytes of `s` are the bytes of `word`, not counting the case of
/// ASCII letters.
pub open spec fn starts_with_word(s: Seq<u8>, word: Seq<u8>) -> bool {
    &&& word.len() <= s.len()
    &&& forall|i: int| 0 <= i < word.len() ==> ascii_lower(s[i]) == ascii_lower(word[i])
}

/// The bytes of `word`, followed by as many zero bytes as are missing to `size`.
pub open spec fn zero_padded(word: Seq<u8>, size: nat) -> Seq<u8> {
    Seq::new(size, |i: int| if i < word.len() { word[i] } else { 0u8 })
}

/// What an `insert` line asks for: its second word is the identifier, its
/// third the username, its fourth the email; further words are not read.
pub open spec fn prepare_insert_spec(s: Seq<u8>) -> Result<StmtView, PrepareError> {
    match nth_word(s, 0, 1) {
        None => Err(PrepareError::SyntaxError),
        Some((id_start, id_end)) => match parse_u32_spec(s.subrange(id_start, id_end)) {
            None => Err(PrepareError::IdSyntaxError),
            Some(id) => if id == 0 {
                Err(PrepareError::IdSyntaxError)
            } else {
                match (nth_word(s, 0, 2), nth_word(s, 0, 3)) {
                    (Some((name_start, name_end)), Some((mail_start, mail_end))) => {
                        if name_end - name_start > USERNAME_SIZE || mail_end - mail_start
                            > EMAIL_SIZE {
                            Err(PrepareError::StringTooLong)
                        } else {
                            Ok(
                                StmtView::Insert(
                                    RowView {
                                        id,
                                        username: zero_padded(
                                            s.subrange(name_start, name_end),
                                            USERNAME_SIZE as nat,
                                        ),
                                        email: zero_padded(
                                            s.subrange(mail_start, mail_end),
                                            EMAIL_SIZE as nat,
                                        ),
                                    },
                                ),
                            )
                        }
                    },
                    _ => Err(PrepareError::SyntaxError),
                }
            },
        },
    }
}

/// What the line with the UTF-8 bytes `s` asks for.
///
/// A line that begins with `select` is a select statement, whatever follows.
/// A line that begins with `insert` is read word by word. Any other line is
/// not a statement. The two keywords are recognised in any mix of cases.
pub open spec fn prepare_spec(s: Seq<u8>) -> Result<StmtView, PrepareError> {
    if starts_with_word(s, "select".spec_bytes()) {
        Ok(StmtView::Select)
    } else if starts_with_word(s, "insert".spec_bytes()) {
        prepare_insert_spec(s)
    } else {
        Err(PrepareError::UnrecognisedStmt)
    }
}

/// The view of a prepared statement, or the error unchanged.
pub open spec fn prepared_view(result: Result<Stmt, PrepareError>) -> Result<
    StmtView,
    PrepareError,
> {
    match result {
        Ok(stmt) => Ok(stmt@),
        Err(e) => Err(e),
    }
}

fn to_ascii_lower(b: u8) -> (l: u8)
    ensures
        l == ascii_lower(b),
{
    if 0x41 <= b && b <= 0x5A {
        b + 0x20
    } else {
        b
    }
}

fn has_keyword(s: &[u8], word: &[u8]) -> (found: bool)
    ensures
        found == starts_with_word(s@, word@),
{
    if s.len() < word.len() {
        return false;
    }
    let mut i: usize = 0;
    while i < word.len()
        invariant
            i <= word@.len() <= s@.len(),
            forall|k: int| 0 <= k < i ==> ascii_lower(s@[k]) == ascii_lower(word@[k]),
        decreases word@.len() - i,
    {
        if to_ascii_lower(s[i]) != to_ascii_lower(word[i]) {
            return false;
        }
        i = i + 1;
    }
    true
}

fn copy_username(s: &[u8], start: usize, end: usize) -> (field: [u8; USERNAME_SIZE])
    requires
        start <= end <= s@.len(),
        end - start <= USERNAME_SIZE,
    ensures
        field@ == zero_padded(s@.subrange(start as int, end as int), USERNAME_SIZE as nat),
{
    let mut field: [u8; USERNAME_SIZE] = [0u8; USERNAME_SIZE];
    let mut i: usize = 0;
    while i < end - start
        invariant
            start <= end <= s@.len(),
            end - start <= USERNAME_SIZE,
            i <= end - start,
            forall|k: int| 0 <= k < i ==> field@[k] == s@[start + k],
            forall|k: int| i <= k < USERNAME_SIZE ==> field@[k] == 0u8,
        decreases end - start - i,
    {
        field[i] = s[start + i];
        i = i + 1;
    }
    assert(field@ =~= zero_padded(s@.subrange(start as int, end as int), USERNAME_SIZE as nat));
    field
}

fn copy_email(s: &[u8], start: usize, end: usize) -> (field: [u8; EMAIL_SIZE])
    requires
        start <= end <= s@.len(),
        end - start <= EMAIL_SIZE,
    ensures
        field@ == zero_padded(s@.subrange(start as int, end as int), EMAIL_SIZE as nat),
{
    let mut field: [u8; EMAIL_SIZE] = [0u8; EMAIL_SIZE];
    let mut i: usize = 0;
    while i < end - start
        invariant
            start <= end <= s@.len(),
            end - start <= EMAIL_SIZE,
            i <= end - start,
            forall|k: int| 0 <= k < i ==> field@[k] == s@[start + k],
            forall|k: int| i <= k < EMAIL_SIZE ==> field@[k] == 0u8,
        decreases end - start - i,
    {
        field[i] = s[start + i];
        i = i + 1;
    }
    assert(field@ =~= zero_padded(s@.subrange(start as int, end as int), EMAIL_SIZE as nat));
    field
}

fn prepare_insert(s: &[u8]) -> (result: Result<Stmt, PrepareError>)
    ensures
        prepared_view(result) == prepare_insert_spec(s@),
{
    reveal_with_fuel(nth_word, 4);
    let after_keyword = match find_word(s, 0) {
        Some((_, end)) => end,
        None => return Err(PrepareError::SyntaxError),
    };
    let (id_start, id_end) = match find_word(s, after_keyword) {
        Some(word) => word,
        None => return Err(PrepareError::SyntaxError),
    };
    let id: u32 = match parse_u32(s, id_start, id_end) {
        Some(id) => id,
        None => return Err(PrepareError::IdSyntaxError),
    };
    if id == 0 {
        return Err(PrepareError::IdSyntaxError);
    }
    let (name_start, name_end) = match find_word(s, id_end) {
        Some(word) => word,
        None => return Err(PrepareError::SyntaxError),
    };
    let (mail_start, mail_end) = match find_word(s, name_end) {
        Some(word) => word,
        None => return Err(PrepareError::SyntaxError),
    };
    if name_end - name_start > USERNAME_SIZE {
        return Err(PrepareError::StringTooLong);
    }
    let username = copy_username(s, name_start, name_end);
    if mail_end - mail_start > EMAIL_SIZE {
        return Err(PrepareError::StringTooLong);
    }
    let email = copy_email(s, mail_start, mail_end);
    Ok(Stmt::insert(Row { id, username, email }))
}

/// Prepares the statement that a line of input asks for.
pub fn prepare_stmt(input: &str) -> (result: Result<Stmt, PrepareError>)
    ensures
        prepared_view(result) == prepare_spec(input.spec_bytes()),
{
    let bytes = input.as_bytes();
    if has_keyword(bytes, "select".as_bytes()) {
        return Ok(Stmt::select());
    }
    if has_keyword(bytes, "insert".as_bytes()) {
        return prepare_insert(bytes);
    }
    Err(PrepareError::UnrecognisedStmt)
}

} // verus!
