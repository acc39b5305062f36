use vstd::prelude::*;
use crate::number::Number;
use crate::number::NumberV;
use crate::ErrorReporter;
use crate::diagnostic;
use vstd::string::StrSliceExecFns;
use vstd::string::StringExecFns;

verus! {

pub enum TokenType {
    // Single character.
    LeftParen,
    RightParen,
    LeftBrace,
    RightBrace,
    Comma,
    Dot,
    Minus,
    Plus,
    Semicolon,
    Slash,
    Star,
    QuestionMark,
    Colon,
    // One or two characters.
    Bang,
    BangEqual,
    Equal,
    EqualEqual,
    Greater,
    GreaterEqual,
    Less,
    LessEqual,
    // Literals.
    Identifier,
    Literal(Literal),
    // Keywords.
    And,
    Break,
    Class,
    Else,
    Fun,
    For,
    If,
    Or,
    Print,
    Return,
    Super,
    This,
    Var,
    While,
    Eof,
}

/// A value of the language. A function is held by its place in the table of
/// functions that the evaluator was given.
pub enum Literal {
    Number(Number),
    String(String),
    Nil,
    Boolean(bool),
    Function(usize),
}

/// A `Literal` with its texts as sequences of characters.
pub enum LiteralV {
    Number(NumberV),
    String(Seq<char>),
    Nil,
    Boolean(bool),
    Function(usize),
}

impl View for Literal {
    type V = LiteralV;

    open spec fn view(&self) -> LiteralV {
        match self {
            Literal::Number(n) => LiteralV::Number(n@),
            Literal::String(s) => LiteralV::String(s@),
            Literal::Nil => LiteralV::Nil,
            Literal::Boolean(b) => LiteralV::Boolean(*b),
            Literal::Function(f) => LiteralV::Function(*f),
        }
    }
}

/// What a value looks like when printed.
pub open spec fn display(lit: LiteralV) -> Seq<char> {
    match lit {
        LiteralV::Number(n) => n.text,
        LiteralV::String(s) => s,
        LiteralV::Nil => "nil"@,
        LiteralV::Boolean(b) => if b {
            "true"@
        } else {
            "false"@
        },
        LiteralV::Function(_) => "<fn>"@,
    }
}

impl Literal {
    pub fn to_string(&self) -> (s: String)
        ensures
            s@ == display(self@),
    {
        match self {
            Literal::Number(n) => n.text.clone(),
            Literal::String(s) => s.clone(),
            Literal::Nil => "nil".to_owned(),
            Literal::Boolean(b) => if *b {
                "true".to_owned()
            } else {
                "false".to_owned()
            },
            Literal::Function(_) => "<fn>".to_owned(),
        }
    }

    /// Whether the two values are of one kind, whatever they hold.
    pub fn same_kind(&self, other: &Literal) -> (r: bool)
        ensures
            r == same_kind(self@, other@),
    {
        match (self, other) {
            (Literal::Number(_), Literal::Number(_)) => true,
            (Literal::String(_), Literal::String(_)) => true,
            (Literal::Nil, Literal::Nil) => true,
            (Literal::Boolean(_), Literal::Boolean(_)) => true,
            (Literal::Function(_), Literal::Function(_)) => true,
            _ => false,
        }
    }
}

/// Whether the two values are of one kind, whatever they hold.
pub open spec fn same_kind(a: LiteralV, b: LiteralV) -> bool {
    match (a, b) {
        (LiteralV::Number(_), LiteralV::Number(_)) => true,
        (LiteralV::String(_), LiteralV::String(_)) => true,
        (LiteralV::Nil, LiteralV::Nil) => true,
        (LiteralV::Boolean(_), LiteralV::Boolean(_)) => true,
        (LiteralV::Function(_), LiteralV::Function(_)) => true,
        _ => false,
    }
}

impl Clone for Literal {
    fn clone(&self) -> (r: Literal)
        ensures
            r == *self,
    {
        match self {
            Literal::Number(n) => Literal::Number(n.clone()),
            Literal::String(s) => Literal::String(s.clone()),
            Literal::Nil => Literal::Nil,
            Literal::Boolean(b) => Literal::Boolean(*b),
            Literal::Function(f) => Literal::Function(*f),
        }
    }
}

/// A `TokenType` seen from outside: a literal by its view, any other by itself.
pub enum TokenTypeV {
    Plain(TokenType),
    Literal(LiteralV),
}

impl View for TokenType {
    type V = TokenTypeV;

    open spec fn view(&self) -> TokenTypeV {
        match self {
            TokenType::Literal(l) => TokenTypeV::Literal(l@),
            _ => TokenTypeV::Plain(*self),
        }
    }
}

impl Clone for TokenType {
    fn clone(&self) -> (r: TokenType)
        ensures
            r == *self,
    {
        match self {
            TokenType::LeftParen => TokenType::LeftParen,
            TokenType::RightParen => TokenType::RightParen,
            TokenType::LeftBrace => TokenType::LeftBrace,
            TokenType::RightBrace => TokenType::RightBrace,
            TokenType::Comma => TokenType::Comma,
            TokenType::Dot => TokenType::Dot,
            TokenType::Minus => TokenType::Minus,
            TokenType::Plus => TokenType::Plus,
            TokenType::Semicolon => TokenType::Semicolon,
            TokenType::Slash => TokenType::Slash,
            TokenType::Star => TokenType::Star,
            TokenType::QuestionMark => TokenType::QuestionMark,
            TokenType::Colon => TokenType::Colon,
            TokenType::Bang => TokenType::Bang,
            TokenType::BangEqual => TokenType::BangEqual,
            TokenType::Equal => TokenType::Equal,
            TokenType::EqualEqual => TokenType::EqualEqual,
            TokenType::Greater => TokenType::Greater,
            TokenType::GreaterEqual => TokenType::GreaterEqual,
            TokenType::Less => TokenType::Less,
            TokenType::LessEqual => TokenType::LessEqual,
            TokenType::Identifier => TokenType::Identifier,
            TokenType::Literal(l) => TokenType::Literal(l.clone()),
            TokenType::And => TokenType::And,
            TokenType::Break => TokenType::Break,
            TokenType::Class => TokenType::Class,
            TokenType::Else => TokenType::Else,
            TokenType::Fun => TokenType::Fun,
            TokenType::For => TokenType::For,
            TokenType::If => TokenType::If,
            TokenType::Or => TokenType::Or,
            TokenType::Print => TokenType::Print,
            TokenType::Return => TokenType::Return,
            TokenType::Super => TokenType::Super,
            TokenType::This => TokenType::This,
            TokenType::Var => TokenType::Var,
            TokenType::While => TokenType::While,
            TokenType::Eof => TokenType::Eof,
        }
    }
}

/// Whether two token types are the same, literals counting as the same when
/// they are of one kind.
pub open spec fn same_type(a: TokenTypeV, b: TokenTypeV) -> bool {
    match (a, b) {
        (TokenTypeV::Plain(x), TokenTypeV::Plain(y)) => x == y,
        (TokenTypeV::Literal(x), TokenTypeV::Literal(y)) => same_kind(x, y),
        _ => false,
    }
}

impl TokenType {
    /// Whether the two are the same type of token; two literals are when they
    /// are of one kind.
    pub fn same(&self, other: &TokenType) -> (r: bool)
        ensures
            r == same_type(self@, other@),
    {
        match (self, other) {
            (TokenType::LeftParen, TokenType::LeftParen) => true,
            (TokenType::RightParen, TokenType::RightParen) => true,
            (TokenType::LeftBrace, TokenType::LeftBrace) => true,
            (TokenType::RightBrace, TokenType::RightBrace) => true,
            (TokenType::Comma, TokenType::Comma) => true,
            (TokenType::Dot, TokenType::Dot) => true,
            (TokenType::Minus, TokenType::Minus) => true,
            (TokenType::Plus, TokenType::Plus) => true,
            (TokenType::Semicolon, TokenType::Semicolon) => true,
            (TokenType::Slash, TokenType::Slash) => true,
            (TokenType::Star, TokenType::Star) => true,
            (TokenType::QuestionMark, TokenType::QuestionMark) => true,
            (TokenType::Colon, TokenType::Colon) => true,
            (TokenType::Bang, TokenType::Bang) => true,
            (TokenType::BangEqual, TokenType::BangEqual) => true,
            (TokenType::Equal, TokenType::Equal) => true,
            (TokenType::EqualEqual, TokenType::EqualEqual) => true,
            (TokenType::Greater, TokenType::Greater) => true,
            (TokenType::GreaterEqual, TokenType::GreaterEqual) => true,
            (TokenType::Less, TokenType::Less) => true,
            (TokenType::LessEqual, TokenType::LessEqual) => true,
            (TokenType::Identifier, TokenType::Identifier) => true,
            (TokenType::Literal(a), TokenType::Literal(b)) => a.same_kind(b),
            (TokenType::And, TokenType::And) => true,
            (TokenType::Break, TokenType::Break) => true,
            (TokenType::Class, TokenType::Class) => true,
            (TokenType::Else, TokenType::Else) => true,
            (TokenType::Fun, TokenType::Fun) => true,
            (TokenType::For, TokenType::For) => true,
            (TokenType::If, TokenType::If) => true,
            (TokenType::Or, TokenType::Or) => true,
            (TokenType::Print, TokenType::Print) => true,
            (TokenType::Return, TokenType::Return) => true,
            (TokenType::Super, TokenType::Super) => true,
            (TokenType::This, TokenType::This) => true,
            (TokenType::Var, TokenType::Var) => true,
            (TokenType::While, TokenType::While) => true,
            (TokenType::Eof, TokenType::Eof) => true,
            _ => false,
        }
    }
}

/// A classified piece of the source with the line it was found on.
pub struct Token {
    pub t_type: TokenType,
    pub line: usize,
    pub lexeme: String,
}

/// A `Token` with its texts as sequences of characters.
pub struct TokenV {
    pub t_type: TokenTypeV,
    pub line: usize,
    pub lexeme: Seq<char>,
}

impl View for Token {
    type V = TokenV;

    open spec fn view(&self) -> TokenV {
        TokenV { t_type: self.t_type@, line: self.line, lexeme: self.lexeme@ }
    }
}

impl Clone for Token {
    fn clone(&self) -> (r: Token)
        ensures
            r == *self,
    {
        Token { t_type: self.t_type.clone(), line: self.line, lexeme: self.lexeme.clone() }
    }
}

impl Token {
    pub fn new(tk: TokenType, lexeme: String, line: usize) -> (t: Token)
        ensures
            t.t_type == tk,
            t.lexeme == lexeme,
            t.line == line,
    {
        Token { t_type: tk, line, lexeme }
    }

    pub fn get_type(&self) -> (t: &TokenType)
        ensures
            *t == self.t_type,
    {
        &self.t_type
    }

    pub fn get_line(&self) -> (l: usize)
        ensures
            l == self.line,
    {
        self.line
    }

    pub fn get_lexeme(&self) -> (s: &str)
        ensures
            s@ == self.lexeme@,
    {
        self.lexeme.as_str()
    }

    pub fn to_string(&self) -> (s: String)
        ensures
            s == self.lexeme,
    {
        self.lexeme.clone()
    }
}

/// Whether `c` can begin an identifier.
pub open spec fn alpha(c: char) -> bool {
    ('a' <= c && c <= 'z') || ('A' <= c && c <= 'Z') || c == '_'
}

/// Whether `c` is a decimal digit.
pub open spec fn digit(c: char) -> bool {
    '0' <= c && c <= '9'
}

/// Whether `c` can continue an identifier.
pub open spec fn alpha_numeric(c: char) -> bool {
    digit(c) || alpha(c)
}

pub fn is_alpha(c: char) -> (r: bool)
    ensures
        r == alpha(c),
{
    (c >= 'a' && c <= 'z') || (c >= 'A' && c <= 'Z') || c == '_'
}

pub fn is_alpha_numeric(c: char) -> (r: bool)
    ensures
        r == alpha_numeric(c),
{
    is_digit(c) || is_alpha(c)
}

pub fn is_digit(c: char) -> (r: bool)
    ensures
        r == digit(c),
{
    c >= '0' && c <= '9'
}

/// The token type of a reserved word, if `name` is one.
pub open spec fn keyword(name: Seq<char>) -> Option<TokenTypeV> {
    if name == "and"@ {
        Some(TokenTypeV::Plain(TokenType::And))
    } else if name == "break"@ {
        Some(TokenTypeV::Plain(TokenType::Break))
    } else if name == "class"@ {
        Some(TokenTypeV::Plain(TokenType::Class))
    } else if name == "else"@ {
        Some(TokenTypeV::Plain(TokenType::Else))
    } else if name == "false"@ {
        Some(TokenTypeV::Literal(LiteralV::Boolean(false)))
    } else if name == "for"@ {
        Some(TokenTypeV::Plain(TokenType::For))
    } else if name == "fun"@ {
        Some(TokenTypeV::Plain(TokenType::Fun))
    } else if name == "if"@ {
        Some(TokenTypeV::Plain(TokenType::If))
    } else if name == "nil"@ {
        Some(TokenTypeV::Literal(LiteralV::Nil))
    } else if name == "or"@ {
        Some(TokenTypeV::Plain(TokenType::Or))
    } else if name == "print"@ {
        Some(TokenTypeV::Plain(TokenType::Print))
    } else if name == "return"@ {
        Some(TokenTypeV::Plain(TokenType::Return))
    } else if name == "super"@ {
        Some(TokenTypeV::Plain(TokenType::Super))
    } else if name == "this"@ {
        Some(TokenTypeV::Plain(TokenType::This))
    } else if name == "true"@ {
        Some(TokenTypeV::Literal(LiteralV::Boolean(true)))
    } else if name == "var"@ {
        Some(TokenTypeV::Plain(TokenType::Var))
    } else if name == "while"@ {
        Some(TokenTypeV::Plain(TokenType::While))
    } else {
        None
    }
}

fn is_word(name: &String, word: &str) -> (r: bool)
    ensures
        r == (name@ == word@),
{
    let w = String::from_str(word);
    *name == w
}

/// Looks `name` up among the reserved words.
pub fn keyword_type(name: &String) -> (r: Option<TokenType>)
    ensures
        match r {
            Some(t) => keyword(name@) == Some(t@),
            None => keyword(name@) is None,
        },
{
    if is_word(name, "and") {
        Some(TokenType::And)
    } else if is_word(name, "break") {
        Some(TokenType::Break)
    } else if is_word(name, "class") {
        Some(TokenType::Class)
    } else if is_word(name, "else") {
        Some(TokenType::Else)
    } else if is_word(name, "false") {
        Some(TokenType::Literal(Literal::Boolean(false)))
    } else if is_word(name, "for") {
        Some(TokenType::For)
    } else if is_word(name, "fun") {
        Some(TokenType::Fun)
    } else if is_word(name, "if") {
        Some(TokenType::If)
    } else if is_word(name, "nil") {
        Some(TokenType::Literal(Literal::Nil))
    } else if is_word(name, "or") {
        Some(TokenType::Or)
    } else if is_word(name, "print") {
        Some(TokenType::Print)
    } else if is_word(name, "return") {
        Some(TokenType::Return)
    } else if is_word(name, "super") {
        Some(TokenType::Super)
    } else if is_word(name, "this") {
        Some(TokenType::This)
    } else if is_word(name, "true") {
        Some(TokenType::Literal(Literal::Boolean(true)))
    } else if is_word(name, "var") {
        Some(TokenType::Var)
    } else if is_word(name, "while") {
        Some(TokenType::While)
    } else {
        None
    }
}

/// The first position at or after `i` whose character cannot continue an identifier.
pub open spec fn ident_end(src: Seq<char>, i: int) -> int
    decreases src.len() - i,
{
    if 0 <= i < src.len() && alpha_numeric(src[i]) {
        ident_end(src, i + 1)
    } else {
        i
    }
}

/// The first position at or after `i` whose character is not a digit.
pub open spec fn digits_end(src: Seq<char>, i: int) -> int
    decreases src.len() - i,
{
    if 0 <= i < src.len() && digit(src[i]) {
        digits_end(src, i + 1)
    } else {
        i
    }
}

/// Where the number that has its first digit before `i` ends: after its digits,
/// and after a point and more digits if a digit follows the point.
pub open spec fn number_end(src: Seq<char>, i: int) -> int {
    let e = digits_end(src, i);
    if e + 1 < src.len() && src[e] == '.' && digit(src[e + 1]) {
        digits_end(src, e + 1)
    } else {
        e
    }
}

/// The position of the first newline at or after `i`, or the end of the source.
pub open spec fn line_end(src: Seq<char>, i: int) -> int
    decreases src.len() - i,
{
    if 0 <= i < src.len() && src[i] != '\n' {
        line_end(src, i + 1)
    } else {
        i
    }
}

/// Reads a string literal whose opening quote stands before `i`: the position
/// after the closing quote, the line there, and whether a closing quote was found.
pub open spec fn string_scan(src: Seq<char>, i: int, line: int) -> (int, int, bool)
    decreases src.len() - i,
{
    if 0 <= i < src.len() {
        if src[i] == '"' {
            (i + 1, line, true)
        } else if src[i] == '\n' {
            string_scan(src, i + 1, line + 1)
        } else {
            string_scan(src, i + 1, line)
        }
    } else {
        (i, line, false)
    }
}

/// Reads a block comment from `i`, `depth` openings deep: the position where
/// reading stops, the depth left open, and the line there. Reading stops when
/// every opening is closed or fewer than two characters are left.
pub open spec fn comment_scan(src: Seq<char>, i: int, depth: int, line: int) -> (int, int, int)
    decreases src.len() - i,
{
    if depth != 0 && 0 <= i && i + 1 < src.len() {
        if src[i] == '*' && src[i + 1] == '/' {
            comment_scan(src, i + 2, depth - 1, line)
        } else if src[i] == '/' && src[i + 1] == '*' {
            comment_scan(src, i + 2, depth + 1, line)
        } else if src[i] == '\n' {
            comment_scan(src, i + 1, depth, line + 1)
        } else {
            comment_scan(src, i + 1, depth, line)
        }
    } else {
        (i, depth, line)
    }
}

/// What one step of the scanner found.
pub enum Lexed {
    /// Blank space or a comment.
    Skip,
    /// A token of this type.
    Token(TokenTypeV),
    /// A number, whose value the caller has to supply.
    Numeral,
    /// A lexical error with this message.
    Error(Seq<char>),
}

/// One step of the scanner: where it stops, on which line, and what it found.
pub struct Step {
    pub next: int,
    pub line: int,
    pub what: Lexed,
}

/// The step that found a token of the type `t`, which has no value.
pub open spec fn plain(next: int, line: int, t: TokenType) -> Step {
    Step { next, line, what: Lexed::Token(TokenTypeV::Plain(t)) }
}

/// The step that the scanner takes at `start`, a position inside `src`.
pub open spec fn lex(src: Seq<char>, start: int, line: int) -> Step
    recommends
        0 <= start < src.len(),
{
    let c = src[start];
    let next = start + 1;
    let more = next < src.len();
    if c == '(' {
        plain(next, line, TokenType::LeftParen)
    } else if c == ')' {
        plain(next, line, TokenType::RightParen)
    } else if c == '{' {
        plain(next, line, TokenType::LeftBrace)
    } else if c == '}' {
        plain(next, line, TokenType::RightBrace)
    } else if c == ',' {
        plain(next, line, TokenType::Comma)
    } else if c == '.' {
        plain(next, line, TokenType::Dot)
    } else if c == '-' {
        plain(next, line, TokenType::Minus)
    } else if c == '+' {
        plain(next, line, TokenType::Plus)
    } else if c == ';' {
        plain(next, line, TokenType::Semicolon)
    } else if c == '*' {
        plain(next, line, TokenType::Star)
    } else if c == '?' {
        plain(next, line, TokenType::QuestionMark)
    } else if c == ':' {
        plain(next, line, TokenType::Colon)
    } else if c == '!' {
        if more && src[next] == '=' {
            plain(next + 1, line, TokenType::BangEqual)
        } else {
            plain(next, line, TokenType::Bang)
        }
    } else if c == '=' {
        if more && src[next] == '=' {
            plain(next + 1, line, TokenType::EqualEqual)
        } else {
            plain(next, line, TokenType::Equal)
        }
    } else if c == '<' {
        if more && src[next] == '=' {
            plain(next + 1, line, TokenType::LessEqual)
        } else {
            plain(next, line, TokenType::Less)
        }
    } else if c == '>' {
        if more && src[next] == '=' {
            plain(next + 1, line, TokenType::GreaterEqual)
        } else {
            plain(next, line, TokenType::Greater)
        }
    } else if c == '/' {
        if more && src[next] == '/' {
            Step { next: line_end(src, next + 1), line, what: Lexed::Skip }
        } else if more && src[next] == '*' {
            let (end, depth, last) = comment_scan(src, next + 1, 1, line);
            if depth != 0 {
                Step { next: end, line: last, what: Lexed::Error("Unclosed block comment."@) }
            } else {
                Step { next: end, line: last, what: Lexed::Skip }
            }
        } else {
            plain(next, line, TokenType::Slash)
        }
    } else if c == ' ' || c == '\r' || c == '\t' {
        Step { next, line, what: Lexed::Skip }
    } else if c == '\n' {
        Step { next, line: line + 1, what: Lexed::Skip }
    } else if c == '"' {
        let (end, last, closed) = string_scan(src, next, line);
        if closed {
            Step {
                next: end,
                line: last,
                what: Lexed::Token(
                    TokenTypeV::Literal(LiteralV::String(src.subrange(start + 1, end - 1))),
                ),
            }
        } else {
            Step { next: end, line: last, what: Lexed::Error("Unterminated string."@) }
        }
    } else if digit(c) {
        Step { next: number_end(src, next), line, what: Lexed::Numeral }
    } else if alpha(c) {
        let end = ident_end(src, next);
        match keyword(src.subrange(start, end)) {
            Some(t) => Step { next: end, line, what: Lexed::Token(t) },
            None => plain(end, line, TokenType::Identifier),
        }
    } else {
        Step { next, line, what: Lexed::Error("Unexpected character."@) }
    }
}

/// The scanner as the contracts see it.
pub struct ScanV {
    /// The tokens made so far.
    pub tokens: Seq<TokenV>,
    /// The diagnostics of the reporter that the scanner writes to.
    pub diags: Seq<Seq<char>>,
    /// Where the piece that was read last begins.
    pub start: int,
    /// Where the next piece begins.
    pub pos: int,
    /// The line of `pos`.
    pub line: int,
    /// A number was read from `start` to `pos` and waits for its value.
    pub pending: bool,
    /// The end of the source was reached and the last token made.
    pub done: bool,
}

/// The scanner after one step from inside the source.
pub open spec fn step(src: Seq<char>, s: ScanV) -> ScanV {
    let st = lex(src, s.pos, s.line);
    let moved = ScanV { start: s.pos, pos: st.next, line: st.line, ..s };
    match st.what {
        Lexed::Skip => moved,
        Lexed::Token(t) => ScanV {
            tokens: s.tokens.push(
                TokenV { t_type: t, line: st.line as usize, lexeme: src.subrange(s.pos, st.next) },
            ),
            ..moved
        },
        Lexed::Numeral => ScanV { pending: true, ..moved },
        Lexed::Error(msg) => ScanV {
            diags: s.diags.push(diagnostic(st.line as nat, Seq::empty(), msg)),
            ..moved
        },
    }
}

/// The last token of every scan.
pub open spec fn eof(line: int) -> TokenV {
    TokenV { t_type: TokenTypeV::Plain(TokenType::Eof), line: line as usize, lexeme: Seq::empty() }
}

/// The scanner after it has run until a number waits for its value or the
/// source is used up.
pub open spec fn scan(src: Seq<char>, s: ScanV) -> ScanV
    decreases src.len() - s.pos,
{
    if s.done || s.pending {
        s
    } else if s.pos < 0 || s.pos >= src.len() {
        ScanV { tokens: s.tokens.push(eof(s.line)), done: true, ..s }
    } else {
        let n = step(src, s);
        if s.pos < n.pos <= src.len() {
            scan(src, n)
        } else {
            s
        }
    }
}

/// An identifier ends between `i` and the end of the source.
pub proof fn lemma_ident_end_within(src: Seq<char>, i: int)
    requires
        0 <= i <= src.len(),
    ensures
        i <= ident_end(src, i) <= src.len(),
    decreases src.len() - i,
{
    if i < src.len() && alpha_numeric(src[i]) {
        lemma_ident_end_within(src, i + 1);
    }
}

/// A run of digits ends between `i` and the end of the source.
pub proof fn lemma_digits_end_within(src: Seq<char>, i: int)
    requires
        0 <= i <= src.len(),
    ensures
        i <= digits_end(src, i) <= src.len(),
    decreases src.len() - i,
{
    if i < src.len() && digit(src[i]) {
        lemma_digits_end_within(src, i + 1);
    }
}

/// A line ends between `i` and the end of the source.
pub proof fn lemma_line_end_within(src: Seq<char>, i: int)
    requires
        0 <= i <= src.len(),
    ensures
        i <= line_end(src, i) <= src.len(),
    decreases src.len() - i,
{
    if i < src.len() && src[i] != '\n' {
        lemma_line_end_within(src, i + 1);
    }
}

/// The reading of a string stops between `i` and the end of the source.
pub proof fn lemma_string_scan_within(src: Seq<char>, i: int, line: int)
    requires
        0 <= i <= src.len(),
    ensures
        i <= string_scan(src, i, line).0 <= src.len(),
    decreases src.len() - i,
{
    if i < src.len() && src[i] != '"' {
        if src[i] == '\n' {
            lemma_string_scan_within(src, i + 1, line + 1);
        } else {
            lemma_string_scan_within(src, i + 1, line);
        }
    }
}

/// The reading of a block comment stops between `i` and the end of the source.
pub proof fn lemma_comment_scan_within(src: Seq<char>, i: int, depth: int, line: int)
    requires
        0 <= i <= src.len(),
    ensures
        i <= comment_scan(src, i, depth, line).0 <= src.len(),
    decreases src.len() - i,
{
    if depth != 0 && i + 1 < src.len() {
        if src[i] == '*' && src[i + 1] == '/' {
            lemma_comment_scan_within(src, i + 2, depth - 1, line);
        } else if src[i] == '/' && src[i + 1] == '*' {
            lemma_comment_scan_within(src, i + 2, depth + 1, line);
        } else if src[i] == '\n' {
            lemma_comment_scan_within(src, i + 1, depth, line + 1);
        } else {
            lemma_comment_scan_within(src, i + 1, depth, line);
        }
    }
}

/// Every step of the scanner takes at least one character, and none beyond
/// the end of the source.
pub proof fn lemma_lex_advances(src: Seq<char>, start: int, line: int)
    requires
        0 <= start < src.len(),
    ensures
        start < lex(src, start, line).next <= src.len(),
{
    let next = start + 1;
    lemma_ident_end_within(src, next);
    lemma_digits_end_within(src, next);
    let e = digits_end(src, next);
    if e + 1 < src.len() {
        lemma_digits_end_within(src, e + 1);
    }
    if next < src.len() {
        lemma_line_end_within(src, next + 1);
        lemma_comment_scan_within(src, next + 1, 1, line);
    }
    lemma_string_scan_within(src, next, line);
}

/// A scan stops for one of two reasons: a number waits for its value, or the
/// source is used up, and then the last token is the end-of-input token. It
/// keeps the tokens that were made before.
pub proof fn lemma_scan_stops(src: Seq<char>, s: ScanV)
    requires
        0 <= s.pos <= src.len(),
        !s.done,
    ensures
        ({
            let r = scan(src, s);
            &&& r.pending || r.done
            &&& r.done && !r.pending ==> r.tokens.len() > 0 && r.tokens.last().t_type
                == TokenTypeV::Plain(TokenType::Eof)
            &&& s.tokens.len() <= r.tokens.len()
            &&& r.tokens.subrange(0, s.tokens.len() as int) == s.tokens
        }),
    decreases src.len() - s.pos,
{
    let r = scan(src, s);
    if s.pending {
        assert(r.tokens.subrange(0, s.tokens.len() as int) =~= s.tokens);
    } else if s.pos >= src.len() {
        assert(r.tokens.subrange(0, s.tokens.len() as int) =~= s.tokens);
    } else {
        lemma_lex_advances(src, s.pos, s.line);
        let n = step(src, s);
        lemma_scan_stops(src, n);
        assert(n.tokens.subrange(0, s.tokens.len() as int) =~= s.tokens);
        assert(r.tokens.subrange(0, s.tokens.len() as int) =~= r.tokens.subrange(
            0,
            n.tokens.len() as int,
        ).subrange(0, s.tokens.len() as int));
    }
}

/// The views of a sequence of tokens.
pub open spec fn token_views(v: Seq<Token>) -> Seq<TokenV> {
    Seq::new(v.len(), |i: int| v[i]@)
}

/// Reads a source text token by token. It cannot value a number by itself:
/// when it has read one it stops, and goes on once the value was supplied.
pub struct Scanner {
    src: String,
    chars: Vec<char>,
    tokens: Vec<Token>,
    start: usize,
    current: usize,
    line: usize,
    pending: bool,
    done: bool,
}

impl Scanner {
    /// The text that is scanned.
    pub closed spec fn source(&self) -> Seq<char> {
        self.src@
    }

    /// The scanner's state, beside a reporter that holds `diags`.
    pub closed spec fn state(&self, diags: Seq<Seq<char>>) -> ScanV {
        ScanV {
            tokens: token_views(self.tokens@),
            diags,
            start: self.start as int,
            pos: self.current as int,
            line: self.line as int,
            pending: self.pending,
            done: self.done,
        }
    }

    /// The scanner's invariant: its place lies in the source, and its line
    /// counts no more than the characters before it.
    pub closed spec fn wf(&self) -> bool {
        &&& self.chars@ == self.src@
        &&& self.chars.len() < usize::MAX
        &&& self.start <= self.current <= self.chars.len()
        &&& 1 <= self.line <= self.current + 1
    }

    /// The state in which every scanner starts.
    pub open spec fn initial(diags: Seq<Seq<char>>) -> ScanV {
        ScanV {
            tokens: Seq::empty(),
            diags,
            start: 0,
            pos: 0,
            line: 1,
            pending: false,
            done: false,
        }
    }

    /// A scanner at the beginning of `src`.
    pub fn new(src: String) -> (s: Scanner)
        requires
            src@.len() < usize::MAX,
        ensures
            s.wf(),
            s.source() == src@,
            forall|diags: Seq<Seq<char>>| #[trigger] s.state(diags) == Self::initial(diags),
    {
        let chars = crate::text::chars_of(src.as_str());
        let s = Scanner {
            line: 1,
            current: 0,
            start: 0,
            src,
            chars,
            tokens: Vec::new(),
            pending: false,
            done: false,
        };
        assert(token_views(s.tokens@) =~= Seq::empty());
        s
    }

    fn is_at_end(&self) -> (r: bool)
        ensures
            r == (self.current >= self.chars.len()),
    {
        self.current >= self.chars.len()
    }

    fn get_current_char(&self) -> (r: Option<char>)
        ensures
            r == if self.current < self.chars.len() {
                Some(self.chars@[self.current as int])
            } else {
                None
            },
    {
        if self.current < self.chars.len() {
            Some(self.chars[self.current])
        } else {
            None
        }
    }

    fn peek_next(&self) -> (r: Option<char>)
        requires
            self.current < usize::MAX,
        ensures
            r == if self.current + 1 < self.chars.len() {
                Some(self.chars@[self.current + 1])
            } else {
                None
            },
    {
        if self.current + 1 < self.chars.len() {
            Some(self.chars[self.current + 1])
        } else {
            None
        }
    }

    fn advance(&mut self) -> (r: Option<char>)
        ensures
            r == if old(self).current < old(self).chars.len() {
                Some(old(self).chars@[old(self).current as int])
            } else {
                None
            },
            *final(self) == (Scanner {
                current: if r is Some {
                    (old(self).current + 1) as usize
                } else {
                    old(self).current
                },
                ..*old(self)
            }),
    {
        let c = self.get_current_char();
        if c.is_some() {
            self.current += 1;
        }
        c
    }

    fn match_char(&mut self, c: char) -> (r: bool)
        ensures
            r == (old(self).current < old(self).chars.len() && old(self).chars@[old(
                self,
            ).current as int] == c),
            *final(self) == (Scanner {
                current: if r {
                    (old(self).current + 1) as usize
                } else {
                    old(self).current
                },
                ..*old(self)
            }),
    {
        if let Some(x) = self.get_current_char() {
            if x == c {
                self.advance();
                true
            } else {
                false
            }
        } else {
            false
        }
    }

    /// The text from `start` to `current`.
    fn lexeme(&self) -> (s: String)
        requires
            self.wf(),
        ensures
            s@ == self.src@.subrange(self.start as int, self.current as int),
    {
        self.src.as_str().substring_char(self.start, self.current).to_owned()
    }

    fn add_token(&mut self, t_type: TokenType)
        requires
            old(self).wf(),
        ensures
            final(self).wf(),
            final(self).tokens@.len() == old(self).tokens@.len() + 1,
            final(self).tokens@.last()@ == (TokenV {
                t_type: t_type@,
                line: old(self).line,
                lexeme: old(self).src@.subrange(old(self).start as int, old(self).current as int),
            }),
            *final(self) == (Scanner { tokens: final(self).tokens, ..*old(self) }),
            token_views(final(self).tokens@) == token_views(old(self).tokens@).push(
                final(self).tokens@.last()@,
            ),
    {
        let text = self.lexeme();
        self.tokens.push(Token::new(t_type, text, self.line));
        assert(token_views(self.tokens@) =~= token_views(old(self).tokens@).push(
            self.tokens@.last()@,
        ));
    }

    /// Moves `current` past the characters of an identifier.
    fn skip_identifier(&mut self)
        requires
            old(self).wf(),
        ensures
            final(self).current == ident_end(old(self).src@, old(self).current as int),
            *final(self) == (Scanner { current: final(self).current, ..*old(self) }),
            final(self).wf(),
            final(self).current >= old(self).current,
    {
        while self.current < self.chars.len() && is_alpha_numeric(self.chars[self.current])
            invariant
                self.wf(),
                self.current >= old(self).current,
                *self == (Scanner { current: self.current, ..*old(self) }),
                ident_end(self.src@, self.current as int) == ident_end(
                    old(self).src@,
                    old(self).current as int,
                ),
            decreases self.chars.len() - self.current,
        {
            self.current += 1;
        }
    }

    /// Moves `current` past a run of digits.
    fn skip_digits(&mut self)
        requires
            old(self).wf(),
        ensures
            final(self).current == digits_end(old(self).src@, old(self).current as int),
            *final(self) == (Scanner { current: final(self).current, ..*old(self) }),
            final(self).wf(),
            final(self).current >= old(self).current,
    {
        while self.current < self.chars.len() && is_digit(self.chars[self.current])
            invariant
                self.wf(),
                self.current >= old(self).current,
                *self == (Scanner { current: self.current, ..*old(self) }),
                digits_end(self.src@, self.current as int) == digits_end(
                    old(self).src@,
                    old(self).current as int,
                ),
            decreases self.chars.len() - self.current,
        {
            self.current += 1;
        }
    }

    /// Moves `current` to the end of the line.
    fn skip_line(&mut self)
        requires
            old(self).wf(),
        ensures
            final(self).current == line_end(old(self).src@, old(self).current as int),
            *final(self) == (Scanner { current: final(self).current, ..*old(self) }),
            final(self).wf(),
            final(self).current >= old(self).current,
    {
        while self.current < self.chars.len() && self.chars[self.current] != '\n'
            invariant
                self.wf(),
                self.current >= old(self).current,
                *self == (Scanner { current: self.current, ..*old(self) }),
                line_end(self.src@, self.current as int) == line_end(
                    old(self).src@,
                    old(self).current as int,
                ),
            decreases self.chars.len() - self.current,
        {
            self.current += 1;
        }
    }

    /// Reads the rest of a block comment, `depth` openings deep, and returns
    /// the depth that is left open.
    fn skip_comment(&mut self, depth: usize) -> (left: usize)
        requires
            old(self).wf(),
            depth <= old(self).current,
        ensures
            (final(self).current as int, left as int, final(self).line as int) == comment_scan(
                old(self).src@,
                old(self).current as int,
                depth as int,
                old(self).line as int,
            ),
            *final(self) == (Scanner {
                current: final(self).current,
                line: final(self).line,
                ..*old(self)
            }),
            final(self).wf(),
            final(self).current >= old(self).current,
    {
        let mut term = depth;
        while term != 0 && self.current + 1 < self.chars.len()
            invariant
                self.wf(),
                term <= self.current,
                self.current >= old(self).current,
                *self == (Scanner { current: self.current, line: self.line, ..*old(self) }),
                comment_scan(self.src@, self.current as int, term as int, self.line as int)
                    == comment_scan(
                    old(self).src@,
                    old(self).current as int,
                    depth as int,
                    old(self).line as int,
                ),
            decreases self.chars.len() - self.current,
        {
            let curr = self.chars[self.current];
            let next = self.chars[self.current + 1];
            if curr == '*' && next == '/' {
                term -= 1;
                self.current += 2;
            } else if curr == '/' && next == '*' {
                term += 1;
                self.current += 2;
            } else if curr == '\n' {
                self.line += 1;
                self.current += 1;
            } else {
                self.current += 1;
            }
        }
        term
    }

    /// Reads a string literal up to its closing quote, and says whether it found one.
    fn skip_string(&mut self) -> (closed: bool)
        requires
            old(self).wf(),
        ensures
            (final(self).current as int, final(self).line as int, closed) == string_scan(
                old(self).src@,
                old(self).current as int,
                old(self).line as int,
            ),
            *final(self) == (Scanner {
                current: final(self).current,
                line: final(self).line,
                ..*old(self)
            }),
            final(self).wf(),
            closed ==> final(self).current > old(self).current,
            final(self).current >= old(self).current,
    {
        while self.current < self.chars.len()
            invariant
                self.wf(),
                self.current >= old(self).current,
                *self == (Scanner { current: self.current, line: self.line, ..*old(self) }),
                string_scan(self.src@, self.current as int, self.line as int) == string_scan(
                    old(self).src@,
                    old(self).current as int,
                    old(self).line as int,
                ),
            decreases self.chars.len() - self.current,
        {
            let c = self.chars[self.current];
            self.current += 1;
            if c == '"' {
                return true;
            } else if c == '\n' {
                self.line += 1;
            }
        }
        false
    }

    /// Reads an identifier or a reserved word whose first character was taken.
    fn identifier(&mut self)
        requires
            old(self).wf(),
        ensures
            final(self).wf(),
            final(self).current >= old(self).current,
            final(self).current == ident_end(old(self).src@, old(self).current as int),
            *final(self) == (Scanner {
                current: final(self).current,
                tokens: final(self).tokens,
                ..*old(self)
            }),
            token_views(final(self).tokens@) == token_views(old(self).tokens@).push(
                TokenV {
                    t_type: match keyword(
                        old(self).src@.subrange(old(self).start as int, final(self).current as int),
                    ) {
                        Some(t) => t,
                        None => TokenTypeV::Plain(TokenType::Identifier),
                    },
                    line: old(self).line,
                    lexeme: old(self).src@.subrange(
                        old(self).start as int,
                        final(self).current as int,
                    ),
                },
            ),
    {
        self.skip_identifier();
        let name = self.lexeme();
        if let Some(tok) = keyword_type(&name) {
            self.add_token(tok);
        } else {
            self.add_token(TokenType::Identifier)
        }
    }

    /// Reads a number whose first digit was taken, and leaves it waiting for
    /// its value.
    fn number(&mut self)
        requires
            old(self).wf(),
        ensures
            final(self).wf(),
            final(self).current >= old(self).current,
            final(self).current == number_end(old(self).src@, old(self).current as int),
            *final(self) == (Scanner { current: final(self).current, pending: true, ..*old(self) }),
    {
        self.skip_digits();
        if let (Some(curr), Some(next)) = (self.get_current_char(), self.peek_next()) {
            if curr == '.' && is_digit(next) {
                self.advance();
                self.skip_digits();
            }
        }
        self.pending = true;
    }

    /// Reads a string literal whose opening quote was taken.
    fn string(&mut self, err_rep: &mut ErrorReporter)
        requires
            old(self).wf(),
            old(self).start + 1 == old(self).current,
        ensures
            final(self).wf(),
            final(self).current >= old(self).current,
            ({
                let (end, last, closed) = string_scan(
                    old(self).src@,
                    old(self).current as int,
                    old(self).line as int,
                );
                &&& final(self).current == end
                &&& final(self).line == last
                &&& *final(self) == (Scanner {
                    current: final(self).current,
                    line: final(self).line,
                    tokens: final(self).tokens,
                    ..*old(self)
                })
                &&& closed ==> final(err_rep)@ == old(err_rep)@ && token_views(final(self).tokens@)
                    == token_views(old(self).tokens@).push(
                    TokenV {
                        t_type: TokenTypeV::Literal(
                            LiteralV::String(
                                old(self).src@.subrange(old(self).start + 1, end - 1),
                            ),
                        ),
                        line: last as usize,
                        lexeme: old(self).src@.subrange(old(self).start as int, end),
                    },
                )
                &&& !closed ==> final(self).tokens == old(self).tokens && final(err_rep)@ == old(
                    err_rep,
                )@.push(diagnostic(last as nat, Seq::empty(), "Unterminated string."@))
            }),
    {
        let terminated = self.skip_string();
        if !terminated {
            err_rep.error(self.line, "Unterminated string.");
            return ;
        }
        let value = self.src.as_str().substring_char(self.start + 1, self.current - 1).to_owned();
        self.add_token(TokenType::Literal(Literal::String(value)));
    }

    /// Reads the next piece of the source: a token, which it adds, blank space
    /// or a comment, which it passes over, or a number, which it leaves
    /// waiting for its value.
    fn grab_token(&mut self, err_rep: &mut ErrorReporter)
        requires
            old(self).wf(),
            old(self).current < old(self).chars.len(),
            !old(self).pending,
            !old(self).done,
        ensures
            final(self).wf(),
            final(self).src == old(self).src,
            final(self).current > old(self).current,
            final(self).state(final(err_rep)@) == step(
                old(self).src@,
                old(self).state(old(err_rep)@),
            ),
    {
        self.start = self.current;
        let next = self.chars[self.current];
        self.current += 1;
        match next {
            '(' => self.add_token(TokenType::LeftParen),
            ')' => self.add_token(TokenType::RightParen),
            '{' => self.add_token(TokenType::LeftBrace),
            '}' => self.add_token(TokenType::RightBrace),
            ',' => self.add_token(TokenType::Comma),
            '.' => self.add_token(TokenType::Dot),
            '-' => self.add_token(TokenType::Minus),
            '+' => self.add_token(TokenType::Plus),
            ';' => self.add_token(TokenType::Semicolon),
            '*' => self.add_token(TokenType::Star),
            '?' => self.add_token(TokenType::QuestionMark),
            ':' => self.add_token(TokenType::Colon),
            '!' => {
                let tk = if self.match_char('=') {
                    TokenType::BangEqual
                } else {
                    TokenType::Bang
                };
                self.add_token(tk)
            },
            '=' => {
                let tk = if self.match_char('=') {
                    TokenType::EqualEqual
                } else {
                    TokenType::Equal
                };
                self.add_token(tk)
            },
            '<' => {
                let tk = if self.match_char('=') {
                    TokenType::LessEqual
                } else {
                    TokenType::Less
                };
                self.add_token(tk)
            },
            '>' => {
                let tk = if self.match_char('=') {
                    TokenType::GreaterEqual
                } else {
                    TokenType::Greater
                };
                self.add_token(tk);
            },
            '/' => {
                if self.match_char('/') {
                    self.skip_line();
                } else if self.match_char('*') {
                    let term = self.skip_comment(1);
                    if term != 0 {
                        err_rep.error(self.line, "Unclosed block comment.")
                    }
                } else {
                    self.add_token(TokenType::Slash);
                }
            },
            ' ' | '\r' | '\t' => (),
            '\n' => {
                self.line += 1;
            },
            '"' => self.string(err_rep),
            _ => {
                if is_digit(next) {
                    self.number()
                } else if is_alpha(next) {
                    self.identifier()
                } else {
                    err_rep.error(self.line, "Unexpected character.")
                }
            },
        }
    }

    /// Scans on until a number waits for its value, whose text is then
    /// returned, or until the source is used up and the last token made.
    pub fn scan_tokens(&mut self, err_rep: &mut ErrorReporter) -> (numeral: Option<String>)
        requires
            old(self).wf(),
        ensures
            final(self).wf(),
            final(self).source() == old(self).source(),
            final(self).state(final(err_rep)@) == scan(
                old(self).source(),
                old(self).state(old(err_rep)@),
            ),
            match numeral {
                Some(text) => {
                    let s = final(self).state(final(err_rep)@);
                    s.pending && text@ == old(self).source().subrange(s.start, s.pos)
                },
                None => {
                    let s = final(self).state(final(err_rep)@);
                    !s.pending && s.done
                },
            },
    {
        while !self.done && !self.pending
            invariant
                self.wf(),
                self.src == old(self).src,
                scan(self.src@, self.state(err_rep@)) == scan(
                    old(self).src@,
                    old(self).state(old(err_rep)@),
                ),
            decreases self.chars.len() - self.current + (if self.done { 0int } else { 1int }),
        {
            if self.is_at_end() {
                let ghost before = self.tokens@;
                self.tokens.push(Token::new(TokenType::Eof, String::new(), self.line));
                self.done = true;
                assert(token_views(self.tokens@) =~= token_views(before).push(
                    eof(self.line as int),
                ));
            } else {
                self.grab_token(err_rep);
            }
        }
        if self.pending {
            Some(self.lexeme())
        } else {
            None
        }
    }

    /// Supplies the value of the number that waits for it, and makes its
    /// token. Where no number waits, nothing is done.
    pub fn add_number(&mut self, value: Number)
        requires
            old(self).wf(),
        ensures
            final(self).wf(),
            final(self).source() == old(self).source(),
            forall|diags: Seq<Seq<char>>| #[trigger]
                final(self).state(diags) == (if old(self).state(diags).pending {
                    ScanV {
                        pending: false,
                        tokens: old(self).state(diags).tokens.push(
                            TokenV {
                                t_type: TokenTypeV::Literal(LiteralV::Number(value@)),
                                line: old(self).state(diags).line as usize,
                                lexeme: old(self).source().subrange(
                                    old(self).state(diags).start,
                                    old(self).state(diags).pos,
                                ),
                            },
                        ),
                        ..old(self).state(diags)
                    }
                } else {
                    old(self).state(diags)
                }),
    {
        if self.pending {
            self.add_token(TokenType::Literal(Literal::Number(value)));
            self.pending = false;
        }
    }

    /// Whether a number waits for its value.
    pub fn is_pending(&self) -> (r: bool)
        ensures
            forall|diags: Seq<Seq<char>>| (#[trigger] self.state(diags)).pending == r,
    {
        self.pending
    }

    /// The tokens made so far.
    pub fn into_tokens(self) -> (tokens: Vec<Token>)
        ensures
            forall|diags: Seq<Seq<char>>|
                token_views(tokens@) == (#[trigger] self.state(diags)).tokens,
    {
        self.tokens
    }
}

} // verus!
