//! The scanner: source text to tokens with line numbers.
use vstd::prelude::*;
use vstd::string::StrSliceExecFns;

verus! {

/// The line counter the scanner carries along.
#[derive(Debug, Clone, Default)]
pub struct LexerExtras {
    pub line: usize,
}

/// A token category.
#[derive(Debug, Clone, Copy, PartialEq, Eq, Hash, Structural)]
pub enum Token {
    Newline,
    LineComment,
    BlockComment,
    Bool,
    Break,
    Class,
    Double,
    Else,
    For,
    If,
    Int,
    Null,
    Public,
    Return,
    Static,
    StringKw,
    Void,
    While,
    True,
    False,
    LParen,
    RParen,
    LBracket,
    RBracket,
    LBrace,
    RBrace,
    Semicolon,
    Colon,
    Comma,
    Dot,
    LessEqual,
    GreaterEqual,
    EqualEqual,
    NotEqual,
    LogicalAnd,
    LogicalOr,
    PlusAssign,
    MinusAssign,
    Assign,
    Bang,
    Plus,
    Minus,
    Star,
    Slash,
    Percent,
    Less,
    Greater,
    DoubleLit,
    IntLit,
    StringLit,
    Identifier,
}

pub open spec fn hidden(t: Token) -> bool {
    t == Token::Newline || t == Token::LineComment || t == Token::BlockComment
}

impl Token {
    /// Whether this token only serves line counting and is not handed on.
    pub fn is_hidden(&self) -> (r: bool)
        ensures
            r == hidden(*self),
    {
        match self {
            Token::Newline | Token::LineComment | Token::BlockComment => true,
            _ => false,
        }
    }
}

/// A token with its source text and the line it was read on.
#[derive(Debug, Clone)]
pub struct SpannedToken {
    pub token: Token,
    pub text: String,
    pub line: usize,
}

/// A character no token starts with, with its line.
#[derive(Debug, Clone)]
pub struct LexError {
    pub line: usize,
    pub text: String,
}

/// A hexadecimal digit, lower case.
pub open spec fn hex_digit(d: nat) -> Seq<char> {
    if d < 10 {
        crate::text::digit_text(d)
    } else if d == 10 {
        "a"@
    } else if d == 11 {
        "b"@
    } else if d == 12 {
        "c"@
    } else if d == 13 {
        "d"@
    } else if d == 14 {
        "e"@
    } else {
        "f"@
    }
}

/// The hexadecimal text of `n`, lower case, without leading zeros.
pub open spec fn hex_text(n: nat) -> Seq<char>
    decreases n,
{
    if n < 16 {
        hex_digit(n)
    } else {
        hex_text(n / 16) + hex_digit(n % 16)
    }
}

/// Whether `c` is a control character (C0, DEL or C1).
pub open spec fn is_control(c: char) -> bool {
    (c as u32) < 0x20 || (0x7f <= (c as u32) && (c as u32) < 0xa0)
}

/// One character as a quoted debug string shows it: backslash escapes for
/// tab, carriage return, newline, backslash, double quote and NUL, `\u{..}`
/// for any other control character, the character itself otherwise.
pub open spec fn debug_char(c: char) -> Seq<char> {
    if c == '\t' {
        "\\t"@
    } else if c == '\r' {
        "\\r"@
    } else if c == '\n' {
        "\\n"@
    } else if c == '\\' {
        "\\\\"@
    } else if c == '"' {
        "\\\""@
    } else if c == '\0' {
        "\\0"@
    } else if is_control(c) {
        "\\u{"@ + hex_text(c as u32 as nat) + "}"@
    } else {
        seq![c]
    }
}

/// `s` with each character shown as `debug_char` shows it.
pub open spec fn debug_escaped(s: Seq<char>) -> Seq<char>
    decreases s.len(),
{
    if s.len() == 0 {
        Seq::empty()
    } else {
        debug_escaped(s.drop_last()) + debug_char(s.last())
    }
}

fn hex_digit_str(d: u32) -> (r: &'static str)
    requires
        d < 16,
    ensures
        r@ == hex_digit(d as nat),
{
    if d < 10 {
        crate::text::digit_str(d as u64)
    } else if d == 10 {
        "a"
    } else if d == 11 {
        "b"
    } else if d == 12 {
        "c"
    } else if d == 13 {
        "d"
    } else if d == 14 {
        "e"
    } else {
        "f"
    }
}

fn hex_string(n: u32) -> (r: String)
    ensures
        r@ == hex_text(n as nat),
    decreases n,
{
    if n < 16 {
        String::from_str(hex_digit_str(n))
    } else {
        let mut s = hex_string(n / 16);
        s.append(hex_digit_str(n % 16));
        s
    }
}

/// `s` shown as a debug string shows it, without the quotes.
fn debug_escape(s: &str) -> (r: String)
    ensures
        r@ == debug_escaped(s@),
{
    let n = s.unicode_len();
    let mut r = String::new();
    let mut i: usize = 0;
    while i < n
        invariant
            n == s@.len(),
            i <= n,
            r@ == debug_escaped(s@.subrange(0, i as int)),
        decreases n - i,
    {
        let c = s.get_char(i);
        let code = c as u32;
        if c == '\t' {
            r.append("\\t");
        } else if c == '\r' {
            r.append("\\r");
        } else if c == '\n' {
            r.append("\\n");
        } else if c == '\\' {
            r.append("\\\\");
        } else if c == '"' {
            r.append("\\\"");
        } else if c == '\0' {
            r.append("\\0");
        } else if code < 0x20 || (0x7f <= code && code < 0xa0) {
            r.append("\\u{");
            r.append(hex_string(code).as_str());
            r.append("}");
        } else {
            r.append(s.substring_char(i, i + 1));
        }
        proof {
            let t = s@.subrange(0, i + 1);
            assert(t.drop_last() =~= s@.subrange(0, i as int));
            assert(t.last() == c);
            assert(s@.subrange(i as int, i + 1) =~= seq![c]);
        }
        i = i + 1;
    }
    assert(s@.subrange(0, n as int) =~= s@);
    r
}

impl LexError {
    /// The diagnostic text: `line N: unrecognized character: "c"`, the
    /// text quoted and escaped as a debug string shows it.
    pub fn message(&self) -> (r: String)
        ensures
            r@ == "line "@ + crate::text::decimal(self.line as nat) + ": unrecognized character: \""@
                + debug_escaped(self.text@) + "\""@,
    {
        let mut r = String::from_str("line ");
        r.append(crate::text::decimal_string(self.line as u64).as_str());
        r.append(": unrecognized character: \"");
        r.append(debug_escape(self.text.as_str()).as_str());
        r.append("\"");
        r
    }
}

/// What stands at a position: blanks to skip, a token, or a character that
/// starts none.
pub enum Lexeme {
    Blank,
    Tok(Token),
    Bad,
}

pub open spec fn is_blank(c: char) -> bool {
    c == ' ' || c == '\t' || c == '\r' || c == '\x0c'
}

pub open spec fn is_digit(c: char) -> bool {
    '0' <= c <= '9'
}

pub open spec fn is_ident_start(c: char) -> bool {
    ('a' <= c <= 'z') || ('A' <= c <= 'Z') || c == '_'
}

pub open spec fn is_ident_char(c: char) -> bool {
    is_ident_start(c) || is_digit(c)
}

/// The number of digits from `i` on.
pub open spec fn digits_len(s: Seq<char>, i: int) -> int
    decreases s.len() - i,
{
    if 0 <= i < s.len() && is_digit(s[i]) {
        1 + digits_len(s, i + 1)
    } else {
        0
    }
}

/// The number of identifier characters from `i` on.
pub open spec fn ident_len(s: Seq<char>, i: int) -> int
    decreases s.len() - i,
{
    if 0 <= i < s.len() && is_ident_char(s[i]) {
        1 + ident_len(s, i + 1)
    } else {
        0
    }
}

/// The length of an exponent (`e`, an optional sign, digits) at `i`; 0 when
/// none is complete there.
pub open spec fn exponent_len(s: Seq<char>, i: int) -> int {
    if 0 <= i < s.len() && (s[i] == 'e' || s[i] == 'E') {
        if digits_len(s, i + 1) > 0 {
            1 + digits_len(s, i + 1)
        } else if i + 1 < s.len() && (s[i + 1] == '+' || s[i + 1] == '-') && digits_len(s, i + 2)
            > 0 {
            2 + digits_len(s, i + 2)
        } else {
            0
        }
    } else {
        0
    }
}

/// The first index from `j` on that holds `c`.
pub open spec fn find_char(s: Seq<char>, j: int, c: char) -> Option<int>
    decreases s.len() - j,
{
    if j < 0 || j >= s.len() {
        None
    } else if s[j] == c {
        Some(j)
    } else {
        find_char(s, j + 1, c)
    }
}

/// The first index from `j` on where `*/` starts.
pub open spec fn find_close(s: Seq<char>, j: int) -> Option<int>
    decreases s.len() - j,
{
    if j < 0 || j + 1 >= s.len() {
        None
    } else if s[j] == '*' && s[j + 1] == '/' {
        Some(j)
    } else {
        find_close(s, j + 1)
    }
}

/// The keyword spelled by `w`, if any.
pub open spec fn keyword(w: Seq<char>) -> Option<Token> {
    if w == "bool"@ {
        Some(Token::Bool)
    } else if w == "break"@ {
        Some(Token::Break)
    } else if w == "class"@ {
        Some(Token::Class)
    } else if w == "double"@ {
        Some(Token::Double)
    } else if w == "else"@ {
        Some(Token::Else)
    } else if w == "for"@ {
        Some(Token::For)
    } else if w == "if"@ {
        Some(Token::If)
    } else if w == "int"@ {
        Some(Token::Int)
    } else if w == "null"@ {
        Some(Token::Null)
    } else if w == "public"@ {
        Some(Token::Public)
    } else if w == "return"@ {
        Some(Token::Return)
    } else if w == "static"@ {
        Some(Token::Static)
    } else if w == "string"@ {
        Some(Token::StringKw)
    } else if w == "void"@ {
        Some(Token::Void)
    } else if w == "while"@ {
        Some(Token::While)
    } else if w == "true"@ {
        Some(Token::True)
    } else if w == "false"@ {
        Some(Token::False)
    } else {
        None
    }
}

/// An operator of one or two characters at `i` (`c` is `s[i]`): the
/// two-character form when `s[i + 1]` is `second`.
pub open spec fn pair_or(s: Seq<char>, i: int, second: char, two: Token, one: Lexeme) -> (Lexeme, int) {
    if i + 1 < s.len() && s[i + 1] == second {
        (Lexeme::Tok(two), 2)
    } else {
        (one, 1)
    }
}

/// The lexeme at position `i` of `s` (`0 <= i < s.len()`) and its length,
/// the longest that any token allows. A keyword wins over an identifier of
/// the same text; a `.` starts a number only when a digit follows it; an
/// unterminated string or block comment is no token (a lone `"` is bad
/// input, a lone `/` a slash).
pub open spec fn lexeme_at(s: Seq<char>, i: int) -> (Lexeme, int) {
    let c = s[i];
    if is_blank(c) {
        (Lexeme::Blank, 1)
    } else if c == '\n' {
        (Lexeme::Tok(Token::Newline), 1)
    } else if is_ident_start(c) {
        let n = ident_len(s, i);
        match keyword(s.subrange(i, i + n)) {
            Some(k) => (Lexeme::Tok(k), n),
            None => (Lexeme::Tok(Token::Identifier), n),
        }
    } else if is_digit(c) {
        let d = digits_len(s, i);
        if i + d < s.len() && s[i + d] == '.' {
            let f = digits_len(s, i + d + 1);
            (Lexeme::Tok(Token::DoubleLit), d + 1 + f + exponent_len(s, i + d + 1 + f))
        } else if exponent_len(s, i + d) > 0 {
            (Lexeme::Tok(Token::DoubleLit), d + exponent_len(s, i + d))
        } else {
            (Lexeme::Tok(Token::IntLit), d)
        }
    } else if c == '.' {
        let f = digits_len(s, i + 1);
        if f > 0 {
            (Lexeme::Tok(Token::DoubleLit), 1 + f + exponent_len(s, i + 1 + f))
        } else {
            (Lexeme::Tok(Token::Dot), 1)
        }
    } else if c == '"' {
        match find_char(s, i + 1, '"') {
            Some(j) => (Lexeme::Tok(Token::StringLit), j + 1 - i),
            None => (Lexeme::Bad, 1),
        }
    } else if c == '/' {
        if i + 1 < s.len() && s[i + 1] == '/' {
            match find_char(s, i + 2, '\n') {
                Some(j) => (Lexeme::Tok(Token::LineComment), j + 1 - i),
                None => (Lexeme::Tok(Token::LineComment), s.len() - i),
            }
        } else if i + 1 < s.len() && s[i + 1] == '*' {
            match find_close(s, i + 2) {
                Some(j) => (Lexeme::Tok(Token::BlockComment), j + 2 - i),
                None => (Lexeme::Tok(Token::Slash), 1),
            }
        } else {
            (Lexeme::Tok(Token::Slash), 1)
        }
    } else if c == '<' {
        pair_or(s, i, '=', Token::LessEqual, Lexeme::Tok(Token::Less))
    } else if c == '>' {
        pair_or(s, i, '=', Token::GreaterEqual, Lexeme::Tok(Token::Greater))
    } else if c == '=' {
        pair_or(s, i, '=', Token::EqualEqual, Lexeme::Tok(Token::Assign))
    } else if c == '!' {
        pair_or(s, i, '=', Token::NotEqual, Lexeme::Tok(Token::Bang))
    } else if c == '+' {
        pair_or(s, i, '=', Token::PlusAssign, Lexeme::Tok(Token::Plus))
    } else if c == '-' {
        pair_or(s, i, '=', Token::MinusAssign, Lexeme::Tok(Token::Minus))
    } else if c == '&' {
        pair_or(s, i, '&', Token::LogicalAnd, Lexeme::Bad)
    } else if c == '|' {
        pair_or(s, i, '|', Token::LogicalOr, Lexeme::Bad)
    } else {
        (
            match c {
                '*' => Lexeme::Tok(Token::Star),
                '%' => Lexeme::Tok(Token::Percent),
                '(' => Lexeme::Tok(Token::LParen),
                ')' => Lexeme::Tok(Token::RParen),
                '[' => Lexeme::Tok(Token::LBracket),
                ']' => Lexeme::Tok(Token::RBracket),
                '{' => Lexeme::Tok(Token::LBrace),
                '}' => Lexeme::Tok(Token::RBrace),
                ';' => Lexeme::Tok(Token::Semicolon),
                ':' => Lexeme::Tok(Token::Colon),
                ',' => Lexeme::Tok(Token::Comma),
                _ => Lexeme::Bad,
            },
            1,
        )
    }
}


/// The number of newlines in `w`.
pub open spec fn newline_count(w: Seq<char>) -> int
    decreases w.len(),
{
    if w.len() == 0 {
        0
    } else {
        newline_count(w.drop_last()) + if w.last() == '\n' {
            1int
        } else {
            0
        }
    }
}

/// How many lines a token moves the counter on: one for a newline and for a
/// line comment (ended by its newline or by the end of the text), the
/// newlines inside a block comment, none for any other token.
pub open spec fn lines_in(t: Token, w: Seq<char>) -> int {
    if t == Token::Newline || t == Token::LineComment {
        1
    } else if t == Token::BlockComment {
        newline_count(w)
    } else {
        0
    }
}

/// The tokens (category, text, line) and the errors (line, text) of `s`
/// from position `i` on, with the counter at `line`. A token's line is the
/// counter once the token itself is counted; hidden tokens are counted and
/// dropped. (A lexeme is never empty nor longer than what remains; the first
/// test only keeps the definition total.)
pub open spec fn lex_from(s: Seq<char>, i: int, line: int) -> (
    Seq<(Token, Seq<char>, int)>,
    Seq<(int, Seq<char>)>,
)
    decreases s.len() - i,
{
    if i < 0 || i >= s.len() || lexeme_at(s, i).1 <= 0 || i + lexeme_at(s, i).1 > s.len() {
        (Seq::empty(), Seq::empty())
    } else {
        let (lx, n) = lexeme_at(s, i);
        let w = s.subrange(i, i + n);
        match lx {
            Lexeme::Blank => lex_from(s, i + n, line),
            Lexeme::Bad => {
                let r = lex_from(s, i + n, line);
                (r.0, seq![(line, w)] + r.1)
            },
            Lexeme::Tok(t) => {
                let l2 = line + lines_in(t, w);
                let r = lex_from(s, i + n, l2);
                (
                    if hidden(t) {
                        r.0
                    } else {
                        seq![(t, w, l2)] + r.0
                    },
                    r.1,
                )
            },
        }
    }
}

/// The views of scanned tokens.
pub open spec fn token_views(v: Seq<SpannedToken>) -> Seq<(Token, Seq<char>, int)> {
    v.map_values(|t: SpannedToken| (t.token, t.text@, t.line as int))
}

/// The views of scanning errors.
pub open spec fn error_views(v: Seq<LexError>) -> Seq<(int, Seq<char>)> {
    v.map_values(|e: LexError| (e.line as int, e.text@))
}

proof fn lemma_run_lengths_nonneg(s: Seq<char>, i: int)
    ensures
        digits_len(s, i) >= 0,
        ident_len(s, i) >= 0,
    decreases s.len() - i,
{
    if 0 <= i < s.len() {
        lemma_run_lengths_nonneg(s, i + 1);
    }
}

fn digits_len_at(s: &Vec<char>, i: usize) -> (r: usize)
    ensures
        r == digits_len(s@, i as int),
        i + r <= s@.len() || r == 0,
{
    let mut j = i;
    while j < s.len() && '0' <= s[j] && s[j] <= '9'
        invariant
            i <= j,
            j <= s@.len() || j == i,
            digits_len(s@, i as int) == (j - i) + digits_len(s@, j as int),
        decreases s@.len() - j,
    {
        j = j + 1;
    }
    j - i
}

fn ident_len_at(s: &Vec<char>, i: usize) -> (r: usize)
    ensures
        r == ident_len(s@, i as int),
        i + r <= s@.len() || r == 0,
{
    let mut j = i;
    while j < s.len() && (('a' <= s[j] && s[j] <= 'z') || ('A' <= s[j] && s[j] <= 'Z') || s[j]
        == '_' || ('0' <= s[j] && s[j] <= '9'))
        invariant
            i <= j,
            j <= s@.len() || j == i,
            ident_len(s@, i as int) == (j - i) + ident_len(s@, j as int),
        decreases s@.len() - j,
    {
        j = j + 1;
    }
    j - i
}

fn exponent_len_at(s: &Vec<char>, i: usize) -> (r: usize)
    requires
        i <= s@.len(),
    ensures
        r == exponent_len(s@, i as int),
        i + r <= s@.len(),
{
    if i < s.len() && (s[i] == 'e' || s[i] == 'E') {
        let d = digits_len_at(s, i + 1);
        if d > 0 {
            return 1 + d;
        }
        if i + 1 < s.len() && (s[i + 1] == '+' || s[i + 1] == '-') {
            let d2 = digits_len_at(s, i + 2);
            if d2 > 0 {
                return 2 + d2;
            }
        }
    }
    0
}

fn find_char_from(s: &Vec<char>, j: usize, c: char) -> (r: Option<usize>)
    ensures
        r matches Some(k) ==> find_char(s@, j as int, c) == Some(k as int) && j <= k < s@.len(),
        r is None ==> find_char(s@, j as int, c) is None,
{
    let mut k = j;
    while k < s.len()
        invariant
            j <= k,
            find_char(s@, j as int, c) == find_char(s@, k as int, c),
            forall|m: int| j <= m < k ==> s@[m] != c,
        decreases s@.len() - k,
    {
        if s[k] == c {
            return Some(k);
        }
        k = k + 1;
    }
    None
}

fn find_close_from(s: &Vec<char>, j: usize) -> (r: Option<usize>)
    ensures
        r matches Some(k) ==> find_close(s@, j as int) == Some(k as int) && j <= k && k + 1 < s@.len(),
        r is None ==> find_close(s@, j as int) is None,
{
    let len = s.len();
    let mut k = j;
    while k < len && k + 1 < len
        invariant
            j <= k,
            len == s@.len(),
            find_close(s@, j as int) == find_close(s@, k as int),
        decreases s@.len() - k,
    {
        if s[k] == '*' && s[k + 1] == '/' {
            return Some(k);
        }
        k = k + 1;
    }
    None
}

/// Whether `s[i..i + n]` spells `w`.
fn spells(s: &Vec<char>, i: usize, n: usize, w: &str) -> (r: bool)
    requires
        i + n <= s@.len(),
    ensures
        r == (s@.subrange(i as int, i + n) == w@),
{
    let len = s.len();
    let m = w.unicode_len();
    if m != n {
        return false;
    }
    let mut k: usize = 0;
    while k < n
        invariant
            m == n == w@.len(),
            i + n <= s@.len(),
            len == s@.len(),
            k <= n,
            forall|q: int| 0 <= q < k ==> s@[i + q] == w@[q],
        decreases n - k,
    {
        if s[i + k] != w.get_char(k) {
            assert(s@.subrange(i as int, i + n)[k as int] != w@[k as int]);
            return false;
        }
        k = k + 1;
    }
    assert(s@.subrange(i as int, i + n) =~= w@);
    true
}

fn keyword_at(s: &Vec<char>, i: usize, n: usize) -> (r: Option<Token>)
    requires
        i + n <= s@.len(),
    ensures
        r == keyword(s@.subrange(i as int, i + n)),
{
    if spells(s, i, n, "bool") {
        Some(Token::Bool)
    } else if spells(s, i, n, "break") {
        Some(Token::Break)
    } else if spells(s, i, n, "class") {
        Some(Token::Class)
    } else if spells(s, i, n, "double") {
        Some(Token::Double)
    } else if spells(s, i, n, "else") {
        Some(Token::Else)
    } else if spells(s, i, n, "for") {
        Some(Token::For)
    } else if spells(s, i, n, "if") {
        Some(Token::If)
    } else if spells(s, i, n, "int") {
        Some(Token::Int)
    } else if spells(s, i, n, "null") {
        Some(Token::Null)
    } else if spells(s, i, n, "public") {
        Some(Token::Public)
    } else if spells(s, i, n, "return") {
        Some(Token::Return)
    } else if spells(s, i, n, "static") {
        Some(Token::Static)
    } else if spells(s, i, n, "string") {
        Some(Token::StringKw)
    } else if spells(s, i, n, "void") {
        Some(Token::Void)
    } else if spells(s, i, n, "while") {
        Some(Token::While)
    } else if spells(s, i, n, "true") {
        Some(Token::True)
    } else if spells(s, i, n, "false") {
        Some(Token::False)
    } else {
        None
    }
}

fn pair_or_at(s: &Vec<char>, i: usize, second: char, two: Token, one: Lexeme) -> (r: (Lexeme, usize))
    requires
        i < s@.len(),
    ensures
        (r.0, r.1 as int) == pair_or(s@, i as int, second, two, one),
{
    let _len = s.len();
    if i + 1 < s.len() && s[i + 1] == second {
        (Lexeme::Tok(two), 2)
    } else {
        (one, 1)
    }
}

/// The lexeme at `i` and its length.
fn lexeme_at_pos(s: &Vec<char>, i: usize) -> (r: (Lexeme, usize))
    requires
        i < s@.len(),
    ensures
        (r.0, r.1 as int) == lexeme_at(s@, i as int),
        1 <= r.1 <= s@.len() - i,
        r.0 == Lexeme::Tok(Token::LineComment) ==> r.1 >= 2,
{
    let _len = s.len();
    let c = s[i];
    proof {
        lemma_run_lengths_nonneg(s@, i as int);
        lemma_run_lengths_nonneg(s@, i + 1);
    }
    if c == ' ' || c == '\t' || c == '\r' || c == '\x0c' {
        (Lexeme::Blank, 1)
    } else if c == '\n' {
        (Lexeme::Tok(Token::Newline), 1)
    } else if ('a' <= c && c <= 'z') || ('A' <= c && c <= 'Z') || c == '_' {
        let n = ident_len_at(s, i);
        match keyword_at(s, i, n) {
            Some(k) => (Lexeme::Tok(k), n),
            None => (Lexeme::Tok(Token::Identifier), n),
        }
    } else if '0' <= c && c <= '9' {
        let d = digits_len_at(s, i);
        if i + d < s.len() && s[i + d] == '.' {
            let f = digits_len_at(s, i + d + 1);
            let e = exponent_len_at(s, i + d + 1 + f);
            (Lexeme::Tok(Token::DoubleLit), d + 1 + f + e)
        } else {
            let e = exponent_len_at(s, i + d);
            if e > 0 {
                (Lexeme::Tok(Token::DoubleLit), d + e)
            } else {
                (Lexeme::Tok(Token::IntLit), d)
            }
        }
    } else if c == '.' {
        let f = digits_len_at(s, i + 1);
        if f > 0 {
            let e = exponent_len_at(s, i + 1 + f);
            (Lexeme::Tok(Token::DoubleLit), 1 + f + e)
        } else {
            (Lexeme::Tok(Token::Dot), 1)
        }
    } else if c == '"' {
        match find_char_from(s, i + 1, '"') {
            Some(j) => (Lexeme::Tok(Token::StringLit), j + 1 - i),
            None => (Lexeme::Bad, 1),
        }
    } else if c == '/' {
        if i + 1 < s.len() && s[i + 1] == '/' {
            match find_char_from(s, i + 2, '\n') {
                Some(j) => (Lexeme::Tok(Token::LineComment), j + 1 - i),
                None => (Lexeme::Tok(Token::LineComment), s.len() - i),
            }
        } else if i + 1 < s.len() && s[i + 1] == '*' {
            match find_close_from(s, i + 2) {
                Some(j) => (Lexeme::Tok(Token::BlockComment), j + 2 - i),
                None => (Lexeme::Tok(Token::Slash), 1),
            }
        } else {
            (Lexeme::Tok(Token::Slash), 1)
        }
    } else if c == '<' {
        pair_or_at(s, i, '=', Token::LessEqual, Lexeme::Tok(Token::Less))
    } else if c == '>' {
        pair_or_at(s, i, '=', Token::GreaterEqual, Lexeme::Tok(Token::Greater))
    } else if c == '=' {
        pair_or_at(s, i, '=', Token::EqualEqual, Lexeme::Tok(Token::Assign))
    } else if c == '!' {
        pair_or_at(s, i, '=', Token::NotEqual, Lexeme::Tok(Token::Bang))
    } else if c == '+' {
        pair_or_at(s, i, '=', Token::PlusAssign, Lexeme::Tok(Token::Plus))
    } else if c == '-' {
        pair_or_at(s, i, '=', Token::MinusAssign, Lexeme::Tok(Token::Minus))
    } else if c == '&' {
        pair_or_at(s, i, '&', Token::LogicalAnd, Lexeme::Bad)
    } else if c == '|' {
        pair_or_at(s, i, '|', Token::LogicalOr, Lexeme::Bad)
    } else {
        let lx = match c {
            '*' => Lexeme::Tok(Token::Star),
            '%' => Lexeme::Tok(Token::Percent),
            '(' => Lexeme::Tok(Token::LParen),
            ')' => Lexeme::Tok(Token::RParen),
            '[' => Lexeme::Tok(Token::LBracket),
            ']' => Lexeme::Tok(Token::RBracket),
            '{' => Lexeme::Tok(Token::LBrace),
            '}' => Lexeme::Tok(Token::RBrace),
            ';' => Lexeme::Tok(Token::Semicolon),
            ':' => Lexeme::Tok(Token::Colon),
            ',' => Lexeme::Tok(Token::Comma),
            _ => Lexeme::Bad,
        };
        (lx, 1)
    }
}


/// The characters of `source`.
fn chars_of(source: &str) -> (r: Vec<char>)
    ensures
        r@ == source@,
{
    let n = source.unicode_len();
    let mut r: Vec<char> = Vec::new();
    let mut i: usize = 0;
    while i < n
        invariant
            n == source@.len(),
            i <= n,
            r@ == source@.subrange(0, i as int),
        decreases n - i,
    {
        r.push(source.get_char(i));
        assert(r@ =~= source@.subrange(0, i + 1));
        i = i + 1;
    }
    assert(source@.subrange(0, n as int) =~= source@);
    r
}

/// The number of newlines in `s[i..i + n]`.
fn newlines_in(s: &Vec<char>, i: usize, n: usize) -> (r: usize)
    requires
        i + n <= s@.len(),
    ensures
        r == newline_count(s@.subrange(i as int, i + n)),
        r <= n,
{
    let len = s.len();
    let mut r: usize = 0;
    let mut k: usize = 0;
    while k < n
        invariant
            i + n <= s@.len(),
            len == s@.len(),
            k <= n,
            r <= k,
            r == newline_count(s@.subrange(i as int, i + k)),
        decreases n - k,
    {
        assert(s@.subrange(i as int, i + k + 1).drop_last() =~= s@.subrange(i as int, i + k));
        if s[i + k] == '\n' {
            r = r + 1;
        }
        k = k + 1;
    }
    r
}

/// Scans `source`. Blanks are skipped; newlines and comments move the line
/// counter and are dropped; each other token is kept with its text and the
/// counter's value after it. Succeeds with the tokens when no character is
/// bad input, else fails with every bad character and its line.
pub fn lex(source: &str) -> (r: Result<Vec<SpannedToken>, Vec<LexError>>)
    requires
        source@.len() < usize::MAX,
    ensures
        match r {
            Ok(tokens) => lex_from(source@, 0, 1).1.len() == 0 && token_views(tokens@) == lex_from(
                source@,
                0,
                1,
            ).0,
            Err(errors) => lex_from(source@, 0, 1).1.len() > 0 && error_views(errors@) == lex_from(
                source@,
                0,
                1,
            ).1,
        },
{
    let s = chars_of(source);
    let n = s.len();
    let mut extras = LexerExtras { line: 1 };
    let mut tokens: Vec<SpannedToken> = Vec::new();
    let mut errors: Vec<LexError> = Vec::new();
    let mut i: usize = 0;
    while i < n
        invariant
            n == s@.len(),
            s@ == source@,
            n < usize::MAX,
            i <= n,
            1 <= extras.line <= i + 1,
            lex_from(s@, 0, 1) == (
                token_views(tokens@) + lex_from(s@, i as int, extras.line as int).0,
                error_views(errors@) + lex_from(s@, i as int, extras.line as int).1,
            ),
        decreases n - i,
    {
        let (lx, len) = lexeme_at_pos(&s, i);
        let ghost line0 = extras.line as int;
        let ghost tv = token_views(tokens@);
        let ghost ev = error_views(errors@);
        let ghost w = s@.subrange(i as int, i + len);
        let text = source.substring_char(i, i + len).to_owned();
        match lx {
            Lexeme::Blank => {},
            Lexeme::Bad => {
                errors.push(LexError { line: extras.line, text });
                proof {
                    let rest = lex_from(s@, i + len, line0);
                    assert(error_views(errors@) =~= ev.push((line0, w)));
                    assert(ev + (seq![(line0, w)] + rest.1) =~= ev.push((line0, w)) + rest.1);
                }
            },
            Lexeme::Tok(t) => {
                let added: usize = match t {
                    Token::Newline | Token::LineComment => 1,
                    Token::BlockComment => newlines_in(&s, i, len),
                    _ => 0,
                };
                assert(added == lines_in(t, w));
                extras.line = extras.line + added;
                if !t.is_hidden() {
                    tokens.push(SpannedToken { token: t, text, line: extras.line });
                    proof {
                        let rest = lex_from(s@, i + len, extras.line as int);
                        assert(token_views(tokens@) =~= tv.push((t, w, extras.line as int)));
                        assert(tv + (seq![(t, w, extras.line as int)] + rest.0) =~= tv.push(
                            (t, w, extras.line as int),
                        ) + rest.0);
                    }
                }
            },
        }
        i = i + len;
    }
    if errors.len() == 0 {
        Ok(tokens)
    } else {
        Err(errors)
    }
}

} // verus!
