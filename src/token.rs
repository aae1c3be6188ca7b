use vstd::prelude::*;

verus! {

/// ASCII whitespace: space, tab, line feed, form feed and carriage return.
pub open spec fn is_space(c: char) -> bool {
    c == ' ' || c == '\t' || c == '\n' || c == '\x0C' || c == '\r'
}

pub open spec fn is_digit(c: char) -> bool {
    '0' <= c && c <= '9'
}

pub open spec fn is_letter(c: char) -> bool {
    ('a' <= c && c <= 'z') || ('A' <= c && c <= 'Z')
}

/// A character that may start or continue a word.
pub open spec fn is_word_char(c: char) -> bool {
    is_letter(c) || c == '_'
}

/// A one-character operator or parenthesis.
pub open spec fn is_punct(c: char) -> bool {
    c == '(' || c == ')' || c == '+' || c == '-' || c == '*' || c == '/' || c == '='
}

/// Text that reads as a number: a digit, then digits and at most one decimal point.
pub open spec fn is_number_text(t: Seq<char>) -> bool {
    &&& t.len() > 0
    &&& is_digit(t[0])
    &&& forall|k: int| 0 <= k < t.len() ==> is_digit(#[trigger] t[k]) || t[k] == '.'
    &&& forall|a: int, b: int|
        0 <= a < b < t.len() && #[trigger] t[a] == '.' ==> #[trigger] t[b] != '.'
}

pub fn is_space_char(c: char) -> (r: bool)
    ensures
        r == is_space(c),
{
    c == ' ' || c == '\t' || c == '\n' || c == '\x0C' || c == '\r'
}

pub fn is_digit_char(c: char) -> (r: bool)
    ensures
        r == is_digit(c),
{
    '0' <= c && c <= '9'
}

pub fn is_punct_char(c: char) -> (r: bool)
    ensures
        r == is_punct(c),
{
    c == '(' || c == ')' || c == '+' || c == '-' || c == '*' || c == '/' || c == '='
}

pub fn is_word_start(c: char) -> (r: bool)
    ensures
        r == is_word_char(c),
{
    ('a' <= c && c <= 'z') || ('A' <= c && c <= 'Z') || c == '_'
}

/// A numeric literal, held as the exact text it was scanned from.
#[derive(Debug, PartialEq)]
pub struct Number {
    text: String,
}

impl View for Number {
    type V = Seq<char>;

    closed spec fn view(&self) -> Seq<char> {
        self.text@
    }
}

impl Number {
    #[verifier::type_invariant]
    closed spec fn well_formed(self) -> bool {
        is_number_text(self.text@)
    }

    /// Reads `t` as a number; `None` where it is not a digit followed by digits
    /// and at most one decimal point.
    pub fn parse(t: &str) -> (r: Option<Number>)
        ensures
            r is Some <==> is_number_text(t@),
            r matches Some(n) ==> n@ == t@,
    {
        let cs = crate::chars_of(t);
        if cs.len() == 0 || !is_digit_char(cs[0]) {
            return None;
        }
        let mut seen_point = false;
        let mut i: usize = 0;
        while i < cs.len()
            invariant
                cs@ == t@,
                0 <= i <= cs@.len(),
                forall|k: int| 0 <= k < i ==> is_digit(#[trigger] cs@[k]) || cs@[k] == '.',
                forall|a: int, b: int|
                    0 <= a < b < i && #[trigger] cs@[a] == '.' ==> #[trigger] cs@[b] != '.',
                seen_point <==> exists|k: int| 0 <= k < i && cs@[k] == '.',
            decreases cs.len() - i,
        {
            let c = cs[i];
            if c == '.' {
                if seen_point {
                    let ghost k = choose|k: int| 0 <= k < i && cs@[k] == '.';
                    assert(!is_number_text(t@)) by {
                        assert(cs@[k] == '.' && cs@[i as int] == '.');
                    }
                    return None;
                }
                seen_point = true;
            } else if !is_digit_char(c) {
                assert(!is_number_text(t@)) by {
                    assert(!(is_digit(cs@[i as int]) || cs@[i as int] == '.'));
                }
                return None;
            }
            i = i + 1;
        }
        let text = String::from_str(t);
        assert(is_number_text(text@));
        Some(Number { text })
    }

    /// The text of the literal, as it stood in the source.
    pub fn text(&self) -> (r: &str)
        ensures
            r@ == self@,
    {
        self.text.as_str()
    }
}

/// One lexical unit of the language.
#[derive(Debug, PartialEq)]
pub enum Type {
    Identifier(String),
    Integer(Number),
    Boolean(bool),
    String(String),
    LParen,
    RParen,
    Plus,
    Dash,
    Star,
    Slash,
    Equals,
    Struct,
    Extend,
    Func,
    If,
    Else,
    While,
    For,
    Import,
    Return,
    Error,
    Eof,
}

/// A token as a mathematical value: text payloads become character sequences.
pub enum Lexeme {
    Identifier(Seq<char>),
    Integer(Seq<char>),
    Boolean(bool),
    Str(Seq<char>),
    LParen,
    RParen,
    Plus,
    Dash,
    Star,
    Slash,
    Equals,
    Struct,
    Extend,
    Func,
    If,
    Else,
    While,
    For,
    Import,
    Return,
    Error,
    Eof,
}

impl View for Type {
    type V = Lexeme;

    open spec fn view(&self) -> Lexeme {
        match self {
            Type::Identifier(s) => Lexeme::Identifier(s@),
            Type::Integer(n) => Lexeme::Integer(n@),
            Type::Boolean(b) => Lexeme::Boolean(*b),
            Type::String(s) => Lexeme::Str(s@),
            Type::LParen => Lexeme::LParen,
            Type::RParen => Lexeme::RParen,
            Type::Plus => Lexeme::Plus,
            Type::Dash => Lexeme::Dash,
            Type::Star => Lexeme::Star,
            Type::Slash => Lexeme::Slash,
            Type::Equals => Lexeme::Equals,
            Type::Struct => Lexeme::Struct,
            Type::Extend => Lexeme::Extend,
            Type::Func => Lexeme::Func,
            Type::If => Lexeme::If,
            Type::Else => Lexeme::Else,
            Type::While => Lexeme::While,
            Type::For => Lexeme::For,
            Type::Import => Lexeme::Import,
            Type::Return => Lexeme::Return,
            Type::Error => Lexeme::Error,
            Type::Eof => Lexeme::Eof,
        }
    }
}

/// The reserved words and boolean literals, each with the token it stands for.
pub open spec fn reserved(w: Seq<char>) -> Option<Lexeme> {
    if w == "struct"@ {
        Some(Lexeme::Struct)
    } else if w == "extend"@ {
        Some(Lexeme::Extend)
    } else if w == "func"@ {
        Some(Lexeme::Func)
    } else if w == "if"@ {
        Some(Lexeme::If)
    } else if w == "else"@ {
        Some(Lexeme::Else)
    } else if w == "while"@ {
        Some(Lexeme::While)
    } else if w == "for"@ {
        Some(Lexeme::For)
    } else if w == "import"@ {
        Some(Lexeme::Import)
    } else if w == "return"@ {
        Some(Lexeme::Return)
    } else if w == "true"@ {
        Some(Lexeme::Boolean(true))
    } else if w == "false"@ {
        Some(Lexeme::Boolean(false))
    } else {
        None
    }
}

/// The token a completed word stands for: its reserved meaning, else an identifier.
pub open spec fn word_lexeme(w: Seq<char>) -> Lexeme {
    match reserved(w) {
        Some(t) => t,
        None => Lexeme::Identifier(w),
    }
}

/// The token of a one-character operator or parenthesis.
pub open spec fn punct_lexeme(c: char) -> Lexeme {
    if c == '(' {
        Lexeme::LParen
    } else if c == ')' {
        Lexeme::RParen
    } else if c == '+' {
        Lexeme::Plus
    } else if c == '-' {
        Lexeme::Dash
    } else if c == '*' {
        Lexeme::Star
    } else if c == '/' {
        Lexeme::Slash
    } else {
        Lexeme::Equals
    }
}

/// Resolves a completed word against the reserved words; the rest are identifiers.
pub fn word_token(w: String) -> (r: Type)
    ensures
        r@ == word_lexeme(w@),
{
    if w == String::from_str("struct") {
        Type::Struct
    } else if w == String::from_str("extend") {
        Type::Extend
    } else if w == String::from_str("func") {
        Type::Func
    } else if w == String::from_str("if") {
        Type::If
    } else if w == String::from_str("else") {
        Type::Else
    } else if w == String::from_str("while") {
        Type::While
    } else if w == String::from_str("for") {
        Type::For
    } else if w == String::from_str("import") {
        Type::Import
    } else if w == String::from_str("return") {
        Type::Return
    } else if w == String::from_str("true") {
        Type::Boolean(true)
    } else if w == String::from_str("false") {
        Type::Boolean(false)
    } else {
        Type::Identifier(w)
    }
}

/// The token of a one-character operator or parenthesis.
pub fn punct_token(c: char) -> (r: Type)
    requires
        is_punct(c),
    ensures
        r@ == punct_lexeme(c),
{
    match c {
        '(' => Type::LParen,
        ')' => Type::RParen,
        '+' => Type::Plus,
        '-' => Type::Dash,
        '*' => Type::Star,
        '/' => Type::Slash,
        _ => Type::Equals,
    }
}

} // verus!
