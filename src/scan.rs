use vstd::prelude::*;

use crate::laws::{eof_closed, lemma_scan_ends_in_eof};
use crate::token::{
    is_digit, is_digit_char, is_number_text, is_punct, is_punct_char, is_space, is_space_char,
    is_word_char, is_word_start, punct_lexeme, punct_token, word_lexeme, word_token, Lexeme, Number,
    Type,
};

verus! {

/// Which characters may extend the token being built.
#[derive(Debug, Clone, Copy, PartialEq, Eq, Structural)]
pub enum Continuation {
    /// Digits and decimal points.
    Number,
    /// Anything: a quoted run ends at its closing quote.
    Quoted,
    /// Letters and underscores.
    Word,
}

impl Continuation {
    pub open spec fn accepts(self, c: char) -> bool {
        match self {
            Continuation::Number => is_digit(c) || c == '.',
            Continuation::Quoted => true,
            Continuation::Word => is_word_char(c),
        }
    }

    pub fn test(&self, c: char) -> (r: bool)
        ensures
            r == self.accepts(c),
    {
        match self {
            Continuation::Number => is_digit_char(c) || c == '.',
            Continuation::Quoted => true,
            Continuation::Word => is_word_start(c),
        }
    }
}

/// Where a run that began with `rune`, and goes on under `k` from `i`, ends: at
/// the first character that `k` refuses, or just past a closing quote where
/// `rune` is a quote.
pub open spec fn run_end(s: Seq<char>, i: nat, rune: char, k: Continuation) -> nat
    decreases s.len() - i,
{
    if i >= s.len() || !k.accepts(s[i as int]) {
        i
    } else if rune == '"' && s[i as int] == '"' {
        i + 1
    } else {
        run_end(s, i + 1, rune, k)
    }
}

pub proof fn lemma_run_end_bounds(s: Seq<char>, i: nat, rune: char, k: Continuation)
    requires
        i <= s.len(),
    ensures
        i <= run_end(s, i, rune, k) <= s.len(),
    decreases s.len() - i,
{
    if i < s.len() && k.accepts(s[i as int]) && !(rune == '"' && s[i as int] == '"') {
        lemma_run_end_bounds(s, i + 1, rune, k);
    }
}

/// Why a scan stopped.
#[derive(Debug, Clone, Copy, PartialEq, Eq, Structural)]
pub enum ScanError {
    /// A character that starts no token, at this character position.
    UnexpectedChar { ch: char, pos: usize },
    /// A run of digits and points, from `start` to `end`, that is no number.
    MalformedNumber { start: usize, end: usize },
}

/// What the characters at `i` yield: a token or nothing (whitespace), and the
/// position after them; or the error that stops the scan there.
pub open spec fn step(s: Seq<char>, i: nat) -> Result<(Option<Lexeme>, nat), ScanError> {
    let c = s[i as int];
    if is_space(c) {
        Ok((None, i + 1))
    } else if is_digit(c) {
        let j = run_end(s, i + 1, c, Continuation::Number);
        let t = s.subrange(i as int, j as int);
        if is_number_text(t) {
            Ok((Some(Lexeme::Integer(t)), j))
        } else {
            Err(ScanError::MalformedNumber { start: i as usize, end: j as usize })
        }
    } else if c == '"' {
        let j = run_end(s, i + 1, c, Continuation::Quoted);
        Ok((Some(Lexeme::Str(s.subrange(i as int, j as int))), j))
    } else if is_punct(c) {
        Ok((Some(punct_lexeme(c)), i + 1))
    } else if is_word_char(c) {
        let j = run_end(s, i + 1, c, Continuation::Word);
        Ok((Some(word_lexeme(s.subrange(i as int, j as int))), j))
    } else {
        Err(ScanError::UnexpectedChar { ch: c, pos: i as usize })
    }
}

/// The position after the characters that `step` reads at `i`.
pub open spec fn step_end(s: Seq<char>, i: nat) -> nat {
    match step(s, i) {
        Ok((_, j)) => j,
        Err(_) => i,
    }
}

pub proof fn lemma_step_advances(s: Seq<char>, i: nat)
    requires
        i < s.len(),
    ensures
        step(s, i) is Ok ==> i < step_end(s, i) <= s.len(),
{
    let c = s[i as int];
    lemma_run_end_bounds(s, i + 1, c, Continuation::Number);
    lemma_run_end_bounds(s, i + 1, c, Continuation::Quoted);
    lemma_run_end_bounds(s, i + 1, c, Continuation::Word);
}

/// Puts an optional token in front of a scan result.
pub open spec fn prepend(t: Option<Lexeme>, r: Result<Seq<Lexeme>, ScanError>) -> Result<
    Seq<Lexeme>,
    ScanError,
> {
    match r {
        Ok(ts) => match t {
            Some(x) => Ok(seq![x] + ts),
            None => Ok(ts),
        },
        Err(e) => Err(e),
    }
}

/// The scan of `s` from position `i` to its end: the tokens in source order
/// closed by `Eof`, or the first error met.
pub open spec fn lex_from(s: Seq<char>, i: nat) -> Result<Seq<Lexeme>, ScanError>
    decreases s.len() - i,
{
    if i >= s.len() {
        Ok(seq![Lexeme::Eof])
    } else {
        match step(s, i) {
            Err(e) => Err(e),
            Ok((t, j)) => if i < j <= s.len() {
                prepend(t, lex_from(s, j))
            } else {
                Ok(seq![])
            },
        }
    }
}

/// The scan of a whole source text.
pub open spec fn lex(s: Seq<char>) -> Result<Seq<Lexeme>, ScanError> {
    lex_from(s, 0)
}

/// Puts tokens already emitted in front of a scan result.
pub open spec fn after(p: Seq<Lexeme>, r: Result<Seq<Lexeme>, ScanError>) -> Result<
    Seq<Lexeme>,
    ScanError,
> {
    match r {
        Ok(ts) => Ok(p + ts),
        Err(e) => Err(e),
    }
}

pub open spec fn views(v: Seq<Type>) -> Seq<Lexeme> {
    v.map_values(|t: Type| t@)
}

/// The state of a scan in progress: the source characters, the cursor, and
/// the tokens emitted so far.
pub struct Scanner {
    pub chars: Vec<char>,
    pub pos: usize,
    pub tokens: Vec<Type>,
}

impl Scanner {
    pub open spec fn wf(&self) -> bool {
        self.pos <= self.chars@.len()
    }

    /// A scanner at the start of `stream`, with nothing emitted.
    pub fn new(stream: &str) -> (r: Scanner)
        ensures
            r.chars@ == stream@,
            r.pos == 0,
            r.tokens@.len() == 0,
            r.wf(),
    {
        Scanner { chars: crate::chars_of(stream), pos: 0, tokens: Vec::new() }
    }

    /// Builds the text of a token that began with `rune`: takes the next
    /// characters while `k` accepts them, and stops after a second quote where
    /// `rune` is a quote. The cursor is left at the first character not taken.
    pub fn consume(&mut self, rune: char, k: Continuation) -> (r: String)
        requires
            old(self).wf(),
        ensures
            final(self).wf(),
            final(self).chars@ == old(self).chars@,
            final(self).tokens@ == old(self).tokens@,
            old(self).pos <= final(self).pos,
            final(self).pos == run_end(old(self).chars@, old(self).pos as nat, rune, k),
            r@ == seq![rune] + old(self).chars@.subrange(old(self).pos as int, final(self).pos as int),
    {
        let ghost s = self.chars@;
        let ghost start = self.pos as nat;
        let mut result = String::new();
        push_char(&mut result, rune);
        let mut done = false;
        while !done && self.pos < self.chars.len()
            invariant
                self.chars@ == s,
                self.tokens@ == old(self).tokens@,
                start <= self.pos <= s.len(),
                done ==> self.pos == run_end(s, start, rune, k),
                !done ==> run_end(s, self.pos as nat, rune, k) == run_end(s, start, rune, k),
                result@ == seq![rune] + s.subrange(start as int, self.pos as int),
            decreases s.len() - self.pos + (if done { 0int } else { 1int }),
        {
            let next = self.chars[self.pos];
            if !k.test(next) {
                done = true;
            } else {
                push_char(&mut result, next);
                self.pos = self.pos + 1;
                assert(result@ =~= seq![rune] + s.subrange(start as int, self.pos as int));
                if rune == '"' && next == '"' {
                    done = true;
                }
            }
        }
        result
    }
}

/// Relies on `String::push`: appends one character at the end.
#[verifier::external_body]
fn push_char(s: &mut String, c: char)
    ensures
        final(s)@ == old(s)@.push(c),
{
    s.push(c);
}

/// Scans `stream` into its tokens, in source order and closed by `Eof`, or
/// stops at the first character that starts no token or the first digit run
/// that is no number.
pub fn scan(stream: &str) -> (r: Result<Vec<Type>, ScanError>)
    ensures
        match r {
            Ok(v) => lex(stream@) == Ok::<Seq<Lexeme>, ScanError>(views(v@)),
            Err(e) => lex(stream@) == Err::<Seq<Lexeme>, ScanError>(e),
        },
        r matches Ok(v) ==> eof_closed(views(v@)),
{
    let mut scanner = Scanner::new(stream);
    let ghost s = scanner.chars@;
    while scanner.pos < scanner.chars.len()
        invariant
            scanner.wf(),
            scanner.chars@ == s,
            s == stream@,
            lex(s) == after(views(scanner.tokens@), lex_from(s, scanner.pos as nat)),
        decreases s.len() - scanner.pos,
    {
        let ghost i = scanner.pos as nat;
        proof {
            lemma_step_advances(s, i);
        }
        let rune = scanner.chars[scanner.pos];
        scanner.pos = scanner.pos + 1;
        let ghost p = views(scanner.tokens@);
        if is_space_char(rune) {
            continue;
        }
        let token = if is_digit_char(rune) {
            let start = scanner.pos - 1;
            let text = scanner.consume(rune, Continuation::Number);
            assert(text@ =~= s.subrange(i as int, scanner.pos as int));
            match Number::parse(text.as_str()) {
                Some(n) => Type::Integer(n),
                None => {
                    return Err(ScanError::MalformedNumber { start, end: scanner.pos });
                },
            }
        } else if rune == '"' {
            let text = scanner.consume(rune, Continuation::Quoted);
            assert(text@ =~= s.subrange(i as int, scanner.pos as int));
            Type::String(text)
        } else if is_punct_char(rune) {
            punct_token(rune)
        } else if is_word_start(rune) {
            let text = scanner.consume(rune, Continuation::Word);
            assert(text@ =~= s.subrange(i as int, scanner.pos as int));
            word_token(text)
        } else {
            return Err(ScanError::UnexpectedChar { ch: rune, pos: scanner.pos - 1 });
        };
        scanner.tokens.push(token);
        assert(views(scanner.tokens@) =~= p.push(token@));
        assert(lex(s) == after(views(scanner.tokens@), lex_from(s, scanner.pos as nat))) by {
            let r = lex_from(s, scanner.pos as nat);
            if r is Ok {
                assert(p + (seq![token@] + r->Ok_0) =~= p.push(token@) + r->Ok_0);
            }
        }
    }
    let ghost p = views(scanner.tokens@);
    assert(lex_from(s, scanner.pos as nat) == Ok::<Seq<Lexeme>, ScanError>(seq![Lexeme::Eof]));
    scanner.tokens.push(Type::Eof);
    assert(views(scanner.tokens@) =~= p + seq![Lexeme::Eof]);
    proof {
        lemma_scan_ends_in_eof(s);
    }
    Ok(scanner.tokens)
}

} // verus!
