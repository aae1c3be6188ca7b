use vstd::prelude::*;

use crate::scan::{
    lemma_run_end_bounds, lemma_step_advances, lex, lex_from, run_end, step, step_end, Continuation,
    ScanError,
};
use crate::token::{is_digit, is_punct, is_space, is_word_char, reserved, Lexeme};

verus! {

/// A token sequence that ends in `Eof` and holds no other `Eof`.
pub open spec fn eof_closed(ts: Seq<Lexeme>) -> bool {
    &&& ts.len() >= 1
    &&& ts.last() == Lexeme::Eof
    &&& forall|k: int| 0 <= k < ts.len() - 1 ==> ts[k] != Lexeme::Eof
}

/// No identifier in `ts` is spelled like a reserved word or a boolean literal.
pub open spec fn no_reserved_identifier(ts: Seq<Lexeme>) -> bool {
    forall|k: int|
        0 <= k < ts.len() ==> (#[trigger] ts[k] matches Lexeme::Identifier(w) ==> reserved(w) is None)
}

proof fn lemma_step_token_shape(s: Seq<char>, i: nat)
    requires
        i < s.len(),
    ensures
        step(s, i) matches Ok((Some(x), _)) ==> x != Lexeme::Eof && (x matches Lexeme::Identifier(
            w,
        ) ==> reserved(w) is None),
{
}

proof fn lemma_lex_from_shape(s: Seq<char>, i: nat)
    ensures
        lex_from(s, i) matches Ok(ts) ==> eof_closed(ts) && no_reserved_identifier(ts),
    decreases s.len() - i,
{
    if i < s.len() {
        lemma_step_advances(s, i);
        lemma_step_token_shape(s, i);
        if let Ok((t, j)) = step(s, i) {
            if i < j <= s.len() {
                lemma_lex_from_shape(s, j);
                if let Ok(rest) = lex_from(s, j) {
                    if let Some(x) = t {
                        let ts = seq![x] + rest;
                        assert forall|k: int| 0 <= k < ts.len() - 1 implies ts[k] != Lexeme::Eof by {
                            if k > 0 {
                                assert(ts[k] == rest[k - 1]);
                            }
                        }
                        assert forall|k: int| 0 <= k < ts.len() implies (#[trigger] ts[k] matches Lexeme::Identifier(w)
                            ==> reserved(w) is None) by {
                            if k > 0 {
                                assert(ts[k] == rest[k - 1]);
                            }
                        }
                    }
                }
            }
        }
    }
}

/// A successful scan ends in `Eof`, and `Eof` appears in it exactly once.
pub proof fn lemma_scan_ends_in_eof(s: Seq<char>)
    ensures
        lex(s) matches Ok(ts) ==> eof_closed(ts),
{
    lemma_lex_from_shape(s, 0);
}

/// Reserved words and boolean literals never come out as identifiers.
pub proof fn lemma_reserved_words_are_not_identifiers(s: Seq<char>)
    ensures
        lex(s) matches Ok(ts) ==> no_reserved_identifier(ts),
{
    lemma_lex_from_shape(s, 0);
}

/// Scanning is a function of the source: equal sources give equal results,
/// token for token and in the same order.
pub proof fn lemma_scan_deterministic(s: Seq<char>, t: Seq<char>)
    requires
        s == t,
    ensures
        lex(s) == lex(t),
{
}

/// A character that starts some token or is whitespace.
pub open spec fn is_recognized(c: char) -> bool {
    is_space(c) || is_digit(c) || c == '"' || is_punct(c) || is_word_char(c)
}

/// Whether the run of a token that began with `rune` and goes on under `k`
/// from `i` ends at a closing quote.
pub open spec fn run_closed(s: Seq<char>, i: nat, rune: char, k: Continuation) -> bool
    decreases s.len() - i,
{
    if i >= s.len() || !k.accepts(s[i as int]) {
        false
    } else if rune == '"' && s[i as int] == '"' {
        true
    } else {
        run_closed(s, i + 1, rune, k)
    }
}

/// A quote at `i` whose string runs to the end of the input without closing.
pub open spec fn unterminated_string_at(s: Seq<char>, i: nat) -> bool {
    s[i as int] == '"' && !run_closed(s, i + 1, '"', Continuation::Quoted)
}

/// The scan of `s`, standing between tokens at `i`, comes to stand between
/// tokens at `n` without an error and without passing an unterminated string.
pub open spec fn reaches(s: Seq<char>, i: nat, n: nat) -> bool
    decreases n - i,
{
    if i >= n {
        i == n
    } else {
        &&& i < s.len()
        &&& step(s, i) is Ok
        &&& !unterminated_string_at(s, i)
        &&& i < step_end(s, i) <= n
        &&& reaches(s, step_end(s, i), n)
    }
}

proof fn lemma_error_propagates(s: Seq<char>, i: nat, n: nat)
    requires
        reaches(s, i, n),
        lex_from(s, n) is Err,
    ensures
        lex_from(s, i) == lex_from(s, n),
    decreases n - i,
{
    if i < n {
        lemma_step_advances(s, i);
        lemma_error_propagates(s, step_end(s, i), n);
    }
}

/// Where the scan stands between tokens before a character that starts no
/// token, the scan fails there, naming that character and its position.
pub proof fn lemma_unrecognized_char_is_fatal(s: Seq<char>, n: nat)
    requires
        reaches(s, 0, n),
        n < s.len(),
        !is_recognized(s[n as int]),
    ensures
        lex(s) == Err::<Seq<Lexeme>, ScanError>(
            ScanError::UnexpectedChar { ch: s[n as int], pos: n as usize },
        ),
{
    lemma_error_propagates(s, 0, n);
}

/// The tokens of a scan result, where it succeeds.
pub open spec fn tokens_of(r: Result<Seq<Lexeme>, ScanError>) -> Option<Seq<Lexeme>> {
    match r {
        Ok(ts) => Some(ts),
        Err(_) => None,
    }
}

pub open spec fn all_space(w: Seq<char>) -> bool {
    forall|k: int| 0 <= k < w.len() ==> is_space(#[trigger] w[k])
}

/// From position `d` on, `t` holds what `s` holds, `e` places further along.
pub open spec fn shifted(s: Seq<char>, t: Seq<char>, d: nat, e: nat) -> bool {
    &&& d <= s.len()
    &&& t.len() == s.len() + e
    &&& forall|q: int| d <= q < s.len() ==> #[trigger] t[q + e] == s[q]
}

proof fn lemma_run_shift(
    s: Seq<char>,
    t: Seq<char>,
    d: nat,
    e: nat,
    i: nat,
    rune: char,
    k: Continuation,
)
    requires
        shifted(s, t, d, e),
        d <= i <= s.len(),
    ensures
        run_end(t, i + e, rune, k) == run_end(s, i, rune, k) + e,
    decreases s.len() - i,
{
    if i < s.len() {
        assert(t[(i + e) as int] == s[i as int]);
        lemma_run_shift(s, t, d, e, i + 1, rune, k);
    }
}

proof fn lemma_lex_shift(s: Seq<char>, t: Seq<char>, d: nat, e: nat, i: nat)
    requires
        shifted(s, t, d, e),
        d <= i,
    ensures
        tokens_of(lex_from(t, i + e)) == tokens_of(lex_from(s, i)),
    decreases s.len() - i,
{
    if i < s.len() {
        let c = s[i as int];
        assert(t[(i + e) as int] == c);
        lemma_run_shift(s, t, d, e, i + 1, c, Continuation::Number);
        lemma_run_shift(s, t, d, e, i + 1, c, Continuation::Quoted);
        lemma_run_shift(s, t, d, e, i + 1, c, Continuation::Word);
        lemma_run_end_bounds(s, i + 1, c, Continuation::Number);
        lemma_run_end_bounds(s, i + 1, c, Continuation::Quoted);
        lemma_run_end_bounds(s, i + 1, c, Continuation::Word);
        let k = if is_digit(c) {
            Continuation::Number
        } else if c == '"' {
            Continuation::Quoted
        } else {
            Continuation::Word
        };
        let r = run_end(s, i + 1, c, k);
        assert forall|x: int| 0 <= x < r - i implies #[trigger] t.subrange(
            (i + e) as int,
            (r + e) as int,
        )[x] == s.subrange(i as int, r as int)[x] by {
            assert(t[(i + x) + e] == s[i + x]);
        }
        assert(t.subrange((i + e) as int, (r + e) as int) =~= s.subrange(i as int, r as int));
        lemma_step_advances(s, i);
        if step(s, i) is Ok {
            lemma_lex_shift(s, t, d, e, step_end(s, i));
        }
    }
}

proof fn lemma_run_agree(s: Seq<char>, t: Seq<char>, n: nat, i: nat, rune: char, k: Continuation)
    requires
        n <= s.len(),
        n <= t.len(),
        forall|q: int| 0 <= q < n ==> t[q] == s[q],
        i <= n,
        run_end(s, i, rune, k) <= n,
        run_closed(s, i, rune, k) || (n < t.len() ==> !k.accepts(t[n as int])),
    ensures
        run_end(t, i, rune, k) == run_end(s, i, rune, k),
    decreases n - i,
{
    lemma_run_end_bounds(s, i, rune, k);
    if i < n {
        assert(t[i as int] == s[i as int]);
        if k.accepts(s[i as int]) && !(rune == '"' && s[i as int] == '"') {
            lemma_run_agree(s, t, n, i + 1, rune, k);
        }
    } else if n < s.len() {
        lemma_run_end_bounds(s, n + 1, rune, k);
    }
}

proof fn lemma_skip_space(t: Seq<char>, p: nat, m: nat)
    requires
        p + m <= t.len(),
        forall|q: int| p <= q < p + m ==> is_space(#[trigger] t[q]),
    ensures
        lex_from(t, p) == lex_from(t, p + m),
    decreases m,
{
    if m > 0 {
        assert(is_space(t[p as int]));
        lemma_skip_space(t, p + 1, (m - 1) as nat);
    }
}

proof fn lemma_insert_space_from(a: Seq<char>, w: Seq<char>, b: Seq<char>, i: nat)
    requires
        reaches(a + b, i, a.len()),
        all_space(w),
        w.len() > 0,
    ensures
        tokens_of(lex_from(a + w + b, i)) == tokens_of(lex_from(a + b, i)),
    decreases a.len() - i,
{
    let s = a + b;
    let t = a + w + b;
    let n = a.len();
    let e = w.len();
    assert(shifted(s, t, n, e)) by {
        assert forall|q: int| n <= q < s.len() implies #[trigger] t[q + e] == s[q] by {
            assert(t[q + e] == b[q - n]);
        }
    }
    if i == n {
        assert forall|q: int| n <= q < n + e implies is_space(#[trigger] t[q]) by {
            assert(t[q] == w[q - n]);
        }
        lemma_skip_space(t, n, e);
        lemma_lex_shift(s, t, n, e, n);
    } else {
        let c = s[i as int];
        assert(t[i as int] == c);
        assert(n < t.len() && is_space(t[n as int])) by {
            assert(t[n as int] == w[0]);
        }
        lemma_step_advances(s, i);
        let j = step_end(s, i);
        if is_space(c) {
        } else if is_digit(c) {
            lemma_run_agree(s, t, n, i + 1, c, Continuation::Number);
        } else if c == '"' {
            lemma_run_agree(s, t, n, i + 1, c, Continuation::Quoted);
        } else if is_punct(c) {
        } else {
            lemma_run_agree(s, t, n, i + 1, c, Continuation::Word);
        }
        assert(t.subrange(i as int, j as int) =~= s.subrange(i as int, j as int));
        assert(step(t, i) == step(s, i));
        lemma_insert_space_from(a, w, b, j);
    }
}

/// Whitespace put in at a point where the scan of `a + b` stands between two
/// tokens, past no unterminated string, leaves the tokens as they were; read
/// the other way, taking out whitespace that leaves such a point does too.
pub proof fn lemma_whitespace_between_tokens(a: Seq<char>, w: Seq<char>, b: Seq<char>)
    requires
        reaches(a + b, 0, a.len()),
        all_space(w),
    ensures
        tokens_of(lex(a + w + b)) == tokens_of(lex(a + b)),
{
    if w.len() == 0 {
        assert(a + w + b =~= a + b);
    } else {
        lemma_insert_space_from(a, w, b, 0);
    }
}

} // verus!
