//! From the characters of a statement to its tokens.

use vstd::prelude::*;
use crate::error::{ParseError, ParseErrorKind};
use crate::text::{
    digit_test, is_digit, is_letter, letter_test, lower_range, lower_text, run, scan, CharClass,
    lemma_run_all,
};
use crate::sequence::after;
use crate::token::{keyword, keyword_of, Keyword, Lexeme, Token};

verus! {

/// The value of a decimal digit.
pub open spec fn digit_value(c: char) -> int {
    (c as u32) as int - 48
}

/// The number that a run of decimal digits denotes.
pub open spec fn digits_value(s: Seq<char>) -> int
    decreases s.len(),
{
    if s.len() == 0 {
        0
    } else {
        digits_value(s.drop_last()) * 10 + digit_value(s.last())
    }
}

/// The digit at `i` of a fraction, zero where the fraction is shorter.
pub open spec fn fraction_digit(s: Seq<char>, i: int) -> int {
    if i < s.len() {
        digit_value(s[i])
    } else {
        0
    }
}

/// The thousandths that the digits after a decimal point denote, rounded by
/// the fourth digit: up where it is 5 or more.
pub open spec fn fraction_value(s: Seq<char>) -> int {
    fraction_digit(s, 0) * 100 + fraction_digit(s, 1) * 10 + fraction_digit(s, 2) + if fraction_digit(
        s,
        3,
    ) >= 5 {
        1int
    } else {
        0int
    }
}

/// The index of the quote that closes a quoted run, where `s` begins just
/// after the opening quote. A doubled quote does not close.
pub open spec fn quote_end(s: Seq<char>, q: char) -> Option<nat>
    decreases s.len(),
{
    if s.len() == 0 {
        None
    } else if s[0] != q {
        match quote_end(s.drop_first(), q) {
            Some(k) => Some(k + 1),
            None => None,
        }
    } else if s.len() >= 2 && s[1] == q {
        match quote_end(s.skip(2), q) {
            Some(k) => Some(k + 2),
            None => None,
        }
    } else {
        Some(0)
    }
}

/// The characters that a quoted run stands for: each doubled quote is one.
pub open spec fn unquote(s: Seq<char>, q: char) -> Seq<char>
    decreases s.len(),
{
    if s.len() == 0 {
        s
    } else if s[0] == q && s.len() >= 2 && s[1] == q {
        seq![q] + unquote(s.skip(2), q)
    } else {
        seq![s[0]] + unquote(s.drop_first(), q)
    }
}

/// The error of a kind at the character `p`.
pub open spec fn error_at(p: int, kind: ParseErrorKind) -> ParseError {
    ParseError { position: p as usize, kind }
}

/// The numeric literal that begins at `p`, and how many characters it has
/// beyond its first.
pub open spec fn number_at(s: Seq<char>, p: int) -> Result<(Token, nat), ParseError> {
    let n = run(s.skip(p), CharClass::Digit);
    let whole = digits_value(s.subrange(p, p + n));
    let after = s.skip(p + n);
    if after.len() >= 2 && after[0] == '.' && is_digit(after[1]) {
        let m = run(after.skip(1), CharClass::Digit);
        let value = whole * 1000 + fraction_value(after.subrange(1, 1 + m as int));
        if value > i64::MAX {
            Err(error_at(p, ParseErrorKind::NumberOutOfRange))
        } else {
            Ok((Token::Real(value as i64), (n + m) as nat))
        }
    } else {
        if whole > i64::MAX {
            Err(error_at(p, ParseErrorKind::NumberOutOfRange))
        } else {
            Ok((Token::Integer(whole as i64), (n - 1) as nat))
        }
    }
}

/// The operator or punctuation mark that begins with `c`, where `next` is the
/// character after it, and whether it takes `next` too.
pub open spec fn mark_at(c: char, next: Option<char>) -> Option<(Token, nat)> {
    if c == ',' {
        Some((Token::Comma, 0nat))
    } else if c == '(' {
        Some((Token::LParen, 0nat))
    } else if c == ')' {
        Some((Token::RParen, 0nat))
    } else if c == '*' {
        Some((Token::Star, 0nat))
    } else if c == '+' {
        Some((Token::Plus, 0nat))
    } else if c == '-' {
        Some((Token::Minus, 0nat))
    } else if c == '/' {
        Some((Token::Slash, 0nat))
    } else if c == '.' {
        Some((Token::Dot, 0nat))
    } else if c == '=' {
        Some((Token::Eq, 0nat))
    } else if c == '<' {
        if next == Some('=') {
            Some((Token::Le, 1nat))
        } else if next == Some('>') {
            Some((Token::Ne, 1nat))
        } else {
            Some((Token::Lt, 0nat))
        }
    } else if c == '>' {
        if next == Some('=') {
            Some((Token::Ge, 1nat))
        } else {
            Some((Token::Gt, 0nat))
        }
    } else if c == '!' && next == Some('=') {
        Some((Token::Ne, 1nat))
    } else {
        None
    }
}

/// The token that begins at `p`, and how many characters it has beyond its
/// first.
pub open spec fn token_at(s: Seq<char>, p: int) -> Result<(Token, nat), ParseError>
    recommends
        0 <= p < s.len(),
{
    let c = s[p];
    let rest = s.skip(p + 1);
    if is_letter(c) {
        let n = run(rest, CharClass::Name);
        match keyword_of(lower_text(s.subrange(p, p + 1 + n))) {
            Some(k) => Ok((Token::Keyword(k), n)),
            None => Ok((Token::Name { start: p as usize, end: (p + 1 + n) as usize }, n)),
        }
    } else if is_digit(c) {
        number_at(s, p)
    } else if c == '\'' {
        match quote_end(rest, '\'') {
            Some(k) => Ok(
                (Token::Text { start: (p + 1) as usize, end: (p + 1 + k) as usize }, k + 1),
            ),
            None => Err(error_at(p, ParseErrorKind::Unterminated)),
        }
    } else if c == '"' {
        match quote_end(rest, '"') {
            Some(k) => Ok(
                (Token::Name { start: (p + 1) as usize, end: (p + 1 + k) as usize }, k + 1),
            ),
            None => Err(error_at(p, ParseErrorKind::Unterminated)),
        }
    } else {
        match mark_at(
            c,
            if rest.len() > 0 {
                Some(rest[0])
            } else {
                None
            },
        ) {
            Some(m) => Ok(m),
            None => Err(error_at(p, ParseErrorKind::InvalidCharacter)),
        }
    }
}

/// The tokens of `s` from `pos` on: white space separates them and is
/// dropped; the first character that begins no token fails the whole.
pub open spec fn lex_from(s: Seq<char>, pos: int) -> Result<Seq<Lexeme>, ParseError>
    decreases
        if pos < s.len() {
            s.len() - pos
        } else {
            0
        },
{
    let p = pos + run(s.skip(pos), CharClass::Space) as int;
    if pos < 0 || p >= s.len() {
        Ok(Seq::empty())
    } else {
        match token_at(s, p) {
            Err(e) => Err(e),
            Ok((token, more)) => after(
                seq![Lexeme { token, pos: p as usize }],
                lex_from(s, p + 1 + more),
            ),
        }
    }
}

/// The tokens of a statement.
pub open spec fn lex(s: Seq<char>) -> Result<Seq<Lexeme>, ParseError> {
    lex_from(s, 0)
}

/// The outcome of a function that builds a vector, as the model sees it.
pub open spec fn seq_result<T, E>(r: Result<Vec<T>, E>) -> Result<Seq<T>, E> {
    match r {
        Ok(v) => Ok(v@),
        Err(e) => Err(e),
    }
}

proof fn lemma_digits_grow(s: Seq<char>, k: int)
    requires
        0 <= k <= s.len(),
        forall|i: int| 0 <= i < s.len() ==> is_digit(s[i]),
    ensures
        0 <= digits_value(s.take(k)) <= digits_value(s),
    decreases s.len() - k,
{
    if k == s.len() {
        assert(s.take(k) == s);
        lemma_digits_nonnegative(s);
    } else {
        lemma_digits_grow(s, k + 1);
        assert(s.take(k + 1).drop_last() == s.take(k));
        assert(is_digit(s.take(k + 1).last()));
    }
}

proof fn lemma_digits_nonnegative(s: Seq<char>)
    requires
        forall|i: int| 0 <= i < s.len() ==> is_digit(s[i]),
    ensures
        0 <= digits_value(s),
    decreases s.len(),
{
    if s.len() > 0 {
        lemma_digits_nonnegative(s.drop_last());
        assert(is_digit(s.last()));
    }
}

/// The value of a decimal digit.
fn digit_of(c: char) -> (d: u64)
    requires
        is_digit(c),
    ensures
        d == digit_value(c),
{
    ((c as u32) - 48) as u64
}

/// The number that `v[from..to]` denotes, unless it is beyond the largest
/// 64-bit integer.
fn read_digits(v: &Vec<char>, from: usize, to: usize) -> (r: Option<u64>)
    requires
        from <= to <= v.len(),
        forall|i: int| from <= i < to ==> is_digit(v@[i]),
    ensures
        match r {
            Some(n) => n == digits_value(v@.subrange(from as int, to as int)) && n <= i64::MAX,
            None => digits_value(v@.subrange(from as int, to as int)) > i64::MAX,
        },
{
    let ghost all = v@.subrange(from as int, to as int);
    let mut acc: u64 = 0;
    let mut i: usize = from;
    assert(all.take(0) =~= Seq::<char>::empty());
    while i < to
        invariant
            from <= i <= to <= v.len(),
            all == v@.subrange(from as int, to as int),
            forall|j: int| 0 <= j < all.len() ==> is_digit(all[j]),
            acc == digits_value(all.take(i - from)),
            acc <= i64::MAX,
        decreases to - i,
    {
        assert(all[i - from] == v@[i as int]);
        let d = digit_of(v[i]);
        assert(all.take(i + 1 - from).drop_last() == all.take(i - from));
        assert(all.take(i + 1 - from).last() == v@[i as int]);
        let next: u128 = (acc as u128) * 10 + (d as u128);
        if next > i64::MAX as u128 {
            proof {
                lemma_digits_grow(all, i + 1 - from);
            }
            return None;
        }
        acc = next as u64;
        i += 1;
    }
    assert(all.take(to - from) == all);
    Some(acc)
}

/// The thousandths that the digits `v[from..to]` after a decimal point denote.
fn read_fraction(v: &Vec<char>, from: usize, to: usize) -> (r: u64)
    requires
        from <= to <= v.len(),
        forall|i: int| from <= i < to ==> is_digit(v@[i]),
    ensures
        r == fraction_value(v@.subrange(from as int, to as int)),
        r <= 1000,
{
    let a = if from < to {
        digit_of(v[from])
    } else {
        0
    };
    let b = if to - from > 1 {
        digit_of(v[from + 1])
    } else {
        0
    };
    let c = if to - from > 2 {
        digit_of(v[from + 2])
    } else {
        0
    };
    let up = if to - from > 3 && digit_of(v[from + 3]) >= 5 {
        1
    } else {
        0
    };
    a * 100 + b * 10 + c + up
}

/// The index of the quote that closes the run that begins at `from`.
fn find_quote(v: &Vec<char>, from: usize, q: char) -> (r: Option<usize>)
    requires
        from <= v.len(),
    ensures
        match r {
            Some(k) => from <= k < v.len() && quote_end(v@.skip(from as int), q) == Some(
                (k - from) as nat,
            ),
            None => quote_end(v@.skip(from as int), q) is None,
        },
{
    let mut i: usize = from;
    while i < v.len()
        invariant
            from <= i <= v.len(),
            quote_end(v@.skip(from as int), q) == match quote_end(v@.skip(i as int), q) {
                Some(k) => Some((k + (i - from)) as nat),
                None => None,
            },
        decreases v.len() - i,
    {
        if v[i] != q {
            assert(v@.skip(i as int).drop_first() == v@.skip(i + 1));
            i += 1;
        } else if i + 1 < v.len() && v[i + 1] == q {
            assert(v@.skip(i as int).skip(2) == v@.skip(i + 2));
            i += 2;
        } else {
            return Some(i);
        }
    }
    None
}

/// The numeric literal that begins at `p`.
fn number(v: &Vec<char>, p: usize) -> (r: Result<(Token, usize), ParseError>)
    requires
        p < v.len(),
        is_digit(v@[p as int]),
    ensures
        match r {
            Ok((t, end)) => p < end <= v.len() && number_at(v@, p as int) == Ok::<
                (Token, nat),
                ParseError,
            >((t, (end - p - 1) as nat)),
            Err(e) => number_at(v@, p as int) == Err::<(Token, nat), ParseError>(e),
        },
{
    let e = scan(v, p, CharClass::Digit);
    assert(e > p) by {
        assert(v@.skip(p as int)[0] == v@[p as int]);
    }
    assert forall|i: int| p <= i < e implies is_digit(v@[i]) by {
        lemma_run_all(v@.skip(p as int), CharClass::Digit, i - p);
    }
    let whole = read_digits(v, p, e);
    let err = ParseError { position: p, kind: ParseErrorKind::NumberOutOfRange };
    if e < v.len() && v.len() - e > 1 && v[e] == '.' && digit_test(v[e + 1]) {
        let f = scan(v, e + 1, CharClass::Digit);
        assert(v@.skip(e as int).skip(1) == v@.skip(e + 1));
        assert(v@.skip(e as int).subrange(1, 1 + (f - e - 1)) == v@.subrange(e + 1, f as int));
        assert forall|i: int| e + 1 <= i < f implies is_digit(v@[i]) by {
            lemma_run_all(v@.skip(e + 1), CharClass::Digit, i - e - 1);
        }
        let frac = read_fraction(v, e + 1, f);
        proof {
            lemma_digits_nonnegative(v@.subrange(p as int, e as int));
        }
        match whole {
            None => Err(err),
            Some(w) => {
                let value: u128 = (w as u128) * 1000 + (frac as u128);
                if value > i64::MAX as u128 {
                    Err(err)
                } else {
                    Ok((Token::Real(value as i64), f))
                }
            },
        }
    } else {
        match whole {
            None => Err(err),
            Some(w) => Ok((Token::Integer(w as i64), e)),
        }
    }
}

/// The token that begins at `p`, and the index just past it.
fn token(v: &Vec<char>, p: usize) -> (r: Result<(Token, usize), ParseError>)
    requires
        p < v.len(),
    ensures
        match r {
            Ok((t, end)) => p < end <= v.len() && token_at(v@, p as int) == Ok::<
                (Token, nat),
                ParseError,
            >((t, (end - p - 1) as nat)),
            Err(e) => token_at(v@, p as int) == Err::<(Token, nat), ParseError>(e),
        },
{
    let c = v[p];
    if letter_test(c) {
        let end = scan(v, p + 1, CharClass::Name);
        let word = lower_range(v, p, end);
        match keyword(&word) {
            Some(k) => Ok((Token::Keyword(k), end)),
            None => Ok((Token::Name { start: p, end }, end)),
        }
    } else if digit_test(c) {
        number(v, p)
    } else if c == '\'' {
        match find_quote(v, p + 1, '\'') {
            Some(k) => Ok((Token::Text { start: p + 1, end: k }, k + 1)),
            None => Err(ParseError { position: p, kind: ParseErrorKind::Unterminated }),
        }
    } else if c == '"' {
        match find_quote(v, p + 1, '"') {
            Some(k) => Ok((Token::Name { start: p + 1, end: k }, k + 1)),
            None => Err(ParseError { position: p, kind: ParseErrorKind::Unterminated }),
        }
    } else {
        let next = if p + 1 < v.len() {
            Some(v[p + 1])
        } else {
            None
        };
        match mark(c, next) {
            Some((t, more)) => Ok((t, p + 1 + more)),
            None => Err(ParseError { position: p, kind: ParseErrorKind::InvalidCharacter }),
        }
    }
}

/// The operator or punctuation mark that begins with `c`.
fn mark(c: char, next: Option<char>) -> (r: Option<(Token, usize)>)
    ensures
        match r {
            Some((t, more)) => mark_at(c, next) == Some((t, more as nat)) && (more == 0 || (more
                == 1 && next is Some)),
            None => mark_at(c, next) is None,
        },
{
    let eq = match next {
        Some(n) => n == '=',
        None => false,
    };
    let gt = match next {
        Some(n) => n == '>',
        None => false,
    };
    if c == ',' {
        Some((Token::Comma, 0))
    } else if c == '(' {
        Some((Token::LParen, 0))
    } else if c == ')' {
        Some((Token::RParen, 0))
    } else if c == '*' {
        Some((Token::Star, 0))
    } else if c == '+' {
        Some((Token::Plus, 0))
    } else if c == '-' {
        Some((Token::Minus, 0))
    } else if c == '/' {
        Some((Token::Slash, 0))
    } else if c == '.' {
        Some((Token::Dot, 0))
    } else if c == '=' {
        Some((Token::Eq, 0))
    } else if c == '<' {
        if eq {
            Some((Token::Le, 1))
        } else if gt {
            Some((Token::Ne, 1))
        } else {
            Some((Token::Lt, 0))
        }
    } else if c == '>' {
        if eq {
            Some((Token::Ge, 1))
        } else {
            Some((Token::Gt, 0))
        }
    } else if c == '!' && eq {
        Some((Token::Ne, 1))
    } else {
        None
    }
}

/// The tokens of a statement.
pub fn tokenize(v: &Vec<char>) -> (r: Result<Vec<Lexeme>, ParseError>)
    ensures
        seq_result(r) == lex(v@),
{
    let mut out: Vec<Lexeme> = Vec::new();
    let mut pos: usize = 0;
    assert(Seq::<Lexeme>::empty() + lex_from(v@, 0)->Ok_0 == lex_from(v@, 0)->Ok_0);
    loop
        invariant
            pos <= v.len(),
            lex(v@) == after(out@, lex_from(v@, pos as int)),
        decreases v.len() - pos,
    {
        let p = scan(v, pos, CharClass::Space);
        if p >= v.len() {
            assert(out@ + Seq::<Lexeme>::empty() == out@);
            return Ok(out);
        }
        match token(v, p) {
            Err(e) => {
                return Err(e);
            },
            Ok((t, end)) => {
                let ghost before = out@;
                out.push(Lexeme { token: t, pos: p });
                proof {
                    let rest = lex_from(v@, end as int);
                    if rest is Ok {
                        assert(before + (seq![Lexeme { token: t, pos: p }] + rest->Ok_0)
                            == out@ + rest->Ok_0);
                    }
                }
                pos = end;
            },
        }
    }
}

} // verus!
