//! Lexical analysis: a single left-to-right scan of the source text.
//!
//! The scan is deliberately lenient: unrecognized characters are discarded.
//! Only two conditions are fatal, a malformed numeric literal and an
//! unterminated string literal.

use vstd::prelude::*;

use crate::numbers::is_digit_char;
use crate::numbers::spec_parse_number;
use crate::token::Token;
use crate::token::TokenModel;
use crate::token::token_models;

verus! {

/// A fatal lexical condition.
#[derive(Debug, Clone, Copy, PartialEq, Eq, Structural)]
pub enum LexError {
    MalformedNumber,
    UnterminatedString,
}

pub open spec fn is_space_char(c: char) -> bool {
    c == ' ' || c == '\t' || c == '\n' || c == '\r'
}

pub open spec fn is_letter_char(c: char) -> bool {
    (97 <= c as u32 && c as u32 <= 122) || (65 <= c as u32 && c as u32 <= 90)
}

pub open spec fn is_word_char(c: char) -> bool {
    is_letter_char(c) || is_digit_char(c) || c == '_'
}

pub open spec fn is_number_char(c: char) -> bool {
    is_digit_char(c) || c == '.'
}

/// First position at or after `i` whose character fails `p`, or the length.
pub open spec fn scan_end(s: Seq<char>, i: int, p: spec_fn(char) -> bool) -> int
    decreases s.len() - i,
{
    if i < 0 || i >= s.len() {
        s.len() as int
    } else if p(s[i]) {
        scan_end(s, i + 1, p)
    } else {
        i
    }
}

/// The scanner's character classes: string-literal body, numeric text, word
/// text.
pub open spec fn class_pred(class: u8) -> spec_fn(char) -> bool {
    if class == 0 {
        |c: char| c != '"'
    } else if class == 1 {
        |c: char| is_number_char(c)
    } else {
        |c: char| is_word_char(c)
    }
}

/// `scan_end`, clamped between `i` and the length.
pub open spec fn scan_from(s: Seq<char>, i: int, p: spec_fn(char) -> bool) -> int {
    let e = scan_end(s, i, p);
    if e < i {
        i
    } else if e > s.len() {
        s.len() as int
    } else {
        e
    }
}

pub proof fn lemma_scan_end_bounds(s: Seq<char>, i: int, p: spec_fn(char) -> bool)
    requires
        0 <= i <= s.len(),
    ensures
        i <= scan_end(s, i, p) <= s.len(),
        forall|j: int| i <= j < scan_end(s, i, p) ==> p(s[j]),
        scan_end(s, i, p) < s.len() ==> !p(s[scan_end(s, i, p)]),
    decreases s.len() - i,
{
    if i < s.len() && p(s[i]) {
        lemma_scan_end_bounds(s, i + 1, p);
    }
}

/// A scan's end is determined by where its predicate stops holding.
pub proof fn lemma_scan_end_is(s: Seq<char>, i: int, p: spec_fn(char) -> bool, e: int)
    requires
        0 <= i <= e <= s.len(),
        forall|j: int| i <= j < e ==> p(s[j]),
        e < s.len() ==> !p(s[e]),
    ensures
        scan_end(s, i, p) == e,
    decreases s.len() - i,
{
    if i < s.len() && p(s[i]) {
        lemma_scan_end_is(s, i + 1, p, e);
    }
}

/// The keyword or operator word spelled t-h-e-n.
pub open spec fn then_word() -> Seq<char> {
    seq!['t', 'h', 'e', 'n']
}

/// Classify a word that begins with a letter.
pub open spec fn classify_word(w: Seq<char>) -> TokenModel {
    if w == "import"@ {
        TokenModel::Import
    } else if w == "from"@ {
        TokenModel::From
    } else if w == "if"@ {
        TokenModel::If
    } else if w == then_word() {
        TokenModel::Then
    } else if w == "otherwise"@ {
        TokenModel::Otherwise
    } else if w == "run"@ {
        TokenModel::Run
    } else if w == "ret"@ {
        TokenModel::Ret
    } else if w == "plus"@ || w == "and"@ || w == "same"@ || w == "not"@ {
        TokenModel::Operator(w)
    } else if w == "true"@ {
        TokenModel::BoolLit(true)
    } else if w == "false"@ {
        TokenModel::BoolLit(false)
    } else {
        TokenModel::Identifier(w)
    }
}

/// Classify a word that begins with an underscore.
pub open spec fn classify_underscore_word(w: Seq<char>) -> TokenModel {
    if w == "__fn"@ {
        TokenModel::FnStart
    } else if w == "__"@ {
        TokenModel::BlockEnd
    } else {
        TokenModel::Identifier(w)
    }
}

/// Prefix one token onto a lexing outcome.
pub open spec fn lex_cons(t: TokenModel, r: Result<Seq<TokenModel>, LexError>) -> Result<
    Seq<TokenModel>,
    LexError,
> {
    match r {
        Ok(ts) => Ok(seq![t] + ts),
        Err(e) => Err(e),
    }
}

/// The tokens of the source text from position `i` on, ending in `Eof`, or
/// the first fatal condition met.
pub open spec fn spec_lex(s: Seq<char>, i: int) -> Result<Seq<TokenModel>, LexError>
    decreases s.len() - i,
{
    if i < 0 || i >= s.len() {
        Ok(seq![TokenModel::Eof])
    } else {
        let c = s[i];
        if is_space_char(c) {
            spec_lex(s, i + 1)
        } else if c == '(' {
            lex_cons(TokenModel::LParen, spec_lex(s, i + 1))
        } else if c == ')' {
            lex_cons(TokenModel::RParen, spec_lex(s, i + 1))
        } else if c == ',' {
            lex_cons(TokenModel::Comma, spec_lex(s, i + 1))
        } else if c == ':' {
            lex_cons(TokenModel::Colon, spec_lex(s, i + 1))
        } else if c == '<' {
            lex_cons(TokenModel::Lt, spec_lex(s, i + 1))
        } else if c == '>' {
            lex_cons(TokenModel::Gt, spec_lex(s, i + 1))
        } else if c == '=' {
            lex_cons(TokenModel::Assign, spec_lex(s, i + 1))
        } else if c == '"' {
            let e = scan_from(s, i + 1, class_pred(0));
            if e >= s.len() {
                Err(LexError::UnterminatedString)
            } else {
                lex_cons(TokenModel::StringLit(s.subrange(i + 1, e)), spec_lex(s, e + 1))
            }
        } else if is_digit_char(c) {
            let e = scan_from(s, i + 1, class_pred(1));
            match spec_parse_number(s.subrange(i, e)) {
                Some(u) => lex_cons(TokenModel::NumberLit(u), spec_lex(s, e)),
                None => Err(LexError::MalformedNumber),
            }
        } else if c == '-' {
            if i + 1 < s.len() && s[i + 1] == '>' {
                lex_cons(TokenModel::Arrow, spec_lex(s, i + 2))
            } else {
                spec_lex(s, i + 1)
            }
        } else if c == '_' {
            let e = scan_from(s, i + 1, class_pred(2));
            lex_cons(classify_underscore_word(s.subrange(i, e)), spec_lex(s, e))
        } else if is_letter_char(c) {
            let e = scan_from(s, i + 1, class_pred(2));
            lex_cons(classify_word(s.subrange(i, e)), spec_lex(s, e))
        } else {
            spec_lex(s, i + 1)
        }
    }
}

/// Tokens already produced, prefixed onto the outcome of the rest.
pub open spec fn lex_prepend(ts: Seq<TokenModel>, r: Result<Seq<TokenModel>, LexError>) -> Result<
    Seq<TokenModel>,
    LexError,
> {
    match r {
        Ok(rest) => Ok(ts + rest),
        Err(e) => Err(e),
    }
}

proof fn lemma_prepend_push(
    before: Seq<Token>,
    after: Seq<Token>,
    r: Result<Seq<TokenModel>, LexError>,
)
    requires
        after == before.push(after.last()),
    ensures
        lex_prepend(token_models(before), lex_cons(after.last()@, r)) == lex_prepend(
            token_models(after),
            r,
        ),
{
    assert(token_models(after) =~= token_models(before).push(after.last()@));
    match r {
        Ok(rest) => {
            assert(token_models(before) + (seq![after.last()@] + rest) =~= token_models(
                before,
            ).push(after.last()@) + rest);
        },
        Err(_) => {},
    }
}

/// The lexer: the source characters and the scan position.
/// The run of characters satisfying `cond` from `from` on, and its end.
fn consume_run<F: Fn(char) -> bool>(input: &Vec<char>, from: usize, cond: F) -> (r: (
    String,
    usize,
))
    requires
        from <= input@.len(),
        forall|c: char| #[trigger] cond.requires((c,)),
    ensures
        from <= r.1 <= input@.len(),
        r.0@ == input@.subrange(from as int, r.1 as int),
        forall|j: int| from <= j < r.1 ==> cond.ensures((input@[j],), true),
        r.1 < input@.len() ==> cond.ensures((input@[r.1 as int],), false),
{
    let mut out: Vec<char> = Vec::new();
    let mut i: usize = from;
    let ghost start = i as int;
    loop
        invariant_except_break
            start <= i as int <= input@.len(),
            start == from,
            forall|c: char| #[trigger] cond.requires((c,)),
            out@ == input@.subrange(start, i as int),
            forall|j: int| start <= j < i as int ==> cond.ensures((input@[j],), true),
        ensures
            start <= i as int <= input@.len(),
            out@ == input@.subrange(start, i as int),
            forall|j: int| start <= j < i as int ==> cond.ensures((input@[j],), true),
            i < input@.len() ==> cond.ensures((input@[i as int],), false),
        decreases input@.len() - i,
    {
        if i >= input.len() {
            break ;
        }
        let c = input[i];
        let keep = cond(c);
        if !keep {
            break ;
        }
        out.push(c);
        i = i + 1;
        proof {
            assert(out@ =~= input@.subrange(start, i as int));
        }
    }
    (crate::text::string_from_chars(&out), i)
}

/// The run of characters of one scanner class from `from` on, and its end.
fn scan_run(input: &Vec<char>, from: usize, class: u8) -> (r: (String, usize))
    requires
        from <= input@.len(),
        class < 3,
    ensures
        from <= r.1 <= input@.len(),
        r.1 as int == scan_end(input@, from as int, class_pred(class)),
        r.0@ == input@.subrange(from as int, r.1 as int),
{
    let ghost p = class_pred(class);
    let mut out: Vec<char> = Vec::new();
    let mut i: usize = from;
    let ghost start = i as int;
    loop
        invariant_except_break
            start <= i as int <= input@.len(),
            start == from,
            class < 3,
            p == class_pred(class),
            out@ == input@.subrange(start, i as int),
            forall|j: int| start <= j < i as int ==> p(input@[j]),
        ensures
            start <= i as int <= input@.len(),
            out@ == input@.subrange(start, i as int),
            forall|j: int| start <= j < i as int ==> p(input@[j]),
            i < input@.len() ==> !p(input@[i as int]),
        decreases input@.len() - i,
    {
        if i >= input.len() {
            break ;
        }
        let c = input[i];
        let keep: bool = if class == 0 {
            c != '"'
        } else if class == 1 {
            crate::numbers::digit_value(c).is_some() || c == '.'
        } else {
            let u = c as u32;
            (97 <= u && u <= 122) || (65 <= u && u <= 90) || crate::numbers::digit_value(
                c,
            ).is_some() || c == '_'
        };
        proof {
            assert(keep == p(input@[i as int]));
        }
        if !keep {
            break ;
        }
        out.push(c);
        i = i + 1;
        proof {
            assert(out@ =~= input@.subrange(start, i as int));
        }
    }
    proof {
        lemma_scan_end_is(input@, start, p, i as int);
    }
    (crate::text::string_from_chars(&out), i)
}

/// Classify a scanned word that began with a letter.
fn classify_letter_word(w: &String) -> (r: Token)
    ensures
        r@ == classify_word(w@),
{
    let s = w.as_str();
    if crate::text::str_eq(s, "import") {
        Token::Import
    } else if crate::text::str_eq(s, "from") {
        Token::From
    } else if crate::text::str_eq(s, "if") {
        Token::If
    } else if crate::text::str_eq_chars(s, &vec!['t', 'h', 'e', 'n']) {
        Token::Then
    } else if crate::text::str_eq(s, "otherwise") {
        Token::Otherwise
    } else if crate::text::str_eq(s, "run") {
        Token::Run
    } else if crate::text::str_eq(s, "ret") {
        Token::Ret
    } else if crate::text::str_eq(s, "plus") || crate::text::str_eq(s, "and")
        || crate::text::str_eq(s, "same") || crate::text::str_eq(s, "not") {
        Token::Operator(w.clone())
    } else if crate::text::str_eq(s, "true") {
        Token::BoolLit(true)
    } else if crate::text::str_eq(s, "false") {
        Token::BoolLit(false)
    } else {
        Token::Identifier(w.clone())
    }
}

/// Classify a scanned word that began with an underscore.
fn classify_underscore_token(w: &String) -> (r: Token)
    ensures
        r@ == classify_underscore_word(w@),
{
    let s = w.as_str();
    if crate::text::str_eq(s, "__fn") {
        Token::FnStart
    } else if crate::text::str_eq(s, "__") {
        Token::BlockEnd
    } else {
        Token::Identifier(w.clone())
    }
}

/// Scans the input into tokens from `start` on, ending with `Eof`, or stops
/// at the first fatal condition.
#[verifier::rlimit(100)]
fn lex_from(input: &Vec<char>, start: usize) -> (r: Result<Vec<Token>, LexError>)
    requires
        start <= input@.len(),
    ensures
        match r {
            Ok(ts) => spec_lex(input@, start as int) == Ok::<Seq<TokenModel>, LexError>(
                token_models(ts@),
            ),
            Err(e) => spec_lex(input@, start as int) == Err::<Seq<TokenModel>, LexError>(e),
        },
{
    let mut tokens: Vec<Token> = Vec::new();
    let mut pos: usize = start;
    while pos < input.len()
        invariant
            start <= pos <= input@.len(),
            lex_prepend(token_models(tokens@), spec_lex(input@, pos as int)) == spec_lex(
                input@,
                start as int,
            ),
        decreases input@.len() - pos,
    {
        let ghost p = pos as int;
        let c = input[pos];
        if c == ' ' || c == '\t' || c == '\n' || c == '\r' {
            pos = pos + 1;
            proof {
                assert(spec_lex(input@, p) == spec_lex(input@, pos as int));
            }
        } else if c == '(' {
            let ghost before = tokens@;
            tokens.push(Token::LParen);
            pos = pos + 1;
            proof {
                assert(spec_lex(input@, p) == lex_cons(tokens@.last()@, spec_lex(input@, pos as int)));
                lemma_prepend_push(before, tokens@, spec_lex(input@, pos as int));
            }
        } else if c == ')' {
            let ghost before = tokens@;
            tokens.push(Token::RParen);
            pos = pos + 1;
            proof {
                assert(spec_lex(input@, p) == lex_cons(tokens@.last()@, spec_lex(input@, pos as int)));
                lemma_prepend_push(before, tokens@, spec_lex(input@, pos as int));
            }
        } else if c == ',' {
            let ghost before = tokens@;
            tokens.push(Token::Comma);
            pos = pos + 1;
            proof {
                assert(spec_lex(input@, p) == lex_cons(tokens@.last()@, spec_lex(input@, pos as int)));
                lemma_prepend_push(before, tokens@, spec_lex(input@, pos as int));
            }
        } else if c == ':' {
            let ghost before = tokens@;
            tokens.push(Token::Colon);
            pos = pos + 1;
            proof {
                assert(spec_lex(input@, p) == lex_cons(tokens@.last()@, spec_lex(input@, pos as int)));
                lemma_prepend_push(before, tokens@, spec_lex(input@, pos as int));
            }
        } else if c == '<' {
            let ghost before = tokens@;
            tokens.push(Token::Lt);
            pos = pos + 1;
            proof {
                assert(spec_lex(input@, p) == lex_cons(tokens@.last()@, spec_lex(input@, pos as int)));
                lemma_prepend_push(before, tokens@, spec_lex(input@, pos as int));
            }
        } else if c == '>' {
            let ghost before = tokens@;
            tokens.push(Token::Gt);
            pos = pos + 1;
            proof {
                assert(spec_lex(input@, p) == lex_cons(tokens@.last()@, spec_lex(input@, pos as int)));
                lemma_prepend_push(before, tokens@, spec_lex(input@, pos as int));
            }
        } else if c == '=' {
            let ghost before = tokens@;
            tokens.push(Token::Assign);
            pos = pos + 1;
            proof {
                assert(spec_lex(input@, p) == lex_cons(tokens@.last()@, spec_lex(input@, pos as int)));
                lemma_prepend_push(before, tokens@, spec_lex(input@, pos as int));
            }
        } else if c == '"' {
            let scanned = scan_run(input, pos + 1, 0);
            let text = scanned.0;
            let end = scanned.1;
            proof {
                lemma_scan_end_bounds(input@, p + 1, class_pred(0));
            }
            if end < input.len() {
                let ghost before = tokens@;
                tokens.push(Token::StringLit(text));
                pos = end + 1;
                proof {
                    assert(spec_lex(input@, p) == lex_cons(
                        tokens@.last()@,
                        spec_lex(input@, pos as int),
                    ));
                    lemma_prepend_push(before, tokens@, spec_lex(input@, pos as int));
                }
            } else {
                return Err(LexError::UnterminatedString);
            }
        } else if crate::numbers::digit_value(c).is_some() {
            let scanned = scan_run(input, pos + 1, 1);
            let end = scanned.1;
            proof {
                assert(class_pred(1)(input@[p]));
                lemma_scan_end_bounds(input@, p + 1, class_pred(1));
            }
            let mut word: Vec<char> = Vec::new();
            word.push(c);
            let text_rest = scanned.0;
            let text = crate::text::string_from_chars(&word).concat(text_rest.as_str());
            proof {
                assert(text@ =~= input@.subrange(p, end as int));
            }
            match crate::numbers::parse_number(text.as_str()) {
                Some(u) => {
                    let ghost before = tokens@;
                    tokens.push(Token::NumberLit(u));
                    pos = end;
                    proof {
                        assert(spec_lex(input@, p) == lex_cons(
                            tokens@.last()@,
                            spec_lex(input@, pos as int),
                        ));
                        lemma_prepend_push(before, tokens@, spec_lex(input@, pos as int));
                    }
                },
                None => {
                    return Err(LexError::MalformedNumber);
                },
            }
        } else if c == '-' {
            pos = pos + 1;
            proof {
                if !(p + 1 < input@.len() && input@[p + 1] == '>') {
                    assert(spec_lex(input@, p) == spec_lex(input@, p + 1));
                }
            }
            if pos < input.len() {
                let nc = input[pos];
                if nc == '>' {
                    let ghost before = tokens@;
                    pos = pos + 1;
                    tokens.push(Token::Arrow);
                    proof {
                        assert(spec_lex(input@, p) == lex_cons(
                            tokens@.last()@,
                            spec_lex(input@, pos as int),
                        ));
                        lemma_prepend_push(before, tokens@, spec_lex(input@, pos as int));
                    }
                }
            }
        } else if c == '_' {
            let scanned = scan_run(input, pos + 1, 2);
            let end = scanned.1;
            proof {
                assert(class_pred(2)(input@[p]));
                lemma_scan_end_bounds(input@, p + 1, class_pred(2));
            }
            let mut word: Vec<char> = Vec::new();
            word.push(c);
            let text_rest = scanned.0;
            let text = crate::text::string_from_chars(&word).concat(text_rest.as_str());
            proof {
                assert(text@ =~= input@.subrange(p, end as int));
            }
            let tok = classify_underscore_token(&text);
            let ghost before = tokens@;
            tokens.push(tok);
            pos = end;
            proof {
                assert(spec_lex(input@, p) == lex_cons(
                    tokens@.last()@,
                    spec_lex(input@, pos as int),
                ));
                lemma_prepend_push(before, tokens@, spec_lex(input@, pos as int));
            }
        } else if (c as u32 >= 97 && c as u32 <= 122) || (c as u32 >= 65 && c as u32 <= 90) {
            let scanned = scan_run(input, pos + 1, 2);
            let end = scanned.1;
            proof {
                assert(class_pred(2)(input@[p]));
                lemma_scan_end_bounds(input@, p + 1, class_pred(2));
            }
            let mut word: Vec<char> = Vec::new();
            word.push(c);
            let text_rest = scanned.0;
            let text = crate::text::string_from_chars(&word).concat(text_rest.as_str());
            proof {
                assert(text@ =~= input@.subrange(p, end as int));
            }
            let tok = classify_letter_word(&text);
            let ghost before = tokens@;
            tokens.push(tok);
            pos = end;
            proof {
                assert(spec_lex(input@, p) == lex_cons(
                    tokens@.last()@,
                    spec_lex(input@, pos as int),
                ));
                lemma_prepend_push(before, tokens@, spec_lex(input@, pos as int));
            }
        } else {
            pos = pos + 1;
            proof {
                assert(spec_lex(input@, p) == spec_lex(input@, pos as int));
            }
        }
    }
    let ghost before = tokens@;
    tokens.push(Token::Eof);
    proof {
        assert(spec_lex(input@, pos as int) == Ok::<Seq<TokenModel>, LexError>(
            seq![TokenModel::Eof],
        ));
        assert(token_models(tokens@) =~= token_models(before) + seq![TokenModel::Eof]);
    }
    Ok(tokens)
}


/// The lexer: the source characters and the scan position.
pub struct Lexer {
    pub input: Vec<char>,
    pub pos: usize,
}

impl Lexer {
    pub fn new(input: &str) -> (r: Self)
        ensures
            r.input@ == input@,
            r.pos == 0,
    {
        Lexer { input: crate::text::chars_of_str(input), pos: 0 }
    }

    pub fn peek(&self) -> (r: Option<char>)
        ensures
            r == (if self.pos < self.input@.len() {
                Some(self.input@[self.pos as int])
            } else {
                Option::<char>::None
            }),
    {
        if self.pos < self.input.len() {
            Some(self.input[self.pos])
        } else {
            None
        }
    }

    pub fn advance(&mut self) -> (r: Option<char>)
        ensures
            final(self).input@ == old(self).input@,
            old(self).pos < old(self).input@.len() ==> final(self).pos == old(self).pos + 1 && r
                == Some(old(self).input@[old(self).pos as int]),
            old(self).pos >= old(self).input@.len() ==> final(self).pos == old(self).pos && r
                is None,
    {
        if self.pos < self.input.len() {
            let c = self.input[self.pos];
            self.pos = self.pos + 1;
            Some(c)
        } else {
            None
        }
    }

    /// Consumes the run of characters satisfying `cond` and returns its text.
    pub fn consume_while<F: Fn(char) -> bool>(&mut self, cond: F) -> (r: String)
        requires
            forall|c: char| #[trigger] cond.requires((c,)),
        ensures
            final(self).input@ == old(self).input@,
            old(self).pos > old(self).input@.len() ==> final(self).pos == old(self).pos && r@
                == Seq::<char>::empty(),
            old(self).pos <= old(self).input@.len() ==> {
                &&& old(self).pos <= final(self).pos <= old(self).input@.len()
                &&& r@ == old(self).input@.subrange(old(self).pos as int, final(self).pos as int)
                &&& forall|j: int|
                    old(self).pos <= j < final(self).pos ==> cond.ensures(
                        (old(self).input@[j],),
                        true,
                    )
                &&& final(self).pos < old(self).input@.len() ==> cond.ensures(
                    (old(self).input@[final(self).pos as int],),
                    false,
                )
            },
    {
        if self.pos > self.input.len() {
            return String::new();
        }
        let run = consume_run(&self.input, self.pos, cond);
        self.pos = run.1;
        run.0
    }

    /// Scans the whole remaining input into tokens, ending with `Eof`, or
    /// stops at the first fatal condition.
    pub fn tokenize(&mut self) -> (r: Result<Vec<Token>, LexError>)
        ensures
            final(self).input@ == old(self).input@,
            old(self).pos <= old(self).input@.len() ==> match r {
                Ok(ts) => spec_lex(old(self).input@, old(self).pos as int) == Ok::<
                    Seq<TokenModel>,
                    LexError,
                >(token_models(ts@)),
                Err(e) => spec_lex(old(self).input@, old(self).pos as int) == Err::<
                    Seq<TokenModel>,
                    LexError,
                >(e),
            },
            old(self).pos > old(self).input@.len() ==> match r {
                Ok(ts) => token_models(ts@) == seq![TokenModel::Eof],
                Err(_) => false,
            },
    {
        if self.pos > self.input.len() {
            let mut tokens: Vec<Token> = Vec::new();
            tokens.push(Token::Eof);
            proof {
                assert(token_models(tokens@) =~= seq![TokenModel::Eof]);
            }
            return Ok(tokens);
        }
        let r = lex_from(&self.input, self.pos);
        self.pos = self.input.len();
        r
    }
}

} // verus!
