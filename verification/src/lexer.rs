//! The scanner: a cursor over one input string that produces one token per
//! call, with one character of lookahead to decide the two-character
//! operators and the end of identifiers and integers.

use vstd::prelude::*;
use vstd::string::StrSliceExecFns;
use crate::text::{
    char_whitespace, digit_val, digit_value, digits_val, is_digit, is_digit_char, is_letter,
    is_letter_char, is_whitespace_char, lemma_digits_val_nonneg, push_char,
};
use crate::token::{classify, lookup_ident, Token, TokenView};

verus! {

// ---------------------------------------------------------------------------
// The mathematical model: what one call to `next_token` does to the
// remaining input.
// ---------------------------------------------------------------------------
/// The input with its maximal whitespace prefix removed.
pub open spec fn skip_ws(s: Seq<char>) -> Seq<char>
    decreases s.len(),
{
    if s.len() > 0 && char_whitespace(s[0]) {
        skip_ws(s.drop_first())
    } else {
        s
    }
}

/// The length of the maximal prefix of letter-class characters.
pub open spec fn letter_run(s: Seq<char>) -> nat
    decreases s.len(),
{
    if s.len() > 0 && is_letter_char(s[0]) {
        (1 + letter_run(s.drop_first())) as nat
    } else {
        0
    }
}

/// The length of the maximal prefix of decimal digits.
pub open spec fn digit_run(s: Seq<char>) -> nat
    decreases s.len(),
{
    if s.len() > 0 && is_digit_char(s[0]) {
        (1 + digit_run(s.drop_first())) as nat
    } else {
        0
    }
}

/// The length of the maximal prefix free of double quotes: the body of a
/// string literal whose opening quote is already consumed.
pub open spec fn quote_free_run(s: Seq<char>) -> nat
    decreases s.len(),
{
    if s.len() > 0 && s[0] != '"' {
        (1 + quote_free_run(s.drop_first())) as nat
    } else {
        0
    }
}

/// The token found at the front of an input that carries no leading
/// whitespace, together with the input left after it.
pub open spec fn token_at(s: Seq<char>) -> (TokenView, Seq<char>) {
    if s.len() == 0 {
        (TokenView::Eof, s)
    } else {
        let c = s[0];
        if c == '=' {
            if s.len() >= 2 && s[1] == '=' {
                (TokenView::Equal, s.skip(2))
            } else {
                (TokenView::Assign, s.skip(1))
            }
        } else if c == '!' {
            if s.len() >= 2 && s[1] == '=' {
                (TokenView::NotEqual, s.skip(2))
            } else {
                (TokenView::Bang, s.skip(1))
            }
        } else if c == '+' {
            (TokenView::Plus, s.skip(1))
        } else if c == '-' {
            (TokenView::Minus, s.skip(1))
        } else if c == '*' {
            (TokenView::Asterisk, s.skip(1))
        } else if c == '/' {
            (TokenView::Slash, s.skip(1))
        } else if c == '<' {
            (TokenView::Lt, s.skip(1))
        } else if c == '>' {
            (TokenView::Gt, s.skip(1))
        } else if c == ',' {
            (TokenView::Comma, s.skip(1))
        } else if c == ';' {
            (TokenView::Semicolon, s.skip(1))
        } else if c == ':' {
            (TokenView::Colon, s.skip(1))
        } else if c == '(' {
            (TokenView::LParen, s.skip(1))
        } else if c == ')' {
            (TokenView::RParen, s.skip(1))
        } else if c == '{' {
            (TokenView::LBrace, s.skip(1))
        } else if c == '}' {
            (TokenView::RBrace, s.skip(1))
        } else if c == '[' {
            (TokenView::LBracket, s.skip(1))
        } else if c == ']' {
            (TokenView::RBracket, s.skip(1))
        } else if is_digit_char(c) {
            let n = digit_run(s) as int;
            let v = digits_val(s.take(n));
            if v <= i64::MAX {
                (TokenView::Int(v), s.skip(n))
            } else {
                (TokenView::Illegal, s.skip(n))
            }
        } else if c == '"' {
            let body = s.drop_first();
            let n = quote_free_run(body) as int;
            let rest = if n < body.len() {
                body.skip(n + 1)
            } else {
                body.skip(n)
            };
            (TokenView::Str(body.take(n)), rest)
        } else if is_letter_char(c) {
            let n = letter_run(s) as int;
            (classify(s.take(n)), s.skip(n))
        } else {
            (TokenView::Illegal, s.skip(1))
        }
    }
}

/// One whole scanning step: skip whitespace, then read the token at the
/// front. The pair holds the token and the input left after it.
pub open spec fn scan(s: Seq<char>) -> (TokenView, Seq<char>) {
    token_at(skip_ws(s))
}

// ---------------------------------------------------------------------------
// Facts about the maximal runs, used by the scanning loops and the laws.
// ---------------------------------------------------------------------------
/// The letter run is the maximal prefix of letters: every character in it is
/// a letter and the character after it, if any, is not.
pub proof fn lemma_letter_run(s: Seq<char>)
    ensures
        letter_run(s) <= s.len(),
        forall|i: int| 0 <= i < letter_run(s) ==> is_letter_char(#[trigger] s[i]),
        letter_run(s) < s.len() ==> !is_letter_char(s[letter_run(s) as int]),
    decreases s.len(),
{
    if s.len() > 0 && is_letter_char(s[0]) {
        lemma_letter_run(s.drop_first());
        assert forall|i: int| 0 <= i < letter_run(s) implies is_letter_char(#[trigger] s[i]) by {
            if i > 0 {
                assert(s[i] == s.drop_first()[i - 1]);
            }
        }
    }
}

/// A prefix of letters bounded by a non-letter (or the end of the input) is
/// the letter run.
pub proof fn lemma_letter_run_is(s: Seq<char>, k: int)
    requires
        0 <= k <= s.len(),
        forall|i: int| 0 <= i < k ==> is_letter_char(#[trigger] s[i]),
        k < s.len() ==> !is_letter_char(s[k]),
    ensures
        letter_run(s) == k,
    decreases s.len(),
{
    if s.len() > 0 && is_letter_char(s[0]) {
        assert forall|i: int| 0 <= i < k - 1 implies is_letter_char(
            #[trigger] s.drop_first()[i],
        ) by {
            assert(s.drop_first()[i] == s[i + 1]);
        }
        if k - 1 < s.drop_first().len() {
            assert(s.drop_first()[k - 1] == s[k]);
        }
        lemma_letter_run_is(s.drop_first(), k - 1);
    }
}

/// The digit run is the maximal prefix of digits.
pub proof fn lemma_digit_run(s: Seq<char>)
    ensures
        digit_run(s) <= s.len(),
        forall|i: int| 0 <= i < digit_run(s) ==> is_digit_char(#[trigger] s[i]),
        digit_run(s) < s.len() ==> !is_digit_char(s[digit_run(s) as int]),
    decreases s.len(),
{
    if s.len() > 0 && is_digit_char(s[0]) {
        lemma_digit_run(s.drop_first());
        assert forall|i: int| 0 <= i < digit_run(s) implies is_digit_char(#[trigger] s[i]) by {
            if i > 0 {
                assert(s[i] == s.drop_first()[i - 1]);
            }
        }
    }
}

/// A prefix of digits bounded by a non-digit (or the end of the input) is
/// the digit run.
pub proof fn lemma_digit_run_is(s: Seq<char>, k: int)
    requires
        0 <= k <= s.len(),
        forall|i: int| 0 <= i < k ==> is_digit_char(#[trigger] s[i]),
        k < s.len() ==> !is_digit_char(s[k]),
    ensures
        digit_run(s) == k,
    decreases s.len(),
{
    if s.len() > 0 && is_digit_char(s[0]) {
        assert forall|i: int| 0 <= i < k - 1 implies is_digit_char(
            #[trigger] s.drop_first()[i],
        ) by {
            assert(s.drop_first()[i] == s[i + 1]);
        }
        if k - 1 < s.drop_first().len() {
            assert(s.drop_first()[k - 1] == s[k]);
        }
        lemma_digit_run_is(s.drop_first(), k - 1);
    }
}

/// The quote-free run is the maximal prefix without a double quote.
pub proof fn lemma_quote_free_run(s: Seq<char>)
    ensures
        quote_free_run(s) <= s.len(),
        forall|i: int| 0 <= i < quote_free_run(s) ==> #[trigger] s[i] != '"',
        quote_free_run(s) < s.len() ==> s[quote_free_run(s) as int] == '"',
    decreases s.len(),
{
    if s.len() > 0 && s[0] != '"' {
        lemma_quote_free_run(s.drop_first());
        assert forall|i: int| 0 <= i < quote_free_run(s) implies #[trigger] s[i] != '"' by {
            if i > 0 {
                assert(s[i] == s.drop_first()[i - 1]);
            }
        }
    }
}

/// A quote-free prefix bounded by a quote (or the end of the input) is the
/// quote-free run.
pub proof fn lemma_quote_free_run_is(s: Seq<char>, k: int)
    requires
        0 <= k <= s.len(),
        forall|i: int| 0 <= i < k ==> #[trigger] s[i] != '"',
        k < s.len() ==> s[k] == '"',
    ensures
        quote_free_run(s) == k,
    decreases s.len(),
{
    if s.len() > 0 && s[0] != '"' {
        assert forall|i: int| 0 <= i < k - 1 implies #[trigger] s.drop_first()[i] != '"' by {
            assert(s.drop_first()[i] == s[i + 1]);
        }
        if k - 1 < s.drop_first().len() {
            assert(s.drop_first()[k - 1] == s[k]);
        }
        lemma_quote_free_run_is(s.drop_first(), k - 1);
    }
}

/// Skipping whitespace never lengthens the input and leaves a suffix whose
/// first character, if any, is not whitespace.
pub proof fn lemma_skip_ws(s: Seq<char>)
    ensures
        skip_ws(s).len() <= s.len(),
        skip_ws(s).len() > 0 ==> !char_whitespace(skip_ws(s)[0]),
        skip_ws(skip_ws(s)) == skip_ws(s),
    decreases s.len(),
{
    if s.len() > 0 && char_whitespace(s[0]) {
        lemma_skip_ws(s.drop_first());
    }
}

// ---------------------------------------------------------------------------
// Laws of the scanner.
// ---------------------------------------------------------------------------
/// A character that alone forms a structural token, or opens one of the
/// two-character operators.
pub open spec fn is_structural_char(c: char) -> bool {
    c == '=' || c == '!' || c == '+' || c == '-' || c == '*' || c == '/' || c == '<' || c == '>'
        || c == ',' || c == ';' || c == ':' || c == '(' || c == ')' || c == '{' || c == '}'
        || c == '[' || c == ']'
}

/// Scanning makes progress and its terminal state is idempotent: every token
/// but end-of-input consumes at least one character, so repeated scanning
/// reaches end-of-input after finitely many calls; end-of-input leaves
/// nothing behind, and the empty input yields end-of-input again, forever.
pub proof fn lemma_scan_progress(s: Seq<char>)
    ensures
        !(scan(s).0 is Eof) ==> scan(s).1.len() < s.len(),
        scan(s).0 is Eof ==> scan(s).1 == Seq::<char>::empty(),
        scan(Seq::<char>::empty()).0 is Eof,
        scan(Seq::<char>::empty()).1 == Seq::<char>::empty(),
{
    lemma_skip_ws(s);
    let t = skip_ws(s);
    if t.len() == 0 {
        assert(t =~= Seq::<char>::empty());
    } else {
        let c = t[0];
        if is_structural_char(c) {
        } else if is_digit_char(c) {
            lemma_digit_run(t);
            assert(digit_run(t) >= 1);
        } else if c == '"' {
            lemma_quote_free_run(t.drop_first());
        } else if is_letter_char(c) {
            lemma_letter_run(t);
            assert(letter_run(t) >= 1);
            lemma_classify_not_eof(t.take(letter_run(t) as int));
        } else {
        }
    }
    assert(skip_ws(Seq::<char>::empty()) =~= Seq::<char>::empty());
}

/// Keyword recognition never yields the end-of-input marker.
proof fn lemma_classify_not_eof(s: Seq<char>)
    ensures
        !(classify(s) is Eof),
{
}

/// Maximal munch for identifiers: when the first significant character is a
/// letter, the scanned token is the classification of the whole maximal
/// letter run, every character of the payload is a letter, and the character
/// after the run — a digit, a symbol, whitespace — is left unconsumed.
pub proof fn lemma_maximal_munch(s: Seq<char>)
    requires
        skip_ws(s).len() > 0,
        is_letter_char(skip_ws(s)[0]),
        !is_structural_char(skip_ws(s)[0]),
        !is_digit_char(skip_ws(s)[0]),
        skip_ws(s)[0] != '"',
    ensures
        ({
            let t = skip_ws(s);
            let n = letter_run(t) as int;
            &&& 1 <= n <= t.len()
            &&& scan(s).0 == classify(t.take(n))
            &&& scan(s).1 == t.skip(n)
            &&& (forall|i: int| 0 <= i < n ==> is_letter_char(#[trigger] t[i]))
            &&& (n < t.len() ==> !is_letter_char(t[n]))
        }),
{
    lemma_letter_run(skip_ws(s));
}

/// One character of lookahead decides the two-character operators: `==` at
/// the front is one equality token, a lone `=` is one assignment token, and
/// the same split holds for `!=` against `!`.
pub proof fn lemma_two_char_operators(s: Seq<char>)
    ensures
        ({
            let t = skip_ws(s);
            &&& (t.len() >= 2 && t[0] == '=' && t[1] == '=' ==> scan(s) == (
                TokenView::Equal,
                t.skip(2),
            ))
            &&& (t.len() >= 1 && t[0] == '=' && (t.len() == 1 || t[1] != '=') ==> scan(s) == (
                TokenView::Assign,
                t.skip(1),
            ))
            &&& (t.len() >= 2 && t[0] == '!' && t[1] == '=' ==> scan(s) == (
                TokenView::NotEqual,
                t.skip(2),
            ))
            &&& (t.len() >= 1 && t[0] == '!' && (t.len() == 1 || t[1] != '=') ==> scan(s) == (
                TokenView::Bang,
                t.skip(1),
            ))
        }),
{
}

/// A quoted literal comes back as exactly its body: the quotes are dropped,
/// every character between them — spaces included — is kept, and scanning
/// resumes right after the closing quote.
pub proof fn lemma_string_literal(body: Seq<char>, rest: Seq<char>)
    requires
        forall|i: int| 0 <= i < body.len() ==> #[trigger] body[i] != '"',
    ensures
        ({
            let s = seq!['"'] + body + seq!['"'] + rest;
            token_at(s) == (TokenView::Str(body), rest)
        }),
{
    let s = seq!['"'] + body + seq!['"'] + rest;
    let b = s.drop_first();
    assert(b =~= body + seq!['"'] + rest);
    assert forall|i: int| 0 <= i < body.len() implies #[trigger] b[i] != '"' by {
        assert(b[i] == body[i]);
    }
    assert(b[body.len() as int] == '"');
    lemma_quote_free_run_is(b, body.len() as int);
    assert(b.take(body.len() as int) =~= body);
    assert(b.skip(body.len() as int + 1) =~= rest);
}

/// Whitespace-only input — the empty input included — yields end-of-input at
/// once, with nothing consumed but the whitespace itself.
pub proof fn lemma_whitespace_only(s: Seq<char>)
    requires
        forall|i: int| 0 <= i < s.len() ==> char_whitespace(#[trigger] s[i]),
    ensures
        scan(s).0 is Eof,
        scan(s).1 == Seq::<char>::empty(),
    decreases s.len(),
{
    if s.len() > 0 {
        assert forall|i: int|
            0 <= i < s.drop_first().len() implies char_whitespace(
            #[trigger] s.drop_first()[i],
        ) by {
            assert(s.drop_first()[i] == s[i + 1]);
        }
        lemma_whitespace_only(s.drop_first());
    } else {
        assert(skip_ws(s) =~= Seq::<char>::empty());
    }
}

// ---------------------------------------------------------------------------
// The scanner itself.
// ---------------------------------------------------------------------------
/// A cursor over one input string. The position only moves forward; the
/// observable state is the sequence of characters not yet consumed.
pub struct Lexer<'a> {
    input: &'a str,
    pos: usize,
}

impl<'a> View for Lexer<'a> {
    type V = Seq<char>;

    /// The characters not yet consumed.
    closed spec fn view(&self) -> Seq<char> {
        self.input@.skip(self.pos as int)
    }
}

impl<'a> Lexer<'a> {
    /// The cursor never points past the end of the input.
    pub closed spec fn wf(&self) -> bool {
        self.pos <= self.input@.len()
    }

    /// A fresh scanner over one input, with nothing consumed yet.
    pub fn new(input: &'a str) -> (l: Lexer<'a>)
        ensures
            l.wf(),
            l@ == input@,
    {
        let l = Lexer { input, pos: 0 };
        proof {
            assert(l@ =~= input@);
        }
        l
    }

    /// One character of lookahead: the next character, without consuming it.
    pub fn peek_char(&self) -> (r: Option<char>)
        requires
            self.wf(),
        ensures
            r == if self@.len() > 0 {
                Some(self@[0])
            } else {
                None::<char>
            },
    {
        let n = self.input.unicode_len();
        if self.pos < n {
            Some(self.input.get_char(self.pos))
        } else {
            None
        }
    }

    /// Consumes and returns the next character; at the end of the input it
    /// returns nothing and the cursor stays put.
    pub fn read_char(&mut self) -> (r: Option<char>)
        requires
            old(self).wf(),
        ensures
            final(self).wf(),
            r == if old(self)@.len() > 0 {
                Some(old(self)@[0])
            } else {
                None::<char>
            },
            final(self)@ == if old(self)@.len() > 0 {
                old(self)@.drop_first()
            } else {
                old(self)@
            },
    {
        let n = self.input.unicode_len();
        if self.pos < n {
            let c = self.input.get_char(self.pos);
            self.pos = self.pos + 1;
            proof {
                assert(self@ =~= old(self)@.drop_first());
            }
            Some(c)
        } else {
            None
        }
    }

    /// Consumes the maximal run of leading whitespace, emitting nothing.
    pub fn eat_whitespace(&mut self)
        requires
            old(self).wf(),
        ensures
            final(self).wf(),
            final(self)@ == skip_ws(old(self)@),
    {
        loop
            invariant
                self.wf(),
                skip_ws(self@) == skip_ws(old(self)@),
            decreases self@.len(),
        {
            match self.peek_char() {
                Some(c) => {
                    if is_whitespace_char(c) {
                        self.read_char();
                    } else {
                        return ;
                    }
                },
                None => {
                    return ;
                },
            }
        }
    }

    /// Produces the next token and advances the cursor past it: leading
    /// whitespace is skipped, one character decides the token's shape, and
    /// one character of lookahead separates the two-character operators from
    /// `=` and `!` and bounds identifiers and integers. At the end of the
    /// input every call yields the end-of-input marker. The one unrecoverable
    /// spelling, an integer too large for 64 bits, yields the illegal marker
    /// with the whole digit run consumed.
    pub fn next_token(&mut self) -> (t: Token)
        requires
            old(self).wf(),
        ensures
            final(self).wf(),
            ({
                let r = scan(old(self)@);
                t@ == r.0 && final(self)@ == r.1
            }),
    {
        self.eat_whitespace();
        let ghost s = self@;
        match self.read_char() {
            None => Token::EOF,
            Some(c) => {
                proof {
                    assert(c == s[0]);
                    assert(self@ == s.drop_first());
                    assert(s.drop_first() =~= s.skip(1));
                }
                if c == '=' {
                    let next_is_eq = match self.peek_char() {
                        Some(p) => p == '=',
                        None => false,
                    };
                    if next_is_eq {
                        self.read_char();
                        proof {
                            assert(s[1] == '=');
                            assert(self@ =~= s.skip(2));
                        }
                        Token::EQ
                    } else {
                        Token::ASSIGN
                    }
                } else if c == '!' {
                    let next_is_eq = match self.peek_char() {
                        Some(p) => p == '=',
                        None => false,
                    };
                    if next_is_eq {
                        self.read_char();
                        proof {
                            assert(s[1] == '=');
                            assert(self@ =~= s.skip(2));
                        }
                        Token::NEQ
                    } else {
                        Token::BANG
                    }
                } else if c == '+' {
                    Token::PLUS
                } else if c == '-' {
                    Token::MINUS
                } else if c == '*' {
                    Token::ASTERISK
                } else if c == '/' {
                    Token::SLASH
                } else if c == '<' {
                    Token::LT
                } else if c == '>' {
                    Token::GT
                } else if c == ',' {
                    Token::COMMA
                } else if c == ';' {
                    Token::SEMICOLON
                } else if c == ':' {
                    Token::COLON
                } else if c == '(' {
                    Token::LPAREN
                } else if c == ')' {
                    Token::RPAREN
                } else if c == '{' {
                    Token::LBRACE
                } else if c == '}' {
                    Token::RBRACE
                } else if c == '[' {
                    Token::LBRACKET
                } else if c == ']' {
                    Token::RBRACKET
                } else if is_digit(c) {
                    let ghost n = digit_run(s) as int;
                    proof {
                        lemma_digit_run(s);
                        assert(digit_run(s) == 1 + digit_run(s.drop_first()));
                        assert(seq![c] + s.drop_first().take(n - 1) =~= s.take(n));
                        assert(s.drop_first().skip(n - 1) =~= s.skip(n));
                        lemma_digits_val_nonneg(s.take(n));
                    }
                    match self.read_int(c) {
                        Some(v) => Token::INT(v),
                        None => Token::ILLEGAL,
                    }
                } else if c == '"' {
                    Token::STRING(self.read_string())
                } else if is_letter(c) {
                    let ghost n = letter_run(s) as int;
                    proof {
                        lemma_letter_run(s);
                        assert(letter_run(s) == 1 + letter_run(s.drop_first()));
                        assert(seq![c] + s.drop_first().take(n - 1) =~= s.take(n));
                        assert(s.drop_first().skip(n - 1) =~= s.skip(n));
                    }
                    let ident = self.read_identifier(c);
                    lookup_ident(ident)
                } else {
                    Token::ILLEGAL
                }
            },
        }
    }

    /// Greedily consumes the maximal run of letter-class characters and
    /// returns it appended to `ch`, the character the caller consumed first.
    /// The trailing character that ends the run is left unconsumed.
    pub fn read_identifier(&mut self, ch: char) -> (r: String)
        requires
            old(self).wf(),
        ensures
            final(self).wf(),
            r@ == seq![ch] + old(self)@.take(letter_run(old(self)@) as int),
            final(self)@ == old(self)@.skip(letter_run(old(self)@) as int),
    {
        let ghost s0 = self@;
        let ghost mut k: int = 0;
        let mut ident = String::new();
        push_char(&mut ident, ch);
        proof {
            assert(ident@ =~= seq![ch] + s0.take(0));
        }
        loop
            invariant
                s0 == old(self)@,
                self.wf(),
                0 <= k <= s0.len(),
                self@ == s0.skip(k),
                ident@ == seq![ch] + s0.take(k),
                forall|i: int| 0 <= i < k ==> is_letter_char(#[trigger] s0[i]),
            decreases s0.len() - k,
        {
            match self.peek_char() {
                Some(c) => {
                    proof {
                        assert(c == s0[k]);
                    }
                    if is_letter(c) {
                        self.read_char();
                        push_char(&mut ident, c);
                        proof {
                            assert(s0.skip(k).drop_first() =~= s0.skip(k + 1));
                            assert((seq![ch] + s0.take(k)).push(c) =~= seq![ch] + s0.take(k + 1));
                            k = k + 1;
                        }
                    } else {
                        proof {
                            lemma_letter_run_is(s0, k);
                        }
                        return ident;
                    }
                },
                None => {
                    proof {
                        lemma_letter_run_is(s0, k);
                    }
                    return ident;
                },
            }
        }
    }

    /// Greedily consumes the maximal run of decimal digits and parses `ch`
    /// followed by that run as a 64-bit signed integer. A value too large to
    /// represent yields nothing; the digits are consumed either way.
    pub fn read_int(&mut self, ch: char) -> (r: Option<i64>)
        requires
            old(self).wf(),
            is_digit_char(ch),
        ensures
            final(self).wf(),
            final(self)@ == old(self)@.skip(digit_run(old(self)@) as int),
            ({
                let v = digits_val(seq![ch] + old(self)@.take(digit_run(old(self)@) as int));
                r == if v <= i64::MAX {
                    Some(v as i64)
                } else {
                    None::<i64>
                }
            }),
    {
        let ghost s0 = self@;
        let ghost mut k: int = 0;
        let mut acc: i64 = digit_value(ch);
        let mut overflow: bool = false;
        proof {
            assert(seq![ch] + s0.take(0) =~= seq![ch]);
            assert(seq![ch].drop_last() =~= Seq::<char>::empty());
            assert(digits_val(Seq::<char>::empty()) == 0);
            assert(digits_val(seq![ch]) == digit_val(ch));
        }
        loop
            invariant
                s0 == old(self)@,
                self.wf(),
                0 <= k <= s0.len(),
                self@ == s0.skip(k),
                forall|i: int| 0 <= i < k ==> is_digit_char(#[trigger] s0[i]),
                !overflow ==> 0 <= acc == digits_val(seq![ch] + s0.take(k)),
                overflow ==> digits_val(seq![ch] + s0.take(k)) > i64::MAX,
            decreases s0.len() - k,
        {
            match self.peek_char() {
                Some(c) => {
                    proof {
                        assert(c == s0[k]);
                    }
                    if is_digit(c) {
                        self.read_char();
                        let ghost ds = seq![ch] + s0.take(k);
                        proof {
                            assert(s0.skip(k).drop_first() =~= s0.skip(k + 1));
                            assert((seq![ch] + s0.take(k + 1)).drop_last() =~= ds);
                            assert((seq![ch] + s0.take(k + 1)).last() == c);
                            assert(digits_val(seq![ch] + s0.take(k + 1)) == digits_val(ds) * 10
                                + digit_val(c));
                        }
                        let d = digit_value(c);
                        if !overflow {
                            match acc.checked_mul(10) {
                                Some(m) => match m.checked_add(d) {
                                    Some(x) => {
                                        acc = x;
                                    },
                                    None => {
                                        overflow = true;
                                    },
                                },
                                None => {
                                    overflow = true;
                                },
                            }
                        }
                        proof {
                            if overflow {
                                assert(digits_val(ds) >= 0);
                                assert(digits_val(ds) * 10 >= digits_val(ds)) by (nonlinear_arith)
                                    requires digits_val(ds) >= 0;
                                assert(digits_val(seq![ch] + s0.take(k + 1)) > i64::MAX);
                            }
                            k = k + 1;
                        }
                    } else {
                        proof {
                            lemma_digit_run_is(s0, k);
                        }
                        return if overflow {
                            None
                        } else {
                            Some(acc)
                        };
                    }
                },
                None => {
                    proof {
                        lemma_digit_run_is(s0, k);
                    }
                    return if overflow {
                        None
                    } else {
                        Some(acc)
                    };
                },
            }
        }
    }

    /// Consumes characters up to and including the next double quote and
    /// returns those before it: the body of a string literal whose opening
    /// quote is already consumed. An unterminated literal consumes to the end
    /// of the input and returns what accumulated, with no closing quote to
    /// drop.
    pub fn read_string(&mut self) -> (r: String)
        requires
            old(self).wf(),
        ensures
            final(self).wf(),
            r@ == old(self)@.take(quote_free_run(old(self)@) as int),
            final(self)@ == ({
                let n = quote_free_run(old(self)@) as int;
                if n < old(self)@.len() {
                    old(self)@.skip(n + 1)
                } else {
                    old(self)@.skip(n)
                }
            }),
    {
        let ghost s0 = self@;
        let ghost mut k: int = 0;
        let mut body = String::new();
        loop
            invariant
                s0 == old(self)@,
                self.wf(),
                0 <= k <= s0.len(),
                self@ == s0.skip(k),
                body@ == s0.take(k),
                forall|i: int| 0 <= i < k ==> #[trigger] s0[i] != '"',
            decreases s0.len() - k,
        {
            match self.read_char() {
                Some(c) => {
                    proof {
                        assert(c == s0[k]);
                        assert(s0.skip(k).drop_first() =~= s0.skip(k + 1));
                    }
                    if c == '"' {
                        proof {
                            lemma_quote_free_run_is(s0, k);
                        }
                        return body;
                    }
                    push_char(&mut body, c);
                    proof {
                        assert(s0.take(k).push(c) =~= s0.take(k + 1));
                        k = k + 1;
                    }
                },
                None => {
                    proof {
                        lemma_quote_free_run_is(s0, k);
                        assert(s0.skip(k) =~= self@);
                    }
                    return body;
                },
            }
        }
    }
}

} // verus!
