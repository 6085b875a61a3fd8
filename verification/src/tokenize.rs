//! The tokenizer, and the operations that move through the token stream.
use vstd::prelude::*;
use vstd::string::*;
use crate::diag::{CompileError, CompileErrorV, abort, err_at};
use crate::text::{dec_chars, dec_nat, lemma_dec_nat_len, push_char, push_str, str_eq, string_of};
use crate::types::{Ctx, Token, TokenKind, TokenKindV, TokenV, toksv, tokv};

verus! {

//
// the token language
//

pub open spec fn is_digit(c: char) -> bool {
    48 <= (c as u32) <= 57
}

pub open spec fn is_ident1(c: char) -> bool {
    (97 <= (c as u32) <= 122) || (65 <= (c as u32) <= 90) || c == '_'
}

pub open spec fn is_ident2(c: char) -> bool {
    is_ident1(c) || is_digit(c)
}

/// The two-character punctuators.
pub open spec fn is_punct2(a: char, b: char) -> bool {
    ||| (a == '=' && b == '=')
    ||| (a == '!' && b == '=')
    ||| (a == '>' && b == '=')
    ||| (a == '<' && b == '=')
    ||| (a == '&' && b == '&')
    ||| (a == '|' && b == '|')
    ||| (a == '+' && b == '=')
    ||| (a == '-' && b == '=')
    ||| (a == '*' && b == '=')
    ||| (a == '/' && b == '=')
    ||| (a == '%' && b == '=')
    ||| (a == '&' && b == '=')
    ||| (a == '^' && b == '=')
    ||| (a == '|' && b == '=')
    ||| (a == '-' && b == '>')
    ||| (a == '+' && b == '+')
    ||| (a == '-' && b == '-')
}

/// The one-character punctuators.
pub open spec fn is_punct1(c: char) -> bool {
    ||| c == '+'
    ||| c == '-'
    ||| c == '*'
    ||| c == '/'
    ||| c == '('
    ||| c == ')'
    ||| c == '>'
    ||| c == '<'
    ||| c == ';'
    ||| c == '='
    ||| c == '{'
    ||| c == '}'
    ||| c == '&'
    ||| c == ','
    ||| c == '['
    ||| c == ']'
    ||| c == '%'
    ||| c == '^'
    ||| c == '|'
    ||| c == '.'
}

pub open spec fn at2(s: Seq<char>, p: int, a: char, b: char) -> bool {
    p + 2 <= s.len() && s[p] == a && s[p + 1int] == b
}

/// After `//`: the position of the newline that ends the line, or the end
/// of the text.
pub open spec fn line_end(s: Seq<char>, p: nat) -> nat
    decreases s.len() - p,
{
    if p < s.len() && s[p as int] != '\n' {
        line_end(s, p + 1)
    } else {
        p
    }
}

/// After `/*`: the first position from `p` on where `*/` starts, if any.
pub open spec fn comment_end(s: Seq<char>, p: nat) -> Option<nat>
    decreases s.len() - p,
{
    if p >= s.len() {
        None
    } else if at2(s, p as int, '*', '/') {
        Some(p)
    } else {
        comment_end(s, p + 1)
    }
}

/// The end of the run of digits that starts at `p`.
pub open spec fn digits_end(s: Seq<char>, p: nat) -> nat
    decreases s.len() - p,
{
    if p < s.len() && is_digit(s[p as int]) {
        digits_end(s, p + 1)
    } else {
        p
    }
}

/// The end of the identifier characters that start at `p`.
pub open spec fn ident_end(s: Seq<char>, p: nat) -> nat
    decreases s.len() - p,
{
    if p < s.len() && is_ident2(s[p as int]) {
        ident_end(s, p + 1)
    } else {
        p
    }
}

/// The value of a string of decimal digits.
pub open spec fn digits_val(d: Seq<char>) -> nat
    decreases d.len(),
{
    if d.len() == 0 {
        0
    } else {
        digits_val(d.drop_last()) * 10 + ((d.last() as u32) - 48) as nat
    }
}

/// The body of a string literal whose text starts at `p`: the position of the
/// closing quote and the characters before it (an escaped quote `\"` is kept
/// as its two characters); `None` when the input ends first.
pub open spec fn str_body(s: Seq<char>, p: nat) -> Option<(nat, Seq<char>)>
    decreases s.len() - p,
{
    if p >= s.len() {
        None
    } else if s[p as int] == '"' {
        Some((p, Seq::empty()))
    } else if at2(s, p as int, '\\', '"') {
        match str_body(s, p + 2) {
            None => None,
            Some((q, b)) => Some((q, seq!['\\', '"'] + b)),
        }
    } else {
        match str_body(s, p + 1) {
            None => None,
            Some((q, b)) => Some((q, seq![s[p as int]] + b)),
        }
    }
}

pub proof fn lemma_line_end(s: Seq<char>, p: nat)
    requires
        p <= s.len(),
    ensures
        p <= line_end(s, p) <= s.len(),
    decreases s.len() - p,
{
    if p < s.len() && s[p as int] != '\n' {
        lemma_line_end(s, p + 1);
    }
}

pub proof fn lemma_comment_end(s: Seq<char>, p: nat)
    ensures
        comment_end(s, p) matches Some(q) ==> p <= q && q + 2 <= s.len() && at2(s, q as int, '*', '/'),
    decreases s.len() - p,
{
    if p < s.len() && !at2(s, p as int, '*', '/') {
        lemma_comment_end(s, p + 1);
    }
}

pub proof fn lemma_digits_end(s: Seq<char>, p: nat)
    requires
        p <= s.len(),
    ensures
        p <= digits_end(s, p) <= s.len(),
        forall|i: int| p <= i < digits_end(s, p) ==> is_digit(#[trigger] s[i]),
        digits_end(s, p) < s.len() ==> !is_digit(s[digits_end(s, p) as int]),
    decreases s.len() - p,
{
    if p < s.len() && is_digit(s[p as int]) {
        lemma_digits_end(s, p + 1);
    }
}

pub proof fn lemma_ident_end(s: Seq<char>, p: nat)
    requires
        p <= s.len(),
    ensures
        p <= ident_end(s, p) <= s.len(),
        forall|i: int| p <= i < ident_end(s, p) ==> is_ident2(#[trigger] s[i]),
        ident_end(s, p) < s.len() ==> !is_ident2(s[ident_end(s, p) as int]),
    decreases s.len() - p,
{
    if p < s.len() && is_ident2(s[p as int]) {
        lemma_ident_end(s, p + 1);
    }
}

pub proof fn lemma_str_body(s: Seq<char>, p: nat)
    ensures
        str_body(s, p) matches Some((q, b)) ==> p <= q < s.len() && s[q as int] == '"' && b.len()
            == q - p,
    decreases s.len() - p,
{
    if p < s.len() && s[p as int] != '"' {
        if at2(s, p as int, '\\', '"') {
            lemma_str_body(s, p + 2);
        } else {
            lemma_str_body(s, p + 1);
        }
    }
}

pub open spec fn num_tok(val: nat, end: nat) -> TokenV {
    TokenV {
        kind: TokenKindV::Num { val: val as isize },
        start: (end - dec_nat(val).len()) as usize,
        len: dec_nat(val).len() as usize,
    }
}

pub open spec fn cons_tok(
    t: TokenV,
    r: Result<Seq<TokenV>, CompileErrorV>,
) -> Result<Seq<TokenV>, CompileErrorV> {
    match r {
        Ok(ts) => Ok(seq![t] + ts),
        Err(e) => Err(e),
    }
}

pub open spec fn prepend_toks(
    ts: Seq<TokenV>,
    r: Result<Seq<TokenV>, CompileErrorV>,
) -> Result<Seq<TokenV>, CompileErrorV> {
    match r {
        Ok(rest) => Ok(ts + rest),
        Err(e) => Err(e),
    }
}

pub proof fn lemma_prepend_cons(before: Seq<TokenV>, t: TokenV, r: Result<Seq<TokenV>, CompileErrorV>)
    ensures
        prepend_toks(before.push(t), r) == prepend_toks(before, cons_tok(t, r)),
{
    if let Ok(ts) = r {
        assert(before.push(t) + ts =~= before + (seq![t] + ts));
    }
}

pub open spec fn unterminated_comment_err() -> CompileErrorV {
    CompileErrorV::Abort { msg: "unterminated comment"@ }
}

pub open spec fn unterminated_string_err() -> CompileErrorV {
    CompileErrorV::Abort { msg: "unterminated string literal"@ }
}

pub open spec fn number_too_large_err() -> CompileErrorV {
    CompileErrorV::Abort { msg: "number too large"@ }
}

pub open spec fn invalid_input_err(p: nat, c: char) -> CompileErrorV {
    CompileErrorV::AtInput { pos: p as usize, msg: "invalid input: "@.push(c) }
}

/// The tokens of `s` from position `p` on, or the error that stops the
/// tokenizer. Spaces and newlines separate tokens; `//` is skipped together
/// with the rest of its line; `/* ... */` is skipped; then come
/// numbers, two- and one-character punctuators, string literals (their text
/// ends with a NUL character) and identifiers.
pub open spec fn lex_from(s: Seq<char>, p: nat) -> Result<Seq<TokenV>, CompileErrorV>
    decreases s.len() - p,
{
    if p >= s.len() {
        Ok(Seq::empty())
    } else {
        let c = s[p as int];
        if c == ' ' || c == '\n' {
            lex_from(s, p + 1)
        } else if at2(s, p as int, '/', '/') {
            proof {
                lemma_line_end(s, p + 2);
            }
            lex_from(s, line_end(s, p + 2))
        } else if at2(s, p as int, '/', '*') {
            proof {
                lemma_comment_end(s, p + 2);
            }
            match comment_end(s, p + 2) {
                None => Err(unterminated_comment_err()),
                Some(q) => lex_from(s, q + 2),
            }
        } else if is_digit(c) {
            proof {
                lemma_digits_end(s, p);
            }
            let q = digits_end(s, p);
            let v = digits_val(s.subrange(p as int, q as int));
            if v > isize::MAX {
                Err(number_too_large_err())
            } else {
                cons_tok(num_tok(v, q), lex_from(s, q))
            }
        } else if p + 1 < s.len() && is_punct2(c, s[p + 1int]) {
            cons_tok(
                TokenV { kind: TokenKindV::Punct { str: seq![c, s[p + 1int]] }, start: p as usize, len: 2 },
                lex_from(s, p + 2),
            )
        } else if is_punct1(c) {
            cons_tok(
                TokenV { kind: TokenKindV::Punct { str: seq![c] }, start: p as usize, len: 1 },
                lex_from(s, p + 1),
            )
        } else if c == '"' {
            proof {
                lemma_str_body(s, p + 1);
            }
            match str_body(s, p + 1) {
                None => Err(unterminated_string_err()),
                Some((q, b)) => cons_tok(
                    TokenV {
                        kind: TokenKindV::Str { str: b.push('\0') },
                        start: (q + 1 - (b.len() + 1)) as usize,
                        len: (b.len() + 1) as usize,
                    },
                    lex_from(s, q + 1),
                ),
            }
        } else if is_ident1(c) {
            proof {
                lemma_ident_end(s, p);
            }
            let q = ident_end(s, p);
            cons_tok(
                TokenV {
                    kind: TokenKindV::Ident { name: s.subrange(p as int, q as int) },
                    start: p as usize,
                    len: (q - p) as usize,
                },
                lex_from(s, q),
            )
        } else {
            Err(invalid_input_err(p, c))
        }
    }
}

/// The keywords of the language.
pub open spec fn is_keyword(n: Seq<char>) -> bool {
    ||| n == "return"@
    ||| n == "if"@
    ||| n == "else"@
    ||| n == "for"@
    ||| n == "while"@
    ||| n == "int"@
    ||| n == "sizeof"@
    ||| n == "char"@
    ||| n == "struct"@
    ||| n == "union"@
    ||| n == "long"@
    ||| n == "short"@
    ||| n == "typedef"@
    ||| n == "enum"@
}

/// An identifier that is a keyword becomes a keyword token.
pub open spec fn kw_tok(t: TokenV) -> TokenV {
    match t.kind {
        TokenKindV::Ident { name } => if is_keyword(name) {
            TokenV { kind: TokenKindV::Keyword { name }, start: t.start, len: t.len }
        } else {
            t
        },
        _ => t,
    }
}

/// The token is the punctuator or keyword `s`.
pub open spec fn tok_is(t: TokenV, s: Seq<char>) -> bool {
    match t.kind {
        TokenKindV::Punct { str } => str == s,
        TokenKindV::Keyword { name } => name == s,
        _ => false,
    }
}

/// Everything the parser has taken and has still to take, in order.
pub open spec fn stream(c: Ctx) -> Seq<Token> {
    c.consumed_tokens@ + c.tokens@
}

/// Only the tokenizer's position differs.
pub open spec fn same_but_pos(a: Ctx, b: Ctx) -> bool {
    &&& a.input == b.input
    &&& a.tokens == b.tokens
    &&& a.consumed_tokens == b.consumed_tokens
    &&& a.vars == b.vars
    &&& a.gvars == b.gvars
    &&& a.functions == b.functions
    &&& a.cur_func == b.cur_func
    &&& a.cur_file == b.cur_file
}

/// Only the token stream's split into taken and untaken tokens differs.
pub open spec fn same_but_tokens(a: Ctx, b: Ctx) -> bool {
    &&& a.input == b.input
    &&& a.pos == b.pos
    &&& a.vars == b.vars
    &&& a.gvars == b.gvars
    &&& a.functions == b.functions
    &&& a.cur_func == b.cur_func
    &&& a.cur_file == b.cur_file
}

pub open spec fn all_ascii(s: Seq<char>) -> bool {
    forall|i: int| 0 <= i < s.len() ==> (#[trigger] s[i] as u32) < 128
}

//
// reading the source text
//

fn is_digit_char(c: char) -> (r: bool)
    ensures
        r == is_digit(c),
{
    let u = c as u32;
    48 <= u && u <= 57
}

fn is_ident(c: char) -> (r: bool)
    ensures
        r == is_ident1(c),
{
    let u = c as u32;
    (97 <= u && u <= 122) || (65 <= u && u <= 90) || c == '_'
}

fn is_ident2_char(c: char) -> (r: bool)
    ensures
        r == is_ident2(c),
{
    is_ident(c) || is_digit_char(c)
}

fn is_punct2_pair(a: char, b: char) -> (r: bool)
    ensures
        r == is_punct2(a, b),
{
    (a == '=' && b == '=') || (a == '!' && b == '=') || (a == '>' && b == '=') || (a == '<' && b
        == '=') || (a == '&' && b == '&') || (a == '|' && b == '|') || (a == '+' && b == '=') || (a
        == '-' && b == '=') || (a == '*' && b == '=') || (a == '/' && b == '=') || (a == '%' && b
        == '=') || (a == '&' && b == '=') || (a == '^' && b == '=') || (a == '|' && b == '=') || (a
        == '-' && b == '>') || (a == '+' && b == '+') || (a == '-' && b == '-')
}

fn is_punct1_char(c: char) -> (r: bool)
    ensures
        r == is_punct1(c),
{
    c == '+' || c == '-' || c == '*' || c == '/' || c == '(' || c == ')' || c == '>' || c == '<'
        || c == ';' || c == '=' || c == '{' || c == '}' || c == '&' || c == ',' || c == '[' || c
        == ']' || c == '%' || c == '^' || c == '|' || c == '.'
}

pub proof fn lemma_digits_val_push(d: Seq<char>, c: char)
    ensures
        digits_val(d.push(c)) == digits_val(d) * 10 + ((c as u32) - 48) as nat,
{
    assert(d.push(c).drop_last() =~= d);
}

pub proof fn lemma_digits_val_mono(d: Seq<char>, k: int)
    requires
        0 <= k <= d.len(),
        forall|i: int| 0 <= i < d.len() ==> is_digit(#[trigger] d[i]),
    ensures
        digits_val(d.subrange(0, k)) <= digits_val(d),
    decreases d.len() - k,
{
    if k < d.len() {
        lemma_digits_val_mono(d, k + 1);
        let a = d.subrange(0, k);
        assert(d.subrange(0, k + 1) =~= a.push(d[k]));
        lemma_digits_val_push(a, d[k]);
        assert(digits_val(a) <= digits_val(a) * 10) by (nonlinear_arith);
    } else {
        assert(d.subrange(0, k) =~= d);
    }
}

impl Ctx {
    /// A context for compiling `input`, read from the file `cur_file`.
    pub fn new(input: Vec<char>, cur_file: String) -> (c: Ctx)
        ensures
            c.input == input,
            c.pos == 0,
            c.tokens@.len() == 0,
            c.consumed_tokens@.len() == 0,
            c.gvars@.len() == 0,
            c.vars@.len() == 0,
            c.cur_func@ == Seq::<char>::empty(),
            c.cur_file == cur_file,
            c.functions@.len() == 0,
    {
        Ctx {
            input,
            pos: 0,
            tokens: Vec::new(),
            consumed_tokens: Vec::new(),
            gvars: Vec::new(),
            vars: Vec::new(),
            cur_func: String::new(),
            cur_file,
            functions: Vec::new(),
        }
    }

    /// Reads the number at the current position and moves past its digits.
    pub fn parse_and_skip_number(&mut self) -> (r: Result<isize, CompileError>)
        requires
            old(self).pos < old(self).input@.len(),
            is_digit(old(self).input@[old(self).pos as int]),
        ensures
            ({
                let s = old(self).input@;
                let p = old(self).pos as nat;
                let q = digits_end(s, p);
                let v = digits_val(s.subrange(p as int, q as int));
                &&& final(self).pos == q
                &&& match r {
                    Ok(n) => v <= isize::MAX && n == v,
                    Err(e) => v > isize::MAX && e@ == number_too_large_err(),
                }
            }),
            same_but_pos(*final(self), *old(self)),
    {
        let ghost s = self.input@;
        let ghost p = self.pos as nat;
        proof {
            lemma_digits_end(s, p);
        }
        let start = self.pos;
        let mut val: usize = 0;
        let mut big = false;
        while self.pos < self.input.len() && is_digit_char(self.input[self.pos])
            invariant
                self.input@ == s,
                start == p,
                start <= self.pos <= digits_end(s, p),
                digits_end(s, p) == digits_end(s, self.pos as nat),
                same_but_pos(*self, *old(self)),
                !big ==> val == digits_val(s.subrange(p as int, self.pos as int)),
                !big ==> val <= isize::MAX,
                big ==> digits_val(s.subrange(p as int, self.pos as int)) > isize::MAX,
            decreases s.len() - self.pos,
        {
            let c = self.input[self.pos];
            let d = (c as u32 - 48) as usize;
            proof {
                lemma_digits_end(s, (self.pos + 1) as nat);
                assert(s.subrange(p as int, self.pos + 1) =~= s.subrange(p as int, self.pos as int).push(c));
                lemma_digits_val_push(s.subrange(p as int, self.pos as int), c);
            }
            if !big {
                if val > (isize::MAX as usize - d) / 10 {
                    big = true;
                    proof {
                        assert(val * 10 + d > isize::MAX) by (nonlinear_arith)
                            requires val > (isize::MAX as usize - d) / 10, d <= 9;
                    }
                } else {
                    proof {
                        assert(val * 10 + d <= isize::MAX) by (nonlinear_arith)
                            requires val <= (isize::MAX as usize - d) / 10, d <= 9;
                    }
                    val = val * 10 + d;
                }
            } else {
                proof {
                    let a = s.subrange(p as int, self.pos as int);
                    assert(digits_val(a) <= digits_val(a) * 10) by (nonlinear_arith);
                }
            }
            self.pos = self.pos + 1;
        }
        proof {
            lemma_digits_end(s, p);
        }
        if big {
            Err(abort("number too large"))
        } else {
            Ok(val as isize)
        }
    }

    /// Moves the tokenizer `n` characters on.
    pub fn advance_input(&mut self, n: usize)
        requires
            old(self).pos + n <= old(self).input.len(),
        ensures
            final(self).pos == old(self).pos + n,
            same_but_pos(*final(self), *old(self)),
    {
        self.pos = self.pos + n;
    }

    /// How many characters of the source the tokenizer has read.
    pub fn current_input_position(&self) -> (r: usize)
        ensures
            r == self.pos,
    {
        self.pos
    }

    /// The tokens of the source text from the current position on.
    #[verifier::loop_isolation(false)]
    pub fn tokenize(&mut self) -> (r: Result<Vec<Token>, CompileError>)
        requires
            old(self).pos <= old(self).input@.len(),
            all_ascii(old(self).input@),
        ensures
            match r {
                Ok(ts) => lex_from(old(self).input@, old(self).pos as nat) == Ok::<
                    Seq<TokenV>,
                    CompileErrorV,
                >(toksv(ts@)),
                Err(e) => lex_from(old(self).input@, old(self).pos as nat) == Err::<
                    Seq<TokenV>,
                    CompileErrorV,
                >(e@),
            },
            final(self).pos <= final(self).input@.len(),
            r is Ok ==> final(self).pos == final(self).input@.len(),
            same_but_pos(*final(self), *old(self)),
    {
        let ghost s = self.input@;
        let ghost p0 = self.pos as nat;
        let mut tokens: Vec<Token> = Vec::new();
        while self.pos < self.input.len()
            invariant
                self.input@ == s,
                self.pos <= s.len(),
                lex_from(s, p0) == prepend_toks(toksv(tokens@), lex_from(s, self.pos as nat)),
                same_but_pos(*self, *old(self)),
            decreases s.len() - self.pos,
        {
            let ghost p = self.pos as nat;
            let ghost before = toksv(tokens@);
            let c = self.input[self.pos];
            if c == ' ' || c == '\n' {
                self.advance_input(1);
                continue;
            }
            let has2 = self.pos + 1 < self.input.len();
            let c2 = if has2 {
                self.input[self.pos + 1]
            } else {
                ' '
            };
            // line comment: `//` up to the end of its line
            if has2 && c == '/' && c2 == '/' {
                self.advance_input(2);
                while self.pos < self.input.len() && self.input[self.pos] != '\n'
                    invariant
                        self.input@ == s,
                        p + 2 <= self.pos <= s.len(),
                        line_end(s, p + 2) == line_end(s, self.pos as nat),
                        same_but_pos(*self, *old(self)),
                    decreases s.len() - self.pos,
                {
                    self.advance_input(1);
                }
                continue;
            }
            // block comment
            if has2 && c == '/' && c2 == '*' {
                self.advance_input(2);
                loop
                    invariant
                        self.input@ == s,
                        p + 2 <= self.pos <= s.len(),
                        comment_end(s, p + 2) == comment_end(s, self.pos as nat),
                        same_but_pos(*self, *old(self)),
                    decreases s.len() - self.pos,
                {
                    if self.pos >= self.input.len() {
                        return Err(abort("unterminated comment"));
                    }
                    if self.pos + 1 < self.input.len() && self.input[self.pos] == '*'
                        && self.input[self.pos + 1] == '/' {
                        break;
                    }
                    self.advance_input(1);
                }
                self.advance_input(2);
                continue;
            }
            if is_digit_char(c) {
                proof {
                    lemma_digits_end(s, p);
                }
                let num = self.parse_and_skip_number()?;
                let len = crate::text::dec_chars(num as usize).len();
                proof {
                    lemma_digits_end(s, p);
                    lemma_dec_len_le(s.subrange(p as int, self.pos as int));
                }
                let tok = Token {
                    kind: TokenKind::Num { val: num },
                    start: self.current_input_position() - len,
                    len,
                };
                tokens.push(tok);
                proof {
                    assert(toksv(tokens@) =~= before.push(tokv(tok)));
                    lemma_prepend_cons(before, tokv(tok), lex_from(s, self.pos as nat));
                }
                continue;
            }
            if has2 && is_punct2_pair(c, c2) {
                let mut t = String::new();
                push_char(&mut t, c);
                push_char(&mut t, c2);
                let tok = Token {
                    kind: TokenKind::Punct { str: t },
                    start: self.current_input_position(),
                    len: 2,
                };
                tokens.push(tok);
                self.advance_input(2);
                proof {
                    assert(t@ =~= seq![c, c2]);
                    assert(toksv(tokens@) =~= before.push(tokv(tok)));
                    lemma_prepend_cons(before, tokv(tok), lex_from(s, self.pos as nat));
                }
                continue;
            }
            if is_punct1_char(c) {
                let mut t = String::new();
                push_char(&mut t, c);
                let tok = Token {
                    kind: TokenKind::Punct { str: t },
                    start: self.current_input_position(),
                    len: 1,
                };
                tokens.push(tok);
                self.advance_input(1);
                proof {
                    assert(t@ =~= seq![c]);
                    assert(toksv(tokens@) =~= before.push(tokv(tok)));
                    lemma_prepend_cons(before, tokv(tok), lex_from(s, self.pos as nat));
                }
                continue;
            }
            if c == '"' {
                let tok = self.string_literal()?;
                tokens.push(tok);
                proof {
                    assert(toksv(tokens@) =~= before.push(tokv(tok)));
                    lemma_prepend_cons(before, tokv(tok), lex_from(s, self.pos as nat));
                }
                continue;
            }
            if is_ident(c) {
                let tok = self.identifier();
                tokens.push(tok);
                proof {
                    assert(toksv(tokens@) =~= before.push(tokv(tok)));
                    lemma_prepend_cons(before, tokv(tok), lex_from(s, self.pos as nat));
                }
                continue;
            }
            let mut msg = crate::text::string_of("invalid input: ");
            push_char(&mut msg, c);
            return Err(CompileError::AtInput { pos: self.pos, msg });
        }
        Ok(tokens)
    }

    /// The string literal whose opening quote is at the current position.
    fn string_literal(&mut self) -> (r: Result<Token, CompileError>)
        requires
            old(self).pos < old(self).input@.len(),
            old(self).input@[old(self).pos as int] == '"',
        ensures
            ({
                let s = old(self).input@;
                let p = old(self).pos as nat;
                match r {
                    Ok(t) => str_body(s, p + 1) matches Some((q, b)) && t@ == (TokenV {
                        kind: TokenKindV::Str { str: b.push('\0') },
                        start: (q + 1 - (b.len() + 1)) as usize,
                        len: (b.len() + 1) as usize,
                    }) && final(self).pos == q + 1,
                    Err(e) => str_body(s, p + 1) is None && e@ == unterminated_string_err(),
                }
            }),
            final(self).pos <= final(self).input@.len(),
            r is Ok ==> final(self).pos > old(self).pos,
            same_but_pos(*final(self), *old(self)),
    {
        let ghost s = self.input@;
        let ghost p = self.pos as nat;
        proof {
            lemma_str_body(s, p + 1);
        }
        let mut str = String::new();
        self.advance_input(1);
        loop
            invariant_except_break
                self.input@ == s,
                p == old(self).pos,
                p + 1 <= self.pos <= s.len(),
                str@.len() == self.pos - (p + 1),
                str_body(s, p + 1) == match str_body(s, self.pos as nat) {
                    None => None,
                    Some((q, b)) => Some((q, str@ + b)),
                },
                same_but_pos(*self, *old(self)),
            ensures
                self.input@ == s,
                p == old(self).pos,
                p + 1 <= self.pos < s.len(),
                str@.len() == self.pos - (p + 1),
                str_body(s, p + 1) == Some((self.pos as nat, str@)),
                same_but_pos(*self, *old(self)),
            decreases s.len() - self.pos,
        {
            if self.pos >= self.input.len() {
                assert(str_body(s, self.pos as nat) is None);
                assert(str_body(s, p + 1) is None);
                let e = abort("unterminated string literal");
                assert(e@ == unterminated_string_err());
                return Err(e);
            }
            let c = self.input[self.pos];
            if c == '"' {
                proof {
                    assert(str@ + Seq::<char>::empty() =~= str@);
                }
                break;
            }
            let ghost old_str = str@;
            if c == '\\' && self.pos + 1 < self.input.len() && self.input[self.pos + 1] == '"' {
                push_char(&mut str, '\\');
                push_char(&mut str, '"');
                proof {
                    assert forall|b: Seq<char>| old_str + (seq!['\\', '"'] + b) =~= str@ + b by {}
                }
                self.advance_input(2);
                continue;
            }
            push_char(&mut str, c);
            proof {
                assert forall|b: Seq<char>| old_str + (seq![c] + b) =~= str@ + b by {}
            }
            self.advance_input(1);
        }
        push_char(&mut str, '\0');
        self.advance_input(1);
        let len = str.as_str().unicode_len();
        let tok = Token { kind: TokenKind::Str { str }, start: self.current_input_position() - len, len };
        Ok(tok)
    }

    /// The identifier that starts at the current position.
    fn identifier(&mut self) -> (r: Token)
        requires
            old(self).pos < old(self).input@.len(),
            is_ident1(old(self).input@[old(self).pos as int]),
        ensures
            ({
                let s = old(self).input@;
                let p = old(self).pos as nat;
                let q = ident_end(s, p);
                &&& r@ == (TokenV {
                    kind: TokenKindV::Ident { name: s.subrange(p as int, q as int) },
                    start: p as usize,
                    len: (q - p) as usize,
                })
                &&& final(self).pos == q
            }),
            final(self).pos <= final(self).input@.len(),
            final(self).pos > old(self).pos,
            same_but_pos(*final(self), *old(self)),
    {
        let ghost s = self.input@;
        let ghost p = self.pos as nat;
        proof {
            lemma_ident_end(s, p);
            lemma_ident_end(s, p + 1);
        }
        let start = self.pos;
        let mut name = String::new();
        while self.pos < self.input.len() && is_ident2_char(self.input[self.pos])
            invariant
                self.input@ == s,
                start == p,
                p <= self.pos <= ident_end(s, p),
                ident_end(s, p) <= s.len(),
                ident_end(s, p) == ident_end(s, self.pos as nat),
                name@ == s.subrange(p as int, self.pos as int),
                same_but_pos(*self, *old(self)),
            decreases s.len() - self.pos,
        {
            push_char(&mut name, self.input[self.pos]);
            proof {
                lemma_ident_end(s, (self.pos + 1) as nat);
                assert(s.subrange(p as int, self.pos + 1) =~= s.subrange(p as int, self.pos as int).push(
                    s[self.pos as int],
                ));
            }
            self.advance_input(1);
        }
        Token { kind: TokenKind::Ident { name }, start, len: self.pos - start }
    }

    /// Turns every identifier token that is a keyword into a keyword token.
    pub fn convert_keywords(&mut self)
        ensures
            toksv(final(self).tokens@) == toksv(old(self).tokens@).map_values(|t: TokenV| kw_tok(t)),
            final(self).input == old(self).input,
            final(self).pos == old(self).pos,
            final(self).consumed_tokens == old(self).consumed_tokens,
            final(self).vars == old(self).vars,
            final(self).gvars == old(self).gvars,
            final(self).functions == old(self).functions,
            final(self).cur_func == old(self).cur_func,
            final(self).cur_file == old(self).cur_file,
    {
        let mut out: Vec<Token> = Vec::new();
        let mut i: usize = 0;
        while i < self.tokens.len()
            invariant
                i <= self.tokens@.len(),
                out@.len() == i,
                forall|j: int| 0 <= j < i ==> tokv(#[trigger] out@[j]) == kw_tok(tokv(self.tokens@[j])),
            decreases self.tokens.len() - i,
        {
            let t = &self.tokens[i];
            let nt = match &t.kind {
                TokenKind::Ident { name } => {
                    if is_keyword_name(name) {
                        Token { kind: TokenKind::Keyword { name: name.clone() }, start: t.start, len: t.len }
                    } else {
                        t.dup()
                    }
                },
                _ => t.dup(),
            };
            out.push(nt);
            i += 1;
        }
        proof {
            assert(toksv(out@) =~= toksv(self.tokens@).map_values(|t: TokenV| kw_tok(t)));
        }
        self.tokens = out;
    }
}

pub proof fn lemma_dec_len_le(d: Seq<char>)
    requires
        d.len() >= 1,
        forall|i: int| 0 <= i < d.len() ==> is_digit(#[trigger] d[i]),
    ensures
        dec_nat(digits_val(d)).len() <= d.len(),
    decreases d.len(),
{
    let v = digits_val(d);
    lemma_dec_nat_len(v);
    if d.len() > 1 {
        let a = d.drop_last();
        assert forall|i: int| 0 <= i < a.len() implies is_digit(#[trigger] a[i]) by {
            assert(a[i] == d[i]);
        }
        lemma_dec_len_le(a);
        lemma_dec_nat_len(digits_val(a));
        let dl = ((d.last() as u32) - 48) as nat;
        assert(d.last() == d[d.len() - 1]);
        assert(v == digits_val(a) * 10 + dl);
        assert(dl < 10);
        if v >= 10 {
            assert(v / 10 == digits_val(a)) by (nonlinear_arith)
                requires v == digits_val(a) * 10 + dl, dl < 10;
            assert(dec_nat(v).len() == dec_nat(digits_val(a)).len() + 1);
        } else {
            assert(dec_nat(v).len() == 1);
        }
    } else {
        assert(d.drop_last() =~= Seq::<char>::empty());
        assert(d.last() == d[0]);
        assert(digits_val(d.drop_last()) == 0);
        assert(v < 10);
    }
}

fn is_keyword_name(n: &String) -> (r: bool)
    ensures
        r == is_keyword(n@),
{
    str_eq(n, "return") || str_eq(n, "if") || str_eq(n, "else") || str_eq(n, "for") || str_eq(
        n,
        "while",
    ) || str_eq(n, "int") || str_eq(n, "sizeof") || str_eq(n, "char") || str_eq(n, "struct")
        || str_eq(n, "union") || str_eq(n, "long") || str_eq(n, "short") || str_eq(n, "typedef")
        || str_eq(n, "enum")
}

/// The token is the punctuator or keyword `s`.
pub fn equal(tok: &Token, s: &str) -> (r: bool)
    ensures
        r == tok_is(tok@, s@),
{
    match &tok.kind {
        TokenKind::Punct { str } => str_eq(str, s),
        TokenKind::Keyword { name } => str_eq(name, s),
        _ => false,
    }
}

//
// moving through the tokens
//

impl Ctx {
    /// Takes the number token at the front of the stream.
    pub fn get_and_skip_number(&mut self) -> (r: Result<isize, CompileError>)
        ensures
            stream(*final(self)) == stream(*old(self)),
            final(self).tokens@.len() <= old(self).tokens@.len(),
            old(self).tokens@.len() == 0 ==> (r matches Err(e) && e@ == eof_err()),
            old(self).tokens@.len() > 0 ==> match old(self).tokens@[0].kind {
                TokenKind::Num { val } => r == Ok::<isize, CompileError>(val) && final(self).tokens@ == old(self).tokens@.drop_first(),
                _ => r matches Err(e) && e@ == at_tok_err(old(self).tokens@[0]@, "expected a number"@)
                    && final(self).tokens == old(self).tokens,
            },
            same_but_tokens(*final(self), *old(self)),
    {
        if self.tokens.len() == 0 {
            return Err(abort("unexpected end of input"));
        }
        match self.tokens[0].kind {
            TokenKind::Num { val } => {
                self.advance(1);
                Ok(val)
            },
            _ => Err(err_at(self.tokens[0].start, self.tokens[0].len, "expected a number")),
        }
    }

    /// For `n >= 0` the next token; for `n < 0` the `-n`-th most recently
    /// taken token.
    pub fn get_tok(&self, n: isize) -> (r: &Token)
        requires
            n >= 0 ==> self.tokens@.len() > 0,
            n < 0 ==> self.consumed_tokens@.len() + n >= 0,
        ensures
            n >= 0 ==> *r == self.tokens@[0],
            n < 0 ==> *r == self.consumed_tokens@[self.consumed_tokens@.len() + n],
    {
        if n >= 0 {
            &self.tokens[0]
        } else {
            &self.consumed_tokens[self.consumed_tokens.len() - ((-(n as i128)) as usize)]
        }
    }

    /// Takes the next `n` tokens and returns the last of them.
    pub fn advance(&mut self, n: usize) -> (r: Token)
        requires
            1 <= n <= old(self).tokens@.len(),
        ensures
            r == old(self).tokens@[n - 1],
            final(self).tokens@ == old(self).tokens@.skip(n as int),
            final(self).consumed_tokens@ == old(self).consumed_tokens@ + old(self).tokens@.take(
                n as int,
            ),
            stream(*final(self)) == stream(*old(self)),
            same_but_tokens(*final(self), *old(self)),
    {
        let ghost t0 = self.tokens@;
        let ghost c0 = self.consumed_tokens@;
        let mut tok = self.tokens.remove(0);
        self.consumed_tokens.push(tok.dup());
        let mut i: usize = 1;
        while i < n
            invariant
                1 <= i <= n,
                n <= t0.len(),
                self.tokens@ == t0.skip(i as int),
                self.consumed_tokens@ == c0 + t0.take(i as int),
                tok == t0[i - 1],
                same_but_tokens(*self, *old(self)),
            decreases n - i,
        {
            proof {
                assert(t0.skip(i as int)[0] == t0[i as int]);
            }
            tok = self.tokens.remove(0);
            self.consumed_tokens.push(tok.dup());
            proof {
                assert(t0.skip(i as int).drop_first() =~= t0.skip(i + 1));
                assert(c0 + t0.take(i + 1) =~= (c0 + t0.take(i as int)).push(t0[i as int]));
            }
            i += 1;
        }
        proof {
            assert(t0.skip(1) =~= t0.drop_first());
            assert(c0 + t0.take(n as int) + t0.skip(n as int) =~= c0 + t0);
        }
        tok
    }

    /// Takes the next token, which must be the punctuator or keyword `op`.
    pub fn skip(&mut self, op: &str) -> (r: Result<Token, CompileError>)
        ensures
            stream(*final(self)) == stream(*old(self)),
            old(self).tokens@.len() == 0 ==> (r matches Err(e) && e@ == eof_err()),
            old(self).tokens@.len() > 0 ==> if tok_is(old(self).tokens@[0]@, op@) {
                r == Ok::<Token, CompileError>(old(self).tokens@[0]) && final(self).tokens@ == old(self).tokens@.drop_first()
            } else {
                r matches Err(e) && e@ == at_tok_err(
                    old(self).tokens@[0]@,
                    "expected '"@ + op@ + "'"@,
                ) && final(self).tokens == old(self).tokens
            },
            final(self).tokens@.len() <= old(self).tokens@.len(),
            same_but_tokens(*final(self), *old(self)),
    {
        if self.tokens.len() == 0 {
            return Err(abort("unexpected end of input"));
        }
        if equal(&self.tokens[0], op) {
            let t = self.advance(1);
            return Ok(t);
        }
        let mut msg = crate::text::string_of("expected '");
        push_str(&mut msg, op);
        push_str(&mut msg, "'");
        Err(CompileError::AtToken { start: self.tokens[0].start, len: self.tokens[0].len, msg })
    }

    /// The next token is the punctuator or keyword `s`.
    pub fn hequal(&self, s: &str) -> (r: bool)
        requires
            self.tokens@.len() > 0,
        ensures
            r == tok_is(self.tokens@[0]@, s@),
    {
        equal(&self.tokens[0], s)
    }

    /// Takes the next token when it is the punctuator or keyword `s`.
    pub fn consume(&mut self, s: &str) -> (r: bool)
        requires
            old(self).tokens@.len() > 0,
        ensures
            r == tok_is(old(self).tokens@[0]@, s@),
            r ==> final(self).tokens@ == old(self).tokens@.drop_first(),
            !r ==> final(self).tokens == old(self).tokens,
            stream(*final(self)) == stream(*old(self)),
            same_but_tokens(*final(self), *old(self)),
    {
        if self.hequal(s) {
            self.advance(1);
            true
        } else {
            false
        }
    }
}

pub open spec fn eof_err() -> CompileErrorV {
    CompileErrorV::Abort { msg: "unexpected end of input"@ }
}

pub open spec fn at_tok_err(t: TokenV, msg: Seq<char>) -> CompileErrorV {
    CompileErrorV::AtToken { start: t.start, len: t.len, msg }
}

} // verus!
