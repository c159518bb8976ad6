use vstd::prelude::*;

use crate::chars::{is_alphanumeric_char, is_numeric_char, is_whitespace_char};
use vstd::string::StrSliceExecFns;

verus! {

/// An atomic lexical unit of the source language: a parenthesis, a quoted
/// string's contents, a numeral kept as text, or an identifier.
#[derive(Debug, Clone, Eq, PartialEq)]
pub enum Token {
    Paren(char),
    Text(String),
    Number(String),
    Name(String),
}

/// The mathematical image of a `Token`: the same variants over `Seq<char>`.
pub enum TokenV {
    Paren(char),
    Text(Seq<char>),
    Number(Seq<char>),
    Name(Seq<char>),
}

impl DeepView for Token {
    type V = TokenV;

    open spec fn deep_view(&self) -> TokenV {
        match self {
            Token::Paren(c) => TokenV::Paren(*c),
            Token::Text(s) => TokenV::Text(s@),
            Token::Number(s) => TokenV::Number(s@),
            Token::Name(s) => TokenV::Name(s@),
        }
    }
}

/// A character that extends a numeral lexeme: not whitespace, and either
/// numeric or one of the separators `.` and `,` (accepted, not interpreted).
pub open spec fn is_number_char(c: char) -> bool {
    !is_whitespace_char(c) && (is_numeric_char(c) || c == '.' || c == ',')
}

/// A character that extends a quoted string's contents: anything up to the
/// closing `"` or `'`.
pub open spec fn is_text_char(c: char) -> bool {
    c != '"' && c != '\''
}

/// Length of the maximal prefix of `s` made of numeral characters.
pub open spec fn number_run(s: Seq<char>) -> nat
    decreases s.len(),
{
    if s.len() == 0 || !is_number_char(s[0]) {
        0
    } else {
        (1 + number_run(s.skip(1))) as nat
    }
}

/// Length of the maximal prefix of `s` made of string-literal characters.
pub open spec fn text_run(s: Seq<char>) -> nat
    decreases s.len(),
{
    if s.len() == 0 || !is_text_char(s[0]) {
        0
    } else {
        (1 + text_run(s.skip(1))) as nat
    }
}

/// Length of the maximal prefix of `s` made of alphanumeric characters.
pub open spec fn name_run(s: Seq<char>) -> nat
    decreases s.len(),
{
    if s.len() == 0 || !is_alphanumeric_char(s[0]) {
        0
    } else {
        (1 + name_run(s.skip(1))) as nat
    }
}

proof fn lemma_number_run_le(s: Seq<char>)
    ensures
        number_run(s) <= s.len(),
    decreases s.len(),
{
    if s.len() > 0 && is_number_char(s[0]) {
        lemma_number_run_le(s.skip(1));
    }
}

proof fn lemma_text_run_le(s: Seq<char>)
    ensures
        text_run(s) <= s.len(),
    decreases s.len(),
{
    if s.len() > 0 && is_text_char(s[0]) {
        lemma_text_run_le(s.skip(1));
    }
}

proof fn lemma_name_run_le(s: Seq<char>)
    ensures
        name_run(s) <= s.len(),
    decreases s.len(),
{
    if s.len() > 0 && is_alphanumeric_char(s[0]) {
        lemma_name_run_le(s.skip(1));
    }
}

/// Length of the maximal prefix of `s` made of whitespace characters.
pub open spec fn whitespace_run(s: Seq<char>) -> nat
    decreases s.len(),
{
    if s.len() == 0 || !is_whitespace_char(s[0]) {
        0
    } else {
        (1 + whitespace_run(s.skip(1))) as nat
    }
}

/// A scan that saw whitespace characters up to `i` and then stopped has
/// found the maximal whitespace prefix.
proof fn lemma_whitespace_run_eq(s: Seq<char>, i: int)
    requires
        0 <= i <= s.len(),
        forall|j: int| 0 <= j < i ==> is_whitespace_char(s[j]),
        i < s.len() ==> !is_whitespace_char(s[i]),
    ensures
        whitespace_run(s) == i,
    decreases i,
{
    if i == 0 {
    } else {
        assert(is_whitespace_char(s[0]));
        lemma_whitespace_run_eq(s.skip(1), i - 1);
    }
}

/// A scan that saw numeral characters up to `i` and then stopped has found
/// the maximal numeral prefix.
proof fn lemma_number_run_eq(s: Seq<char>, i: int)
    requires
        0 <= i <= s.len(),
        forall|j: int| 0 <= j < i ==> is_number_char(s[j]),
        i < s.len() ==> !is_number_char(s[i]),
    ensures
        number_run(s) == i,
    decreases i,
{
    if i == 0 {
    } else {
        assert(is_number_char(s[0]));
        lemma_number_run_eq(s.skip(1), i - 1);
    }
}

/// A scan that saw string-literal characters up to `i` and then stopped has
/// found the maximal string-literal prefix.
proof fn lemma_text_run_eq(s: Seq<char>, i: int)
    requires
        0 <= i <= s.len(),
        forall|j: int| 0 <= j < i ==> is_text_char(s[j]),
        i < s.len() ==> !is_text_char(s[i]),
    ensures
        text_run(s) == i,
    decreases i,
{
    if i == 0 {
    } else {
        assert(is_text_char(s[0]));
        lemma_text_run_eq(s.skip(1), i - 1);
    }
}

/// A scan that saw alphanumeric characters up to `i` and then stopped has
/// found the maximal alphanumeric prefix.
proof fn lemma_name_run_eq(s: Seq<char>, i: int)
    requires
        0 <= i <= s.len(),
        forall|j: int| 0 <= j < i ==> is_alphanumeric_char(s[j]),
        i < s.len() ==> !is_alphanumeric_char(s[i]),
    ensures
        name_run(s) == i,
    decreases i,
{
    if i == 0 {
    } else {
        assert(is_alphanumeric_char(s[0]));
        lemma_name_run_eq(s.skip(1), i - 1);
    }
}

/// How many characters a numeral starting `s` takes off the input: the run
/// itself, and a terminating whitespace character, which is swallowed.
pub open spec fn number_consumed(s: Seq<char>) -> int {
    let n = number_run(s) as int;
    if n < s.len() && is_whitespace_char(s[n]) {
        n + 1
    } else {
        n
    }
}

/// How many characters a string literal's contents take off the input once
/// the opening quote is gone: the run itself, and the closing delimiter if
/// the input has not ended.
pub open spec fn text_consumed(t: Seq<char>) -> int {
    let n = text_run(t) as int;
    if n < t.len() {
        n + 1
    } else {
        n
    }
}

/// How many characters an identifier starting `s` takes off the input: the
/// run itself, and its terminating character, which is swallowed.
pub open spec fn name_consumed(s: Seq<char>) -> int {
    let n = name_run(s) as int;
    if n < s.len() {
        n + 1
    } else {
        n
    }
}

/// The token sequence of `s`, scanned left to right:
/// - a parenthesis is one token;
/// - whitespace separates tokens and is dropped;
/// - a numeral is the maximal run of numeric or separator characters, and a
///   terminating whitespace character is consumed with it;
/// - `"` opens a string literal that runs to the next `"` or `'`, both
///   delimiters dropped;
/// - anything else starts an identifier: the maximal alphanumeric run, whose
///   terminating character is consumed with it.
pub open spec fn lex_spec(s: Seq<char>) -> Seq<TokenV>
    decreases s.len(),
    via lex_spec_decreases
{
    if s.len() == 0 {
        Seq::empty()
    } else {
        let c = s[0];
        if c == '(' || c == ')' {
            seq![TokenV::Paren(c)] + lex_spec(s.skip(1))
        } else if is_whitespace_char(c) {
            lex_spec(s.skip(1))
        } else if is_numeric_char(c) {
            seq![TokenV::Number(s.take(number_run(s) as int))] + lex_spec(s.skip(number_consumed(s)))
        } else if c == '"' {
            let t = s.skip(1);
            seq![TokenV::Text(t.take(text_run(t) as int))] + lex_spec(t.skip(text_consumed(t)))
        } else {
            seq![TokenV::Name(s.take(name_run(s) as int))] + lex_spec(s.skip(name_consumed(s)))
        }
    }
}

#[via_fn]
proof fn lex_spec_decreases(s: Seq<char>) {
    if s.len() > 0 {
        let c = s[0];
        if c == '(' || c == ')' {
        } else if is_whitespace_char(c) {
        } else if is_numeric_char(c) {
            lemma_number_run_le(s);
            assert(number_run(s) >= 1);
        } else if c == '"' {
            lemma_text_run_le(s.skip(1));
        } else {
            lemma_name_run_le(s);
        }
    }
}

/// Scans an input string into its token sequence, left to right, one pass.
pub struct Tokenizer<'a> {
    input: &'a str,
    pos: usize,
}

impl<'a> Tokenizer<'a> {
    /// The characters not yet consumed.
    pub closed spec fn remaining(&self) -> Seq<char> {
        self.input@.skip(self.pos as int)
    }

    pub closed spec fn wf(&self) -> bool {
        self.pos <= self.input@.len()
    }

    pub fn new(input: &'a str) -> (r: Self)
        ensures
            r.wf(),
            r.remaining() == input@,
    {
        let r = Tokenizer { input, pos: 0 };
        proof {
            assert(r.remaining() =~= input@);
        }
        r
    }

    /// Scans the whole remaining input and returns its tokens.
    pub fn get_tokens(&mut self) -> (r: Vec<Token>)
        requires
            old(self).wf(),
        ensures
            r.deep_view() == lex_spec(old(self).remaining()),
            final(self).wf(),
            final(self).remaining().len() == 0,
    {
        let mut tokens: Vec<Token> = Vec::new();
        let n = self.input.unicode_len();
        while self.pos < n
            invariant
                self.input == old(self).input,
                n == self.input@.len(),
                self.pos <= n,
                tokens.deep_view() + lex_spec(self.remaining()) == lex_spec(old(self).remaining()),
            decreases n - self.pos,
        {
            let ghost rem = self.remaining();
            let ghost prev = tokens;
            let c = self.input.get_char(self.pos);
            assert(rem[0] == c);
            match c {
                '(' | ')' => {
                    tokens.push(Token::Paren(c));
                    self.pos += 1;
                    proof {
                        assert(self.remaining() =~= rem.skip(1));
                        assert(tokens.deep_view() =~= prev.deep_view().push(TokenV::Paren(c)));
                        assert(prev.deep_view().push(TokenV::Paren(c)) + lex_spec(rem.skip(1))
                            =~= prev.deep_view() + lex_spec(rem));
                    }
                },
                w if w.is_whitespace() => {
                    self.consume_whitespace();
                },
                d if d.is_numeric() => {
                    let text = self.consume_number();
                    tokens.push(Token::Number(text));
                    proof {
                        assert(self.remaining() =~= rem.skip(number_consumed(rem)));
                        let tv = TokenV::Number(rem.take(number_run(rem) as int));
                        assert(tokens.deep_view() =~= prev.deep_view().push(tv));
                        assert(prev.deep_view().push(tv) + lex_spec(self.remaining())
                            =~= prev.deep_view() + lex_spec(rem));
                    }
                },
                '"' => {
                    self.pos += 1;
                    let ghost t = rem.skip(1);
                    assert(self.remaining() =~= t);
                    let text = self.consume_text();
                    tokens.push(Token::Text(text));
                    if self.pos < n {
                        self.pos += 1;
                    }
                    proof {
                        lemma_text_run_le(t);
                        assert(self.remaining() =~= t.skip(text_consumed(t)));
                        let tv = TokenV::Text(t.take(text_run(t) as int));
                        assert(tokens.deep_view() =~= prev.deep_view().push(tv));
                        assert(prev.deep_view().push(tv) + lex_spec(self.remaining())
                            =~= prev.deep_view() + lex_spec(rem));
                    }
                },
                _ => {
                    let text = self.consume_name();
                    tokens.push(Token::Name(text));
                    proof {
                        assert(self.remaining() =~= rem.skip(name_consumed(rem)));
                        let tv = TokenV::Name(rem.take(name_run(rem) as int));
                        assert(tokens.deep_view() =~= prev.deep_view().push(tv));
                        assert(prev.deep_view().push(tv) + lex_spec(self.remaining())
                            =~= prev.deep_view() + lex_spec(rem));
                    }
                },
            }
        }
        proof {
            assert(self.remaining().len() == 0);
            assert(lex_spec(self.remaining()) =~= Seq::<TokenV>::empty());
            assert(tokens.deep_view() =~= lex_spec(old(self).remaining()));
        }
        tokens
    }

    /// Skips the maximal whitespace run under the cursor: afterwards the
    /// cursor stands on the first non-whitespace character of the old
    /// remainder, or at the end of the input.
    fn consume_whitespace(&mut self)
        requires
            old(self).wf(),
            old(self).pos < old(self).input@.len(),
            is_whitespace_char(old(self).remaining()[0]),
        ensures
            final(self).input == old(self).input,
            final(self).wf(),
            old(self).pos < final(self).pos,
            final(self).pos == old(self).pos + whitespace_run(old(self).remaining()),
            lex_spec(final(self).remaining()) == lex_spec(old(self).remaining()),
    {
        let n = self.input.unicode_len();
        let ghost s = old(self).remaining();
        let ghost p0 = old(self).pos as int;
        while self.pos < n && self.input.get_char(self.pos).is_whitespace()
            invariant
                self.input == old(self).input,
                n == self.input@.len(),
                p0 == old(self).pos,
                s == old(self).remaining(),
                p0 <= self.pos <= n,
                forall|j: int| 0 <= j < self.pos - p0 ==> is_whitespace_char(s[j]),
                lex_spec(self.remaining()) == lex_spec(old(self).remaining()),
            decreases n - self.pos,
        {
            let ghost rem = self.remaining();
            assert(s[self.pos - p0] == rem[0]);
            self.pos += 1;
            proof {
                assert(self.remaining() =~= rem.skip(1));
            }
        }
        proof {
            lemma_whitespace_run_eq(s, self.pos - p0);
        }
    }

    /// Consumes the numeral under the cursor, and its terminating whitespace
    /// character if there is one.
    fn consume_number(&mut self) -> (r: String)
        requires
            old(self).wf(),
        ensures
            final(self).input == old(self).input,
            final(self).wf(),
            r@ == old(self).remaining().take(number_run(old(self).remaining()) as int),
            final(self).pos == old(self).pos + number_consumed(old(self).remaining()),
    {
        let mut text = String::new();
        let n = self.input.unicode_len();
        let ghost s = old(self).remaining();
        let ghost p0 = old(self).pos as int;
        loop
            invariant_except_break
                text@ == s.take(self.pos - p0),
                forall|j: int| 0 <= j < self.pos - p0 ==> is_number_char(s[j]),
            invariant
                self.input == old(self).input,
                n == self.input@.len(),
                p0 == old(self).pos,
                s == old(self).remaining(),
                p0 <= self.pos <= n,
            ensures
                self.input == old(self).input,
                self.pos <= n,
                text@ == s.take(number_run(s) as int),
                self.pos == p0 + number_consumed(s),
            decreases n - self.pos,
        {
            let ghost i = self.pos - p0;
            if self.pos >= n {
                proof {
                    lemma_number_run_eq(s, i);
                }
                break;
            }
            let c = self.input.get_char(self.pos);
            assert(s[i] == c);
            if c.is_whitespace() {
                proof {
                    lemma_number_run_eq(s, i);
                }
                self.pos += 1;
                break;
            } else if !c.is_numeric() && !(c == '.' || c == ',') {
                proof {
                    lemma_number_run_eq(s, i);
                }
                break;
            }
            text.push(c);
            self.pos += 1;
            proof {
                assert(text@ =~= s.take(self.pos - p0));
            }
        }
        text
    }

    /// Consumes the identifier under the cursor, and its terminating
    /// character if there is one.
    fn consume_name(&mut self) -> (r: String)
        requires
            old(self).wf(),
        ensures
            final(self).input == old(self).input,
            final(self).wf(),
            r@ == old(self).remaining().take(name_run(old(self).remaining()) as int),
            final(self).pos == old(self).pos + name_consumed(old(self).remaining()),
    {
        let mut name = String::new();
        let n = self.input.unicode_len();
        let ghost s = old(self).remaining();
        let ghost p0 = old(self).pos as int;
        loop
            invariant_except_break
                name@ == s.take(self.pos - p0),
                forall|j: int| 0 <= j < self.pos - p0 ==> is_alphanumeric_char(s[j]),
            invariant
                self.input == old(self).input,
                n == self.input@.len(),
                p0 == old(self).pos,
                s == old(self).remaining(),
                p0 <= self.pos <= n,
            ensures
                self.input == old(self).input,
                self.pos <= n,
                name@ == s.take(name_run(s) as int),
                self.pos == p0 + name_consumed(s),
            decreases n - self.pos,
        {
            let ghost i = self.pos - p0;
            if self.pos >= n {
                proof {
                    lemma_name_run_eq(s, i);
                }
                break;
            }
            let c = self.input.get_char(self.pos);
            assert(s[i] == c);
            if !c.is_alphanumeric() {
                proof {
                    lemma_name_run_eq(s, i);
                }
                self.pos += 1;
                break;
            }
            name.push(c);
            self.pos += 1;
            proof {
                assert(name@ =~= s.take(self.pos - p0));
            }
        }
        name
    }

    /// Consumes a string literal's contents up to the closing `"` or `'`,
    /// which is left for the caller.
    fn consume_text(&mut self) -> (r: String)
        requires
            old(self).wf(),
        ensures
            final(self).input == old(self).input,
            final(self).wf(),
            r@ == old(self).remaining().take(text_run(old(self).remaining()) as int),
            final(self).pos == old(self).pos + text_run(old(self).remaining()),
    {
        let mut text = String::new();
        let n = self.input.unicode_len();
        let ghost s = old(self).remaining();
        let ghost p0 = old(self).pos as int;
        loop
            invariant
                self.input == old(self).input,
                n == self.input@.len(),
                p0 == old(self).pos,
                s == old(self).remaining(),
                p0 <= self.pos <= n,
                text@ == s.take(self.pos - p0),
                forall|j: int| 0 <= j < self.pos - p0 ==> is_text_char(s[j]),
            ensures
                self.input == old(self).input,
                self.pos <= n,
                text@ == s.take(text_run(s) as int),
                self.pos == p0 + text_run(s),
            decreases n - self.pos,
        {
            let ghost i = self.pos - p0;
            if self.pos >= n {
                proof {
                    lemma_text_run_eq(s, i);
                }
                break;
            }
            let c = self.input.get_char(self.pos);
            assert(s[i] == c);
            if c == '"' || c == '\'' {
                proof {
                    lemma_text_run_eq(s, i);
                }
                break;
            }
            text.push(c);
            self.pos += 1;
            proof {
                assert(text@ =~= s.take(self.pos - p0));
            }
        }
        text
    }
}

} // verus!
