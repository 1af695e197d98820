//! The scanner: pulls one token at a time from a source text.
pub mod laws;
pub mod rules;
pub mod token;

pub use token::{LexError, Token, TokenView};

use vstd::prelude::*;
use rules::{
    char_body, ident_continue, is_ascii_digit, is_ident_continue, is_ident_start,
    is_number_continue, is_punct, is_two_char_operator, next_token, number_continue, run_len,
    skip_blank, skip_block_comment, skip_line_comment, string_body, unescape, white_space,
};

verus! {

/// The abstract state of a scanner: the input, the position of the lookahead
/// character, and whether the token sequence has ended.
pub ghost struct LexerView {
    pub input: Seq<char>,
    pub pos: int,
    pub done: bool,
}

/// A scanner over one source text.
pub struct Lexer {
    chars: Vec<char>,
    pos: usize,
    done: bool,
}

/// The tokens and errors that a pull can hand out, with text seen as characters.
pub open spec fn pulled_view(r: Option<Result<Token, LexError>>) -> Option<Result<TokenView, LexError>> {
    match r {
        None => None,
        Some(Ok(t)) => Some(Ok(t@)),
        Some(Err(e)) => Some(Err(e)),
    }
}

/// One pull from a scanner in state `st`: what it hands out, and its next state.
/// Once the end of input or an error has been handed out, the sequence is over
/// and every later pull hands out nothing.
pub open spec fn pull(st: LexerView) -> (Option<Result<TokenView, LexError>>, LexerView) {
    if st.done {
        (None, st)
    } else {
        let finished = LexerView { input: st.input, pos: st.input.len() as int, done: true };
        match next_token(st.input, st.pos) {
            Ok((TokenView::Eof, _)) => (Some(Ok(TokenView::Eof)), finished),
            Ok((t, j)) => (Some(Ok(t)), LexerView { input: st.input, pos: j, done: false }),
            Err(e) => (Some(Err(e)), finished),
        }
    }
}

/// What a string literal's body gives once `acc` has been decoded before it.
pub open spec fn after_decoded(
    acc: Seq<char>,
    rest: Result<(Seq<char>, int), LexError>,
) -> Result<(Seq<char>, int), LexError> {
    match rest {
        Ok((t, j)) => Ok((acc + t, j)),
        Err(e) => Err(e),
    }
}

impl View for Lexer {
    type V = LexerView;

    closed spec fn view(&self) -> LexerView {
        LexerView { input: self.chars@, pos: self.pos as int, done: self.done }
    }
}

/// Relies on char::is_whitespace: true exactly for the characters with the
/// Unicode White_Space property.
#[verifier::external_body]
fn is_space(c: char) -> (r: bool)
    ensures
        r == white_space(c),
{
    c.is_whitespace()
}

/// Relies on String's FromIterator<char>: the string of the given characters, in order.
#[verifier::external_body]
fn string_of(v: &Vec<char>) -> (r: String)
    ensures
        r@ == v@,
{
    v.iter().collect()
}

impl Lexer {
    #[verifier::type_invariant]
    closed spec fn inv(&self) -> bool {
        &&& self.pos <= self.chars.len()
        &&& self.done ==> self.pos == self.chars.len()
    }

    /// A scanner at the start of `input`.
    pub fn new(input: &str) -> (r: Lexer)
        ensures
            r@ == (LexerView { input: input@, pos: 0, done: false }),
    {
        let mut chars: Vec<char> = Vec::new();
        for c in it: input.chars()
            invariant
                chars@ == it.seq().take(it.index()),
        {
            chars.push(c);
        }
        assert(chars@ == input@);
        Lexer { chars, pos: 0, done: false }
    }

    /// Takes the lookahead character and moves past it.
    fn bump(&mut self) -> (r: Option<char>)
        ensures
            final(self)@.input == old(self)@.input,
            final(self)@.done == old(self)@.done,
            old(self)@.pos < old(self)@.input.len() ==> r == Some(old(self)@.input[old(self)@.pos])
                && final(self)@.pos == old(self)@.pos + 1,
            old(self)@.pos >= old(self)@.input.len() ==> r is None && final(self)@.pos == old(self)@.pos,
    {
        proof { use_type_invariant(&*self); }
        if self.pos < self.chars.len() {
            let c = self.chars[self.pos];
            self.pos = self.pos + 1;
            Some(c)
        } else {
            None
        }
    }

    /// The lookahead character, left in place.
    fn peek(&self) -> (r: Option<char>)
        ensures
            self@.pos < self@.input.len() ==> r == Some(self@.input[self@.pos]),
            self@.pos >= self@.input.len() ==> r is None,
    {
        proof { use_type_invariant(self); }
        if self.pos < self.chars.len() {
            Some(self.chars[self.pos])
        } else {
            None
        }
    }

    /// The character after the lookahead character, left in place.
    fn peek_second(&self) -> (r: Option<char>)
        ensures
            self@.pos + 1 < self@.input.len() ==> r == Some(self@.input[self@.pos + 1]),
            self@.pos + 1 >= self@.input.len() ==> r is None,
    {
        proof { use_type_invariant(self); }
        if self.pos < self.chars.len() && self.chars.len() - self.pos > 1 {
            Some(self.chars[self.pos + 1])
        } else {
            None
        }
    }

    /// Consumes the longest run of characters on which `f` holds, and returns it.
    fn eat_while<F: Fn(char) -> bool>(&mut self, f: F, Ghost(p): Ghost<spec_fn(char) -> bool>) -> (r: Vec<char>)
        requires
            forall|c: char| f.requires((c,)),
            forall|c: char, b: bool| f.ensures((c,), b) ==> b == p(c),
        ensures
            final(self)@.input == old(self)@.input,
            final(self)@.done == old(self)@.done,
            final(self)@.pos == old(self)@.pos + run_len(old(self)@.input, old(self)@.pos, p),
            r@ == old(self)@.input.subrange(old(self)@.pos, final(self)@.pos),
    {
        proof { use_type_invariant(&*self); }
        let ghost s = self@.input;
        let ghost start = self@.pos;
        let mut r: Vec<char> = Vec::new();
        loop
            invariant
                self@.input == s,
                self@.done == old(self)@.done,
                forall|c: char| f.requires((c,)),
                forall|c: char, b: bool| f.ensures((c,), b) ==> b == p(c),
                start <= self@.pos <= s.len(),
                r@ == s.subrange(start, self@.pos),
                run_len(s, start, p) == self@.pos - start + run_len(s, self@.pos, p),
            ensures
                self@.input == s,
                self@.done == old(self)@.done,
                self@.pos == start + run_len(s, start, p),
                r@ == s.subrange(start, self@.pos),
            decreases s.len() - self@.pos,
        {
            match self.peek() {
                Some(c) => {
                    if f(c) {
                        r.push(c);
                        self.bump();
                        assert(r@ == s.subrange(start, self@.pos));
                    } else {
                        break;
                    }
                },
                None => {
                    break;
                },
            }
        }
        r
    }

    /// Moves past the whitespace and comments at the lookahead position.
    fn skip_whitespace_and_comments(&mut self)
        ensures
            final(self)@.input == old(self)@.input,
            final(self)@.done == old(self)@.done,
            final(self)@.pos == skip_blank(old(self)@.input, old(self)@.pos),
    {
        proof { use_type_invariant(&*self); }
        let ghost s = self@.input;
        let ghost target = skip_blank(s, self@.pos);
        loop
            invariant
                self@.input == s,
                self@.done == old(self)@.done,
                0 <= self@.pos <= s.len(),
                skip_blank(s, self@.pos) == target,
            ensures
                self@.pos == target,
            decreases s.len() - self@.pos,
        {
            let ghost round = self@.pos;
            let mut progressed = false;
            loop
                invariant
                    self@.input == s,
                    self@.done == old(self)@.done,
                    round <= self@.pos <= s.len(),
                    skip_blank(s, self@.pos) == target,
                    progressed ==> self@.pos > round,
                    !progressed ==> self@.pos == round,
                ensures
                    round <= self@.pos <= s.len(),
                    skip_blank(s, self@.pos) == target,
                    progressed ==> self@.pos > round,
                    !progressed ==> self@.pos == round,
                    self@.pos < s.len() ==> !white_space(s[self@.pos]),
                decreases s.len() - self@.pos,
            {
                match self.peek() {
                    Some(c) => {
                        if is_space(c) {
                            progressed = true;
                            self.bump();
                        } else {
                            break;
                        }
                    },
                    None => {
                        break;
                    },
                }
            }
            if self.peek() == Some('/') {
                let next = self.peek_second();
                if next == Some('/') {
                    self.bump();
                    self.bump();
                    assert(skip_line_comment(s, self@.pos) == target);
                    loop
                        invariant_except_break
                            skip_line_comment(s, self@.pos) == target,
                        invariant
                            self@.input == s,
                            self@.done == old(self)@.done,
                            round + 2 <= self@.pos <= s.len(),
                        ensures
                            round + 2 <= self@.pos <= s.len(),
                            skip_blank(s, self@.pos) == target,
                        decreases s.len() - self@.pos,
                    {
                        match self.peek() {
                            Some(c) => {
                                self.bump();
                                if c == '\n' {
                                    break;
                                }
                            },
                            None => {
                                break;
                            },
                        }
                    }
                    continue;
                } else if next == Some('*') {
                    self.bump();
                    self.bump();
                    assert(skip_block_comment(s, self@.pos) == target);
                    loop
                        invariant_except_break
                            skip_block_comment(s, self@.pos) == target,
                        invariant
                            self@.input == s,
                            self@.done == old(self)@.done,
                            round + 2 <= self@.pos <= s.len(),
                        ensures
                            round + 2 <= self@.pos <= s.len(),
                            skip_blank(s, self@.pos) == target,
                        decreases s.len() - self@.pos,
                    {
                        match self.bump() {
                            Some(c) => {
                                if c == '*' {
                                    if self.peek() == Some('/') {
                                        self.bump();
                                        break;
                                    }
                                }
                            },
                            None => {
                                break;
                            },
                        }
                    }
                    continue;
                }
            }
            if !progressed {
                break;
            }
        }
    }

    /// Scans the body of a string literal whose opening quote was consumed.
    fn read_string(&mut self) -> (r: Result<Token, LexError>)
        ensures
            final(self)@.input == old(self)@.input,
            final(self)@.done == old(self)@.done,
            match string_body(old(self)@.input, old(self)@.pos) {
                Ok((t, j)) => r matches Ok(tok) && tok@ == TokenView::StringLiteral(t)
                    && final(self)@.pos == j,
                Err(e) => r == Err::<Token, LexError>(e),
            },
    {
        proof { use_type_invariant(&*self); }
        let ghost s = self@.input;
        let ghost start = self@.pos;
        let mut acc: Vec<char> = Vec::new();
        loop
            invariant
                s == old(self)@.input,
                start == old(self)@.pos,
                self@.input == s,
                self@.done == old(self)@.done,
                0 <= self@.pos <= s.len(),
                string_body(s, start) == after_decoded(acc@, string_body(s, self@.pos)),
            decreases s.len() - self@.pos,
        {
            let ghost here = self@.pos;
            match self.bump() {
                Some(c) => {
                    if c == '\\' {
                        match self.bump() {
                            Some(n) => match unescape(n) {
                                Some(e) => {
                                    proof {
                                        match string_body(s, here + 2) {
                                            Ok((t, j)) => {
                                                assert(acc@.push(e) + t =~= acc@ + (seq![e] + t));
                                            },
                                            Err(_) => {},
                                        }
                                    }
                                    acc.push(e);
                                },
                                None => {
                                    return Err(LexError::InvalidEscape);
                                },
                            },
                            None => {
                                return Err(LexError::UnterminatedString);
                            },
                        }
                    } else if c == '"' {
                        assert(acc@ + Seq::<char>::empty() =~= acc@);
                        return Ok(Token::StringLiteral(string_of(&acc)));
                    } else {
                        proof {
                            match string_body(s, here + 1) {
                                Ok((t, j)) => {
                                    assert(acc@.push(c) + t =~= acc@ + (seq![c] + t));
                                },
                                Err(_) => {},
                            }
                        }
                        acc.push(c);
                    }
                },
                None => {
                    return Err(LexError::UnterminatedString);
                },
            }
        }
    }

    /// Scans the body of a char literal whose opening quote was consumed.
    fn read_char(&mut self) -> (r: Result<Token, LexError>)
        ensures
            final(self)@.input == old(self)@.input,
            final(self)@.done == old(self)@.done,
            match char_body(old(self)@.input, old(self)@.pos) {
                Ok((d, j)) => r == Ok::<Token, LexError>(Token::CharLiteral(d)) && final(self)@.pos == j,
                Err(e) => r == Err::<Token, LexError>(e),
            },
    {
        match self.bump() {
            Some(c) => {
                if c == '\\' {
                    match self.bump() {
                        Some(n) => {
                            let esc = match unescape(n) {
                                Some(e) => e,
                                None => {
                                    return Err(LexError::InvalidEscape);
                                },
                            };
                            if self.peek() == Some('\'') {
                                self.bump();
                                Ok(Token::CharLiteral(esc))
                            } else {
                                Err(LexError::UnterminatedChar)
                            }
                        },
                        None => Err(LexError::UnterminatedChar),
                    }
                } else if self.peek() == Some('\'') {
                    self.bump();
                    Ok(Token::CharLiteral(c))
                } else {
                    Err(LexError::UnterminatedChar)
                }
            },
            None => Err(LexError::UnterminatedChar),
        }
    }

    /// Ends the token sequence: nothing more is read from the input.
    fn finish(&mut self)
        ensures
            final(self)@ == (LexerView { input: old(self)@.input, pos: old(self)@.input.len() as int, done: true }),
    {
        self.pos = self.chars.len();
        self.done = true;
    }

    /// Pulls the next token. The end of input is handed out once as `Eof`, and an
    /// error once as `Err`; after either, the sequence is over and `None` comes.
    pub fn next(&mut self) -> (r: Option<Result<Token, LexError>>)
        ensures
            (pulled_view(r), final(self)@) == pull(old(self)@),
    {
        proof { use_type_invariant(&*self); }
        if self.done {
            return None;
        }
        self.skip_whitespace_and_comments();
        let ghost s = self@.input;
        let ghost k = self@.pos;
        match self.bump() {
            None => {
                self.finish();
                Some(Ok(Token::Eof))
            },
            Some(c) => {
                if is_ident_start(c) {
                    let mut text: Vec<char> = Vec::new();
                    text.push(c);
                    let test = |x: char| -> (b: bool)
                        ensures
                            b == ident_continue(x),
                        {
                            is_ident_continue(x)
                        };
                    let mut rest = self.eat_while(test, Ghost(|x: char| ident_continue(x)));
                    text.append(&mut rest);
                    proof { use_type_invariant(&*self); }
                    assert(text@ =~= s.subrange(k, self@.pos));
                    Some(Ok(Token::Identifier(string_of(&text))))
                } else if is_ascii_digit(c) {
                    let mut text: Vec<char> = Vec::new();
                    text.push(c);
                    let test = |x: char| -> (b: bool)
                        ensures
                            b == number_continue(x),
                        {
                            is_number_continue(x)
                        };
                    let mut rest = self.eat_while(test, Ghost(|x: char| number_continue(x)));
                    text.append(&mut rest);
                    proof { use_type_invariant(&*self); }
                    assert(text@ =~= s.subrange(k, self@.pos));
                    Some(Ok(Token::Number(string_of(&text))))
                } else if c == '"' {
                    match self.read_string() {
                        Ok(t) => Some(Ok(t)),
                        Err(e) => {
                            self.finish();
                            Some(Err(e))
                        },
                    }
                } else if c == '\'' {
                    match self.read_char() {
                        Ok(t) => Some(Ok(t)),
                        Err(e) => {
                            self.finish();
                            Some(Err(e))
                        },
                    }
                } else if is_punct(c) {
                    Some(Ok(Token::Punct(c)))
                } else {
                    let mut text: Vec<char> = Vec::new();
                    text.push(c);
                    match self.peek() {
                        Some(n) => {
                            if is_two_char_operator(c, n) {
                                self.bump();
                                text.push(n);
                            }
                        },
                        None => {},
                    }
                    assert(text@.len() == 1 ==> text@ =~= seq![c]);
                    assert(text@.len() == 2 ==> text@ =~= seq![c, s[k + 1]]);
                    Some(Ok(Token::Operator(string_of(&text))))
                }
            },
        }
    }
}

} // verus!
