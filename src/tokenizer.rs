use vstd::prelude::*;
use crate::position::{lemma_pos_after_bounds, pos_after, CodePosition};
use crate::arch::lookup;
use crate::text::{chars_of, is_alphabetic, is_alphanumeric, is_white_space, push_char, to_lower};
use crate::text::{alphabetic, lowercase_of};
use crate::token::{
    fails_with, digit_of, digit_value, literal_radix, digits_end, digits_outcome, is_decimal, lemma_digits_end, lemma_number_value_grows,
    lemma_overflow_persists, number_value, scan_string, word_end, word_kind, is_decimal_digit, scan_integer, LexErrorKind, lemma_scan_progress, lexes, scan, tokens_model, white_end, Lexeme, LexError, Scan, Token,
    TokenModel, TokenType,
};

verus! {

/// A single pass over source text that produces its tokens one at a time.
#[derive(Clone)]
pub struct Tokenizer<'a> {
    code: &'a str,
    chars: Vec<char>,
    tokens: Vec<Token>,
    position: CodePosition,
}

impl<'a> Tokenizer<'a> {
    /// The source text, as characters.
    pub closed spec fn source(&self) -> Seq<char> {
        self.code@
    }

    /// The tokens produced so far.
    pub closed spec fn produced(&self) -> Seq<TokenModel> {
        tokens_model(self.tokens@)
    }

    /// The index of the next character to scan.
    pub closed spec fn cursor(&self) -> nat {
        self.position.char as nat
    }

    spec fn cursor_ok(&self) -> bool {
        &&& self.chars@ == self.code@
        &&& self.position.char <= self.chars.len()
        &&& self.position@ == pos_after(self.chars@, self.position.char as nat)
    }

    /// The tokens produced so far are exactly those that scanning the source
    /// from its start yields up to the cursor.
    pub closed spec fn wf(&self) -> bool {
        &&& self.cursor_ok()
        &&& lexes(self.chars@, tokens_model(self.tokens@), self.position.char as nat)
    }

    /// Creates a new [`Tokenizer`] at the start of `code`.
    ///
    /// Most callers want [`Tokenizer::tokenize`] instead.
    pub fn new(code: &'a str) -> (r: Self)
        ensures
            r.wf(),
            r.source() == code@,
            r.produced() == Seq::<TokenModel>::empty(),
            r.cursor() == 0,
    {
        let r = Tokenizer {
            code,
            chars: chars_of(code),
            tokens: Vec::new(),
            position: CodePosition::origin(),
        };
        assert(tokens_model(r.tokens@) =~= Seq::<TokenModel>::empty());
        r
    }

    fn peek(&self, offset: usize) -> (r: Option<char>)
        requires
            self.position.char <= self.chars.len(),
        ensures
            r == if self.position.char + offset < self.chars.len() {
                Some(self.chars@[self.position.char + offset])
            } else {
                None::<char>
            },
    {
        if offset < self.chars.len() - self.position.char {
            Some(self.chars[self.position.char + offset])
        } else {
            None
        }
    }

    fn take(&mut self) -> (r: Option<char>)
        requires
            old(self).cursor_ok(),
        ensures
            final(self).cursor_ok(),
            final(self).code == old(self).code,
            final(self).chars == old(self).chars,
            final(self).tokens == old(self).tokens,
            old(self).position.char < old(self).chars.len() ==> {
                &&& r == Some(old(self).chars@[old(self).position.char as int])
                &&& final(self).position.char == old(self).position.char + 1
            },
            old(self).position.char >= old(self).chars.len() ==> {
                &&& r is None
                &&& final(self).position == old(self).position
            },
    {
        let chr = match self.peek(0) {
            Some(c) => c,
            None => return None,
        };
        proof {
            lemma_pos_after_bounds(self.chars@, self.position.char as nat);
        }
        self.position = self.position.next_auto(chr);
        assert(self.position@ == pos_after(self.chars@, self.position.char as nat));
        Some(chr)
    }

    /// Consumes the maximal run of whitespace at the cursor.
    fn skip_white_space(&mut self)
        requires
            old(self).cursor_ok(),
        ensures
            final(self).cursor_ok(),
            final(self).code == old(self).code,
            final(self).chars == old(self).chars,
            final(self).tokens == old(self).tokens,
            final(self).position.char == white_end(old(self).chars@, old(self).position.char as nat),
    {
        let ghost start = self.position.char as nat;
        let ghost s = self.chars@;
        loop
            invariant
                self.cursor_ok(),
                self.code == old(self).code,
                self.chars == old(self).chars,
                self.tokens == old(self).tokens,
                s == self.chars@,
                white_end(s, start) == white_end(s, self.position.char as nat),
            ensures
                self.cursor_ok(),
                self.code == old(self).code,
                self.chars == old(self).chars,
                self.tokens == old(self).tokens,
                self.position.char == white_end(s, start),
            decreases self.chars.len() - self.position.char,
        {
            match self.peek(0) {
                Some(x) => {
                    if is_white_space(x) {
                        self.take();
                    } else {
                        break;
                    }
                },
                None => break,
            }
        }
    }

    /// The value of the character at the cursor as a digit in `radix`, if it is one.
    fn peek_digit(&self, radix: u32) -> (r: Option<u32>)
        requires
            self.position.char <= self.chars.len(),
            radix <= 36,
        ensures
            self.position.char < self.chars.len() ==> {
                let c = self.chars@[self.position.char as int];
                &&& r matches Some(d) ==> digit_of(c, radix as nat) == Some(d as nat)
                &&& r is None ==> digit_of(c, radix as nat) is None
            },
            self.position.char >= self.chars.len() ==> r is None,
    {
        match self.peek(0) {
            Some(c) => digit_value(c, radix),
            None => None,
        }
    }

    /// Scans an integer literal whose first digit is at the cursor.
    fn scan_integer_literal(&mut self) -> (r: Result<isize, LexError>)
        requires
            old(self).cursor_ok(),
            old(self).position.char < old(self).chars.len(),
            is_decimal(old(self).chars@[old(self).position.char as int]),
        ensures
            final(self).cursor_ok(),
            final(self).code == old(self).code,
            final(self).chars == old(self).chars,
            final(self).tokens == old(self).tokens,
            match r {
                Ok(v) => scan_integer(old(self).chars@, old(self).position.char as nat)
                    == Scan::Emit(Lexeme::IntegerLiteral(v as int), final(self).position.char as nat),
                Err(e) => {
                    &&& scan_integer(old(self).chars@, old(self).position.char as nat)
                        == Scan::Fail(e.kind, e.position.char as nat)
                    &&& e.position@ == pos_after(old(self).chars@, e.position.char as nat)
                },
            },
    {
        let ghost s = self.chars@;
        let start = self.position;
        let chr = self.chars[self.position.char];
        let radix: u32 = literal_radix(chr, self.peek(1));
        if radix != 10 {
            self.take();
            self.take();
            if self.peek_digit(radix).is_none() {
                return Err(LexError { kind: LexErrorKind::MalformedInteger, position: self.position });
            }
        }
        assert(radix == 10 ==> digit_of(chr, 10) is Some);
        let ghost body = self.position.char as nat;
        proof {
            lemma_digits_end(s, body, radix as nat);
        }
        let mut value: isize = 0;
        loop
            invariant
                self.cursor_ok(),
                self.code == old(self).code,
                self.chars == old(self).chars,
                self.tokens == old(self).tokens,
                s == self.chars@,
                start == old(self).position,
                start@ == pos_after(s, start.char as nat),
                2 <= radix && radix <= 16,
                body <= self.position.char && self.position.char <= digits_end(s, body, radix as nat),
                digits_end(s, body, radix as nat) == digits_end(s, self.position.char as nat, radix as nat),
                value == number_value(s, body, self.position.char as nat, radix as nat),
                scan_integer(s, start.char as nat) == digits_outcome(s, start.char as nat, body, radix as nat),
            ensures
                self.cursor_ok(),
                self.code == old(self).code,
                self.chars == old(self).chars,
                self.tokens == old(self).tokens,
                self.position.char == digits_end(s, body, radix as nat),
                value == number_value(s, body, self.position.char as nat, radix as nat),
            decreases self.chars.len() - self.position.char,
        {
            let d = match self.peek_digit(radix) {
                Some(d) => d,
                None => break,
            };
            let ghost here = self.position.char as nat;
            let next = match value.checked_mul(radix as isize) {
                Some(m) => m.checked_add(d as isize),
                None => None,
            };
            proof {
                lemma_number_value_grows(s, body, here + 1, radix as nat);
                lemma_digits_end(s, here + 1, radix as nat);
                assert(number_value(s, body, here + 1, radix as nat) == value * radix + d);
            }
            if next.is_none() {
                proof {
                    lemma_overflow_persists(s, body, here, radix as nat);
                }
                return Err(LexError { kind: LexErrorKind::IntegerOverflow, position: start });
            }
            value = next.unwrap();
            self.take();
        }
        Ok(value)
    }

    /// Scans a string literal whose opening quote is at the cursor.
    fn scan_string_literal(&mut self) -> (r: Result<String, LexError>)
        requires
            old(self).cursor_ok(),
            old(self).position.char < old(self).chars.len(),
            old(self).chars@[old(self).position.char as int] == '"',
        ensures
            final(self).cursor_ok(),
            final(self).code == old(self).code,
            final(self).chars == old(self).chars,
            final(self).tokens == old(self).tokens,
            match r {
                Ok(text) => scan_string(
                    old(self).chars@,
                    old(self).position.char as nat,
                    (old(self).position.char + 1) as nat,
                    Seq::empty(),
                ) == Scan::Emit(Lexeme::StringLiteral(text@), final(self).position.char as nat),
                Err(e) => {
                    &&& scan_string(
                        old(self).chars@,
                        old(self).position.char as nat,
                        (old(self).position.char + 1) as nat,
                        Seq::empty(),
                    ) == Scan::Fail(e.kind, e.position.char as nat)
                    &&& e.position@ == pos_after(old(self).chars@, e.position.char as nat)
                },
            },
    {
        let ghost s = self.chars@;
        let start = self.position;
        self.take();
        let mut text = String::new();
        loop
            invariant
                self.cursor_ok(),
                self.code == old(self).code,
                self.chars == old(self).chars,
                self.tokens == old(self).tokens,
                s == self.chars@,
                start == old(self).position,
                start@ == pos_after(s, start.char as nat),
                start.char < self.position.char,
                scan_string(s, start.char as nat, (start.char + 1) as nat, Seq::empty())
                    == scan_string(s, start.char as nat, self.position.char as nat, text@),
            decreases self.chars.len() - self.position.char,
        {
            let c = match self.take() {
                Some(c) => c,
                None => {
                    return Err(LexError { kind: LexErrorKind::UnterminatedString, position: start });
                },
            };
            if c == '\\' {
                let e = match self.take() {
                    Some(e) => e,
                    None => {
                        return Err(LexError { kind: LexErrorKind::MalformedEscape, position: self.position });
                    },
                };
                if e == 'n' {
                    push_char(&mut text, '\n');
                } else if e == 'r' {
                    push_char(&mut text, '\r');
                } else if e == '"' {
                    push_char(&mut text, '"');
                } else {
                    return Err(
                        LexError { kind: LexErrorKind::InvalidEscapeSequence(e), position: self.position },
                    );
                }
            } else if c == '"' {
                return Ok(text);
            } else {
                push_char(&mut text, c);
            }
        }
    }

    /// Scans an identifier whose first, alphabetic, character is at the cursor.
    fn scan_word(&mut self) -> (r: TokenType)
        requires
            old(self).cursor_ok(),
            old(self).position.char < old(self).chars.len(),
            alphabetic(old(self).chars@[old(self).position.char as int]),
        ensures
            final(self).cursor_ok(),
            final(self).code == old(self).code,
            final(self).chars == old(self).chars,
            final(self).tokens == old(self).tokens,
            final(self).position.char == word_end(old(self).chars@, (old(self).position.char + 1) as nat),
            r@ == word_kind(
                lowercase_of(
                    old(self).chars@.subrange(
                        old(self).position.char as int,
                        final(self).position.char as int,
                    ),
                ),
            ),
    {
        let ghost s = self.chars@;
        let ghost start = self.position.char as nat;
        let mut word = String::new();
        let first = self.take();
        push_char(&mut word, first.unwrap());
        loop
            invariant
                self.cursor_ok(),
                self.code == old(self).code,
                self.chars == old(self).chars,
                self.tokens == old(self).tokens,
                s == self.chars@,
                start == old(self).position.char,
                start < self.position.char,
                word@ == s.subrange(start as int, self.position.char as int),
                word_end(s, start + 1) == word_end(s, self.position.char as nat),
            ensures
                self.cursor_ok(),
                self.code == old(self).code,
                self.chars == old(self).chars,
                self.tokens == old(self).tokens,
                start < self.position.char,
                word@ == s.subrange(start as int, self.position.char as int),
                self.position.char == word_end(s, start + 1),
            decreases self.chars.len() - self.position.char,
        {
            let c = match self.peek(0) {
                Some(c) => c,
                None => break,
            };
            if !is_alphanumeric(c) {
                break;
            }
            self.take();
            push_char(&mut word, c);
            assert(word@ =~= s.subrange(start as int, self.position.char as int));
        }
        let lowered = to_lower(word.as_str());
        classify_word(lowered)
    }

    /// Consumes one token, if any is left, and appends it to the tokens.
    ///
    /// Returns `true` when the input is exhausted. On an error the tokenizer
    /// is left as it was.
    pub fn step(&mut self) -> (r: Result<bool, LexError>)
        requires
            old(self).wf(),
        ensures
            final(self).wf(),
            final(self).source() == old(self).source(),
            lexes(final(self).source(), final(self).produced(), final(self).cursor()),
            match r {
                Ok(true) => {
                    &&& scan(old(self).source(), old(self).cursor()) is Done
                    &&& final(self).produced() == old(self).produced()
                    &&& final(self).cursor() == old(self).cursor()
                },
                Ok(false) => {
                    &&& final(self).produced().len() == old(self).produced().len() + 1
                    &&& final(self).produced().drop_last() == old(self).produced()
                    &&& final(self).produced().last().position == pos_after(old(self).source(), old(self).cursor())
                    &&& scan(old(self).source(), old(self).cursor())
                        == Scan::Emit(final(self).produced().last().kind, final(self).cursor())
                },
                Err(e) => {
                    &&& scan(old(self).source(), old(self).cursor()) == Scan::Fail(e.kind, e.position.char as nat)
                    &&& e.position@ == pos_after(old(self).source(), e.position.char as nat)
                    &&& final(self).produced() == old(self).produced()
                    &&& final(self).cursor() == old(self).cursor()
                },
            },
    {
        let ghost s = self.chars@;
        let ghost before = tokens_model(self.tokens@);
        let start = self.position;
        let chr = match self.peek(0) {
            Some(c) => c,
            None => return Ok(true),
        };
        let kind = if is_white_space(chr) {
            self.skip_white_space();
            TokenType::Whitespace
        } else if is_decimal_digit(chr) {
            match self.scan_integer_literal() {
                Ok(v) => TokenType::IntegerLiteral(v),
                Err(e) => {
                    self.position = start;
                    return Err(e);
                },
            }
        } else if chr == '"' {
            match self.scan_string_literal() {
                Ok(text) => TokenType::StringLiteral(text),
                Err(e) => {
                    self.position = start;
                    return Err(e);
                },
            }
        } else if is_alphabetic(chr) {
            self.scan_word()
        } else {
            return Err(LexError { kind: LexErrorKind::UnexpectedCharacter(chr), position: start });
        };
        let token = Token { token: kind, position: start };
        self.tokens.push(token);
        proof {
            assert(tokens_model(self.tokens@).drop_last() =~= before);
            assert(tokens_model(self.tokens@).last() == token@);
        }
        Ok(false)
    }

    /// Runs the tokenizer until the input is exhausted or an error stops it.
    pub fn run(&mut self) -> (r: Result<(), LexError>)
        requires
            old(self).wf(),
        ensures
            final(self).wf(),
            final(self).source() == old(self).source(),
            lexes(final(self).source(), final(self).produced(), final(self).cursor()),
            r is Ok ==> scan(final(self).source(), final(self).cursor()) is Done,
            r is Ok ==> final(self).cursor() == final(self).source().len(),
            r matches Err(e) ==> {
                &&& scan(final(self).source(), final(self).cursor()) == Scan::Fail(e.kind, e.position.char as nat)
                &&& e.position@ == pos_after(final(self).source(), e.position.char as nat)
            },
    {
        loop
            invariant
                self.wf(),
                self.source() == old(self).source(),
            decreases self.chars.len() - self.position.char,
        {
            let ghost here = self.position.char as nat;
            match self.step() {
                Ok(true) => {
                    proof {
                        lemma_scan_progress(self.chars@, here);
                    }
                    return Ok(());
                },
                Ok(false) => {
                    proof {
                        lemma_scan_progress(self.chars@, here);
                    }
                },
                Err(e) => {
                    return Err(e);
                },
            }
        }
    }

    /// Consumes the tokenizer and returns the tokens it produced.
    ///
    /// Call [`Tokenizer::run`] first to scan the whole input.
    pub fn finish(self) -> (r: Vec<Token>)
        ensures
            tokens_model(r@) == self.produced(),
    {
        self.tokens
    }

    /// Scans all of `code` into tokens, or returns the error that stops the scan.
    pub fn tokenize(code: &'a str) -> (r: Result<Vec<Token>, LexError>)
        ensures
            r matches Ok(t) ==> lexes(code@, tokens_model(t@), code@.len()),
            r matches Err(e) ==> fails_with(code@, e),
    {
        let mut tokenizer = Self::new(code);
        match tokenizer.run() {
            Ok(()) => Ok(tokenizer.finish()),
            Err(e) => {
                assert(lexes(code@, tokenizer.produced(), tokenizer.cursor()));
                Err(e)
            },
        }
    }
}

/// The token for an identifier, given its lowercase spelling: a register if
/// the catalogue has that spelling, else an instruction or keyword.
pub fn classify_word(lowered: String) -> (r: TokenType)
    ensures
        r@ == word_kind(lowered@),
{
    match lookup(lowered.as_str()) {
        Some(reg) => TokenType::RegisterPointer(reg),
        None => TokenType::InstructionOrKeyword(lowered),
    }
}

} // verus!
