use vstd::prelude::*;
use crate::arch::{catalogue, Register};
use crate::position::{pos_after, CodePosition, PosModel};
use crate::text::{alphabetic, alphanumeric, lowercase_of, white_space};

verus! {

/// The kind of a token, with its decoded payload.
///
/// `Symbol` and `SymbolLiteral` are reserved for label syntax: no rule
/// produces them yet. `Eof` is never produced either: the end of the input is
/// reported by [`crate::tokenizer::Tokenizer::step`] returning `true`.
#[derive(Clone, Debug)]
pub enum TokenType {
    InstructionOrKeyword(String),
    StringLiteral(String),
    IntegerLiteral(isize),
    SymbolLiteral(String),
    Symbol(String),
    RegisterPointer(Register),
    Whitespace,
    Eof,
}

/// The mathematical value of a [`TokenType`].
pub enum Lexeme {
    InstructionOrKeyword(Seq<char>),
    StringLiteral(Seq<char>),
    IntegerLiteral(int),
    SymbolLiteral(Seq<char>),
    Symbol(Seq<char>),
    RegisterPointer(Register),
    Whitespace,
    Eof,
}

impl View for TokenType {
    type V = Lexeme;

    open spec fn view(&self) -> Lexeme {
        match self {
            TokenType::InstructionOrKeyword(s) => Lexeme::InstructionOrKeyword(s@),
            TokenType::StringLiteral(s) => Lexeme::StringLiteral(s@),
            TokenType::IntegerLiteral(v) => Lexeme::IntegerLiteral(*v as int),
            TokenType::SymbolLiteral(s) => Lexeme::SymbolLiteral(s@),
            TokenType::Symbol(s) => Lexeme::Symbol(s@),
            TokenType::RegisterPointer(r) => Lexeme::RegisterPointer(*r),
            TokenType::Whitespace => Lexeme::Whitespace,
            TokenType::Eof => Lexeme::Eof,
        }
    }
}

/// A token and the position of its first character.
#[derive(Clone, Debug)]
pub struct Token {
    pub token: TokenType,
    pub position: CodePosition,
}

/// The mathematical value of a [`Token`].
pub struct TokenModel {
    pub kind: Lexeme,
    pub position: PosModel,
}

impl View for Token {
    type V = TokenModel;

    open spec fn view(&self) -> TokenModel {
        TokenModel { kind: self.token@, position: self.position@ }
    }
}

/// The tokens of a sequence, as values.
pub open spec fn tokens_model(v: Seq<Token>) -> Seq<TokenModel> {
    v.map_values(|t: Token| t@)
}

/// What went wrong while scanning.
#[derive(Clone, Copy, Debug, PartialEq, Eq, Structural)]
pub enum LexErrorKind {
    /// A radix prefix with no valid digit after it.
    MalformedInteger,
    /// A literal whose value does not fit in an `isize`.
    IntegerOverflow,
    /// The input ended inside a string literal.
    UnterminatedString,
    /// A backslash followed by a character that is no escape.
    InvalidEscapeSequence(char),
    /// The input ended right after a backslash.
    MalformedEscape,
    /// A character that can start no token.
    UnexpectedCharacter(char),
}

/// A scanning error and the position it is reported at.
///
/// For an unterminated string the position is that of the opening quote;
/// for an integer overflow, that of the literal's first character; otherwise
/// it is the scanner's position when the error was found.
#[derive(Clone, Copy, Debug, PartialEq, Eq, Structural)]
pub struct LexError {
    pub kind: LexErrorKind,
    pub position: CodePosition,
}

/// The outcome of scanning one token at an index.
pub enum Scan {
    /// The input is exhausted.
    Done,
    /// A token of this kind, ending just before the given index.
    Emit(Lexeme, nat),
    /// An error, reported at the given index.
    Fail(LexErrorKind, nat),
}

/// A decimal digit.
pub open spec fn is_decimal(c: char) -> bool {
    '0' <= c && c <= '9'
}

/// The value of `c` as a digit in `radix` (at most 36), if it is one.
pub open spec fn digit_of(c: char, radix: nat) -> Option<nat> {
    let d: int = if '0' <= c && c <= '9' {
        c as int - '0' as int
    } else if 'a' <= c && c <= 'z' {
        c as int - 'a' as int + 10
    } else if 'A' <= c && c <= 'Z' {
        c as int - 'A' as int + 10
    } else {
        36
    };
    if d < radix {
        Some(d as nat)
    } else {
        None
    }
}

/// Whether `c` is a decimal digit.
pub fn is_decimal_digit(c: char) -> (r: bool)
    ensures
        r == is_decimal(c),
{
    '0' <= c && c <= '9'
}

/// The value of `c` as a digit in `radix`, if it is one.
pub fn digit_value(c: char, radix: u32) -> (r: Option<u32>)
    requires
        radix <= 36,
    ensures
        r matches Some(d) ==> digit_of(c, radix as nat) == Some(d as nat),
        r is None ==> digit_of(c, radix as nat) is None,
{
    let d: u32 = if '0' <= c && c <= '9' {
        (c as u32) - ('0' as u32)
    } else if 'a' <= c && c <= 'z' {
        (c as u32) - ('a' as u32) + 10
    } else if 'A' <= c && c <= 'Z' {
        (c as u32) - ('A' as u32) + 10
    } else {
        36
    };
    if d < radix {
        Some(d)
    } else {
        None
    }
}

/// The radix that a `0` followed by `c` introduces, or 10 when `c` is no radix letter.
pub open spec fn prefix_radix(c: char) -> nat {
    if c == 'x' {
        16
    } else if c == 'o' {
        8
    } else if c == 'b' {
        2
    } else {
        10
    }
}

/// The end of the run of whitespace starting at `i`.
pub open spec fn white_end(s: Seq<char>, i: nat) -> nat
    decreases s.len() - i,
{
    if i < s.len() && white_space(s[i as int]) {
        white_end(s, i + 1)
    } else {
        i
    }
}

/// The end of the run of alphanumeric characters starting at `i`.
pub open spec fn word_end(s: Seq<char>, i: nat) -> nat
    decreases s.len() - i,
{
    if i < s.len() && alphanumeric(s[i as int]) {
        word_end(s, i + 1)
    } else {
        i
    }
}

/// The end of the run of digits in `radix` starting at `i`.
pub open spec fn digits_end(s: Seq<char>, i: nat, radix: nat) -> nat
    decreases s.len() - i,
{
    if i < s.len() && digit_of(s[i as int], radix) is Some {
        digits_end(s, i + 1, radix)
    } else {
        i
    }
}

/// The value of the digits `s[lo..hi]` in `radix`.
pub open spec fn number_value(s: Seq<char>, lo: nat, hi: nat, radix: nat) -> int
    decreases hi,
{
    if hi <= lo {
        0
    } else {
        let d = match digit_of(s[hi - 1], radix) {
            Some(d) => d as int,
            None => 0,
        };
        number_value(s, lo, (hi - 1) as nat, radix) * radix + d
    }
}

/// The literal whose digits in `radix` start at `body`, for a literal that starts at `i`.
pub open spec fn digits_outcome(s: Seq<char>, i: nat, body: nat, radix: nat) -> Scan {
    let end = digits_end(s, body, radix);
    let v = number_value(s, body, end, radix);
    if v > isize::MAX {
        Scan::Fail(LexErrorKind::IntegerOverflow, i)
    } else {
        Scan::Emit(Lexeme::IntegerLiteral(v), end)
    }
}

/// The radix of an integer literal that starts with `first`, followed by `second` if any.
pub fn literal_radix(first: char, second: Option<char>) -> (r: u32)
    ensures
        r == match second {
            Some(c) if first == '0' => prefix_radix(c),
            _ => 10,
        },
{
    match second {
        Some(c) if first == '0' => {
            if c == 'x' {
                16
            } else if c == 'o' {
                8
            } else if c == 'b' {
                2
            } else {
                10
            }
        },
        _ => 10,
    }
}

/// Scans an integer literal whose first digit is at `i`.
pub open spec fn scan_integer(s: Seq<char>, i: nat) -> Scan {
    let radix = if s[i as int] == '0' && i + 1 < s.len() {
        prefix_radix(s[i + 1int])
    } else {
        10
    };
    let body: nat = if radix != 10 { i + 2 } else { i };
    if radix != 10 && !(body < s.len() && digit_of(s[body as int], radix) is Some) {
        Scan::Fail(LexErrorKind::MalformedInteger, body)
    } else {
        digits_outcome(s, i, body, radix)
    }
}

/// Scans the rest of a string literal opened at `open`, from `j`, with the
/// payload `acc` decoded so far.
pub open spec fn scan_string(s: Seq<char>, open: nat, j: nat, acc: Seq<char>) -> Scan
    decreases s.len() - j,
{
    if j >= s.len() {
        Scan::Fail(LexErrorKind::UnterminatedString, open)
    } else if s[j as int] == '\\' {
        if j + 1 >= s.len() {
            Scan::Fail(LexErrorKind::MalformedEscape, j + 1)
        } else {
            let e = s[j + 1int];
            if e == 'n' {
                scan_string(s, open, j + 2, acc.push('\n'))
            } else if e == 'r' {
                scan_string(s, open, j + 2, acc.push('\r'))
            } else if e == '"' {
                scan_string(s, open, j + 2, acc.push('"'))
            } else {
                Scan::Fail(LexErrorKind::InvalidEscapeSequence(e), j + 2)
            }
        }
    } else if s[j as int] == '"' {
        Scan::Emit(Lexeme::StringLiteral(acc), j + 1)
    } else {
        scan_string(s, open, j + 1, acc.push(s[j as int]))
    }
}

/// The token for an identifier, given its lowercase spelling.
pub open spec fn word_kind(lowered: Seq<char>) -> Lexeme {
    match catalogue(lowered) {
        Some(r) => Lexeme::RegisterPointer(r),
        None => Lexeme::InstructionOrKeyword(lowered),
    }
}

/// Scans one token at index `i`, by the first rule that applies.
pub open spec fn scan(s: Seq<char>, i: nat) -> Scan {
    if i >= s.len() {
        Scan::Done
    } else {
        let c = s[i as int];
        if white_space(c) {
            Scan::Emit(Lexeme::Whitespace, white_end(s, i))
        } else if is_decimal(c) {
            scan_integer(s, i)
        } else if c == '"' {
            scan_string(s, i, i + 1, Seq::empty())
        } else if alphabetic(c) {
            let end = word_end(s, i + 1);
            Scan::Emit(word_kind(lowercase_of(s.subrange(i as int, end as int))), end)
        } else {
            Scan::Fail(LexErrorKind::UnexpectedCharacter(c), i)
        }
    }
}

/// `toks` are the tokens that scanning from the start of `s` produces, up to index `end`.
pub open spec fn lexes(s: Seq<char>, toks: Seq<TokenModel>, end: nat) -> bool
    decreases toks.len(),
{
    if toks.len() == 0 {
        end == 0
    } else {
        let t = toks.last();
        &&& lexes(s, toks.drop_last(), t.position.index)
        &&& t.position == pos_after(s, t.position.index)
        &&& scan(s, t.position.index) == Scan::Emit(t.kind, end)
    }
}

/// `e` is the error that scanning `s` stops with.
pub open spec fn fails_with(s: Seq<char>, e: LexError) -> bool {
    &&& exists|toks: Seq<TokenModel>, p: nat| lexes(s, toks, p) && scan(s, p) == Scan::Fail(
        e.kind,
        e.position.char as nat,
    )
    &&& e.position@ == pos_after(s, e.position.char as nat)
}

proof fn lemma_white_end(s: Seq<char>, i: nat)
    requires
        i <= s.len(),
    ensures
        i <= white_end(s, i) <= s.len(),
    decreases s.len() - i,
{
    if i < s.len() && white_space(s[i as int]) {
        lemma_white_end(s, i + 1);
    }
}

proof fn lemma_word_end(s: Seq<char>, i: nat)
    requires
        i <= s.len(),
    ensures
        i <= word_end(s, i) <= s.len(),
    decreases s.len() - i,
{
    if i < s.len() && alphanumeric(s[i as int]) {
        lemma_word_end(s, i + 1);
    }
}

pub(crate) proof fn lemma_digits_end(s: Seq<char>, i: nat, radix: nat)
    requires
        i <= s.len(),
    ensures
        i <= digits_end(s, i, radix) <= s.len(),
    decreases s.len() - i,
{
    if i < s.len() && digit_of(s[i as int], radix) is Some {
        lemma_digits_end(s, i + 1, radix);
    }
}

/// More digits never make a smaller number.
pub(crate) proof fn lemma_number_value_grows(s: Seq<char>, lo: nat, hi: nat, radix: nat)
    requires
        radix >= 1,
    ensures
        0 <= number_value(s, lo, hi, radix),
        lo < hi ==> number_value(s, lo, (hi - 1) as nat, radix) <= number_value(s, lo, hi, radix),
    decreases hi,
{
    if hi > lo {
        let prev = number_value(s, lo, (hi - 1) as nat, radix);
        lemma_number_value_grows(s, lo, (hi - 1) as nat, radix);
        assert(prev <= prev * radix) by (nonlinear_arith)
            requires
                prev >= 0,
                radix >= 1,
        ;
    }
}

pub(crate) proof fn lemma_number_value_monotone(s: Seq<char>, lo: nat, hi1: nat, hi2: nat, radix: nat)
    requires
        radix >= 1,
        lo <= hi1 <= hi2,
    ensures
        number_value(s, lo, hi1, radix) <= number_value(s, lo, hi2, radix),
    decreases hi2 - hi1,
{
    if hi1 < hi2 {
        lemma_number_value_monotone(s, lo, hi1, (hi2 - 1) as nat, radix);
        lemma_number_value_grows(s, lo, hi2, radix);
    }
}

/// Once the digits up to `here` overflow, the whole run of digits does.
pub(crate) proof fn lemma_overflow_persists(s: Seq<char>, body: nat, here: nat, radix: nat)
    requires
        2 <= radix,
        body <= here < s.len(),
        digit_of(s[here as int], radix) is Some,
        digits_end(s, here, radix) == digits_end(s, body, radix),
        number_value(s, body, here + 1, radix) > isize::MAX,
    ensures
        number_value(s, body, digits_end(s, body, radix), radix) > isize::MAX,
{
    lemma_digits_end(s, here + 1, radix);
    lemma_number_value_monotone(s, body, here + 1, digits_end(s, body, radix), radix);
}

proof fn lemma_scan_string_bounds(s: Seq<char>, open: nat, j: nat, acc: Seq<char>)
    requires
        open < j <= s.len(),
    ensures
        match scan_string(s, open, j, acc) {
            Scan::Emit(_, end) => j < end <= s.len(),
            Scan::Fail(_, at) => at <= s.len(),
            Scan::Done => false,
        },
    decreases s.len() - j,
{
    if j < s.len() {
        if s[j as int] == '\\' {
            if j + 1 < s.len() {
                let e = s[j + 1int];
                if e == 'n' {
                    lemma_scan_string_bounds(s, open, j + 2, acc.push('\n'));
                } else if e == 'r' {
                    lemma_scan_string_bounds(s, open, j + 2, acc.push('\r'));
                } else if e == '"' {
                    lemma_scan_string_bounds(s, open, j + 2, acc.push('"'));
                }
            }
        } else if s[j as int] != '"' {
            lemma_scan_string_bounds(s, open, j + 1, acc.push(s[j as int]));
        }
    }
}

/// Every token that a scan emits is non-empty and lies within the input,
/// and every error is reported within the input.
pub proof fn lemma_scan_progress(s: Seq<char>, i: nat)
    ensures
        match scan(s, i) {
            Scan::Done => i >= s.len(),
            Scan::Emit(_, end) => i < end <= s.len(),
            Scan::Fail(_, at) => at <= s.len(),
        },
{
    if i < s.len() {
        let c = s[i as int];
        if white_space(c) {
            lemma_white_end(s, i + 1);
        } else if is_decimal(c) {
            let radix = if c == '0' && i + 1 < s.len() {
                prefix_radix(s[i + 1int])
            } else {
                10
            };
            let body: nat = if radix != 10 { i + 2 } else { i };
            if radix == 10 {
                assert(digit_of(c, 10) is Some);
            }
            if body < s.len() && digit_of(s[body as int], radix) is Some {
                lemma_digits_end(s, body + 1, radix);
            }
        } else if c == '"' {
            lemma_scan_string_bounds(s, i, i + 1, Seq::empty());
        } else if alphabetic(c) {
            lemma_word_end(s, i + 1);
        }
    }
}

/// The text that each token covers, from its start to the start of the next
/// token (for the last one, to `end`), concatenated in order.
pub open spec fn spans(s: Seq<char>, toks: Seq<TokenModel>, end: nat) -> Seq<char>
    decreases toks.len(),
{
    if toks.len() == 0 {
        Seq::empty()
    } else {
        let start = toks.last().position.index;
        spans(s, toks.drop_last(), start) + s.subrange(start as int, end as int)
    }
}

proof fn lemma_spans_prefix(s: Seq<char>, toks: Seq<TokenModel>, end: nat)
    requires
        lexes(s, toks, end),
    ensures
        end <= s.len(),
        spans(s, toks, end) == s.subrange(0, end as int),
        forall|i: int| 0 <= i < toks.len() ==> #[trigger] toks[i].position.index < end,
        forall|i: int, j: int|
            0 <= i < j < toks.len() ==> #[trigger] toks[i].position.index < #[trigger] toks[j].position.index,
    decreases toks.len(),
{
    if toks.len() > 0 {
        let start = toks.last().position.index;
        let rest = toks.drop_last();
        lemma_spans_prefix(s, rest, start);
        lemma_scan_progress(s, start);
        assert(spans(s, toks, end) =~= s.subrange(0, end as int));
        assert forall|i: int| 0 <= i < toks.len() implies #[trigger] toks[i].position.index < end by {
            if i < rest.len() {
                assert(toks[i] == rest[i]);
            }
        }
        assert forall|i: int, j: int|
            0 <= i < j < toks.len() implies #[trigger] toks[i].position.index
            < #[trigger] toks[j].position.index by {
            assert(toks[i] == rest[i]);
            if j < rest.len() {
                assert(toks[j] == rest[j]);
            }
        }
    }
}

/// The tokens of a complete scan partition the input: their starts strictly
/// increase, and the text from each start to the next (the last one to the
/// end of the input) concatenates back to the input exactly.
pub proof fn lemma_tokens_rebuild_input(s: Seq<char>, toks: Seq<TokenModel>)
    requires
        lexes(s, toks, s.len()),
    ensures
        spans(s, toks, s.len()) == s,
        forall|i: int, j: int|
            0 <= i < j < toks.len() ==> #[trigger] toks[i].position.index < #[trigger] toks[j].position.index,
        s.len() > 0 ==> toks.len() > 0 && toks[0].position.index == 0,
{
    lemma_spans_prefix(s, toks, s.len());
    assert(s.subrange(0, s.len() as int) =~= s);
    if s.len() > 0 {
        lemma_first_token_at_start(s, toks, s.len());
    }
}

proof fn lemma_first_token_at_start(s: Seq<char>, toks: Seq<TokenModel>, end: nat)
    requires
        lexes(s, toks, end),
        end > 0,
    ensures
        toks.len() > 0,
        toks[0].position.index == 0,
    decreases toks.len(),
{
    let rest = toks.drop_last();
    let start = toks.last().position.index;
    if rest.len() > 0 {
        lemma_scan_progress(s, start);
        lemma_spans_prefix(s, rest, start);
        lemma_first_token_at_start(s, rest, start);
        assert(toks[0] == rest[0]);
    } else {
        assert(lexes(s, rest, start));
        assert(start == 0);
        assert(toks[0] == toks.last());
    }
}

/// Scanning is deterministic: two scans that produced the same number of
/// tokens produced the same tokens and stopped at the same index.
pub proof fn lemma_lexes_deterministic(
    s: Seq<char>,
    t1: Seq<TokenModel>,
    end1: nat,
    t2: Seq<TokenModel>,
    end2: nat,
)
    requires
        lexes(s, t1, end1),
        lexes(s, t2, end2),
        t1.len() == t2.len(),
    ensures
        t1 == t2,
        end1 == end2,
    decreases t1.len(),
{
    if t1.len() > 0 {
        lemma_lexes_deterministic(
            s,
            t1.drop_last(),
            t1.last().position.index,
            t2.drop_last(),
            t2.last().position.index,
        );
        assert(t1 =~= t2.drop_last().push(t1.last()));
        assert(t2 =~= t2.drop_last().push(t2.last()));
    }
}

proof fn lemma_lexes_prefix(s: Seq<char>, toks: Seq<TokenModel>, p: nat, k: int)
    requires
        lexes(s, toks, p),
        0 <= k < toks.len(),
    ensures
        lexes(s, toks.take(k), toks[k].position.index),
    decreases toks.len(),
{
    let rest = toks.drop_last();
    if k == toks.len() - 1 {
        assert(toks.take(k) =~= rest);
    } else {
        lemma_lexes_prefix(s, rest, toks.last().position.index, k);
        assert(rest.take(k) =~= toks.take(k));
        assert(rest[k] == toks[k]);
    }
}

/// A scan that consumes the whole input and a scan that stops with an error
/// cannot both exist for the same input.
pub proof fn lemma_success_excludes_failure(s: Seq<char>, toks: Seq<TokenModel>, e: LexError)
    requires
        lexes(s, toks, s.len()),
    ensures
        !fails_with(s, e),
{
    if fails_with(s, e) {
        let (other, p) = choose|other: Seq<TokenModel>, p: nat|
            lexes(s, other, p) && scan(s, p) == Scan::Fail(e.kind, e.position.char as nat);
        lemma_scan_progress(s, s.len());
        if other.len() < toks.len() {
            let k = other.len() as int;
            lemma_lexes_prefix(s, toks, s.len(), k);
            lemma_lexes_deterministic(s, other, p, toks.take(k), toks[k].position.index);
            assert(toks.take(k + 1).drop_last() =~= toks.take(k));
            assert(toks.take(k + 1).last() == toks[k]);
            if k + 1 < toks.len() {
                lemma_lexes_prefix(s, toks, s.len(), k + 1);
            } else {
                assert(toks.take(k + 1) =~= toks);
            }
        } else if other.len() == toks.len() {
            lemma_lexes_deterministic(s, other, p, toks, s.len());
        } else {
            let k = toks.len() as int;
            lemma_lexes_prefix(s, other, p, k);
            lemma_lexes_deterministic(s, other.take(k), other[k].position.index, toks, s.len());
            assert(other.take(k + 1).drop_last() =~= other.take(k));
            assert(other.take(k + 1).last() == other[k]);
            if k + 1 < other.len() {
                lemma_lexes_prefix(s, other, p, k + 1);
            } else {
                assert(other.take(k + 1) =~= other);
            }
        }
    }
}

proof fn lemma_white_end_all(s: Seq<char>, i: nat)
    requires
        i <= s.len(),
        forall|k: int| 0 <= k < s.len() ==> white_space(#[trigger] s[k]),
    ensures
        white_end(s, i) == s.len(),
    decreases s.len() - i,
{
    if i < s.len() {
        lemma_white_end_all(s, i + 1);
    }
}

proof fn lemma_white_only_scans(s: Seq<char>, toks: Seq<TokenModel>, p: nat)
    requires
        s.len() > 0,
        forall|k: int| 0 <= k < s.len() ==> white_space(#[trigger] s[k]),
        lexes(s, toks, p),
    ensures
        (toks.len() == 0 && p == 0) || (toks == seq![
            TokenModel { kind: Lexeme::Whitespace, position: pos_after(s, 0) },
        ] && p == s.len()),
    decreases toks.len(),
{
    if toks.len() > 0 {
        let rest = toks.drop_last();
        lemma_white_only_scans(s, rest, toks.last().position.index);
        lemma_white_end_all(s, 0);
        assert(toks =~= rest.push(toks.last()));
        if rest.len() == 0 {
            assert(toks =~= seq![TokenModel { kind: Lexeme::Whitespace, position: pos_after(s, 0) }]);
        }
    }
}

/// Input made only of whitespace scans to exactly one whitespace token at the
/// start, spanning all of it, after which the input is exhausted; scanning it
/// never fails.
pub proof fn lemma_white_space_only(s: Seq<char>)
    requires
        s.len() > 0,
        forall|k: int| 0 <= k < s.len() ==> white_space(#[trigger] s[k]),
    ensures
        lexes(s, seq![TokenModel { kind: Lexeme::Whitespace, position: pos_after(s, 0) }], s.len()),
        scan(s, s.len()) is Done,
        forall|toks: Seq<TokenModel>|
            #[trigger] lexes(s, toks, s.len()) ==> toks == seq![
                TokenModel { kind: Lexeme::Whitespace, position: pos_after(s, 0) },
            ],
        forall|e: LexError| !fails_with(s, e),
{
    let ws = seq![TokenModel { kind: Lexeme::Whitespace, position: pos_after(s, 0) }];
    lemma_white_end_all(s, 0);
    assert(white_space(s[0]));
    assert(ws.drop_last() =~= Seq::<TokenModel>::empty());
    assert(lexes(s, ws.drop_last(), 0));
    assert(scan(s, 0) == Scan::Emit(Lexeme::Whitespace, s.len()));
    assert(lexes(s, ws, s.len()));
    assert forall|toks: Seq<TokenModel>| #[trigger] lexes(s, toks, s.len()) implies toks == ws by {
        lemma_white_only_scans(s, toks, s.len());
    }
    assert forall|e: LexError| !fails_with(s, e) by {
        if fails_with(s, e) {
            let (toks, p) = choose|toks: Seq<TokenModel>, p: nat|
                lexes(s, toks, p) && scan(s, p) == Scan::Fail(e.kind, e.position.char as nat);
            lemma_white_only_scans(s, toks, p);
        }
    }
}

} // verus!
