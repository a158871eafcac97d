use ass::arch::{resolve, lookup, Register, Register16, Register8};
use ass::position::CodePosition;
use ass::token::{LexErrorKind, Token, TokenType};
use ass::tokenizer::{classify_word, Tokenizer};

fn lex(code: &str) -> Vec<Token> {
    match Tokenizer::tokenize(code) {
        Ok(t) => t,
        Err(e) => panic!("unexpected error {:?}", e),
    }
}

fn lex_err(code: &str) -> ass::token::LexError {
    match Tokenizer::tokenize(code) {
        Ok(t) => panic!("unexpected success {:?}", t),
        Err(e) => e,
    }
}

fn single_integer(code: &str) -> isize {
    let t = lex(code);
    assert_eq!(t.len(), 1);
    match t[0].token {
        TokenType::IntegerLiteral(v) => v,
        ref other => panic!("not an integer: {:?}", other),
    }
}

#[test]
fn white_space_only_is_one_token() {
    let code = " \t\n  \r\n ";
    let t = lex(code);
    assert_eq!(t.len(), 1);
    assert!(matches!(t[0].token, TokenType::Whitespace));
    assert_eq!(t[0].position, CodePosition::new(0, 0, 0));

    let mut tk = Tokenizer::new(code);
    assert_eq!(tk.step().unwrap(), false);
    assert_eq!(tk.step().unwrap(), true);
    assert_eq!(tk.finish().len(), 1);
}

#[test]
fn empty_input_has_no_tokens() {
    assert!(lex("").is_empty());
    let mut tk = Tokenizer::new("");
    assert_eq!(tk.step().unwrap(), true);
}

#[test]
fn token_starts_rebuild_the_input() {
    let code = "Mov rax 0x1A\n  \"a\\\"b\" rb 12";
    let chars: Vec<char> = code.chars().collect();
    let t = lex(code);
    assert_eq!(t[0].position.char, 0);
    let mut rebuilt = String::new();
    for i in 0..t.len() {
        let start = t[i].position.char;
        let end = if i + 1 < t.len() { t[i + 1].position.char } else { chars.len() };
        assert!(start < end);
        rebuilt.extend(chars[start..end].iter());
    }
    assert_eq!(rebuilt, code);
}

#[test]
fn integer_radixes() {
    assert_eq!(single_integer("0x1A"), 26);
    assert_eq!(single_integer("0b101"), 5);
    assert_eq!(single_integer("0o17"), 15);
    assert_eq!(single_integer("42"), 42);
    assert_eq!(single_integer("0"), 0);
    assert_eq!(single_integer("0xff"), 255);
}

#[test]
fn integer_stops_at_first_invalid_digit() {
    let t = lex("0b1012");
    assert_eq!(t.len(), 2);
    assert!(matches!(t[0].token, TokenType::IntegerLiteral(5)));
    assert!(matches!(t[1].token, TokenType::IntegerLiteral(2)));
    assert_eq!(t[1].position, CodePosition::new(5, 0, 5));

    let t = lex("12ab");
    assert!(matches!(t[0].token, TokenType::IntegerLiteral(12)));
    assert!(matches!(t[1].token, TokenType::InstructionOrKeyword(ref s) if s == "ab"));
}

#[test]
fn radix_prefix_without_digits_is_malformed() {
    let e = lex_err("0x");
    assert_eq!(e.kind, LexErrorKind::MalformedInteger);
    assert_eq!(e.position, CodePosition::new(2, 0, 2));
    let e = lex_err("0xg");
    assert_eq!(e.kind, LexErrorKind::MalformedInteger);
    assert_eq!(e.position, CodePosition::new(2, 0, 2));
    assert_eq!(lex_err("0b2").kind, LexErrorKind::MalformedInteger);
}

#[test]
fn largest_integer_and_overflow() {
    assert_eq!(single_integer(&isize::MAX.to_string()), isize::MAX);
    let too_big = format!("{}0", isize::MAX);
    let e = lex_err(&format!("  {}", too_big));
    assert_eq!(e.kind, LexErrorKind::IntegerOverflow);
    assert_eq!(e.position, CodePosition::new(2, 0, 2));
}

#[test]
fn string_escapes_decode() {
    let t = lex("\"a\\nb\"");
    assert_eq!(t.len(), 1);
    match &t[0].token {
        TokenType::StringLiteral(s) => assert_eq!(s, "a\nb"),
        other => panic!("not a string: {:?}", other),
    }
    let t = lex("\"q\\\"\\r\"");
    match &t[0].token {
        TokenType::StringLiteral(s) => assert_eq!(s, "q\"\r"),
        other => panic!("not a string: {:?}", other),
    }
    let t = lex("\"\"");
    assert!(matches!(t[0].token, TokenType::StringLiteral(ref s) if s.is_empty()));
}

#[test]
fn unterminated_string_points_at_opening_quote() {
    let e = lex_err("\"abc");
    assert_eq!(e.kind, LexErrorKind::UnterminatedString);
    assert_eq!(e.position.row, 0);
    assert_eq!(e.position.col, 0);
    let e = lex_err("ra\n  \"abc");
    assert_eq!(e.kind, LexErrorKind::UnterminatedString);
    assert_eq!(e.position, CodePosition::new(5, 1, 2));
}

#[test]
fn bad_escapes() {
    let e = lex_err("\"a\\qb\"");
    assert_eq!(e.kind, LexErrorKind::InvalidEscapeSequence('q'));
    assert_eq!(e.position, CodePosition::new(4, 0, 4));
    let e = lex_err("\"a\\");
    assert_eq!(e.kind, LexErrorKind::MalformedEscape);
    assert_eq!(e.position, CodePosition::new(3, 0, 3));
}

#[test]
fn registers_resolve_ignoring_case() {
    assert_eq!(resolve("RAX"), Some(Register::Register8(Register8::Ax)));
    assert_eq!(resolve("rax"), Some(Register::Register8(Register8::Ax)));
    assert_eq!(resolve("ray"), Some(Register::Register8(Register8::Ay)));
    assert_ne!(resolve("RAX"), resolve("ray"));
    assert_eq!(resolve("Rh"), Some(Register::Register16(Register16::H)));
    assert_eq!(resolve("rhy"), Some(Register::Register8(Register8::Hy)));
    assert_eq!(resolve("ri"), None);
    assert_eq!(resolve("raxx"), None);
    assert_eq!(resolve("r"), None);
    assert_eq!(resolve("raz"), None);
}

#[test]
fn lookup_is_exact() {
    assert_eq!(lookup("rcx"), Some(Register::Register8(Register8::Cx)));
    assert_eq!(lookup("RCX"), None);
    assert_eq!(lookup("rg"), Some(Register::Register16(Register16::G)));
}

#[test]
fn register_encoding() {
    assert_eq!(Register8::Ax.encoding(), 0);
    assert_eq!(Register8::Ay.encoding(), 1);
    assert_eq!(Register8::Dy.encoding(), 7);
    assert_eq!(Register8::Hy.encoding(), 15);
    assert_eq!(Register8::Ey.whole(), Register16::E);
    assert!(Register8::Ey.is_y());
    assert_eq!(Register8::from_parts(Register16::F, false), Register8::Fx);
    assert_eq!(Register16::C.index(), 2);
}

#[test]
fn register_tokens() {
    let t = lex("RAX rb");
    assert_eq!(t.len(), 3);
    assert!(matches!(t[0].token, TokenType::RegisterPointer(Register::Register8(Register8::Ax))));
    assert!(matches!(t[2].token, TokenType::RegisterPointer(Register::Register16(Register16::B))));
    assert_eq!(t[2].position, CodePosition::new(4, 0, 4));
}

#[test]
fn unknown_word_is_instruction_or_keyword() {
    let t = lex("mov");
    assert_eq!(t.len(), 1);
    assert!(matches!(t[0].token, TokenType::InstructionOrKeyword(ref s) if s == "mov"));
    let t = lex("MoV r2d2");
    assert!(matches!(t[0].token, TokenType::InstructionOrKeyword(ref s) if s == "mov"));
    assert!(matches!(t[2].token, TokenType::InstructionOrKeyword(ref s) if s == "r2d2"));
}

#[test]
fn classify_word_uses_catalogue() {
    assert!(matches!(classify_word(String::from("rdy")), TokenType::RegisterPointer(Register::Register8(Register8::Dy))));
    assert!(matches!(classify_word(String::from("jmp")), TokenType::InstructionOrKeyword(ref s) if s == "jmp"));
}

#[test]
fn unexpected_character() {
    let e = lex_err("#");
    assert_eq!(e.kind, LexErrorKind::UnexpectedCharacter('#'));
    assert_eq!(e.position, CodePosition::new(0, 0, 0));
    let e = lex_err("mov\n ra, rb");
    assert_eq!(e.kind, LexErrorKind::UnexpectedCharacter(','));
    assert_eq!(e.position, CodePosition::new(7, 1, 3));
}

#[test]
fn step_error_leaves_tokenizer_unchanged() {
    let mut tk = Tokenizer::new("ra #");
    assert_eq!(tk.step().unwrap(), false);
    assert_eq!(tk.step().unwrap(), false);
    let e = tk.step().unwrap_err();
    assert_eq!(e.kind, LexErrorKind::UnexpectedCharacter('#'));
    assert!(tk.run().is_err());
    assert_eq!(tk.finish().len(), 2);
}

#[test]
fn positions_track_rows_and_columns() {
    let t = lex("ra\nrb  rc\n\n42");
    let pos: Vec<CodePosition> = t.iter().map(|x| x.position).collect();
    assert_eq!(
        pos,
        vec![
            CodePosition::new(0, 0, 0),
            CodePosition::new(2, 0, 2),
            CodePosition::new(3, 1, 0),
            CodePosition::new(5, 1, 2),
            CodePosition::new(7, 1, 4),
            CodePosition::new(9, 1, 6),
            CodePosition::new(11, 3, 0),
        ]
    );
}

#[test]
fn positions_count_characters_not_bytes() {
    let t = lex("\"é\" rb");
    assert_eq!(t[2].position, CodePosition::new(4, 0, 4));
    let t = lex("été");
    assert!(matches!(t[0].token, TokenType::InstructionOrKeyword(ref s) if s == "été"));
}

#[test]
fn code_position_moves() {
    let p = CodePosition::new(3, 1, 2);
    assert_eq!(p.next(), CodePosition::new(4, 1, 3));
    assert_eq!(p.next_row(), CodePosition::new(4, 2, 0));
    assert_eq!(p.next_auto('\n'), CodePosition::new(4, 2, 0));
    assert_eq!(p.next_auto('x'), CodePosition::new(4, 1, 3));
    assert_eq!(CodePosition::default(), CodePosition::new(0, 0, 0));
}

#[test]
fn run_then_finish_matches_tokenize() {
    let code = "add ra 0b11";
    let mut tk = Tokenizer::new(code);
    tk.run().unwrap();
    let a = tk.finish();
    let b = lex(code);
    assert_eq!(a.len(), b.len());
    assert_eq!(a.len(), 5);
    for i in 0..a.len() {
        assert_eq!(a[i].position, b[i].position);
    }
}
