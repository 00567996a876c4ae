use json_with_comments::value::number::Number;
use json_with_comments::de::access::number::NumberBuilder;
use json_with_comments::de::position::RowColIterator;
use json_with_comments::de::access::string::StringValue;
use json_with_comments::de::token::byte::ByteTokenizer;
use json_with_comments::de::token::raw::RawTokenizer;
use json_with_comments::de::token::read::ReadTokenizer;
use json_with_comments::de::token::slice::SliceTokenizer;
use json_with_comments::de::token::str::StrTokenizer;
use json_with_comments::de::token::Tokenizer;
use json_with_comments::error::{ErrorKind, SemanticError, SyntaxError};

fn digit(_t: &[u8], c: u8) -> bool {
    matches!(c, b'1'..=b'9')
}

fn behavior_fold_token<'a, T: 'a + Tokenizer<'a>, F: Fn(&'a str) -> T>(from: F) {
    let target = r#"[123, 456]"#;
    let mut tokenizer = from(target);

    assert_eq!(tokenizer.eat(), Some(((0, 0), b'[')));
    assert_eq!(tokenizer.fold_token(digit), (Some(((0, 1), (0, 3))), vec![b'1', b'2', b'3']));
    assert_eq!(tokenizer.eat(), Some(((0, 4), b',')));
    assert_eq!(tokenizer.fold_token(digit), (Some(((0, 5), (0, 5))), vec![]));
    assert_eq!(tokenizer.eat(), Some(((0, 5), b' ')));
    assert_eq!(tokenizer.fold_token(digit), (Some(((0, 6), (0, 8))), vec![b'4', b'5', b'6']));
    assert_eq!(tokenizer.eat(), Some(((0, 9), b']')));
    assert_eq!(tokenizer.eat(), None);
    assert_eq!(tokenizer.fold_token(digit), (None, vec![]));
    assert_eq!(tokenizer.eat(), None);
}

fn behavior_parse_ident<'a, T: 'a + Tokenizer<'a>, F: Fn(&'a str) -> T>(from: F) {
    let target = r#"[true, fal, nulled, nul,]"#;
    let mut tokenizer = from(target);

    assert_eq!(tokenizer.eat(), Some(((0, 0), b'[')));
    assert_eq!(tokenizer.parse_ident(b"true", true).unwrap(), true);
    assert_eq!(tokenizer.eat(), Some(((0, 5), b',')));
    assert_eq!(tokenizer.eat(), Some(((0, 6), b' ')));

    match tokenizer.parse_ident(b"false", false).unwrap_err().into_inner() {
        ErrorKind::Syntax(SyntaxError::UnexpectedIdent { pos, expected, found }) => {
            assert_eq!(pos, ((0, 7), (0, 9)));
            assert_eq!(expected, b"false".to_vec());
            assert_eq!(found, b"fal".to_vec());
        }
        _ => unreachable!(),
    }
    assert_eq!(tokenizer.eat(), Some(((0, 10), b',')));
    assert_eq!(tokenizer.eat(), Some(((0, 11), b' ')));

    assert_eq!(tokenizer.parse_ident(b"null", ()).unwrap(), ());
    assert_eq!(tokenizer.eat(), Some(((0, 16), b'e')));
    assert_eq!(tokenizer.eat(), Some(((0, 17), b'd')));
    assert_eq!(tokenizer.eat(), Some(((0, 18), b',')));
    assert_eq!(tokenizer.eat(), Some(((0, 19), b' ')));

    match tokenizer.parse_ident(b"null", ()).unwrap_err().into_inner() {
        ErrorKind::Syntax(SyntaxError::UnexpectedIdent { pos, expected, found }) => {
            assert_eq!(pos, ((0, 20), (0, 22)));
            assert_eq!(expected, b"null".to_vec());
            assert_eq!(found, b"nul".to_vec());
        }
        _ => unreachable!(),
    }
    assert_eq!(tokenizer.eat(), Some(((0, 23), b',')));
    assert_eq!(tokenizer.eat(), Some(((0, 24), b']')));

    assert!(matches!(
        tokenizer.parse_ident(b"None", ()).unwrap_err().into_inner(),
        ErrorKind::Syntax(SyntaxError::EofWhileParsingIdent),
    ));
    assert_eq!(tokenizer.parse_ident(b"", ()).unwrap(), ());
}

fn behavior_tokenizer<'a, T: 'a + Tokenizer<'a>, F: Fn(&'a str) -> T>(from: F) {
    let target = r#"
            [
                "jsonc",
                123,
                true,
                false,
                null,
            ]
        "#;
    let mut tokenizer = from(target);

    assert_eq!(tokenizer.look(), Some(((0, 0), b'\n')));
    assert_eq!(tokenizer.look(), Some(((0, 0), b'\n')));
    assert_eq!(tokenizer.eat(), Some(((0, 0), b'\n')));
    assert_eq!(tokenizer.look(), Some(((1, 0), b' ')));
    assert_eq!(tokenizer.look(), Some(((1, 0), b' ')));
    assert_eq!(tokenizer.eat(), Some(((1, 0), b' ')));

    assert_eq!(tokenizer.eat_whitespace().unwrap(), Some(((1, 12), b'[')));
    assert_eq!(tokenizer.look(), Some(((1, 13), b'\n')));
    assert_eq!(tokenizer.skip_whitespace().unwrap(), Some(((2, 16), b'"')));
    assert_eq!(tokenizer.look(), Some(((2, 16), b'"')));

    assert_eq!(tokenizer.parse_string().unwrap().as_str(), "jsonc");
    assert!(matches!(tokenizer.eat(), Some((_, b','))));

    assert!(matches!(tokenizer.skip_whitespace(), Ok(Some((_, b'1')))));
    assert!(matches!(tokenizer.parse_number::<i64>(), Ok(123)));
    assert!(matches!(tokenizer.eat(), Some((_, b','))));

    assert!(matches!(tokenizer.skip_whitespace(), Ok(Some((_, b't')))));
    assert!(matches!(tokenizer.parse_ident(b"true", true), Ok(true)));
    assert!(matches!(tokenizer.eat(), Some((_, b','))));

    assert!(matches!(tokenizer.skip_whitespace(), Ok(Some((_, b'f')))));
    assert!(matches!(tokenizer.parse_ident(b"false", false), Ok(false)));
    assert!(matches!(tokenizer.eat(), Some((_, b','))));

    assert!(matches!(tokenizer.skip_whitespace(), Ok(Some((_, b'n')))));
    assert!(matches!(tokenizer.parse_ident(b"null", ()), Ok(())));
    assert!(matches!(tokenizer.eat(), Some((_, b','))));

    assert_eq!(tokenizer.eat_whitespace().unwrap(), Some(((7, 12), b']')));
    assert_eq!(tokenizer.look(), Some(((7, 13), b'\n')));
    assert_eq!(tokenizer.eat_whitespace().unwrap(), None);
}

fn parse_unescaped<'a>(mut tokenizer: impl Tokenizer<'a>) -> String {
    tokenizer.parse_string().unwrap().into_string()
}

fn behavior_parse_unescaped_string<'a, T: 'a + Tokenizer<'a>, F: Fn(&'a str) -> T>(from: F) {
    assert_eq!(parse_unescaped(from(r#""""#)), "");
    assert_eq!(parse_unescaped(from(r#""rust""#)), "rust");
    assert_eq!(parse_unescaped(from(r#""\"quote\"""#)), "\"quote\"");
    assert_eq!(parse_unescaped(from(r#""back\\slash""#)), "back\\slash");
    assert_eq!(parse_unescaped(from(r#""escaped\/slash""#)), "escaped/slash");
    assert_eq!(parse_unescaped(from(r#""unescaped/slash""#)), "unescaped/slash");
    assert_eq!(parse_unescaped(from(r#""backspace\b formfeed\f""#)), "backspace\x08 formfeed\x0C");
    assert_eq!(parse_unescaped(from(r#""line\nfeed""#)), "line\nfeed");
    assert_eq!(parse_unescaped(from(r#""white\tspace""#)), "white\tspace");
    assert_eq!(parse_unescaped(from(r#""line\u000Afeed""#)), "line\u{000A}feed");
    assert_eq!(parse_unescaped(from(r#""line\u000Afeed""#)), "line\nfeed");
    assert_eq!(parse_unescaped(from(r#""epsilon \u03b5""#)), "epsilon ε");
    assert_eq!(parse_unescaped(from(r#""💯""#)), "💯");
}

fn parse_raw<'a>(mut tokenizer: impl Tokenizer<'a>) -> &'a str {
    match tokenizer.parse_string().unwrap() {
        StringValue::Borrowed(s) => s,
        StringValue::Owned(s) => panic!("expected borrowed string, got owned: {}", s),
    }
}

fn behavior_parse_raw_string<'a, T: 'a + Tokenizer<'a>, F: Fn(&'a str) -> T>(from: F) {
    assert_eq!(parse_raw(from(r#""""#)), "");
    assert_eq!(parse_raw(from(r#""rust""#)), "rust");
    assert_eq!(parse_raw(from(r#""\"quote\"""#)), "\\\"quote\\\"");
    assert_eq!(parse_raw(from(r#""back\\slash""#)), "back\\\\slash");
    assert_eq!(parse_raw(from(r#""escaped\/slash""#)), "escaped\\/slash");
    assert_eq!(parse_raw(from(r#""unescaped/slash""#)), "unescaped/slash");
    assert_eq!(parse_raw(from(r#""backspace\b formfeed\f""#)), "backspace\\b formfeed\\f");
    assert_eq!(parse_raw(from(r#""line\nfeed""#)), "line\\nfeed");
    assert_eq!(parse_raw(from(r#""white\tspace""#)), "white\\tspace");
    assert_eq!(parse_raw(from(r#""line\u000Afeed""#)), "line\\u000Afeed");
    assert_eq!(parse_raw(from(r#""epsilon \u03b5""#)), "epsilon \\u03b5");
    assert_eq!(parse_raw(from(r#""💯""#)), "💯");
}

fn parse_string_err<'a>(mut tokenizer: impl Tokenizer<'a>) -> ErrorKind {
    tokenizer.parse_string().unwrap_err().into_inner()
}

fn behavior_parse_string_err<'a, T: 'a + Tokenizer<'a>, F: Fn(&'a str) -> T>(from: F) {
    assert!(matches!(
        parse_string_err(from(r#""ending..."#)),
        ErrorKind::Syntax(SyntaxError::EofWhileEndParsingString),
    ));
    assert!(matches!(
        parse_string_err(from("\"escape \x1b\"")),
        ErrorKind::Syntax(SyntaxError::ControlCharacterWhileParsingString { c: b'\x1b', .. }),
    ));
    assert!(matches!(
        parse_string_err(from(
            r#""line
                    feed""#
        )),
        ErrorKind::Syntax(SyntaxError::ControlCharacterWhileParsingString { c: b'\n', .. })
    ));
    assert!(matches!(
        parse_string_err(from(r#""escape EoF \"#)),
        ErrorKind::Syntax(SyntaxError::EofWhileParsingEscapeSequence),
    ));
    assert!(matches!(
        parse_string_err(from(r#""invalid escape sequence \a""#)),
        ErrorKind::Syntax(SyntaxError::InvalidEscapeSequence { found: b'a', .. })
    ));
    assert!(matches!(
        parse_string_err(from(r#""invalid unicode \uXXXX""#)),
        ErrorKind::Syntax(SyntaxError::InvalidUnicodeEscape { found: b'X', .. })
    ))
}

fn parse_float<'a>(mut tokenizer: impl Tokenizer<'a>) -> String {
    tokenizer.parse_number::<String>().unwrap()
}

fn behavior_parse_number<'a, T: 'a + Tokenizer<'a>, F: Fn(&'a str) -> T>(from: F) {
    assert_eq!(from("255").parse_number::<u8>().unwrap(), 255);
    assert_eq!(from("16").parse_number::<u16>().unwrap(), 16);
    assert_eq!(from("32").parse_number::<u32>().unwrap(), 32);
    assert_eq!(from("9999999999999999999").parse_number::<u64>().unwrap(), 9999999999999999999);
    assert_eq!(
        from("340282366920938463463374607431768211455").parse_number::<u128>().unwrap(),
        340282366920938463463374607431768211455
    );
    assert_eq!(from("-127").parse_number::<i8>().unwrap(), -127);
    assert_eq!(from("16").parse_number::<i16>().unwrap(), 16);
    assert_eq!(from("-32").parse_number::<i32>().unwrap(), -32);
    assert_eq!(from("-999999999999999999").parse_number::<i64>().unwrap(), -999999999999999999);
    assert_eq!(
        from("-170141183460469231731687303715884105728").parse_number::<i128>().unwrap(),
        -170141183460469231731687303715884105728
    );
    assert_eq!(parse_float(from("0.000000000000000e00000000000000000")).parse::<f32>().unwrap(), 0.);
    assert_eq!(parse_float(from("3.1415926535")).parse::<f32>().unwrap(), 3.1415926535);
    assert_eq!(parse_float(from("2.7")).parse::<f32>().unwrap(), 2.7);
    assert_eq!(parse_float(from("8.314462618")).parse::<f64>().unwrap(), 8.314462618);
    assert_eq!(parse_float(from("6.674e-11")).parse::<f64>().unwrap(), 0.00000000006674);
    assert_eq!(parse_float(from("6.02214076e23")).parse::<f64>().unwrap(), 6.02214076E23);
}

fn behavior_parse_number_err<'a, T: 'a + Tokenizer<'a>, F: Fn(&'a str) -> T>(from: F) {
    assert!(matches!(
        from("256").parse_number::<u8>().unwrap_err().into_inner(),
        ErrorKind::Semantic(SemanticError::InvalidNumber { .. })
    ));
    assert!(matches!(
        from("000").parse_number::<u32>().unwrap_err().into_inner(),
        ErrorKind::Syntax(SyntaxError::InvalidLeadingZeros { .. })
    ));
    assert!(matches!(
        from("012").parse_number::<u32>().unwrap_err().into_inner(),
        ErrorKind::Syntax(SyntaxError::InvalidLeadingZeros { .. })
    ));
    assert!(matches!(
        from("+12").parse_number::<u32>().unwrap_err().into_inner(),
        ErrorKind::Syntax(SyntaxError::InvalidLeadingPlus { .. })
    ));
    assert!(matches!(
        from("-999999999999").parse_number::<i32>().unwrap_err().into_inner(),
        ErrorKind::Semantic(SemanticError::InvalidNumber { .. })
    ));
    assert!(matches!(
        from("0.").parse_number::<String>().unwrap_err().into_inner(),
        ErrorKind::Syntax(SyntaxError::EofWhileStartParsingFraction)
    ));
    assert!(matches!(
        from("0.e").parse_number::<String>().unwrap_err().into_inner(),
        ErrorKind::Syntax(SyntaxError::MissingFraction { found: b'e', .. })
    ));
    assert!(matches!(
        from("0e").parse_number::<String>().unwrap_err().into_inner(),
        ErrorKind::Syntax(SyntaxError::EofWhileStartParsingExponent)
    ));
    assert!(matches!(
        from("1e.").parse_number::<String>().unwrap_err().into_inner(),
        ErrorKind::Syntax(SyntaxError::MissingExponent { found: b'.', .. })
    ));
}

fn slice(s: &str) -> SliceTokenizer<'_> {
    SliceTokenizer::new(s.as_bytes())
}
fn raw(s: &str) -> RawTokenizer<'_> {
    RawTokenizer::new(s.as_bytes())
}
fn read(s: &str) -> ReadTokenizer<'_> {
    ReadTokenizer::new(s.as_bytes())
}
fn byte(s: &str) -> ByteTokenizer<'_> {
    ByteTokenizer::new(s.as_bytes())
}

#[test]
fn slice_test_behavior_fold_token() {
    behavior_fold_token(slice);
}
#[test]
fn slice_test_behavior_parse_ident() {
    behavior_parse_ident(slice);
}
#[test]
fn slice_test_behavior_tokenizer() {
    behavior_tokenizer(slice);
}
#[test]
fn slice_test_behavior_parse_unescaped_string() {
    behavior_parse_unescaped_string(slice);
}
#[test]
fn slice_test_behavior_parse_string_err() {
    behavior_parse_string_err(slice);
}
#[test]
fn slice_test_behavior_parse_number() {
    behavior_parse_number(slice);
}
#[test]
fn slice_test_behavior_parse_number_err() {
    behavior_parse_number_err(slice);
}

#[test]
fn str_test_behavior_fold_token() {
    behavior_fold_token(StrTokenizer::new);
}
#[test]
fn str_test_behavior_parse_ident() {
    behavior_parse_ident(StrTokenizer::new);
}
#[test]
fn str_test_behavior_tokenizer() {
    behavior_tokenizer(StrTokenizer::new);
}
#[test]
fn str_test_behavior_parse_unescaped_string() {
    behavior_parse_unescaped_string(StrTokenizer::new);
}
#[test]
fn str_test_behavior_parse_string_err() {
    behavior_parse_string_err(StrTokenizer::new);
}
#[test]
fn str_test_behavior_parse_number() {
    behavior_parse_number(StrTokenizer::new);
}
#[test]
fn str_test_behavior_parse_number_err() {
    behavior_parse_number_err(StrTokenizer::new);
}

#[test]
fn read_test_behavior_fold_token() {
    behavior_fold_token(read);
}
#[test]
fn read_test_behavior_parse_ident() {
    behavior_parse_ident(read);
}
#[test]
fn read_test_behavior_tokenizer() {
    behavior_tokenizer(read);
}
#[test]
fn read_test_behavior_parse_unescaped_string() {
    behavior_parse_unescaped_string(read);
}
#[test]
fn read_test_behavior_parse_string_err() {
    behavior_parse_string_err(read);
}
#[test]
fn read_test_behavior_parse_number() {
    behavior_parse_number(read);
}
#[test]
fn read_test_behavior_parse_number_err() {
    behavior_parse_number_err(read);
}

#[test]
fn byte_test_behavior_fold_token() {
    behavior_fold_token(byte);
}
#[test]
fn byte_test_behavior_parse_ident() {
    behavior_parse_ident(byte);
}
#[test]
fn byte_test_behavior_tokenizer() {
    behavior_tokenizer(byte);
}
#[test]
fn byte_test_behavior_parse_owned_string() {
    behavior_parse_unescaped_string(byte);
}
#[test]
fn byte_test_behavior_parse_owned_string_err() {
    behavior_parse_string_err(byte);
}
#[test]
fn byte_test_behavior_parse_number() {
    behavior_parse_number(byte);
}
#[test]
fn byte_test_behavior_parse_number_err() {
    behavior_parse_number_err(byte);
}

#[test]
fn raw_test_behavior_fold_token() {
    behavior_fold_token(raw);
}
#[test]
fn raw_test_behavior_parse_ident() {
    behavior_parse_ident(raw);
}
#[test]
fn raw_test_behavior_tokenizer() {
    behavior_tokenizer(raw);
}
#[test]
fn raw_test_behavior_parse_owned_string() {
    // A raw tokenizer gives strings as written, borrowed from the input: it
    // has no owned, unescaped string to give.
}
#[test]
fn test_behavior_parse_borrowed_string() {
    behavior_parse_raw_string(raw);
}
#[test]
fn raw_test_behavior_parse_owned_string_err() {
    behavior_parse_string_err(raw);
}
#[test]
fn raw_test_behavior_parse_number() {
    behavior_parse_number(raw);
}
#[test]
fn raw_test_behavior_parse_number_err() {
    behavior_parse_number_err(raw);
}

#[test]
fn str_strings_borrowed_until_first_escape() {
    let mut t = StrTokenizer::new(r#""plain" "es\ncaped" "plain""#);
    assert!(t.parse_string().unwrap().is_borrowed());
    assert!(!t.parse_string().unwrap().is_borrowed());
    assert!(!t.parse_string().unwrap().is_borrowed());
}

#[test]
fn slice_comments_skipped_with_content() {
    let mut t = slice("// line\n/* block */ 1");
    assert_eq!(t.eat_comment().unwrap(), Some((((0, 0), (0, 7)), b"// line".to_vec())));
    assert_eq!(t.eat_comment().unwrap(), Some((((1, 0), (1, 10)), b"/* block */".to_vec())));
    assert_eq!(t.eat_whitespace().unwrap(), Some(((1, 12), b'1')));
}

#[test]
fn slice_unterminated_comment() {
    let mut t = slice("/* open");
    assert!(matches!(
        t.skip_whitespace().unwrap_err().into_inner(),
        ErrorKind::Syntax(SyntaxError::UnterminatedComment)
    ));
}

fn step(iter: &mut RowColIterator<'_>, pos: (usize, usize), byte: Option<u8>) {
    assert_eq!(iter.pos(), pos);
    assert_eq!(iter.next().map(|(_, b)| b), byte);
}

#[test]
fn behavior_row_col_iterator() {
    let list = b"[\n    \"foo\",\n    \"bar\",\n    \"baz\"\n]\n";
    let mut iter = RowColIterator::new(list);
    step(&mut iter, (0, 0), Some(b'['));
    step(&mut iter, (0, 1), Some(b'\n'));
    step(&mut iter, (1, 0), Some(b' '));
    step(&mut iter, (1, 1), Some(b' '));
    step(&mut iter, (1, 2), Some(b' '));
    step(&mut iter, (1, 3), Some(b' '));
    step(&mut iter, (1, 4), Some(b'"'));
    step(&mut iter, (1, 5), Some(b'f'));
    step(&mut iter, (1, 6), Some(b'o'));
    step(&mut iter, (1, 7), Some(b'o'));
    step(&mut iter, (1, 8), Some(b'"'));
    step(&mut iter, (1, 9), Some(b','));
    step(&mut iter, (1, 10), Some(b'\n'));
    step(&mut iter, (2, 0), Some(b' '));
    step(&mut iter, (2, 1), Some(b' '));
    step(&mut iter, (2, 2), Some(b' '));
    step(&mut iter, (2, 3), Some(b' '));
    step(&mut iter, (2, 4), Some(b'"'));
    step(&mut iter, (2, 5), Some(b'b'));
    step(&mut iter, (2, 6), Some(b'a'));
    step(&mut iter, (2, 7), Some(b'r'));
    step(&mut iter, (2, 8), Some(b'"'));
    step(&mut iter, (2, 9), Some(b','));
    step(&mut iter, (2, 10), Some(b'\n'));
    step(&mut iter, (3, 0), Some(b' '));
    step(&mut iter, (3, 1), Some(b' '));
    step(&mut iter, (3, 2), Some(b' '));
    step(&mut iter, (3, 3), Some(b' '));
    step(&mut iter, (3, 4), Some(b'"'));
    step(&mut iter, (3, 5), Some(b'b'));
    step(&mut iter, (3, 6), Some(b'a'));
    step(&mut iter, (3, 7), Some(b'z'));
    step(&mut iter, (3, 8), Some(b'"'));
    step(&mut iter, (3, 9), Some(b'\n'));
    step(&mut iter, (4, 0), Some(b']'));
    step(&mut iter, (4, 1), Some(b'\n'));
    step(&mut iter, (5, 0), None);
    step(&mut iter, (5, 0), None);
    step(&mut iter, (5, 0), None);
}

#[test]
#[should_panic]
fn slice_test_behavior_parse_raw_string() {
    behavior_parse_raw_string(slice);
}
#[test]
#[should_panic]
fn str_test_behavior_parse_raw_string() {
    behavior_parse_raw_string(StrTokenizer::new);
}
#[test]
#[should_panic]
fn read_test_behavior_parse_raw_string() {
    behavior_parse_raw_string(read);
}

#[test]
fn integer_part_errors_leave_the_builder() {
    let mut builder = NumberBuilder::new();
    let err = StrTokenizer::new("+12").parse_integer_part(&mut builder).unwrap_err();
    assert_eq!(err.into_inner(), ErrorKind::Syntax(SyntaxError::InvalidLeadingPlus { pos: (0, 0) }));
    assert!(builder.representation().is_empty());

    let mut builder = NumberBuilder::new();
    let err = StrTokenizer::new("-x").parse_integer_part(&mut builder).unwrap_err();
    assert_eq!(
        err.into_inner(),
        ErrorKind::Syntax(SyntaxError::UnexpectedTokenWhileStartParsingNumber { pos: (0, 1), found: b'x' })
    );
    assert_eq!(builder.representation(), b"-");

    let mut builder = NumberBuilder::new();
    let err = StrTokenizer::new("012").parse_integer_part(&mut builder).unwrap_err();
    assert_eq!(err.into_inner(), ErrorKind::Syntax(SyntaxError::InvalidLeadingZeros { pos: (0, 1) }));
    assert!(builder.representation().is_empty());
}

#[test]
fn unicode_errors_leave_the_buffer() {
    let mut buff = vec![b'a'];
    let err = StrTokenizer::new("12G4").parse_unicode(&mut buff).unwrap_err();
    assert_eq!(err.into_inner(), ErrorKind::Syntax(SyntaxError::InvalidUnicodeEscape { pos: (0, 2), found: b'G' }));
    assert_eq!(buff, vec![b'a']);

    let mut buff = vec![b'a'];
    StrTokenizer::new("00e9").parse_unicode(&mut buff).unwrap();
    assert_eq!(buff, "aé".as_bytes());
}

#[test]
fn builder_is_a_float_once_marked() {
    let mut builder = NumberBuilder::new();
    builder.push(b'1');
    assert!(matches!(builder.ty(), Number::Integer(())));
    builder.visit_fraction_dot(b'.');
    builder.extend_from_slice(b"25");
    builder.visit_exponent_e(b'e');
    builder.push(b'3');
    assert!(matches!(builder.ty(), Number::Float(())));
    assert_eq!(builder.representation(), b"1.25e3");
}

#[test]
fn successive_eats_give_bytes_and_positions() {
    let mut t = StrTokenizer::new("a\nbc");
    assert_eq!(t.look(), Some(((0, 0), b'a')));
    assert_eq!(t.eat(), Some(((0, 0), b'a')));
    assert_eq!(t.eat(), Some(((0, 1), b'\n')));
    assert_eq!(t.look(), Some(((1, 0), b'b')));
    assert_eq!(t.eat(), Some(((1, 0), b'b')));
    assert_eq!(t.eat(), Some(((1, 1), b'c')));
    assert_eq!(t.eat(), None);
    assert_eq!(t.eat(), None);
}

#[test]
fn str_tokenizer_lends_escape_free_strings() {
    let mut t = StrTokenizer::new(r#""plain" "esc\n" "plain""#);
    assert!(t.parse_string().unwrap().is_borrowed());
    assert!(!t.parse_string().unwrap().is_borrowed());
    assert!(!t.parse_string().unwrap().is_borrowed());
}

#[test]
fn surrogate_escapes_are_rejected() {
    let mut buff = Vec::new();
    let err = StrTokenizer::new("D83D").parse_unicode(&mut buff).unwrap_err();
    assert_eq!(err.into_inner(), ErrorKind::Syntax(SyntaxError::CannotConvertChar { pos: (0, 0), char: 0xD83D }));
    assert!(buff.is_empty());

    let err = json_with_comments::de::value_from_str(r#"["\udfff"]"#).unwrap_err();
    assert_eq!(err.into_inner(), ErrorKind::Syntax(SyntaxError::CannotConvertChar { pos: (0, 4), char: 0xDFFF }));
}
