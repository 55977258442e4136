use git_config::boolean::{Boolean, True, Vocabulary};
use git_config::bytes::{equal_ignore_case, split_words, to_lowercase};
use git_config::color::{Attribute, Color, Name};
use git_config::integer::{read_decimal, read_digits, Decimal, Digits, Integer, Suffix};
use git_config::lookup::{decode, decode_text, Kind, Value};
use git_config::path::{join, Path};
use git_config::value::{normalize, Bytes, Error};

fn owned(text: &str) -> Bytes<'static> {
    Bytes::Owned(text.as_bytes().to_vec())
}

#[test]
fn plain_text_is_borrowed() {
    assert_eq!(normalize(b"hello world"), Ok(Bytes::Borrowed(&b"hello world"[..])));
    assert_eq!(normalize(b""), Ok(Bytes::Borrowed(&b""[..])));
    assert!(normalize(b"hello").unwrap().is_borrowed());
    assert_eq!(normalize(b"hello").unwrap().len(), 5);
}

#[test]
fn plain_text_in_quotes_is_borrowed() {
    assert_eq!(normalize(b"\"hello world\""), Ok(Bytes::Borrowed(&b"hello world"[..])));
    assert_eq!(normalize(b"\"\""), Ok(Bytes::Borrowed(&b""[..])));
}

#[test]
fn quotes_are_removed_and_runs_joined() {
    assert_eq!(normalize(b"a\"b c\"d"), Ok(owned("ab cd")));
    assert_eq!(normalize(b"\"a\"\"b\""), Ok(owned("ab")));
    assert_eq!(normalize(b"\"a\" \"b\""), Ok(owned("a b")));
    assert_eq!(normalize(b"\""), Ok(owned("")));
}

#[test]
fn escapes_are_resolved() {
    assert_eq!(normalize(b"a\\nb"), Ok(owned("a\nb")));
    assert_eq!(normalize(b"a\\tb"), Ok(owned("a\tb")));
    assert_eq!(normalize(b"a\\bb"), Ok(owned("a\x08b")));
    assert_eq!(normalize(b"a\\\\b"), Ok(owned("a\\b")));
    assert_eq!(normalize(b"\"a\\\"b\""), Ok(owned("a\"b")));
}

#[test]
fn malformed_escapes_fail() {
    assert_eq!(normalize(b"a\\xb"), Err(Error::MalformedEscape));
    assert_eq!(normalize(b"a\\"), Err(Error::MalformedEscape));
    assert_eq!(decode(Kind::String, Some(&b"a\\q"[..])), Err(Error::MalformedEscape));
    assert_eq!(decode(Kind::Boolean, Some(&b"true\\"[..])), Err(Error::MalformedEscape));
}

#[test]
fn words_for_true_and_false() {
    for word in ["yes", "on", "true", "one", "YES", "On", "tRuE", "ONE"] {
        assert_eq!(
            Boolean::decode(Some(Bytes::Borrowed(word.as_bytes()))),
            Ok(Boolean::True(True::Explicit(Bytes::Borrowed(word.as_bytes()))))
        );
    }
    for word in ["no", "off", "false", "zero", "NO", "Off", "fAlSe", "ZERO", ""] {
        assert_eq!(
            Boolean::decode(Some(Bytes::Borrowed(word.as_bytes()))),
            Ok(Boolean::False(Bytes::Borrowed(word.as_bytes())))
        );
    }
    for word in ["y", "n", "1", "0", "truee", "maybe", " true", "tru"] {
        assert_eq!(
            Boolean::decode(Some(Bytes::Borrowed(word.as_bytes()))),
            Err(Error::InvalidBoolean)
        );
    }
    assert_eq!(Boolean::decode(None), Ok(Boolean::True(True::Implicit)));
    assert!(Boolean::decode(None).unwrap().is_true());
    assert!(Boolean::decode(None).unwrap().is_implicit());
    assert!(Boolean::decode(Some(Bytes::Borrowed(b"yes"))).unwrap().is_true());
    assert!(!Boolean::decode(Some(Bytes::Borrowed(b"yes"))).unwrap().is_implicit());
    assert!(!Boolean::decode(Some(Bytes::Borrowed(b"no"))).unwrap().is_true());
}

#[test]
fn quoted_booleans_are_read_without_their_quotes() {
    assert_eq!(
        decode(Kind::Boolean, Some(&b"\"true\""[..])),
        Ok(Value::Boolean(Boolean::True(True::Explicit(Bytes::Borrowed(&b"true"[..])))))
    );
}

#[test]
fn integers_without_suffix() {
    assert_eq!(Integer::decode(b"10"), Ok(Integer { value: 10, suffix: None }));
    assert_eq!(Integer::decode(b"0"), Ok(Integer { value: 0, suffix: None }));
    assert_eq!(Integer::decode(b"-1"), Ok(Integer { value: -1, suffix: None }));
    assert_eq!(Integer::decode(b"+7"), Ok(Integer { value: 7, suffix: None }));
    assert_eq!(Integer::decode(b"007"), Ok(Integer { value: 7, suffix: None }));
    assert_eq!(
        Integer::decode(b"9223372036854775807"),
        Ok(Integer { value: i64::MAX, suffix: None })
    );
    assert_eq!(
        Integer::decode(b"-9223372036854775808"),
        Ok(Integer { value: i64::MIN, suffix: None })
    );
}

#[test]
fn integers_with_suffix_are_not_scaled() {
    assert_eq!(Integer::decode(b"10g"), Ok(Integer { value: 10, suffix: Some(Suffix::Gibi) }));
    assert_eq!(Integer::decode(b"10G"), Ok(Integer { value: 10, suffix: Some(Suffix::Gibi) }));
    assert_eq!(Integer::decode(b"3k"), Ok(Integer { value: 3, suffix: Some(Suffix::Kibi) }));
    assert_eq!(Integer::decode(b"3K"), Ok(Integer { value: 3, suffix: Some(Suffix::Kibi) }));
    assert_eq!(Integer::decode(b"-5m"), Ok(Integer { value: -5, suffix: Some(Suffix::Mebi) }));
    assert_eq!(Integer::decode(b"5M"), Ok(Integer { value: 5, suffix: Some(Suffix::Mebi) }));
    assert_eq!(Integer { value: 10, suffix: Some(Suffix::Gibi) }.to_decimal(), Some(10_737_418_240));
    assert_eq!(Integer { value: 3, suffix: Some(Suffix::Kibi) }.to_decimal(), Some(3072));
    assert_eq!(Integer { value: -5, suffix: Some(Suffix::Mebi) }.to_decimal(), Some(-5_242_880));
    assert_eq!(Integer { value: 42, suffix: None }.to_decimal(), Some(42));
    assert_eq!(Integer { value: i64::MAX, suffix: Some(Suffix::Kibi) }.to_decimal(), None);
    assert_eq!(Integer { value: i64::MIN, suffix: Some(Suffix::Gibi) }.to_decimal(), None);
    assert_eq!(
        Integer { value: 8_589_934_591, suffix: Some(Suffix::Gibi) }.to_decimal(),
        Some(9_223_372_035_781_033_984)
    );
    assert_eq!(Integer { value: 8_589_934_592, suffix: Some(Suffix::Gibi) }.to_decimal(), None);
}

#[test]
fn integer_errors() {
    assert_eq!(Integer::decode(b""), Err(Error::InvalidInteger));
    assert_eq!(Integer::decode(b"-"), Err(Error::InvalidInteger));
    assert_eq!(Integer::decode(b"k"), Err(Error::InvalidInteger));
    assert_eq!(Integer::decode(b"abc"), Err(Error::InvalidInteger));
    assert_eq!(Integer::decode(b"1 0"), Err(Error::InvalidInteger));
    assert_eq!(Integer::decode(b"10kk"), Err(Error::InvalidInteger));
    assert_eq!(Integer::decode(b"10x"), Err(Error::InvalidSuffix));
    assert_eq!(Integer::decode(b"10 "), Err(Error::InvalidSuffix));
    assert_eq!(Integer::decode(b"9223372036854775808"), Err(Error::IntegerOverflow));
    assert_eq!(Integer::decode(b"-9223372036854775809"), Err(Error::IntegerOverflow));
    assert_eq!(Integer::decode(b"99999999999999999999999999k"), Err(Error::IntegerOverflow));
    assert_eq!(Integer::decode(b"99999999999999999999999999x"), Err(Error::InvalidSuffix));
}

#[test]
fn digits_and_decimals() {
    assert!(matches!(read_digits(b"0123"), Digits::Number(123)));
    assert!(matches!(read_digits(b"9223372036854775808"), Digits::Number(9223372036854775808)));
    assert!(matches!(read_digits(b"9223372036854775809"), Digits::TooLarge));
    assert!(matches!(read_digits(b""), Digits::NotANumber));
    assert!(matches!(read_digits(b"12a"), Digits::NotANumber));
    assert!(matches!(read_decimal(b"-12"), Decimal::Number(-12)));
    assert!(matches!(read_decimal(b"+12"), Decimal::Number(12)));
    assert!(matches!(read_decimal(b"+-12"), Decimal::NotANumber));
    assert!(matches!(read_decimal(b"9223372036854775808"), Decimal::TooLarge));
}

#[test]
fn colors_by_name() {
    assert_eq!(Name::decode(b"normal"), Some(Name::Normal));
    assert_eq!(Name::decode(b"default"), Some(Name::Default));
    assert_eq!(Name::decode(b"black"), Some(Name::Black));
    assert_eq!(Name::decode(b"brightblack"), Some(Name::BrightBlack));
    assert_eq!(Name::decode(b"red"), Some(Name::Red));
    assert_eq!(Name::decode(b"brightred"), Some(Name::BrightRed));
    assert_eq!(Name::decode(b"green"), Some(Name::Green));
    assert_eq!(Name::decode(b"brightgreen"), Some(Name::BrightGreen));
    assert_eq!(Name::decode(b"yellow"), Some(Name::Yellow));
    assert_eq!(Name::decode(b"brightyellow"), Some(Name::BrightYellow));
    assert_eq!(Name::decode(b"blue"), Some(Name::Blue));
    assert_eq!(Name::decode(b"brightblue"), Some(Name::BrightBlue));
    assert_eq!(Name::decode(b"magenta"), Some(Name::Magenta));
    assert_eq!(Name::decode(b"brightmagenta"), Some(Name::BrightMagenta));
    assert_eq!(Name::decode(b"cyan"), Some(Name::Cyan));
    assert_eq!(Name::decode(b"brightcyan"), Some(Name::BrightCyan));
    assert_eq!(Name::decode(b"white"), Some(Name::White));
    assert_eq!(Name::decode(b"brightwhite"), Some(Name::BrightWhite));
    assert_eq!(Name::decode(b"RED"), Some(Name::Red));
    assert_eq!(Name::decode(b"BrightRed"), Some(Name::BrightRed));
    assert_eq!(Name::decode(b"reddish"), None);
    assert_eq!(Name::decode(b"bright"), None);
    assert_eq!(Name::decode(b""), None);
}

#[test]
fn colors_by_number() {
    assert_eq!(Name::decode(b"0"), Some(Name::Ansi(0)));
    assert_eq!(Name::decode(b"7"), Some(Name::Ansi(7)));
    assert_eq!(Name::decode(b"255"), Some(Name::Ansi(255)));
    assert_eq!(Name::decode(b"0255"), Some(Name::Ansi(255)));
    assert_eq!(Name::decode(b"256"), None);
    assert_eq!(Name::decode(b"-1"), None);
    assert_eq!(Name::decode(b"#ff0a10"), Some(Name::Rgb(255, 10, 16)));
    assert_eq!(Name::decode(b"#FF0A10"), Some(Name::Rgb(255, 10, 16)));
    assert_eq!(Name::decode(b"#000000"), Some(Name::Rgb(0, 0, 0)));
    assert_eq!(Name::decode(b"#ff0a1"), None);
    assert_eq!(Name::decode(b"#ff0a100"), None);
    assert_eq!(Name::decode(b"#ff0a1g"), None);
    assert_eq!(Name::decode(b"ff0a10"), None);
}

#[test]
fn attributes_by_name() {
    assert_eq!(Attribute::decode(b"reset"), Some(Attribute::Reset));
    assert_eq!(Attribute::decode(b"bold"), Some(Attribute::Bold));
    assert_eq!(Attribute::decode(b"nobold"), Some(Attribute::NoBold));
    assert_eq!(Attribute::decode(b"no-bold"), Some(Attribute::NoBold));
    assert_eq!(Attribute::decode(b"dim"), Some(Attribute::Dim));
    assert_eq!(Attribute::decode(b"nodim"), Some(Attribute::NoDim));
    assert_eq!(Attribute::decode(b"no-dim"), Some(Attribute::NoDim));
    assert_eq!(Attribute::decode(b"italic"), Some(Attribute::Italic));
    assert_eq!(Attribute::decode(b"no-italic"), Some(Attribute::NoItalic));
    assert_eq!(Attribute::decode(b"ul"), Some(Attribute::Ul));
    assert_eq!(Attribute::decode(b"noul"), Some(Attribute::NoUl));
    assert_eq!(Attribute::decode(b"blink"), Some(Attribute::Blink));
    assert_eq!(Attribute::decode(b"no-blink"), Some(Attribute::NoBlink));
    assert_eq!(Attribute::decode(b"reverse"), Some(Attribute::Reverse));
    assert_eq!(Attribute::decode(b"noreverse"), Some(Attribute::NoReverse));
    assert_eq!(Attribute::decode(b"strike"), Some(Attribute::Strike));
    assert_eq!(Attribute::decode(b"no-strike"), Some(Attribute::NoStrike));
    assert_eq!(Attribute::decode(b"BOLD"), Some(Attribute::Bold));
    assert_eq!(Attribute::decode(b"No-Bold"), Some(Attribute::NoBold));
    assert_eq!(Attribute::decode(b"noreset"), None);
    assert_eq!(Attribute::decode(b"no-"), None);
    assert_eq!(Attribute::decode(b"no"), None);
    assert_eq!(Attribute::decode(b"no--bold"), None);
    assert_eq!(Attribute::decode(b"bolder"), None);
}

#[test]
fn color_values() {
    assert_eq!(
        Color::decode(b"brightgreen red bold"),
        Ok(Color {
            foreground: Some(Name::BrightGreen),
            background: Some(Name::Red),
            attributes: vec![Attribute::Bold]
        })
    );
    assert_eq!(
        Color::decode(b"  red\t\n  ul   no-bold  "),
        Ok(Color {
            foreground: Some(Name::Red),
            background: None,
            attributes: vec![Attribute::Ul, Attribute::NoBold]
        })
    );
    assert_eq!(
        Color::decode(b"bold italic"),
        Ok(Color {
            foreground: None,
            background: None,
            attributes: vec![Attribute::Bold, Attribute::Italic]
        })
    );
    assert_eq!(
        Color::decode(b""),
        Ok(Color { foreground: None, background: None, attributes: vec![] })
    );
    assert_eq!(
        Color::decode(b"#102030 17"),
        Ok(Color {
            foreground: Some(Name::Rgb(16, 32, 48)),
            background: Some(Name::Ansi(17)),
            attributes: vec![]
        })
    );
}

#[test]
fn color_errors() {
    assert_eq!(Color::decode(b"red green blue"), Err(Error::TooManyColors));
    assert_eq!(Color::decode(b"red reddish"), Err(Error::InvalidColor));
    assert_eq!(Color::decode(b"bold red"), Err(Error::InvalidColor));
    assert_eq!(Color::decode(b"red bold green"), Err(Error::InvalidColor));
    assert_eq!(Color::decode(b"what"), Err(Error::InvalidColor));
}

#[test]
fn paths_are_taken_as_written() {
    let path = Path::decode(Bytes::Borrowed(b"~/tmp"));
    assert_eq!(path.as_slice(), b"~/tmp");
    assert_eq!(
        decode(Kind::Path, Some(&b"~/tmp"[..])),
        Ok(Value::Path(Path { value: Bytes::Borrowed(&b"~/tmp"[..]) }))
    );
    assert_eq!(
        decode_text(Kind::Path, Bytes::Borrowed(&b"~user/x"[..])),
        Ok(Value::Path(Path { value: Bytes::Borrowed(&b"~user/x"[..]) }))
    );
}

#[test]
fn interpolation_is_explicit() {
    let home = Path { value: Bytes::Borrowed(b"~/tmp") };
    assert_eq!(home.interpolate(b"/base", None), Ok(owned("/base/tmp")));
    assert_eq!(home.interpolate(b"/base/", None), Ok(owned("/base/tmp")));
    assert_eq!(home.interpolate(b"/base", Some(&b"/other"[..])), Ok(owned("/base/tmp")));

    let user = Path { value: Bytes::Borrowed(b"~byron/tmp") };
    assert_eq!(user.interpolate(b"/base", Some(&b"/home/byron"[..])), Ok(owned("/home/byron/tmp")));
    assert_eq!(user.interpolate(b"/base", None), Err(git_config::path::Error::MissingUserHome));

    let plain = Path { value: Bytes::Borrowed(b"/etc/gitconfig") };
    assert_eq!(plain.interpolate(b"/base", None), Ok(Bytes::Borrowed(&b"/etc/gitconfig"[..])));
    let relative = Path { value: Bytes::Borrowed(b"a/~/b") };
    assert_eq!(relative.interpolate(b"/base", None), Ok(Bytes::Borrowed(&b"a/~/b"[..])));
    let tilde = Path { value: Bytes::Borrowed(b"~") };
    assert_eq!(tilde.interpolate(b"/base", None), Ok(Bytes::Borrowed(&b"~"[..])));
    let tilde_slash = Path { value: Bytes::Borrowed(b"~/") };
    assert_eq!(tilde_slash.interpolate(b"/base", None), Ok(owned("/base/")));
    let rooted = Path { value: Bytes::Borrowed(b"~//abs") };
    assert_eq!(rooted.interpolate(b"/base", None), Ok(owned("/abs")));

    let empty = Path { value: Bytes::Borrowed(b"") };
    assert_eq!(empty.interpolate(b"/base", None), Err(git_config::path::Error::EmptyPath));
}

#[test]
fn joining() {
    assert_eq!(join(b"/a", b"b"), b"/a/b");
    assert_eq!(join(b"/a/", b"b"), b"/a/b");
    assert_eq!(join(b"", b"b"), b"b");
    assert_eq!(join(b"/a", b"/b"), b"/b");
    assert_eq!(join(b"/a", b""), b"/a/");
}

#[test]
fn byte_helpers() {
    assert!(equal_ignore_case(b"Core", b"cORE"));
    assert!(!equal_ignore_case(b"core", b"cores"));
    assert!(!equal_ignore_case(b"a-b", b"a_b"));
    assert!(!equal_ignore_case(b"@", b"`"));
    assert!(!equal_ignore_case(b"[", b"{"));
    assert_eq!(to_lowercase(b"AbC-09_Z[@"), b"abc-09_z[@");
    assert_eq!(split_words(b"  a bc\t\nd "), vec![&b"a"[..], &b"bc"[..], &b"d"[..]]);
    assert!(split_words(b" \t ").is_empty());
    assert_eq!(split_words(b"one"), vec![&b"one"[..]]);
}

#[test]
fn booleans_by_vocabulary() {
    let git = Vocabulary::git();
    assert_eq!(
        git.truthy,
        vec![b"yes".to_vec(), b"on".to_vec(), b"true".to_vec(), b"one".to_vec()]
    );
    assert_eq!(
        git.falsy,
        vec![Vec::new(), b"no".to_vec(), b"off".to_vec(), b"false".to_vec(), b"zero".to_vec()]
    );
    for word in ["yes", "On", "TRUE", "one", "no", "Off", "FALSE", "zero", "", "maybe", "1"] {
        let text = Some(Bytes::Borrowed(word.as_bytes()));
        assert_eq!(Boolean::decode_with(&git, text.clone()), Boolean::decode(text));
    }
    assert_eq!(Boolean::decode_with(&git, None), Ok(Boolean::True(True::Implicit)));

    let other = Vocabulary { truthy: vec![b"ja".to_vec()], falsy: vec![b"nein".to_vec()] };
    assert_eq!(
        Boolean::decode_with(&other, Some(Bytes::Borrowed(b"JA"))),
        Ok(Boolean::True(True::Explicit(Bytes::Borrowed(&b"JA"[..]))))
    );
    assert_eq!(
        Boolean::decode_with(&other, Some(Bytes::Borrowed(b"nein"))),
        Ok(Boolean::False(Bytes::Borrowed(&b"nein"[..])))
    );
    assert_eq!(
        Boolean::decode_with(&other, Some(Bytes::Borrowed(b"true"))),
        Err(Error::InvalidBoolean)
    );
    assert_eq!(
        Boolean::decode_with(&other, Some(Bytes::Borrowed(b""))),
        Err(Error::InvalidBoolean)
    );
}
