use git_config::boolean::{Boolean, True};
use git_config::color::{Attribute, Color, Name};
use git_config::file::File;
use git_config::integer::{Integer, Suffix};
use git_config::lookup::{Error, Kind, Value};
use git_config::path::Path;
use git_config::value::Bytes;

fn file(text: &str) -> File {
    File::from_bytes(text.as_bytes()).unwrap()
}

fn borrowed(text: &str) -> Bytes<'_> {
    Bytes::Borrowed(text.as_bytes())
}

/// Asserts we can cast into all variants of our type
#[test]
fn get_value_for_all_provided_values() {
    let config = r#"
        [core]
            other-quoted = "hello"
        [core]
            bool-explicit = false
            bool-implicit
            integer-no-prefix = 10
            integer-prefix = 10g
            color = brightgreen red \
            bold
            other = hello world
            other-quoted = "hello world"
            location = ~/tmp
            location-quoted = "~/quoted"
    "#;

    let file = file(config);

    assert_eq!(
        file.value(Kind::Boolean, b"core", None, b"bool-explicit").unwrap(),
        Value::Boolean(Boolean::False(borrowed("false")))
    );
    assert!(!file.boolean(b"core", None, b"bool-explicit").expect("exists").unwrap());

    assert_eq!(
        file.value(Kind::Boolean, b"core", None, b"bool-implicit").unwrap(),
        Value::Boolean(Boolean::True(True::Implicit))
    );
    assert_eq!(
        file.try_value(Kind::Boolean, b"core", None, b"bool-implicit")
            .expect("exists")
            .unwrap(),
        Value::Boolean(Boolean::True(True::Implicit))
    );

    assert!(file.boolean(b"core", None, b"bool-implicit").expect("present").unwrap());
    assert_eq!(file.try_value(Kind::String, b"doesnt", None, b"exist"), None);

    assert_eq!(
        file.value(Kind::Integer, b"core", None, b"integer-no-prefix").unwrap(),
        Value::Integer(Integer { value: 10, suffix: None })
    );

    assert_eq!(
        file.value(Kind::Integer, b"core", None, b"integer-no-prefix").unwrap(),
        Value::Integer(Integer { value: 10, suffix: None })
    );

    assert_eq!(
        file.value(Kind::Integer, b"core", None, b"integer-prefix").unwrap(),
        Value::Integer(Integer { value: 10, suffix: Some(Suffix::Gibi) })
    );

    assert_eq!(
        file.value(Kind::Color, b"core", None, b"color").unwrap(),
        Value::Color(Color {
            foreground: Some(Name::BrightGreen),
            background: Some(Name::Red),
            attributes: vec![Attribute::Bold]
        })
    );

    {
        let string = file.value(Kind::String, b"core", None, b"other").unwrap();
        assert_eq!(string, Value::String(borrowed("hello world")));
        assert!(
            matches!(string, Value::String(Bytes::Borrowed(_))),
            "no copy is made, we reference the `file` itself"
        );
    }

    assert_eq!(
        file.value(Kind::String, b"core", None, b"other-quoted").unwrap(),
        Value::String(borrowed("hello world"))
    );

    {
        let strings = file.multi_value(Kind::String, b"core", None, b"other-quoted").unwrap();
        assert_eq!(
            strings,
            vec![Value::String(borrowed("hello")), Value::String(borrowed("hello world"))]
        );
        assert!(matches!(strings[0], Value::String(Bytes::Borrowed(_))));
        assert!(matches!(strings[1], Value::String(Bytes::Borrowed(_))));
    }

    {
        let cow = file.string(b"core", None, b"other").expect("present").unwrap();
        assert_eq!(cow.as_slice(), b"hello world");
        assert!(matches!(cow, Bytes::Borrowed(_)));
    }
    assert_eq!(
        file.string(b"core", None, b"other-quoted").expect("present").unwrap().as_slice(),
        b"hello world"
    );
    {
        let strings = file.strings(b"core", None, b"other-quoted").expect("present").unwrap();
        assert_eq!(strings, vec![borrowed("hello"), borrowed("hello world")]);
        assert!(matches!(strings[0], Bytes::Borrowed(_)));
        assert!(matches!(strings[1], Bytes::Borrowed(_)));
    }

    {
        let actual = match file.value(Kind::Path, b"core", None, b"location").unwrap() {
            Value::Path(path) => path,
            other => panic!("not a path: {:?}", other),
        };
        assert_eq!(actual.as_slice(), b"~/tmp", "no interpolation occurs when querying a path");

        let home = b"/home/byron";
        let expected = b"/home/byron/tmp";
        assert!(matches!(actual.value, Bytes::Borrowed(_)));
        assert_eq!(actual.interpolate(home, None).unwrap().as_slice(), expected);
    }

    let actual = file.path(b"core", None, b"location").expect("present").unwrap();
    assert_eq!(actual.as_slice(), b"~/tmp");

    let actual = file.path(b"core", None, b"location-quoted").expect("present").unwrap();
    assert_eq!(actual.as_slice(), b"~/quoted");

    let actual = file.value(Kind::Path, b"core", None, b"location-quoted").unwrap();
    assert_eq!(
        actual,
        Value::Path(Path { value: borrowed("~/quoted") }),
        "but the path is unquoted"
    );
}

/// Lookup goes through every section of a name before it gives up, the last
/// one first.
#[test]
fn get_value_looks_up_all_sections_before_failing() {
    let config = r#"
        [core]
            bool-explicit = false
            bool-implicit = false
        [core]
            bool-implicit
    "#;

    let file = file(config);

    // Checks that we check the last entry first still
    assert_eq!(
        file.value(Kind::Boolean, b"core", None, b"bool-implicit").unwrap(),
        Value::Boolean(Boolean::True(True::Implicit))
    );

    assert_eq!(
        file.value(Kind::Boolean, b"core", None, b"bool-explicit").unwrap(),
        Value::Boolean(Boolean::False(borrowed("false")))
    );
}

#[test]
fn section_names_are_case_insensitive() {
    let config = "[core] bool-implicit";
    let file = file(config);
    assert_eq!(
        file.value(Kind::Boolean, b"core", None, b"bool-implicit").unwrap(),
        file.value(Kind::Boolean, b"CORE", None, b"bool-implicit").unwrap()
    );
}

#[test]
fn value_names_are_case_insensitive() {
    let config = "[core]
        a = true
        A = false";
    let file = file(config);
    assert_eq!(file.multi_value(Kind::Boolean, b"core", None, b"a").unwrap().len(), 2);
    assert_eq!(
        file.value(Kind::Boolean, b"core", None, b"a").unwrap(),
        file.value(Kind::Boolean, b"core", None, b"A").unwrap()
    );
}

#[test]
fn single_section() {
    let config = file("[core]\na=b\nc");
    let first_value = config.value(Kind::String, b"core", None, b"a").unwrap();
    let second_value = config.value(Kind::Boolean, b"core", None, b"c").unwrap();

    assert_eq!(first_value, Value::String(borrowed("b")));
    assert_eq!(second_value, Value::Boolean(Boolean::True(True::Implicit)));
}

#[test]
fn sections_by_name() {
    let config = r#"
    [core]
        repositoryformatversion = 0
        filemode = true
        bare = false
        logallrefupdates = true
    [remote "origin"]
        url = git@github.com:Byron/gitoxide.git
        fetch = +refs/heads/*:refs/remotes/origin/*
    "#;

    let config = file(config);
    let value = config.value(Kind::String, b"remote", Some(&b"origin"[..]), b"url").unwrap();
    assert_eq!(value, Value::String(borrowed("git@github.com:Byron/gitoxide.git")));
}

#[test]
fn absent_sections_and_keys_are_not_found() {
    let file = file("[core]\na = not-a-number\n[remote \"origin\"]\nurl = x\n");
    for kind in [Kind::Boolean, Kind::Integer, Kind::Color, Kind::String, Kind::Path] {
        assert_eq!(file.value(kind, b"nope", None, b"a"), Err(Error::NotFound));
        assert_eq!(file.value(kind, b"core", None, b"nope"), Err(Error::NotFound));
        assert_eq!(file.value(kind, b"core", Some(&b"origin"[..]), b"a"), Err(Error::NotFound));
        assert_eq!(file.value(kind, b"remote", None, b"url"), Err(Error::NotFound));
        assert_eq!(file.multi_value(kind, b"core", None, b"nope"), Err(Error::NotFound));
        assert_eq!(file.try_value(kind, b"core", None, b"nope"), None);
    }
    assert_eq!(file.boolean(b"core", None, b"nope"), None);
    assert_eq!(file.integer(b"core", None, b"nope"), None);
    assert_eq!(file.string(b"core", None, b"nope"), None);
    assert_eq!(file.strings(b"core", None, b"nope"), None);
    assert_eq!(file.path(b"core", None, b"nope"), None);
    assert_eq!(file.raw_value(b"core", None, b"nope"), None);
    assert!(file.raw_values(b"core", None, b"nope").is_empty());
    assert_eq!(
        file.value(Kind::Integer, b"core", None, b"a"),
        Err(Error::Decode(git_config::value::Error::InvalidInteger))
    );
}

#[test]
fn subsections_are_matched_byte_for_byte() {
    let file = file("[remote \"Origin\"]\nurl = a\n[REMOTE \"origin\"]\nurl = b\n");
    assert_eq!(
        file.string(b"remote", Some(&b"Origin"[..]), b"URL").unwrap().unwrap().as_slice(),
        b"a"
    );
    assert_eq!(
        file.string(b"remote", Some(&b"origin"[..]), b"url").unwrap().unwrap().as_slice(),
        b"b"
    );
    assert_eq!(file.string(b"remote", Some(&b"ORIGIN"[..]), b"url"), None);
    assert_eq!(file.string(b"remote", None, b"url"), None);
}

#[test]
fn raw_values_come_in_the_order_of_declaration() {
    let file = file("[a]\nk = 1\nK\n[b]\nk = 2\n[A]\nk = \"3\"\nother = 4\n");
    assert_eq!(
        file.raw_values(b"a", None, b"k"),
        vec![Some(&b"1"[..]), None, Some(&b"\"3\""[..])]
    );
    assert_eq!(file.raw_value(b"a", None, b"k"), Some(Some(&b"\"3\""[..])));
    assert_eq!(file.raw_value(b"a", None, b"OTHER"), Some(Some(&b"4"[..])));
    assert_eq!(file.raw_value(b"b", None, b"k"), Some(Some(&b"2"[..])));
    assert_eq!(file.sections.len(), 3);
    assert_eq!(file.sections[0].name, b"a");
    assert_eq!(file.sections[2].name, b"A");
    assert_eq!(file.sections[0].entries.len(), 2);
    assert!(file.sections[0].is_named(b"A", None));
    assert!(!file.sections[0].is_named(b"A", Some(&b""[..])));
}

#[test]
fn the_last_section_that_has_the_key_wins() {
    let file = file("[s]\na = 1\nb = 1\n[s]\na = 2\n[s]\nc = 3\n");
    assert_eq!(file.integer(b"s", None, b"a"), Some(Ok(2)));
    assert_eq!(file.integer(b"s", None, b"b"), Some(Ok(1)));
    assert_eq!(file.integer(b"s", None, b"c"), Some(Ok(3)));
    assert_eq!(
        file.multi_value(Kind::Integer, b"s", None, b"a").unwrap(),
        vec![
            Value::Integer(Integer { value: 1, suffix: None }),
            Value::Integer(Integer { value: 2, suffix: None })
        ]
    );
}

#[test]
fn the_first_value_that_cannot_be_read_fails_the_list() {
    let file = file("[s]\na = 1\na = x\na = 1z\n");
    assert_eq!(
        file.multi_value(Kind::Integer, b"s", None, b"a"),
        Err(Error::Decode(git_config::value::Error::InvalidInteger))
    );
    assert_eq!(
        file.value(Kind::Integer, b"s", None, b"a"),
        Err(Error::Decode(git_config::value::Error::InvalidSuffix))
    );
}

#[test]
fn implicit_and_explicit_true_are_told_apart() {
    let file = file("[s]\nc\n[t]\nc = true\n");
    let implicit = file.value(Kind::Boolean, b"s", None, b"c").unwrap();
    let explicit = file.value(Kind::Boolean, b"t", None, b"c").unwrap();
    assert_eq!(implicit, Value::Boolean(Boolean::True(True::Implicit)));
    assert_eq!(explicit, Value::Boolean(Boolean::True(True::Explicit(borrowed("true")))));
    assert_ne!(implicit, explicit);
    assert_eq!(file.boolean(b"s", None, b"c"), Some(Ok(true)));
    assert_eq!(file.boolean(b"t", None, b"c"), Some(Ok(true)));
}

#[test]
fn a_key_without_a_value_is_empty_text_for_other_kinds() {
    let file = file("[s]\nc\n");
    assert_eq!(file.string(b"s", None, b"c").unwrap().unwrap().as_slice(), b"");
    assert_eq!(
        file.integer(b"s", None, b"c"),
        Some(Err(git_config::value::Error::InvalidInteger))
    );
    assert_eq!(
        file.value(Kind::Color, b"s", None, b"c").unwrap(),
        Value::Color(Color { foreground: None, background: None, attributes: vec![] })
    );
}

#[test]
fn integers_are_scaled_on_demand() {
    let file = file("[s]\nk = 2k\nm = -3M\ng = 10g\nbig = 9007199254740993g\n");
    assert_eq!(file.integer(b"s", None, b"k"), Some(Ok(2048)));
    assert_eq!(file.integer(b"s", None, b"m"), Some(Ok(-3 * 1024 * 1024)));
    assert_eq!(file.integer(b"s", None, b"g"), Some(Ok(10 * 1024 * 1024 * 1024)));
    assert_eq!(
        file.integer(b"s", None, b"big"),
        Some(Err(git_config::value::Error::IntegerOverflow))
    );
}
