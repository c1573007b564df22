use pear::author::Author;
use pear::author::ParseError;

#[test]
fn test_format_for_patch() {
    let author = Author {
        alias: "doggo".into(),
        name: "Really Good Doggo".into(),
        email: "doggo113@email.com".into(),
    };

    assert_eq!(
        &author.format_attribution()[..],
        "Really Good Doggo <doggo113@email.com>"
    );
}

#[test]
fn test_parse_alias() {
    let line = "doggo | Really Good Doggo | doggo113@email.co.uk";
    let author: Author = Author::from_str(line).unwrap();
    assert_eq!(author.alias, "doggo");
}

#[test]
fn test_parse_name() {
    let line = "doggo | Really Good Doggo | doggo113@email.co.uk";
    let author: Author = Author::from_str(line).unwrap();
    assert_eq!(author.name, "Really Good Doggo");
}

#[test]
fn test_parse_email() {
    let line = "doggo | Really Good Doggo | doggo113@email.co.uk";
    let author: Author = Author::from_str(line).unwrap();
    assert_eq!(author.email, "doggo113@email.co.uk");
}

#[test]
fn test_parse_unexpected_format() {
    let line = "doggo | ";
    assert_eq!(Author::from_str(line), Err(ParseError));
}

#[test]
fn test_serialize_storage_exact() {
    let author = Author::new(
        "doggo".into(),
        "Really Good Doggo".into(),
        "doggo113@email.com".into(),
    );
    assert_eq!(
        author.serialize_storage(),
        "doggo | Really Good Doggo | doggo113@email.com"
    );
}

#[test]
fn test_format_display_exact() {
    let author = Author::new(
        "doggo".into(),
        "Really Good Doggo".into(),
        "doggo113@email.com".into(),
    );
    assert_eq!(
        author.format_display(),
        "[doggo] Really Good Doggo <doggo113@email.com>"
    );
}

#[test]
fn test_round_trip_plain() {
    let author = Author::new(
        "doggo".into(),
        "Really Good Doggo".into(),
        "doggo113@email.com".into(),
    );
    let parsed = Author::from_str(&author.serialize_storage()).unwrap();
    assert_eq!(parsed, author);
}

#[test]
fn test_round_trip_name_with_pipe() {
    let author = Author::new("a".into(), "Good | Doggo".into(), "d@e".into());
    let parsed = Author::from_str(&author.serialize_storage()).unwrap();
    assert_eq!(parsed, author);
}

#[test]
fn test_parse_name_keeps_interior_pipe() {
    let author = Author::from_str("a | b | c | d").unwrap();
    assert_eq!(author.alias, "a");
    assert_eq!(author.name, "b | c");
    assert_eq!(author.email, "d");
}

#[test]
fn test_parse_trims_field_padding() {
    let author = Author::from_str("  doggo  |  Really Good Doggo  |  d@e  ").unwrap();
    assert_eq!(author.alias, "doggo");
    assert_eq!(author.name, "Really Good Doggo");
    assert_eq!(author.email, "d@e");
}

#[test]
fn test_parse_rejects_malformed() {
    assert_eq!(Author::from_str(""), Err(ParseError));
    assert_eq!(Author::from_str("doggo"), Err(ParseError));
    assert_eq!(Author::from_str("doggo | name"), Err(ParseError));
    assert_eq!(Author::from_str("doggo |  | d@e"), Err(ParseError));
    assert_eq!(Author::from_str(" | name | d@e"), Err(ParseError));
    assert_eq!(Author::from_str("dog go | name | d@e"), Err(ParseError));
    assert_eq!(Author::from_str("doggo | name | d @e"), Err(ParseError));
}

#[test]
fn test_parse_error_message() {
    assert_eq!(ParseError.message(), "Parse Error");
}
