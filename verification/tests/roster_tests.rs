use pear::author::ParseError;
use pear::roster::parse_all;
use pear::roster::render_display_lines;
use pear::roster::render_patch_lines;
use pear::roster::select_active;

fn strings(vals: &[&str]) -> Vec<String> {
    vals.iter().map(|v| v.to_string()).collect()
}

#[test]
fn test_parse_all_ok() {
    let values = strings(&["x | B | b@e", "y | A | a@e"]);
    let authors = parse_all(&values).unwrap();
    assert_eq!(authors.len(), 2);
    assert_eq!(authors[0].alias, "x");
    assert_eq!(authors[1].name, "A");
}

#[test]
fn test_parse_all_aborts_on_malformed() {
    let values = strings(&["x | B | b@e", "broken"]);
    assert_eq!(parse_all(&values), Err(ParseError));
}

#[test]
fn test_select_active_no_match_is_noop() {
    let roster = strings(&["x | B | b@e", "y | A | a@e"]);
    let aliases = strings(&["zzz"]);
    assert_eq!(select_active(&roster, &aliases), Ok(None));
}

#[test]
fn test_select_active_empty_roster_is_noop() {
    let roster = strings(&[]);
    let aliases = strings(&["x"]);
    assert_eq!(select_active(&roster, &aliases), Ok(None));
}

#[test]
fn test_select_active_keeps_roster_order() {
    let roster = strings(&["x | B | b@e", "y | A | a@e"]);
    let aliases = strings(&["y", "x"]);
    let lines = select_active(&roster, &aliases).unwrap().unwrap();
    assert_eq!(lines, strings(&["x | B | b@e", "y | A | a@e"]));
}

#[test]
fn test_select_active_filters_by_alias() {
    let roster = strings(&["x | B | b@e", "y | A | a@e", "z | C | c@e"]);
    let aliases = strings(&["z", "x"]);
    let lines = select_active(&roster, &aliases).unwrap().unwrap();
    assert_eq!(lines, strings(&["x | B | b@e", "z | C | c@e"]));
}

#[test]
fn test_select_active_keeps_duplicate_aliases() {
    let roster = strings(&["x | B | b@e", "x | B2 | b2@e"]);
    let aliases = strings(&["x"]);
    let lines = select_active(&roster, &aliases).unwrap().unwrap();
    assert_eq!(lines, strings(&["x | B | b@e", "x | B2 | b2@e"]));
}

#[test]
fn test_select_active_normalizes_stored_padding() {
    let roster = strings(&["x |  B  | b@e"]);
    let aliases = strings(&["x"]);
    let lines = select_active(&roster, &aliases).unwrap().unwrap();
    assert_eq!(lines, strings(&["x | B | b@e"]));
}

#[test]
fn test_select_active_aborts_on_malformed() {
    let roster = strings(&["broken |"]);
    let aliases = strings(&["broken"]);
    assert_eq!(select_active(&roster, &aliases), Err(ParseError));
}

#[test]
fn test_render_display_lines_exact() {
    let values = strings(&["doggo | Really Good Doggo | d@e", "x | B | b@e"]);
    let text = render_display_lines(&values).unwrap();
    assert_eq!(
        text,
        "* [doggo] Really Good Doggo <d@e>\n* [x] B <b@e>\n"
    );
}

#[test]
fn test_render_display_lines_empty() {
    let values = strings(&[]);
    assert_eq!(render_display_lines(&values).unwrap(), "");
}

#[test]
fn test_render_display_lines_aborts_on_malformed() {
    let values = strings(&["doggo | Really Good Doggo | d@e", "broken"]);
    assert_eq!(render_display_lines(&values), Err(ParseError));
}

#[test]
fn test_render_patch_lines_exact() {
    let values = strings(&["doggo | Really Good Doggo | d@e"]);
    let text = render_patch_lines(&values).unwrap();
    assert_eq!(text, "Co-authored-by: Really Good Doggo <d@e>\n");
}

#[test]
fn test_render_patch_lines_aborts_on_malformed() {
    let values = strings(&["broken"]);
    assert_eq!(render_patch_lines(&values), Err(ParseError));
}
