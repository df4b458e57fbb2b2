use config_file::parse_line;

fn pair(key: &str, value: &str) -> Option<(String, String)> {
    Some((key.to_string(), value.to_string()))
}

#[test]
fn test_parse_line() {
    assert_eq!(None, parse_line(""));
    assert_eq!(None, parse_line("# comment"));
    assert_eq!(None, parse_line(" | key is empty"));
    assert_eq!(
        Some(("key".into(), "\"key\"".into())),
        parse_line("key | \"key\"")
    );
    assert_eq!(
        Some(("key".into(), "".into())),
        parse_line("key | # value is empty")
    );
    assert_eq!(
        Some(("1 + 1".into(), "= 2".into())),
        parse_line("   1   +   1 | =     2")
    );
}

#[test]
fn reparse_of_joined_pair_is_the_same() {
    let lines = [
        "   1   +   1 | =     2",
        "key | \"key\"",
        "key | # value is empty",
        "a b  |  c | d  # tail",
        "only   key   ",
    ];
    for line in lines {
        let (key, value) = parse_line(line).unwrap();
        let joined = format!("{} | {}", key, value);
        assert_eq!(parse_line(&joined), Some((key, value)));
    }
}

#[test]
fn leading_bar_gives_no_pair() {
    assert_eq!(parse_line("|"), None);
    assert_eq!(parse_line("|value"), None);
    assert_eq!(parse_line("    | value | more"), None);
    assert_eq!(parse_line("  |  # comment"), None);
}

#[test]
fn line_without_bar_gives_key_and_empty_value() {
    assert_eq!(parse_line("key"), pair("key", ""));
    assert_eq!(parse_line("  two   words  "), pair("two words", ""));
    assert_eq!(parse_line(" a  b # c | d"), pair("a b", ""));
}

#[test]
fn comment_before_any_key_gives_no_pair() {
    assert_eq!(parse_line("   # x | y"), None);
    assert_eq!(parse_line("#key | value"), None);
    assert_eq!(parse_line("     "), None);
}

#[test]
fn later_bars_belong_to_the_value() {
    assert_eq!(parse_line("a|b|c"), pair("a", "b|c"));
    assert_eq!(parse_line("a | b | c"), pair("a", "b | c"));
    assert_eq!(parse_line("a ||"), pair("a", "|"));
}

#[test]
fn hash_ends_the_line_anywhere() {
    assert_eq!(parse_line("key#|value"), pair("key", ""));
    assert_eq!(parse_line("key | val#ue"), pair("key", "val"));
    assert_eq!(parse_line("key | value   # note"), pair("key", "value"));
}

#[test]
fn spaces_are_trimmed_and_collapsed() {
    assert_eq!(parse_line("k|v"), pair("k", "v"));
    assert_eq!(parse_line("  k  |  v  "), pair("k", "v"));
    assert_eq!(parse_line("a   b   c | x    y    z"), pair("a b c", "x y z"));
    assert_eq!(parse_line("key |"), pair("key", ""));
    assert_eq!(parse_line("key |      "), pair("key", ""));
}

#[test]
fn only_the_space_character_separates() {
    assert_eq!(parse_line("a\tb | c"), pair("a\tb", "c"));
    assert_eq!(parse_line("\t| c"), pair("\t", "c"));
}

#[test]
fn characters_beyond_ascii_are_kept() {
    assert_eq!(parse_line("clé  | valeur é"), pair("clé", "valeur é"));
}
