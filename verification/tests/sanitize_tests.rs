use karna_engine::sanitize::is_safe_identifier;
use karna_engine::sanitize::sanitize_to_sql_name;

#[test]
fn test_sanitize_to_sql_name() {
    let name = sanitize_to_sql_name("_testing");
    assert!(name.starts_with("testing"));
    let name = sanitize_to_sql_name("_testing");
    assert!(name.starts_with("testing"));
    let name = sanitize_to_sql_name("_hello!!!world_");
    assert!(name.starts_with("hello_world"));

    let long_name = format!("_{}_", "a".repeat(100));
    assert!(sanitize_to_sql_name(&long_name).len() <= 63);
}

fn is_alnum(c: char) -> bool {
    c.is_ascii_alphanumeric()
}

#[test]
fn sanitized_names_are_valid_identifiers() {
    let inputs = [
        "hello world",
        "2024 report.csv",
        "___",
        "",
        "düsseldorf-data",
        "a",
        "UPPER case",
        "semi;colon'quote\"double",
    ];
    for input in inputs {
        let name = sanitize_to_sql_name(input);
        assert!(!name.is_empty());
        assert!(name.len() <= 63);
        let chars: Vec<char> = name.chars().collect();
        assert!(chars.iter().all(|&c| is_alnum(c) || c == '_'));
        assert!(is_alnum(chars[0]) || chars[0] == '_');
        assert!(is_alnum(*chars.last().unwrap()));
        assert!(!name.contains("__"));
    }
}

#[test]
fn leading_digit_is_hidden_behind_a_letter() {
    let name = sanitize_to_sql_name("2024data");
    assert!(name.starts_with("n2024data_"));
}

#[test]
fn input_without_alphanumerics_starts_with_underscore() {
    let name = sanitize_to_sql_name("!!!");
    assert!(name.starts_with('_'));
    assert_eq!(name.len(), 7);
}

#[test]
fn suffix_is_six_alphanumerics() {
    let name = sanitize_to_sql_name("stable");
    assert_eq!(name.len(), "stable".len() + 1 + 6);
    assert!(name.starts_with("stable_"));
    assert!(name[7..].chars().all(|c| c.is_ascii_alphanumeric()));
}

#[test]
fn two_calls_differ_with_high_probability() {
    // the suffix is random: sixty-two to the sixth power outcomes,
    // so ten draws on one input collide with negligible probability
    let names: Vec<String> = (0..10).map(|_| sanitize_to_sql_name("same")).collect();
    let mut distinct = 0;
    for i in 0..names.len() {
        if !names[..i].contains(&names[i]) {
            distinct += 1;
        }
    }
    assert!(distinct >= 2);
}

#[test]
fn sanitized_names_pass_the_allow_list() {
    for input in ["weird name!", "", "123", "_x_", "ok.csv"] {
        assert!(is_safe_identifier(&sanitize_to_sql_name(input)));
    }
    assert!(is_safe_identifier("a"));
    assert!(is_safe_identifier("_hidden"));
    assert!(!is_safe_identifier(""));
    assert!(!is_safe_identifier("1abc"));
    assert!(!is_safe_identifier("semi;colon"));
    assert!(!is_safe_identifier("has space"));
    assert!(!is_safe_identifier(&"x".repeat(64)));
}

#[test]
fn truncation_never_splits_a_segment() {
    // sixty head characters leave no room for the whole suffix: the
    // cut falls back to the last separator that fits
    let input = "b".repeat(60);
    let name = sanitize_to_sql_name(&input);
    assert_eq!(name, input);

    // with no separator in the first sixty-three characters the cut
    // is a plain truncation
    let input = "c".repeat(80);
    let name = sanitize_to_sql_name(&input);
    assert_eq!(name, "c".repeat(63));
}
