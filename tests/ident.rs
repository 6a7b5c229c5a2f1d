use tomlfuse::{kebab_to_snake, snake_to_kebab, to_valid_ident, ROOT};

#[test]
fn test_to_valid_ident() {
    assert_eq!(to_valid_ident(""), ROOT.to_string());
    assert_eq!(to_valid_ident("normal"), "normal");
    assert_eq!(to_valid_ident("with-dash"), "with_dash");
    assert_eq!(to_valid_ident("\"quoted\""), "quoted");
    assert_eq!(to_valid_ident("\"quoted-with-dash\""), "quoted_with_dash");
}

#[test]
fn test_fix_dashes() {
    assert_eq!(kebab_to_snake("no-dashes-here"), "no_dashes_here");
    assert_eq!(kebab_to_snake("already_good"), "already_good");
    assert_eq!(kebab_to_snake("mixed-case_style"), "mixed_case_style");
    assert_eq!(kebab_to_snake("-leading-dash"), "_leading_dash");
    assert_eq!(kebab_to_snake("trailing-dash-"), "trailing_dash_");
}

#[test]
fn kebab_round_trip_without_underscores() {
    for s in ["dev-dependencies", "a-b-c", "plain", "", "-x-"] {
        assert_eq!(snake_to_kebab(&kebab_to_snake(s)), s);
        assert_eq!(kebab_to_snake(s).chars().count(), s.chars().count());
    }
}

#[test]
fn snake_to_kebab_replaces_underscores() {
    assert_eq!(snake_to_kebab("dev_dependencies"), "dev-dependencies");
}

#[test]
fn quotes_only_stripped_in_pairs() {
    assert_eq!(to_valid_ident("\"\""), ROOT.to_string());
    assert_eq!(to_valid_ident("\"open"), "\"open");
}
