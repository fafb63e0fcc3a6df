use facet_wire::naming::RenameRule;
use facet_wire::naming::normalize_ident_str;
use facet_wire::naming::split_into_words;
use facet_wire::naming::to_camel_case;
use facet_wire::naming::to_kebab_case;
use facet_wire::naming::to_lowercase;
use facet_wire::naming::to_pascal_case;
use facet_wire::naming::to_screaming_kebab_case;
use facet_wire::naming::to_screaming_snake_case;
use facet_wire::naming::to_snake_case;
use facet_wire::naming::to_upper_snake_case;
use facet_wire::naming::to_uppercase;

#[test]
fn rule_parsing() {
    assert_eq!(RenameRule::from_str("lowercase"), Some(RenameRule::Lowercase));
    assert_eq!(RenameRule::from_str("UPPERCASE"), Some(RenameRule::Uppercase));
    assert_eq!(RenameRule::from_str("PascalCase"), Some(RenameRule::PascalCase));
    assert_eq!(RenameRule::from_str("camelCase"), Some(RenameRule::CamelCase));
    assert_eq!(RenameRule::from_str("snake_case"), Some(RenameRule::SnakeCase));
    assert_eq!(
        RenameRule::from_str("SCREAMING_SNAKE_CASE"),
        Some(RenameRule::ScreamingSnakeCase)
    );
    assert_eq!(RenameRule::from_str("kebab-case"), Some(RenameRule::KebabCase));
    assert_eq!(
        RenameRule::from_str("SCREAMING-KEBAB-CASE"),
        Some(RenameRule::ScreamingKebabCase)
    );
    assert_eq!(RenameRule::from_str("unknown"), None);
    assert_eq!(RenameRule::from_str(""), None);
    assert_eq!(RenameRule::from_str("snake-case"), None);
}

#[test]
fn word_splitting() {
    assert_eq!(split_into_words("HTTPRequest"), vec!["HTTP", "Request"]);
    assert_eq!(split_into_words("fooBar"), vec!["foo", "Bar"]);
    assert_eq!(split_into_words("camelCase"), vec!["camel", "Case"]);
    assert_eq!(split_into_words("foo_bar-baz qux"), vec!["foo", "bar", "baz", "qux"]);
    assert_eq!(split_into_words("foo1Bar"), vec!["foo1", "Bar"]);
    assert_eq!(split_into_words("__a__b__"), vec!["a", "b"]);
    assert_eq!(split_into_words(""), Vec::<String>::new());
    assert_eq!(split_into_words("___"), Vec::<String>::new());
}

#[test]
fn case_transforms() {
    assert_eq!(to_lowercase("FooBar"), "foobar");
    assert_eq!(to_uppercase("FooBar"), "FOOBAR");
    assert_eq!(to_pascal_case("foo_bar"), "FooBar");
    assert_eq!(to_camel_case("foo_bar"), "fooBar");
    assert_eq!(to_snake_case("FooBar"), "foo_bar");
    assert_eq!(to_screaming_snake_case("FooBar"), "FOO_BAR");
    assert_eq!(to_kebab_case("FooBar"), "foo-bar");
    assert_eq!(to_screaming_kebab_case("FooBar"), "FOO-BAR");
    assert_eq!(to_upper_snake_case("PascalCase"), "PASCAL_CASE");
    assert_eq!(to_upper_snake_case("Mixed1Case"), "MIXED1_CASE");
}

#[test]
fn acronym_boundaries() {
    assert_eq!(to_snake_case("HTTPRequest"), "http_request");
    assert_eq!(to_snake_case("fooBar"), "foo_bar");
    assert_eq!(to_kebab_case("HTTPRequest"), "http-request");
    assert_eq!(to_screaming_snake_case("HTTPRequest"), "HTTP_REQUEST");
    assert_eq!(to_pascal_case("HTTPRequest"), "HTTPRequest");
    assert_eq!(to_camel_case("HTTPRequest"), "hTTPRequest");
}

#[test]
fn empty_and_separator_only_inputs() {
    let rules = [
        RenameRule::Lowercase,
        RenameRule::Uppercase,
        RenameRule::PascalCase,
        RenameRule::CamelCase,
        RenameRule::SnakeCase,
        RenameRule::ScreamingSnakeCase,
        RenameRule::KebabCase,
        RenameRule::ScreamingKebabCase,
        RenameRule::Passthrough,
    ];
    for rule in rules {
        assert_eq!(rule.apply(""), "");
    }
    assert_eq!(RenameRule::SnakeCase.apply("_-_ "), "");
    assert_eq!(RenameRule::PascalCase.apply("___"), "");
    assert_eq!(RenameRule::Passthrough.apply("_-_"), "_-_");
}

#[test]
fn apply_is_idempotent_on_consistent_forms() {
    let rules = [
        RenameRule::Lowercase,
        RenameRule::Uppercase,
        RenameRule::PascalCase,
        RenameRule::CamelCase,
        RenameRule::SnakeCase,
        RenameRule::ScreamingSnakeCase,
        RenameRule::KebabCase,
        RenameRule::ScreamingKebabCase,
        RenameRule::Passthrough,
    ];
    for rule in rules {
        for input in ["FooBar", "foo_bar", "HTTPRequest", "x", ""] {
            let once = rule.apply(input);
            let twice = rule.apply(&once);
            assert_eq!(twice, once, "rule {:?} on {:?}", rule, input);
        }
    }
}

#[test]
fn apply_is_deterministic() {
    for rule in [RenameRule::SnakeCase, RenameRule::PascalCase, RenameRule::CamelCase] {
        assert_eq!(rule.apply("HTTPRequestBody"), rule.apply("HTTPRequestBody"));
    }
}

#[test]
fn raw_identifier_normalization() {
    assert_eq!(normalize_ident_str("r#type"), "type");
    assert_eq!(normalize_ident_str("type"), "type");
    assert_eq!(normalize_ident_str("r#"), "");
    assert_eq!(normalize_ident_str("r"), "r");
}

#[test]
fn screaming_case_resplits_after_interior_digits() {
    // A letter resuming after a digit starts a new word on the next
    // pass, so the screaming forms are not idempotent on such names.
    assert_eq!(to_screaming_snake_case("a1b"), "A1B");
    assert_eq!(to_screaming_snake_case("A1B"), "A1_B");
    // Digit-free and digit-tailed words are stable.
    assert_eq!(to_screaming_snake_case("FOO_BAR"), "FOO_BAR");
    assert_eq!(to_screaming_snake_case("foo1_bar"), "FOO1_BAR");
    assert_eq!(to_screaming_snake_case("FOO1_BAR"), "FOO1_BAR");
}
