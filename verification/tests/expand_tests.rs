use std::collections::HashMap;

use expandable_str::ExpandStringError;
use expandable_str::ExpandableStrEntry;
use expandable_str::ExpandableStrEntry::Substr;
use expandable_str::ExpandableStrEntry::Var;
use expandable_str::ExpandableStrSplitError;
use expandable_str::ExpandableStrSplitResult;
use expandable_str::expand_string_with_values;
use expandable_str::split_expandable_string;

fn collect_entries(src: &str) -> Vec<ExpandableStrSplitResult<'_>> {
    let mut scanner = split_expandable_string(src);
    let mut out = Vec::new();
    while let Some(item) = scanner.next() {
        out.push(item);
    }
    out
}

fn collect_ok(src: &str) -> Vec<ExpandableStrEntry<'_>> {
    collect_entries(src).into_iter().filter_map(Result::ok).collect()
}

#[test]
fn lib_splits_string() {
    let src = "foo%bar%";
    let x = collect_ok(src);
    assert_eq!(x, vec![Substr("foo"), Var("bar")]);
}

#[test]
fn lib_splits_string_starting_with_var() {
    let src = "%foo%bar";
    let x = collect_ok(src);
    assert_eq!(x, vec![Var("foo"), Substr("bar")]);
}

#[test]
fn lib_splits_string_with_two_adjacent_vars() {
    let src = "%foo%%bar%";
    let x = collect_ok(src);
    assert_eq!(x, vec![Var("foo"), Var("bar")]);
}

#[test]
fn lib_fails_to_parse_malformed_string() {
    let src = "%";
    let x = collect_entries(src);
    assert_eq!(x, vec![Err(ExpandableStrSplitError::InvalidFormat)]);
}

#[test]
fn lib_expands_string_with_values() {
    let values = {
        let mut values = HashMap::new();
        values.insert("DRINK", "a cup of tea");
        values.insert("FOOD", "cookies");
        values
    };

    let src = "This is a string with a %DRINK% and some %FOOD%.";
    let x = expand_string_with_values(src, |id: &str| values.get(id).map(|v| v.to_string()))
        .unwrap();
    assert_eq!(x, "This is a string with a a cup of tea and some cookies.");
}

#[test]
fn tests_splits_string() {
    let src = "foo%bar%";
    let x = collect_ok(src);
    assert_eq!(x, vec![Substr("foo"), Var("bar")]);
}

#[test]
fn tests_splits_string_starting_with_var() {
    let src = "%foo%bar";
    let x = collect_ok(src);
    assert_eq!(x, vec![Var("foo"), Substr("bar")]);
}

#[test]
fn tests_splits_string_with_two_adjacent_vars() {
    let src = "%foo%%bar%";
    let x = collect_ok(src);
    assert_eq!(x, vec![Var("foo"), Var("bar")]);
}

#[test]
fn tests_fails_to_parse_malformed_string() {
    let src = "%";
    let x = collect_entries(src);
    assert_eq!(x, vec![Err(ExpandableStrSplitError::InvalidFormat)]);
}

#[test]
fn fails_to_parse_invalid_var_name() {
    let src = "Some %FOO BAR% here";
    let x = collect_entries(src);
    assert_eq!(x[1], Err(ExpandableStrSplitError::InvalidVariableName));

    let src = "Some %FOO=BAR% here";
    let x = collect_entries(src);
    assert_eq!(x[1], Err(ExpandableStrSplitError::InvalidVariableName));
}

#[test]
fn tests_expands_string_with_values() {
    let values = {
        let mut values = HashMap::new();
        values.insert("DRINK", "a cup of tea");
        values.insert("FOOD", "cookies");
        values
    };

    let src = "This is a string with a %DRINK% and some %FOOD%.";
    let x = expand_string_with_values(src, |id: &str| values.get(id).map(|v| v.to_string()))
        .unwrap();
    assert_eq!(x, "This is a string with a a cup of tea and some cookies.");
}

#[test]
fn reports_missing_variable() {
    let src = "Some %FOO%";
    let x = expand_string_with_values(src, |_: &str| -> Option<String> { None });
    assert_eq!(x, Err(ExpandStringError::MissingVariable("FOO")));
}

#[test]
fn empty_string_yields_no_segments() {
    assert_eq!(collect_entries(""), vec![]);
}

#[test]
fn string_without_delimiter_is_one_literal() {
    assert_eq!(collect_ok("plain text"), vec![Substr("plain text")]);
}

#[test]
fn adjacent_delimiters_alone_yield_no_segments() {
    assert_eq!(collect_entries("%%"), vec![]);
}

#[test]
fn empty_variable_name_is_suppressed_inside_literal() {
    assert_eq!(collect_ok("a%%b"), vec![Substr("a"), Substr("b")]);
}

#[test]
fn no_emitted_segment_is_empty() {
    for src in ["%a%%b%", "x%y%z", "%%q%%", "%a% %b%"] {
        for entry in collect_ok(src) {
            match entry {
                Substr(t) => assert!(!t.is_empty()),
                Var(v) => assert!(!v.is_empty()),
            }
        }
    }
}

#[test]
fn segments_reconstruct_source() {
    for src in ["x%Y%z", "foo", "%A%%B%", "a%%b"] {
        let mut rebuilt = String::new();
        for entry in collect_ok(src) {
            match entry {
                Substr(t) => rebuilt.push_str(t),
                Var(v) => {
                    rebuilt.push('%');
                    rebuilt.push_str(v);
                    rebuilt.push('%');
                }
            }
        }
        if src == "a%%b" {
            // the one policy exception: an empty variable name is dropped
            assert_eq!(rebuilt, "ab");
        } else {
            assert_eq!(rebuilt, src);
        }
    }
}

#[test]
fn expansion_propagates_malformed_input() {
    let x = expand_string_with_values("%", |_: &str| -> Option<String> { None });
    assert_eq!(x, Err(ExpandStringError::InvalidFormat));
}

#[test]
fn expansion_propagates_invalid_var_name() {
    let x = expand_string_with_values("a %B C% d", |_: &str| Some(String::from("v")));
    assert_eq!(x, Err(ExpandStringError::InvalidVariableName));
}

#[test]
fn expansion_of_plain_literal_copies_it() {
    let x = expand_string_with_values("hello", |_: &str| -> Option<String> { None });
    assert_eq!(x, Ok(String::from("hello")));
}

#[test]
fn expansion_with_empty_value_drops_the_placeholder() {
    let x = expand_string_with_values("a%V%b", |_: &str| Some(String::new()));
    assert_eq!(x, Ok(String::from("ab")));
}
