use enum_range::decimal::to_decimal;
use enum_range::model::RangeTag;
use enum_range::template::{generate_variant_ident, substitute};

fn tag(name: &str, name_template: Option<&str>) -> RangeTag {
    RangeTag {
        name: name.to_string(),
        start: 0,
        end: 0,
        name_template: name_template.map(|t| t.to_string()),
        check_name: None,
    }
}

#[test]
fn numerals_of_small_and_large_numbers() {
    assert_eq!(to_decimal(0), "0");
    assert_eq!(to_decimal(7), "7");
    assert_eq!(to_decimal(9), "9");
    assert_eq!(to_decimal(10), "10");
    assert_eq!(to_decimal(11), "11");
    assert_eq!(to_decimal(99), "99");
    assert_eq!(to_decimal(100), "100");
    assert_eq!(to_decimal(1234567890), "1234567890");
    assert_eq!(to_decimal(4294967295), "4294967295");
    assert_eq!(to_decimal(usize::MAX), usize::MAX.to_string());
}

#[test]
fn numerals_agree_with_the_standard_rendering() {
    let mut n: usize = 0;
    while n < 3000 {
        assert_eq!(to_decimal(n), n.to_string());
        n += 1;
    }
}

#[test]
fn substitute_replaces_every_occurrence() {
    assert_eq!(substitute("a{index}b{index}c", "{index}", "7"), "a7b7c");
    assert_eq!(substitute("{index}", "{index}", "12"), "12");
    assert_eq!(substitute("{index}{index}", "{index}", "3"), "33");
    assert_eq!(substitute("no placeholder", "{index}", "3"), "no placeholder");
    assert_eq!(substitute("", "{index}", "3"), "");
}

#[test]
fn substitute_takes_occurrences_from_the_left_without_overlap() {
    assert_eq!(substitute("aaa", "aa", "b"), "ba");
    assert_eq!(substitute("aaaa", "aa", "b"), "bb");
    assert_eq!(substitute("abab", "ab", "abab"), "abababab");
    assert_eq!(substitute("{{index}}", "{index}", "1"), "{1}");
    assert_eq!(substitute("{index", "{index}", "1"), "{index");
    assert_eq!(substitute("x{index}", "{index}", ""), "x");
}

#[test]
fn substitute_agrees_with_the_standard_replacement() {
    let texts = ["", "a", "ab", "aba", "abab", "ababa", "xxabxxabab", "bbbb", "äbäb", "{index}{value}"];
    let patterns = ["a", "ab", "aba", "b", "bb", "ä", "äb", "{index}", "{value}", "abababababab"];
    let replacements = ["", "a", "ab", "ZZ", "ä"];
    for text in texts {
        for pattern in patterns {
            for replacement in replacements {
                assert_eq!(
                    substitute(text, pattern, replacement),
                    text.replace(pattern, replacement)
                );
            }
        }
    }
}

#[test]
fn substitute_with_an_empty_pattern_changes_nothing() {
    assert_eq!(substitute("abc", "", "x"), "abc");
    assert_eq!(substitute("", "", "x"), "");
}

#[test]
fn substitute_handles_text_beyond_ascii() {
    assert_eq!(substitute("é{index}ü", "{index}", "5"), "é5ü");
    assert_eq!(substitute("日本{value}語", "{value}", "42"), "日本42語");
}

#[test]
fn name_from_a_template_with_both_placeholders() {
    let range = tag("PrivateUse", Some("PU{index}_{value}"));
    assert_eq!(generate_variant_ident(&range, 0, 10), "PU0_10");
    assert_eq!(generate_variant_ident(&range, 1, 11), "PU1_11");
    assert_eq!(generate_variant_ident(&range, 2, 12), "PU2_12");
}

#[test]
fn name_without_a_template_is_the_given_name_and_the_index() {
    let range = tag("WellKnown", None);
    assert_eq!(generate_variant_ident(&range, 0, 206), "WellKnown0");
    assert_eq!(generate_variant_ident(&range, 4, 210), "WellKnown4");
    assert_eq!(generate_variant_ident(&range, 123, 0), "WellKnown123");
}

#[test]
fn placeholders_may_repeat_and_come_in_any_order() {
    let range = tag("R", Some("V{value}I{index}V{value}I{index}"));
    assert_eq!(generate_variant_ident(&range, 3, 45), "V45I3V45I3");
    let range = tag("R", Some("{value}{index}"));
    assert_eq!(generate_variant_ident(&range, 1, 2), "21");
}

#[test]
fn template_without_placeholders_stays_as_it_is() {
    let range = tag("R", Some("Same"));
    assert_eq!(generate_variant_ident(&range, 0, 5), "Same");
    assert_eq!(generate_variant_ident(&range, 1, 6), "Same");
    let range = tag("R", Some(""));
    assert_eq!(generate_variant_ident(&range, 1, 6), "");
}

#[test]
fn unknown_placeholders_are_left_verbatim() {
    let range = tag("R", Some("A{name}{idx}{index}{Value}{}"));
    assert_eq!(generate_variant_ident(&range, 7, 8), "A{name}{idx}7{Value}{}");
}

#[test]
fn placeholder_in_the_given_name_is_replaced_too() {
    let range = tag("N{value}_", None);
    assert_eq!(generate_variant_ident(&range, 2, 9), "N9_2");
}

#[test]
fn placeholders_are_replaced_independently() {
    let templates = [
        "PU{index}_{value}",
        "{value}{index}",
        "{index}{value}{index}",
        "{val{index}ue}",
        "{ind{value}ex}",
        "{{index}}{{value}}",
        "{index{value}",
        "plain",
        "",
    ];
    for template in templates {
        for (index, value) in [(0usize, 0usize), (1, 11), (25, 340), (7, usize::MAX)] {
            let i = to_decimal(index);
            let v = to_decimal(value);
            let index_first = substitute(&substitute(template, "{index}", &i), "{value}", &v);
            let value_first = substitute(&substitute(template, "{value}", &v), "{index}", &i);
            assert_eq!(index_first, value_first);
            let range = tag("R", Some(template));
            assert_eq!(generate_variant_ident(&range, index, value), index_first);
        }
    }
    let range = tag("R", Some("{val{index}ue}"));
    assert_eq!(generate_variant_ident(&range, 3, 4), "{val3ue}");
}
