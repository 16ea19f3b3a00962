use crownfi_cw_common::sdk_autogen::type_names::make_type_name;
use lazy_regex::{Captures, Regex};

/// The regular expressions that describe the steps, one after the other.
fn steps() -> Vec<Regex> {
    [
        r"(?:^\s*[^a-zA-Z_$])|(?:[^a-zA-Z_$\d])",
        r"^_[a-z]",
        r"_[a-z]",
        r"(?:[\d$]+[a-zA-Z])",
        r"\s+([a-zA-Z])",
        r"\s",
    ]
    .into_iter()
    .map(|pattern| Regex::new(pattern).unwrap())
    .collect()
}

/// The same name, by the regular expressions that describe each step.
fn by_regular_expressions(steps: &[Regex], text: &str) -> String {
    let text = deunicode::deunicode_with_tofu(text, "\u{FFFD}");
    let text = steps[0].replace_all(&text, " ").into_owned();
    let text = steps[1].replace_all(&text, |m: &Captures<'_>| m[0].to_ascii_uppercase()).into_owned();
    let text = steps[2].replace_all(&text, |m: &Captures<'_>| m[0][1..].to_ascii_uppercase()).into_owned();
    let text = steps[3].replace_all(&text, |m: &Captures<'_>| m[0].to_ascii_uppercase()).into_owned();
    let text = steps[4].replace_all(&text, |m: &Captures<'_>| m[0].trim().to_ascii_uppercase()).into_owned();
    let text = steps[5].replace_all(&text, "").into_owned();
    let mut chars = text.chars();
    match chars.next() {
        Some(first) => first.to_ascii_uppercase().to_string() + chars.as_str(),
        None => text,
    }
}

#[test]
fn type_names_of_plain_names() {
    assert_eq!(make_type_name("ExecuteMsg"), "ExecuteMsg");
    assert_eq!(make_type_name("execute_msg"), "ExecuteMsg");
    assert_eq!(make_type_name("pool-pair info"), "PoolPairInfo");
    assert_eq!(make_type_name("_private_name"), "_PrivateName");
    assert_eq!(make_type_name("cw20_hook_msg"), "Cw20HookMsg");
    assert_eq!(make_type_name("uint128"), "Uint128");
    assert_eq!(make_type_name("9lives"), "Lives");
    assert_eq!(make_type_name("a9lives"), "A9Lives");
    assert_eq!(make_type_name("$ref x"), "$RefX");
    assert_eq!(make_type_name("Array_of_Coin"), "ArrayOf_Coin");
    assert_eq!(make_type_name("array_of_coin"), "ArrayOfCoin");
    assert_eq!(make_type_name("Nullable_Uint128"), "Nullable_Uint128");
    assert_eq!(make_type_name(""), "");
    assert_eq!(make_type_name("   "), "");
    assert_eq!(make_type_name("étude_naïve"), "EtudeNaive");
}

#[test]
fn type_names_agree_with_the_regular_expressions() {
    let pieces = [
        "", " ", "\t", "_", "__", "$", "a", "Z", "0", "9", "x1", "1x", "-", ".", "é", "北", "\u{FFFD}", "\u{E000}",
        "_a", "_A", "a_", "$a", "7$b", " a", "a ", "\n", "ab", "A_b", "_1", "1_", "_ a", "\u{A0}", "٣",
    ];
    let steps = steps();
    let mut checked = 0;
    for a in pieces {
        for b in pieces {
            for c in pieces {
                let text = [a, b, c].concat();
                assert_eq!(make_type_name(&text), by_regular_expressions(&steps, &text), "for {:?}", text);
                checked += 1;
            }
        }
    }
    assert_eq!(checked, pieces.len() * pieces.len() * pieces.len());
    for text in [
        "  leading white space",
        "  9 leading digit after space",
        "snake_case_name and more_words",
        "__double__underscore__",
        "mixed_Case_and_snake",
        "tabs\tand\nlines",
        "12ab34cd$ef",
        "$$$a",
        "trailing space   ",
        "Größe der Straße",
        "emoji 🦄 name",
        "a  \t b",
        "_ _a",
        " _a",
        "0_a",
    ] {
        assert_eq!(make_type_name(text), by_regular_expressions(&steps, text), "for {:?}", text);
    }
}
