use hyprsupreme_core::config::{Config, Profile};
use hyprsupreme_core::name_map::NameMap;
use hyprsupreme_core::placeholder::{find_placeholder, replace_chars};
use hyprsupreme_core::resolver::resolve_text;
use hyprsupreme_core::text::{chars_of, holds_text, phrase, str_eq, text_before};

fn map_of(pairs: &[(&str, &str)]) -> NameMap<String> {
    let mut map = NameMap::new();
    for (k, v) in pairs {
        map.insert(k.to_string(), v.to_string());
    }
    map
}

fn first_name(text: &str) -> Option<String> {
    let chars: Vec<char> = text.chars().collect();
    find_placeholder(&chars).map(|(at, len)| chars[at + 2..at + 2 + len].iter().collect())
}

fn first_name_by_regex(text: &str) -> Option<String> {
    let pattern = regex::Regex::new(r"\$\{([a-zA-Z0-9_.-]+)\}").unwrap();
    pattern.captures(text).map(|c| c.get(1).unwrap().as_str().to_string())
}

#[test]
fn profile_variable_overrides_global() {
    let mut config = Config::default_config();
    config.variables = map_of(&[("x", "1")]);
    let mut profile = Profile::default();
    profile.variables.insert("x".to_string(), "2".to_string());
    config.profiles = NameMap::new();
    config.profiles.insert("default".to_string(), profile);
    assert_eq!(config.resolve_variables("${x}", Some("default")), "2");
    assert_eq!(config.resolve_variables("${x}", None), "2");
}

#[test]
fn global_variable_is_used_where_the_profile_has_none() {
    let locals = map_of(&[("a", "local")]);
    let globals = map_of(&[("a", "global"), ("b", "B")]);
    assert_eq!(resolve_text("${a}-${b}", &locals, &globals), "local-B");
}

#[test]
fn unknown_placeholder_resolves_to_nothing() {
    let none: NameMap<String> = NameMap::new();
    assert_eq!(resolve_text("a${missing}b", &none, &none), "ab");
}

#[test]
fn every_occurrence_of_a_placeholder_is_replaced() {
    let locals = map_of(&[("x", "1")]);
    let none: NameMap<String> = NameMap::new();
    assert_eq!(resolve_text("${x}+${x}=${y}", &locals, &none), "1+1=");
}

#[test]
fn replacement_text_is_resolved_in_turn() {
    let locals = map_of(&[("a", "<${b}>"), ("b", "[${c}]")]);
    let globals = map_of(&[("c", "deep")]);
    assert_eq!(resolve_text("${a}", &locals, &globals), "<[deep]>");
}

#[test]
fn self_reference_stops_with_the_placeholder_left() {
    let locals = map_of(&[("a", "x${a}")]);
    let none: NameMap<String> = NameMap::new();
    let out = resolve_text("${a}", &locals, &none);
    assert_eq!(out, "x${a}");
    assert!(out.contains("${a}"));
}

#[test]
fn longer_cycle_stops_too() {
    let locals = map_of(&[("a", "${b}"), ("b", "${a}")]);
    let none: NameMap<String> = NameMap::new();
    assert_eq!(resolve_text("start ${a} end", &locals, &none), "start ${a} end");
}

#[test]
fn a_tried_name_that_is_not_leftmost_does_not_stop_the_work() {
    let locals = map_of(&[("a", "${b}${a}"), ("b", "B")]);
    let none: NameMap<String> = NameMap::new();
    assert_eq!(resolve_text("${a}", &locals, &none), "B${a}");
}

#[test]
fn resolving_a_settled_text_again_changes_nothing() {
    let locals = map_of(&[("a", "1"), ("b", "${a}2")]);
    let globals = map_of(&[("c", "${b}3")]);
    let once = resolve_text("${c}/${unknown}", &locals, &globals);
    assert_eq!(once, "123/");
    let twice = resolve_text(&once, &locals, &globals);
    assert_eq!(twice, once);
}

#[test]
fn missing_profile_returns_the_input() {
    let config = Config::default_config();
    assert_eq!(config.resolve_variables("${terminal}", Some("nowhere")), "${terminal}");
    assert_eq!(config.resolve_variables("${terminal} ${color.accent}", None), "kitty #7aa2f7");
    assert_eq!(config.resolve_variables("${scale}", Some("laptop")), "1.5");
}

#[test]
fn pieces_can_join_into_a_new_placeholder() {
    let locals = map_of(&[("x", "found")]);
    let none: NameMap<String> = NameMap::new();
    assert_eq!(resolve_text("${x${y}}", &locals, &none), "found");
}

#[test]
fn placeholder_grammar() {
    assert_eq!(first_name("${a}"), Some("a".to_string()));
    assert_eq!(first_name("x ${color.accent-2_b} y ${z}"), Some("color.accent-2_b".to_string()));
    assert_eq!(first_name("${}"), None);
    assert_eq!(first_name("${a b}"), None);
    assert_eq!(first_name("$a}"), None);
    assert_eq!(first_name("${a"), None);
    assert_eq!(first_name("${a${b}"), Some("b".to_string()));
    assert_eq!(first_name("$${a}"), Some("a".to_string()));
    assert_eq!(first_name("${ä}${o}"), Some("o".to_string()));
    assert_eq!(first_name(""), None);
    assert_eq!(first_name("$"), None);
    assert_eq!(first_name("${"), None);
    let chars: Vec<char> = "ab${cd}".chars().collect();
    assert_eq!(find_placeholder(&chars), Some((2, 2)));
}

#[test]
fn placeholder_search_agrees_with_the_pattern() {
    let samples = [
        "", "plain", "${a}", "${A.b-c_9}", "x${a}y${b}", "${}", "${ }", "${a}}", "{${a}", "$${a}$",
        "${a${b}}", "${a$b}", "$ {a}", "${a\n}", "é${é}${e}", "${-}", "${.}", "${_}", "}${a", "${a}${a}",
        "${a!}${b}", "$${", "${{a}}", "a$b{c}d", "${0}", "${a}é",
    ];
    for sample in samples {
        assert_eq!(first_name(sample), first_name_by_regex(sample), "on {:?}", sample);
    }
}

#[test]
fn replacement_agrees_with_the_string_method() {
    let cases = [
        ("aaa", "aa", "b"), ("abcabc", "bc", ""), ("abc", "abc", "x"), ("abc", "abcd", "x"),
        ("", "a", "b"), ("a${x}b${x}", "${x}", "${x}${x}"), ("ababab", "aba", "-"), ("xéyéz", "é", "e"),
    ];
    for (text, pattern, with) in cases {
        let out = replace_chars(&chars_of(text), &chars_of(pattern), &chars_of(with));
        let out: String = out.into_iter().collect();
        assert_eq!(out, text.replace(pattern, with), "on {:?}", (text, pattern, with));
    }
    let kept = replace_chars(&chars_of("abc"), &chars_of(""), &chars_of("x"));
    assert_eq!(kept, chars_of("abc"));
}

#[test]
fn text_helpers() {
    assert!(str_eq("abc", "abc"));
    assert!(!str_eq("abc", "abd"));
    assert!(!str_eq("abc", "ab"));
    assert!(str_eq("", ""));
    assert_eq!(chars_of("héllo"), vec!['h', 'é', 'l', 'l', 'o']);
    assert_eq!(phrase("ab", "cd"), "abcd");
    let list = vec!["a".to_string(), "b".to_string()];
    assert!(holds_text(&list, "b"));
    assert!(!holds_text(&list, "c"));
}

#[test]
fn text_order_is_the_order_of_strings() {
    let samples = ["", "a", "ab", "b", "B", "aa", "é", "e", "z", "theme", "nord", "a-b", "a_b"];
    for a in samples {
        for b in samples {
            assert_eq!(text_before(a, b), a < b, "on {:?} and {:?}", a, b);
        }
    }
}
