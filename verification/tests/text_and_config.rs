use daily_activity::config::{env_var, parse_project_keys, Config, ConfigError};
use daily_activity::str_ext::StrExt;
use daily_activity::text::{compare_text, is_whitespace, text_eq, trim, TextOrder};

fn env_of(pairs: &[(&str, &str)]) -> Vec<(String, String)> {
    pairs.iter().map(|(k, v)| (k.to_string(), v.to_string())).collect()
}

fn full_env() -> Vec<(String, String)> {
    env_of(&[
        ("JIRA_BASE_URL", "https://example.atlassian.net"),
        ("JIRA_EMAIL", "me@example.com"),
        ("JIRA_TOKEN", "SECRET-REDACTED"),
        ("JIRA_PROJECT_KEYS", " ABC, DEF ,,GHI "),
        ("GITHUB_TOKEN", "gh-token"),
        ("GITHUB_USERNAME", "octocat"),
    ])
}

#[test]
fn project_keys_are_trimmed_and_empty_ones_dropped() {
    assert_eq!(parse_project_keys(" ABC, DEF ,,GHI "), vec!["ABC", "DEF", "GHI"]);
}

#[test]
fn project_keys_of_empty_and_blank_lists() {
    assert!(parse_project_keys("").is_empty());
    assert!(parse_project_keys(",, ,\t,").is_empty());
    assert_eq!(parse_project_keys("ONE"), vec!["ONE"]);
}

#[test]
fn project_keys_keep_inner_spaces_and_order() {
    assert_eq!(parse_project_keys("b a,\u{a0}c\n"), vec!["b a", "c"]);
}

#[test]
fn config_reads_every_variable() {
    let config = Config::from_env(&full_env()).ok().unwrap();
    assert_eq!(config.jira_base_url, "https://example.atlassian.net");
    assert_eq!(config.jira_email, "me@example.com");
    assert_eq!(config.jira_token, "SECRET-REDACTED");
    assert_eq!(config.jira_project_keys, vec!["ABC", "DEF", "GHI"]);
    assert_eq!(config.github_token, "gh-token");
    assert_eq!(config.github_username, "octocat");
}

#[test]
fn config_names_the_first_missing_variable() {
    let mut env = full_env();
    env.retain(|(k, _)| k != "JIRA_TOKEN" && k != "GITHUB_USERNAME");
    match Config::from_env(&env) {
        Err(e) => {
            let ConfigError::NotSet(name) = &e;
            assert_eq!(name, "JIRA_TOKEN");
            assert_eq!(e.message(), "JIRA_TOKEN not set");
        }
        Ok(_) => panic!("expected an error"),
    }
}

#[test]
fn config_fails_on_empty_environment() {
    match Config::from_env(&Vec::new()) {
        Err(ConfigError::NotSet(name)) => assert_eq!(name, "JIRA_BASE_URL"),
        Ok(_) => panic!("expected an error"),
    }
}

#[test]
fn env_var_takes_the_first_entry_of_a_name() {
    let env = env_of(&[("A", "1"), ("B", "2"), ("A", "3")]);
    assert_eq!(env_var(&env, "A").ok().unwrap(), "1");
    assert_eq!(env_var(&env, "B").ok().unwrap(), "2");
    assert!(env_var(&env, "C").is_err());
}

#[test]
fn capitalize_first_upper_cases_one_character() {
    assert_eq!("opened".capitalize_first(), "Opened");
    assert_eq!("closed pr".capitalize_first(), "Closed pr");
    assert_eq!("".capitalize_first(), "");
    assert_eq!("Already".capitalize_first(), "Already");
    assert_eq!("élan".capitalize_first(), "Élan");
    assert_eq!("ßx".capitalize_first(), "SSx");
    assert_eq!("1abc".capitalize_first(), "1abc");
}

#[test]
fn trim_removes_unicode_white_space_at_both_ends() {
    assert_eq!(trim("  a b \t\n"), "a b");
    assert_eq!(trim("\u{3000}x\u{a0}"), "x");
    assert_eq!(trim("   "), "");
    assert_eq!(trim(""), "");
}

#[test]
fn texts_compare_by_code_points() {
    assert_eq!(compare_text("abc", "abd"), TextOrder::Less);
    assert_eq!(compare_text("abc", "ab"), TextOrder::Greater);
    assert_eq!(compare_text("ab", "abc"), TextOrder::Less);
    assert_eq!(compare_text("é", "z"), TextOrder::Greater);
    assert_eq!(compare_text("Z", "a"), TextOrder::Less);
    assert_eq!(compare_text("same", "same"), TextOrder::Equal);
    assert!(text_eq("x y", "x y"));
    assert!(!text_eq("x y", "x  y"));
}

#[test]
fn trim_drops_a_leading_space() {
    assert_eq!(trim(" AB"), "AB");
    assert_eq!(trim("AB\u{2029}"), "AB");
    assert_eq!(trim("\u{200b}AB"), "\u{200b}AB");
}

#[test]
fn is_whitespace_agrees_with_std_on_every_char() {
    for code in 0u32..=0x10FFFF {
        if let Some(c) = char::from_u32(code) {
            assert_eq!(is_whitespace(c), c.is_whitespace(), "code point {code:#x}");
        }
    }
}

#[test]
fn project_keys_joined_with_commas_come_back() {
    let keys: Vec<String> = vec!["ABC".to_string(), "D E".to_string(), "x".to_string()];
    assert_eq!(parse_project_keys(&keys.join(",")), keys);
    let one: Vec<String> = vec!["ONLY".to_string()];
    assert_eq!(parse_project_keys(&one.join(",")), one);
    let none: Vec<String> = Vec::new();
    assert_eq!(parse_project_keys(&none.join(",")), none);
}

#[test]
fn project_keys_parsed_again_after_joining_are_unchanged() {
    for value in [" ABC, DEF ,,GHI ", "", ",,", "a\u{3000}, b ,c", "single"] {
        let keys = parse_project_keys(value);
        assert_eq!(parse_project_keys(&keys.join(",")), keys);
    }
}
