use dotenvage::format::{
    dump_bash_var, dump_env_var, dump_make_eval_var, dump_make_var, dump_simple_var,
    dump_single_var, env_file_line, escape_for_bash_double_quotes, escape_for_make,
    escape_for_make_eval, escape_for_simple_quotes, is_age_key_upper, is_age_key_variable,
    needs_bash_quoting, needs_simple_quoting,
};
use dotenvage::{AutoDetectPatterns, DumpOptions};

fn options(bash: bool, make: bool, make_eval: bool, export: bool) -> DumpOptions {
    DumpOptions { bash, make, make_eval, export }
}

#[test]
fn simple_quoting_is_needed_for_blanks_equals_and_quotes() {
    for v in ["", " ", "a b", "a\tb", "a=b", "a\"b", "a'b", "a\u{a0}b", "line\nbreak"] {
        assert!(needs_simple_quoting(v), "{:?}", v);
    }
    for v in ["a", "a$b", "a\\b", "a#b", "caf\u{e9}", "a;b"] {
        assert!(!needs_simple_quoting(v), "{:?}", v);
    }
}

#[test]
fn simple_escape_doubles_backslashes_and_escapes_quotes() {
    assert_eq!(escape_for_simple_quotes(""), "");
    assert_eq!(escape_for_simple_quotes("plain"), "plain");
    assert_eq!(escape_for_simple_quotes("a\"b"), "a\\\"b");
    assert_eq!(escape_for_simple_quotes("a\\b"), "a\\\\b");
    assert_eq!(escape_for_simple_quotes("\\\""), "\\\\\\\"");
    assert_eq!(escape_for_simple_quotes("$`!\n"), "$`!\n");
    for v in ["a\\\"b", "\"\"", "\\\\", "x\\", "mixed \\ and \" here"] {
        assert_eq!(
            escape_for_simple_quotes(v),
            v.replace('\\', "\\\\").replace('"', "\\\"")
        );
    }
}

#[test]
fn bash_quoting_is_needed_for_every_special_character() {
    assert!(needs_bash_quoting(""));
    for c in " \t\n\r$`\\\"'&|;<>(){}[]*?!~#=".chars() {
        assert!(needs_bash_quoting(&format!("a{}b", c)), "{:?}", c);
    }
    for v in ["a", "abc123", "a-b_c.d/e:f,g@h%i+j^k", "caf\u{e9}"] {
        assert!(!needs_bash_quoting(v), "{:?}", v);
    }
}

#[test]
fn bash_escape_covers_its_eight_characters() {
    assert_eq!(escape_for_bash_double_quotes(""), "");
    assert_eq!(escape_for_bash_double_quotes("plain text"), "plain text");
    assert_eq!(
        escape_for_bash_double_quotes("\\ \" $ ` \n \r \t !"),
        "\\\\ \\\" \\$ \\` \\n \\r \\t \\!"
    );
    assert_eq!(escape_for_bash_double_quotes("$HOME"), "\\$HOME");
    assert_eq!(escape_for_bash_double_quotes("a'b#c&d"), "a'b#c&d");
}

#[test]
fn make_escapes_dollar_hash_and_backslash() {
    assert_eq!(escape_for_make(""), "");
    assert_eq!(escape_for_make("a b"), "a b");
    assert_eq!(escape_for_make("$"), "$$");
    assert_eq!(escape_for_make("#"), "\\#");
    assert_eq!(escape_for_make("\\"), "\\\\");
    assert_eq!(escape_for_make("pa$$word#1\\n"), "pa$$$$word\\#1\\\\n");
    assert_eq!(escape_for_make_eval(""), "");
    assert_eq!(escape_for_make_eval("$"), "$$$$");
    assert_eq!(escape_for_make_eval("#"), "\\#");
    assert_eq!(escape_for_make_eval("\\"), "\\\\");
    assert_eq!(escape_for_make_eval("a$b#c\\d \"e\""), "a$$$$b\\#c\\\\d \"e\"");
}

#[test]
fn age_key_variables_are_recognized_whatever_their_case() {
    for k in [
        "DOTENVAGE_AGE_KEY",
        "AGE_KEY",
        "EKG_AGE_KEY",
        "AGE_KEY_NAME",
        "PROJECT_AGE_KEY_NAME",
        "_AGE_KEY_NAME",
        "age_key",
        "Ekg_Age_Key",
        "my_age_key_name",
    ] {
        assert!(is_age_key_variable(k), "{}", k);
    }
    for k in ["", "AGE", "MY_AGE_KEY", "AGE_KEY_NAMES", "XAGE_KEY_NAME", "AGE_KEY_", "API_KEY"] {
        assert!(!is_age_key_variable(k), "{}", k);
    }
    assert!(is_age_key_upper("AGE_KEY"));
    assert!(!is_age_key_upper("age_key"));
}

#[test]
fn make_lines() {
    assert_eq!(dump_make_var("K", "v$1", false), "K := v$$1");
    assert_eq!(dump_make_var("K", "v#1", true), "export K := v\\#1");
    assert_eq!(dump_make_var("K", "", false), "K := ");
    assert_eq!(dump_make_eval_var("K", "v$1", false), "$(eval K := v$$$$1)");
    assert_eq!(dump_make_eval_var("K", "a b", true), "$(eval export K := a b)");
}

#[test]
fn shell_and_file_lines() {
    assert_eq!(dump_bash_var("K", "plain", ""), "K=plain");
    assert_eq!(dump_bash_var("K", "a b", "export "), "export K=\"a b\"");
    assert_eq!(dump_bash_var("K", "", ""), "K=\"\"");
    assert_eq!(dump_bash_var("K", "$x!", ""), "K=\"\\$x\\!\"");
    assert_eq!(dump_simple_var("K", "plain", ""), "K=plain");
    assert_eq!(dump_simple_var("K", "$x!", ""), "K=$x!");
    assert_eq!(dump_simple_var("K", "a b", ""), "K=\"a b\"");
    assert_eq!(dump_simple_var("K", "a\"b\\c", "p "), "p K=\"a\\\"b\\\\c\"");
    assert_eq!(dump_simple_var("K", "", ""), "K=\"\"");
}

#[test]
fn options_pick_the_format() {
    let v = "a$b c";
    assert_eq!(dump_single_var("K", v, options(false, false, false, false)), "K=\"a$b c\"");
    assert_eq!(dump_single_var("K", v, options(true, false, false, false)), "K=\"a\\$b c\"");
    assert_eq!(
        dump_single_var("K", v, options(false, false, false, true)),
        "export K=\"a\\$b c\""
    );
    assert_eq!(dump_single_var("K", v, options(true, true, false, false)), "K := a$$b c");
    assert_eq!(
        dump_single_var("K", v, options(true, true, true, true)),
        "$(eval export K := a$$$$b c)"
    );
    assert_eq!(dump_env_var("K", "x", options(false, true, true, false)), "K=x");
    assert_eq!(dump_env_var("K", "x", options(false, false, false, true)), "export K=x");
    assert_eq!(dump_env_var("K", "a#b", options(true, false, false, false)), "K=\"a#b\"");
    assert_eq!(dump_env_var("K", "a#b", options(false, false, false, false)), "K=a#b");
}

#[test]
fn stored_lines_quote_blank_dollar_and_line_feed() {
    assert_eq!(env_file_line("K", "plain"), "K=plain");
    assert_eq!(env_file_line("K", ""), "K=");
    assert_eq!(env_file_line("K", "a\"b"), "K=a\"b");
    assert_eq!(env_file_line("K", "a b"), "K=\"a b\"");
    assert_eq!(env_file_line("K", "a$b"), "K=\"a$b\"");
    assert_eq!(env_file_line("K", "a\nb"), "K=\"a\nb\"");
    assert_eq!(env_file_line("K", "say \"hi\" now"), "K=\"say \\\"hi\\\" now\"");
    assert_eq!(env_file_line("K", "a\tb=c"), "K=a\tb=c");
}

#[test]
fn sensitive_names() {
    for k in [
        "API_TOKEN",
        "DATABASE_PASSWORD",
        "STRIPE_API_KEY",
        "github_token",
        "MY_SECRET",
        "AWS_CREDENTIALS",
        "SSH_PRIVATE_KEY",
        "SIGNING_KEY",
        "Secret",
    ] {
        assert!(AutoDetectPatterns::should_encrypt(k), "{}", k);
    }
    for k in [
        "PORT",
        "AWS_REGION",
        "DATABASE_NAME",
        "RUST_LOG",
        "SSH_PUBLIC_KEY",
        "PUB_KEY",
        "ORG_TOKEN",
        "PASSPORT_TOKEN",
        "KEY",
        "KEYS",
        "",
        "DEBUG",
        "APP_NAME_SECRET",
    ] {
        assert!(!AutoDetectPatterns::should_encrypt(k), "{}", k);
    }
    assert!(AutoDetectPatterns::matches_upper("API_TOKEN"));
    assert!(!AutoDetectPatterns::matches_upper("api_token"));
    assert_eq!(AutoDetectPatterns::encrypt_patterns().len(), 7);
    assert_eq!(AutoDetectPatterns::never_encrypt().len(), 10);
    assert_eq!(AutoDetectPatterns::encrypt_patterns()[4], "_KEY");
    assert_eq!(AutoDetectPatterns::never_encrypt()[2], "PORT");
}
