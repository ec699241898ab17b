use taskfile::env::{EnvConfig, EnvParser};

#[test]
fn test_substitute_env_vars() {
    let mut parser = EnvParser::new();

    parser.set_env_var("TEST_VAR", "test_value");

    let result = parser.substitute_env_vars("Hello $TEST_VAR world");
    assert_eq!(result, "Hello test_value world");
}

#[test]
fn test_substitute_missing_var() {
    let parser = EnvParser::new();

    let result = parser.substitute_env_vars("Hello $MISSING_VAR world");
    assert_eq!(result, "Hello $MISSING_VAR world");
}

#[test]
fn test_load_env_file() {
    let mut parser = EnvParser::new();

    let env_content = "TEST_KEY=test_value\n# This is a comment\nANOTHER_KEY=another_value\n";
    let result = parser.load_env_text(env_content);
    assert_eq!(result, 2);

    assert_eq!(
        parser.get_env_var("TEST_KEY"),
        Some("test_value".to_string())
    );
    assert_eq!(
        parser.get_env_var("ANOTHER_KEY"),
        Some("another_value".to_string())
    );
}

#[test]
fn test_env_config() {
    let config = EnvConfig {
        files: vec![".env".to_string(), ".env.local".to_string()],
    };

    let parser = EnvParser::with_config(config);
    assert!(parser.config().is_some());
}

#[test]
fn missing_variable_is_reported() {
    let mut parser = EnvParser::new();
    parser.set_env_var("HOME_DIR", "/home/x");
    let text = "cd $HOME_DIR && echo $MISSING_VAR $OTHER";
    assert_eq!(parser.substitute_env_vars(text), "cd /home/x && echo $MISSING_VAR $OTHER");
    assert_eq!(
        parser.undefined_env_vars(text),
        vec!["MISSING_VAR".to_string(), "OTHER".to_string()]
    );
}

#[test]
fn substituted_values_are_not_rescanned() {
    let mut parser = EnvParser::new();
    parser.set_env_var("A", "$B");
    parser.set_env_var("B", "boom");
    assert_eq!(parser.substitute_env_vars("x$A y"), "x$B y");
    assert!(parser.undefined_env_vars("x$A y").is_empty());
}

#[test]
fn bare_dollar_stays() {
    let mut parser = EnvParser::new();
    parser.set_env_var("X", "1");
    assert_eq!(parser.substitute_env_vars("cost $ 5 $$X $-"), "cost $ 5 $1 $-");
    assert_eq!(parser.substitute_env_vars("end$"), "end$");
    assert_eq!(parser.substitute_env_vars(""), "");
}

#[test]
fn names_take_letters_digits_underscores() {
    let mut parser = EnvParser::new();
    parser.set_env_var("MY_VAR2", "v");
    parser.set_env_var("MY", "short");
    assert_eq!(parser.substitute_env_vars("$MY_VAR2.txt $MY-x"), "v.txt short-x");
    parser.set_env_var("é", "accent");
    assert_eq!(parser.substitute_env_vars("[$é]"), "[accent]");
}

#[test]
fn set_overwrites_and_get_reads() {
    let mut parser = EnvParser::new();
    assert_eq!(parser.get_env_var("K"), None);
    parser.set_env_var("K", "1");
    parser.set_env_var("K", "2");
    assert_eq!(parser.get_env_var("K"), Some("2".to_string()));
    assert_eq!(parser.list_env_vars(), vec![("K".to_string(), "2".to_string())]);
}

#[test]
fn env_text_counts_records() {
    let mut parser = EnvParser::new();
    assert_eq!(parser.load_env_text("KEY=val\n# comment\nKEY2=val2\n"), 2);
    assert_eq!(parser.get_env_var("KEY"), Some("val".to_string()));
    assert_eq!(parser.get_env_var("KEY2"), Some("val2".to_string()));
    assert_eq!(parser.load_env_text("NO_EQUALS_HERE\n"), 0);
    assert_eq!(parser.get_env_var("NO_EQUALS_HERE"), None);
}

#[test]
fn env_text_trims_and_unquotes() {
    let mut parser = EnvParser::new();
    let text = "  A = spaced  \r\nB=\"quoted value\"\nC='single'\nD=\"mismatched'\nE=\"\n=nokey\n\n   # indented comment\nF=a=b\n";
    assert_eq!(parser.load_env_text(text), 6);
    assert_eq!(parser.get_env_var("A"), Some("spaced".to_string()));
    assert_eq!(parser.get_env_var("B"), Some("quoted value".to_string()));
    assert_eq!(parser.get_env_var("C"), Some("single".to_string()));
    assert_eq!(parser.get_env_var("D"), Some("\"mismatched'".to_string()));
    assert_eq!(parser.get_env_var("E"), Some("\"".to_string()));
    assert_eq!(parser.get_env_var("F"), Some("a=b".to_string()));
    assert_eq!(parser.get_env_var(""), None);
}

#[test]
fn later_files_win() {
    let mut parser = EnvParser::new();
    let texts = vec!["A=1\nB=1\n".to_string(), "B=2\n".to_string(), String::new()];
    let counts = parser.load_env_files(&texts);
    assert_eq!(counts, vec![2, 1, 0]);
    assert_eq!(parser.get_env_var("A"), Some("1".to_string()));
    assert_eq!(parser.get_env_var("B"), Some("2".to_string()));
}

#[test]
fn expansion_follows_given_name_marks() {
    let mut parser = EnvParser::new();
    parser.set_env_var("A", "1");
    parser.set_env_var("AB", "2");
    let (text, missing) = parser.expand_marked("$AB", &vec![false, true, false]);
    assert_eq!(text, "1B");
    assert!(missing.is_empty());
    let (text, missing) = parser.expand_marked("$AB", &vec![false, true, true]);
    assert_eq!(text, "2");
    assert!(missing.is_empty());
    let (text, missing) = parser.expand_marked("$AB $C", &vec![false, false, false, false, false, true]);
    assert_eq!(text, "$AB $C");
    assert_eq!(missing, vec!["C".to_string()]);
}

#[test]
fn env_text_trims_at_given_space_marks() {
    let mut parser = EnvParser::new();
    // "xKx=vx" with each 'x' marked as space reads as "K=v".
    let count = parser.load_env_marked("xKx=vx", &vec![true, false, true, false, false, true]);
    assert_eq!(count, 1);
    assert_eq!(parser.get_env_var("K"), Some("v".to_string()));
}
