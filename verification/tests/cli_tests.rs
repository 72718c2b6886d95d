use mindcache::cli::{
    body_arg, default_vault, explicit_vault, extract_bind, extract_port, extract_tags, join_words,
    parse_u16, pick_vault, positional_path, positionals, trim_body,
};
use mindcache::config::{config_vault_value, config_with_vault};

fn args(xs: &[&str]) -> Vec<String> {
    xs.iter().map(|x| x.to_string()).collect()
}

#[test]
fn positionals_skip_flags_and_their_values() {
    let a = args(&["idea", "--vault", "/v", "hello", "--inbox", "-p", "80", "world", "--tags=a", "-", "--body", "b"]);
    assert_eq!(positionals(&a), vec!["idea", "hello", "world", "-"]);
    assert_eq!(positional_path(&a), Some("idea".to_string()));
    assert_eq!(positional_path(&args(&["--inbox"])), None);
    assert_eq!(join_words(&args(&["hello", "world"])), "hello world");
    assert_eq!(join_words(&[]), "");
}

#[test]
fn vault_flag_forms() {
    assert_eq!(explicit_vault(&args(&["x", "--vault=/a"])), Some("/a".to_string()));
    assert_eq!(explicit_vault(&args(&["-v", "/b", "--vault", "/c"])), Some("/b".to_string()));
    assert_eq!(explicit_vault(&args(&["x", "--vault"])), None);
    assert_eq!(explicit_vault(&args(&["x"])), None);
}

#[test]
fn vault_precedence() {
    let s = |x: &str| Some(x.to_string());
    assert_eq!(pick_vault(s("/flag"), s("/env"), s("/cfg"), "/home/mind".to_string()), "/flag");
    assert_eq!(pick_vault(None, s("/env"), s("/cfg"), "/home/mind".to_string()), "/env");
    assert_eq!(pick_vault(None, s(""), s("/cfg"), "/home/mind".to_string()), "/cfg");
    assert_eq!(pick_vault(None, None, None, "/home/mind".to_string()), "/home/mind");
    assert_eq!(default_vault("/home/u"), "/home/u/mind");
    assert_eq!(default_vault("/home/u/"), "/home/u/mind");
    assert_eq!(default_vault(""), "mind");
}

#[test]
fn bind_and_port() {
    assert_eq!(extract_bind(&args(&["--bind=127.0.0.1"])), "127.0.0.1");
    assert_eq!(extract_bind(&args(&["--bind=", "--bind", "10.0.0.2"])), "10.0.0.2");
    assert_eq!(extract_bind(&args(&["--bind", ""])), "0.0.0.0");
    assert_eq!(extract_bind(&args(&[])), "0.0.0.0");
    assert_eq!(extract_port(&args(&["--port", "9000"])), 9000);
    assert_eq!(extract_port(&args(&["-p", "+80"])), 80);
    assert_eq!(extract_port(&args(&["-p", "70000", "--port", "81"])), 8181);
    assert_eq!(extract_port(&args(&["--port"])), 8181);
    assert_eq!(extract_port(&args(&["--port=9000"])), 8181);
}

#[test]
fn u16_parsing() {
    assert_eq!(parse_u16("0"), Some(0));
    assert_eq!(parse_u16("65535"), Some(65535));
    assert_eq!(parse_u16("065535"), Some(65535));
    assert_eq!(parse_u16("65536"), None);
    assert_eq!(parse_u16("+"), None);
    assert_eq!(parse_u16(""), None);
    assert_eq!(parse_u16("-1"), None);
    assert_eq!(parse_u16("8o"), None);
}

#[test]
fn tags_and_body_arguments() {
    assert_eq!(extract_tags(&args(&["--tags=a, \"b,c\""])), vec!["a", "b,c"]);
    assert_eq!(extract_tags(&args(&["x", "--tags", "x,y"])), vec!["x", "y"]);
    assert_eq!(extract_tags(&args(&["--tags"])), Vec::<String>::new());
    assert_eq!(body_arg(&args(&["--body=hi"])), Some("hi".to_string()));
    assert_eq!(body_arg(&args(&["-b=hi"])), Some("hi".to_string()));
    assert_eq!(body_arg(&args(&["-b", "text", "--body", "other"])), Some("text".to_string()));
    assert_eq!(body_arg(&args(&["--body"])), Some(String::new()));
    assert_eq!(body_arg(&args(&["title"])), None);
    assert_eq!(trim_body("line\r\n\n"), "line");
    assert_eq!(trim_body("a\nb\n"), "a\nb");
}

#[test]
fn config_reading() {
    assert_eq!(config_vault_value("# c\nvault = \"/home/u/mind\"\n"), Some("/home/u/mind".to_string()));
    assert_eq!(config_vault_value("  vault='/x'  "), Some("/x".to_string()));
    assert_eq!(config_vault_value("vault = \"\"\nvault = /y\n"), Some("/y".to_string()));
    assert_eq!(config_vault_value("vaulted: 1\nvault = /z\n"), Some("/z".to_string()));
    assert_eq!(
        config_vault_value("vault_backup = \"/old\"\nvault = \"/home/u/mind\"\n"),
        Some("/home/u/mind".to_string())
    );
    assert_eq!(config_vault_value("other = 1\n"), None);
}

#[test]
fn config_writing_then_reading() {
    let fresh = config_with_vault("", "/home/u/mind");
    assert_eq!(fresh, "# MindCache vault location (resolved by `mind path`)\nvault = \"/home/u/mind\"\n");
    let added = config_with_vault("theme = dark", "/v");
    assert_eq!(added, "theme = dark\n\n# MindCache vault location (resolved by `mind path`)\nvault = \"/v\"\n");
    let replaced = config_with_vault("a = 1\n  vault = \"/old\"\nb = 2\n", "/new");
    assert_eq!(replaced, "a = 1\nvault = \"/new\"\nb = 2\n");
    assert_eq!(config_vault_value(&replaced), Some("/new".to_string()));
    assert_eq!(config_vault_value(&added), Some("/v".to_string()));
    let kept = config_with_vault("vault_backup = \"/old\"\n", "/new");
    assert_eq!(kept, "vault_backup = \"/old\"\n\n# MindCache vault location (resolved by `mind path`)\nvault = \"/new\"\n");
    assert_eq!(config_vault_value(&kept), Some("/new".to_string()));
}
