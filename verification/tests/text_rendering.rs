use nix_cargo::command_display::{render_command_for_display, shell_escape};
use nix_cargo::model::{CommandEnv, CommandSpec};
use nix_cargo::nix_string::{
    join_strings, nix_bool, nix_escape, nix_optional_string, nix_string, nix_string_list,
    shell_array_literal, shell_single_quote,
};

#[test]
fn shell_escaping() {
    assert_eq!(shell_escape(""), "''");
    assert_eq!(shell_escape("a-b_c./d:e@f=g+h"), "a-b_c./d:e@f=g+h");
    assert_eq!(shell_escape("a b"), "'a b'");
    assert_eq!(shell_escape("it's"), "'it'\"'\"'s'");
    assert_eq!(shell_escape("é"), "'é'");
    assert_eq!(shell_single_quote(""), "''");
    assert_eq!(shell_single_quote("x"), "'x'");
    assert_eq!(shell_array_literal(&vec![]), "");
    assert_eq!(
        shell_array_literal(&vec!["a".to_string(), "b c".to_string()]),
        "'a' 'b c'"
    );
}

#[test]
fn command_display() {
    let command = CommandSpec {
        cwd: Some("/work dir".to_string()),
        env: vec![CommandEnv { key: "A".to_string(), value: "1 2".to_string() }],
        program: "rustc".to_string(),
        args: vec!["--crate-name".to_string(), "".to_string()],
    };
    assert_eq!(
        render_command_for_display(&command),
        "cd '/work dir' && A='1 2' rustc --crate-name ''"
    );
    let bare = CommandSpec { cwd: None, env: Vec::new(), program: "cc".to_string(), args: Vec::new() };
    assert_eq!(render_command_for_display(&bare), "cc");
}

#[test]
fn nix_literals() {
    assert_eq!(nix_escape("a\"b\\c$d\ne\rf\tg"), "a\\\"b\\\\c\\$d\\ne\\rf\\tg");
    assert_eq!(nix_string("x"), "\"x\"");
    assert_eq!(nix_string(""), "\"\"");
    assert_eq!(nix_bool(true), "true");
    assert_eq!(nix_bool(false), "false");
    assert_eq!(nix_optional_string(None), "null");
    assert_eq!(nix_optional_string(Some("v")), "\"v\"");
    assert_eq!(nix_string_list(&vec![]), "[ ]");
    assert_eq!(
        nix_string_list(&vec!["a".to_string(), "b".to_string()]),
        "[ \"a\" \"b\" ]"
    );
    assert_eq!(join_strings(&vec![], ","), "");
    assert_eq!(
        join_strings(&vec!["a".to_string(), "b".to_string(), "c".to_string()], ", "),
        "a, b, c"
    );
}
