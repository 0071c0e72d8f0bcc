use amber::cli::{Job, CLI};
use amber::compiler::Outcome;
use amber::flags::FlagRegistry;

fn args(list: &[&str]) -> Vec<String> {
    list.iter().map(|a| a.to_string()).collect()
}

#[test]
fn new_cli_knows_its_names() {
    let cli = CLI::new();
    assert!(cli.args.is_empty());
    assert!(cli.flags.flags.is_empty());
    assert_eq!(cli.name, "Amber");
    assert_eq!(cli.exe_name, "amber");
    assert_eq!(cli.version, "0.1.0");
    assert_eq!(cli.ext, ".amber");
}

#[test]
fn no_arguments_ask_for_usage() {
    let mut cli = CLI::new();
    assert!(matches!(cli.run(&args(&["amber"])), Job::Usage));
    assert!(matches!(CLI::new().run(&args(&[])), Job::Usage));
    assert!(matches!(CLI::new().run(&args(&["amber", "-h"])), Job::Usage));
    assert!(matches!(CLI::new().run(&args(&["amber", "--help"])), Job::Usage));
}

#[test]
fn one_file_is_run() {
    match CLI::new().run(&args(&["amber", "main.amber"])) {
        Job::Run { input } => assert_eq!(input, "main.amber"),
        other => panic!("{:?}", other),
    }
}

#[test]
fn two_files_are_input_and_output() {
    let mut cli = CLI::new();
    match cli.run(&args(&["amber", "main.amber", "-h", "out.sh", "more"])) {
        Job::Build { input, output } => {
            assert_eq!(input, "main.amber");
            assert_eq!(output, "out.sh");
        }
        other => panic!("{:?}", other),
    }
    assert_eq!(cli.args, args(&["amber", "main.amber", "out.sh", "more"]));
    assert!(cli.flags.flag_triggered("-h"));
    assert!(!cli.flags.flag_triggered("-e"));
}

#[test]
fn expression_flag_wins_over_files() {
    match CLI::new().run(&args(&["amber", "main.amber", "-e", "$echo hi$"])) {
        Job::Evaluate { code } => assert_eq!(code, "$echo hi$"),
        other => panic!("{:?}", other),
    }
}

#[test]
fn expression_flag_without_value_is_refused() {
    match CLI::new().run(&args(&["amber", "-e"])) {
        Job::Refuse { message, comment } => {
            assert_eq!(message, "No value passed after -e flag");
            assert_eq!(comment, "You can write code that has to be evaluated after the -e flag");
        }
        other => panic!("{:?}", other),
    }
}

#[test]
fn flag_value_may_look_like_a_flag() {
    match CLI::new().run(&args(&["amber", "-e", "-h"])) {
        Job::Evaluate { code } => assert_eq!(code, "-h"),
        other => panic!("{:?}", other),
    }
}

#[test]
fn usage_text_is_exact() {
    let lines: Vec<(String, String)> = CLI::new().usage().into_iter().map(|l| (l.text, l.dimmed)).collect();
    let expected: Vec<(String, String)> = [
        ("Amber's compiler", ""),
        ("Version 0.1.0\n", ""),
        ("USAGE:\t\t\t\tEXAMPLE:", ""),
        ("", "For evaluation:"),
        ("\tamber [INPUT]\t\t", "amber foo.amber"),
        ("\tamber -e [EXPR]\t\t", "amber -e \"\\$echo Hello World\\$\""),
        ("", "For compiling:"),
        ("\tamber [INPUT] [OUTPUT]\t", "amber foo.amber bar.amber"),
    ]
    .iter()
    .map(|(a, b)| (a.to_string(), b.to_string()))
    .collect();
    assert_eq!(lines, expected);
}

#[test]
fn cli_compiles_inline_text() {
    match CLI::new().compile("$echo Hello World$", None, &vec![]) {
        Outcome::Done(text) => assert_eq!(text, "echo Hello World\n"),
        other => panic!("{:?}", other),
    }
}

#[test]
fn registry_tells_flags_from_arguments() {
    let mut registry = FlagRegistry::new();
    registry.register("-o", true);
    registry.register("-v", false);
    let rest = registry.parse(&args(&["a", "-v", "-o", "out", "b", "-x"]));
    assert_eq!(rest, args(&["a", "b", "-x"]));
    assert!(registry.flag_triggered("-v"));
    assert!(registry.flag_triggered("-o"));
    assert!(!registry.flag_triggered("-x"));
    assert_eq!(registry.get_flag("-o").unwrap().value, Some("out".to_string()));
    assert_eq!(registry.get_flag("-v").unwrap().value, None);
    assert!(registry.get_flag("-x").is_none());
    assert_eq!(registry.find(&"-v".to_string()), Some(1));
    assert_eq!(registry.find(&"-x".to_string()), None);
}

#[test]
fn later_value_replaces_the_earlier() {
    let mut registry = FlagRegistry::new();
    registry.register("-o", true);
    let rest = registry.parse(&args(&["-o", "one", "-o", "two", "-o"]));
    assert!(rest.is_empty());
    assert_eq!(registry.get_flag("-o").unwrap().value, Some("two".to_string()));
}

#[test]
fn first_registration_of_a_name_counts() {
    let mut registry = FlagRegistry::new();
    registry.register("-o", false);
    registry.register("-o", true);
    let rest = registry.parse(&args(&["-o", "x"]));
    assert_eq!(rest, args(&["x"]));
    assert!(registry.flags[0].triggered);
    assert!(!registry.flags[1].triggered);
}
