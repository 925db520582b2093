use argument_config::ArgumentConfig;

fn strings(v: &[&str]) -> Vec<String> {
    v.iter().map(|s| s.to_string()).collect()
}

fn parse(v: &[&str]) -> ArgumentConfig {
    ArgumentConfig::from_args(strings(v))
}

#[test]
fn full_command_line() {
    let c = parse(&["./bin", "-fx", "--verbose", "foo", "bar", "--", "from", "to"]);
    assert_eq!(c.executable, "./bin");
    assert_eq!(c.commands, strings(&["foo", "bar"]));
    assert_eq!(c.flags, strings(&["f", "x", "verbose"]));
    assert_eq!(c.paths, strings(&["from", "to"]));
}

#[test]
fn executable_only() {
    let c = parse(&["./bin"]);
    assert_eq!(c.executable, "./bin");
    assert!(c.commands.is_empty());
    assert!(c.flags.is_empty());
    assert!(c.paths.is_empty());
}

#[test]
fn empty_input() {
    let c = parse(&[]);
    assert_eq!(c.executable, "");
    assert!(c.commands.is_empty());
    assert!(c.flags.is_empty());
    assert!(c.paths.is_empty());
}

#[test]
fn second_divider_is_a_path() {
    let c = parse(&["./bin", "--", "--", "a"]);
    assert_eq!(c.executable, "./bin");
    assert!(c.commands.is_empty());
    assert!(c.flags.is_empty());
    assert_eq!(c.paths, strings(&["--", "a"]));
}

#[test]
fn bare_dash_gives_empty_flag() {
    let c = parse(&["./bin", "-"]);
    assert_eq!(c.executable, "./bin");
    assert!(c.commands.is_empty());
    assert_eq!(c.flags, strings(&[""]));
    assert!(c.paths.is_empty());
}

#[test]
fn executable_is_first_token_verbatim() {
    let c = parse(&["--", "a"]);
    assert_eq!(c.executable, "--");
    assert_eq!(c.commands, strings(&["a"]));
    assert!(c.paths.is_empty());
}

#[test]
fn long_flags_keep_their_order() {
    let c = parse(&["x", "--alpha", "-b", "--gamma", "--", "--delta"]);
    assert_eq!(c.flags, strings(&["alpha", "b", "gamma"]));
    assert_eq!(c.paths, strings(&["--delta"]));
}

#[test]
fn long_flag_strips_only_two_dashes() {
    let c = parse(&["x", "----", "---v"]);
    assert_eq!(c.flags, strings(&["--", "-v"]));
}

#[test]
fn grouped_short_flags_expand_per_character() {
    let c = parse(&["x", "-abc", "-d"]);
    assert_eq!(c.flags, strings(&["a", "b", "c", "d"]));
}

#[test]
fn grouped_short_flags_non_ascii() {
    let c = parse(&["x", "-é-ü"]);
    assert_eq!(c.flags, strings(&["é", "-", "ü"]));
}

#[test]
fn tokens_after_divider_are_paths_verbatim() {
    let c = parse(&["x", "cmd", "--", "-f", "--long", "plain", ""]);
    assert_eq!(c.commands, strings(&["cmd"]));
    assert!(c.flags.is_empty());
    assert_eq!(c.paths, strings(&["-f", "--long", "plain", ""]));
}

#[test]
fn divider_appears_nowhere() {
    let c = parse(&["x", "a", "--"]);
    assert_eq!(c.commands, strings(&["a"]));
    assert!(c.flags.is_empty());
    assert!(c.paths.is_empty());
}

#[test]
fn empty_token_is_a_command() {
    let c = parse(&["x", "", "y"]);
    assert_eq!(c.commands, strings(&["", "y"]));
}

#[test]
fn classification_is_repeatable() {
    let input = ["./bin", "-fx", "--verbose", "foo", "--", "from"];
    let a = parse(&input);
    let b = parse(&input);
    assert_eq!(a.executable, b.executable);
    assert_eq!(a.commands, b.commands);
    assert_eq!(a.flags, b.flags);
    assert_eq!(a.paths, b.paths);
}

#[test]
fn new_config_is_empty() {
    let c = ArgumentConfig::new();
    assert_eq!(c.executable, "");
    assert!(c.commands.is_empty());
    assert!(c.flags.is_empty());
    assert!(c.paths.is_empty());
}

#[test]
fn parse_args_appends_and_leaves_args() {
    let mut c = ArgumentConfig::new();
    let mut first = strings(&["one", "a", "-b", "--", "p"]);
    c.parse_args(&mut first);
    assert_eq!(first, strings(&["one", "a", "-b", "--", "p"]));
    let mut second = strings(&["two", "c", "--d", "--", "q"]);
    c.parse_args(&mut second);
    assert_eq!(c.executable, "two");
    assert_eq!(c.commands, strings(&["a", "c"]));
    assert_eq!(c.flags, strings(&["b", "d"]));
    assert_eq!(c.paths, strings(&["p", "q"]));
}
