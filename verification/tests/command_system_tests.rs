use phira_mp_plugin::command_system::{
    arguments_from_groups, contains_text, is_whitespace, parse_command_line, split_quoted,
    split_words, ArgumentParser, Command, CommandRegistry,
};
use phira_mp_plugin::error::Error;

type Handler = Box<dyn Fn(&str, &[String]) -> Result<String, Error>>;
type Parser = Box<dyn Fn(&str) -> Result<Vec<String>, Error>>;
type Registry = CommandRegistry<Handler, Parser>;

fn names(list: &[&str]) -> Vec<String> {
    list.iter().map(|s| s.to_string()).collect()
}

fn echo() -> Handler {
    Box::new(|name, args| Ok(format!("{}{:?}", name, args)))
}

fn command_text<T: std::fmt::Debug>(r: Result<T, Error>) -> String {
    match r {
        Err(Error::Command(m)) => m,
        other => panic!("expected a command error, got {:?}", other),
    }
}

#[test]
fn test_command_registration() {
    let mut registry = Registry::new();

    let handler: Handler =
        Box::new(|name, args| Ok(format!("Command '{}' executed with args: {:?}", name, args)));

    let command = Command::new("test", "Test command", handler, "test_plugin");
    registry.register(command).unwrap();

    assert!(registry.get_command("test").is_some());
}

#[test]
fn test_command_execution() {
    let mut registry = Registry::new();

    let handler: Handler =
        Box::new(|name, args| Ok(format!("Hello from {} with args: {:?}", name, args)));

    let command = Command::new("hello", "Say hello", handler, "test_plugin");
    registry.register(command).unwrap();

    let result = registry.execute("hello world").unwrap();
    assert_eq!(result, "Hello from hello with args: [\"world\"]");
}

#[test]
fn test_command_aliases() {
    let mut registry = Registry::new();

    let handler: Handler = Box::new(|name, _args| Ok(format!("Command {} executed", name)));

    let command = Command::new("test", "Test command", handler, "test_plugin")
        .with_aliases(vec!["t".to_string(), "testcmd".to_string()]);

    registry.register(command).unwrap();

    assert!(registry.get_command("t").is_some());
    assert!(registry.get_command("testcmd").is_some());
    assert!(registry.get_command("test").is_some());
}

#[test]
fn an_alias_runs_the_command_under_its_own_name_and_an_unknown_name_is_refused() {
    let mut registry = Registry::new();
    let command =
        Command::new("test", "Test command", echo(), "p").with_aliases(names(&["t"]));
    registry.register(command).unwrap();
    assert_eq!(registry.execute("t world").unwrap(), "test[\"world\"]");
    assert_eq!(registry.execute("  test   a  b ").unwrap(), "test[\"a\", \"b\"]");
    assert_eq!(registry.execute("test").unwrap(), "test[]");
    assert_eq!(command_text(registry.execute("unknown arg")), "Command 'unknown' not found");
    assert_eq!(command_text(registry.execute("")), "Command '' not found");
}

#[test]
fn a_name_that_is_registered_is_refused_and_changes_nothing() {
    let mut registry = Registry::new();
    registry.register(Command::new("a", "first", echo(), "p")).unwrap();
    let again = Command::new("a", "second", echo(), "q").with_aliases(names(&["x"]));
    assert_eq!(command_text(registry.register(again)), "Command 'a' already registered");
    assert_eq!(registry.get_command("a").unwrap().description, "first");
    assert!(registry.get_command("x").is_none());
    let stats = registry.stats();
    assert_eq!(stats.total_commands, 1);
    assert_eq!(stats.total_aliases, 0);
    assert_eq!(stats.plugins, 1);
}

#[test]
fn an_alias_that_is_taken_goes_to_the_command_registered_last() {
    let mut registry = Registry::new();
    registry
        .register(Command::new("one", "", echo(), "p").with_aliases(names(&["o", "x"])))
        .unwrap();
    registry
        .register(Command::new("two", "", echo(), "q").with_aliases(names(&["x"])))
        .unwrap();
    assert_eq!(registry.execute("x 1").unwrap(), "two[\"1\"]");
    assert_eq!(registry.execute("o 1").unwrap(), "one[\"1\"]");
    assert_eq!(registry.stats().total_aliases, 2);
    assert_eq!(registry.stats().plugins, 2);
}

#[test]
fn unregistering_takes_the_command_and_its_aliases_away() {
    let mut registry = Registry::new();
    registry
        .register(Command::new("one", "", echo(), "p").with_aliases(names(&["o", "uno"])))
        .unwrap();
    registry.register(Command::new("two", "", echo(), "p")).unwrap();
    assert_eq!(command_text(registry.unregister("three")), "Command 'three' not found");
    registry.unregister("uno").unwrap();
    assert!(registry.get_command("one").is_none());
    assert!(registry.get_command("o").is_none());
    assert!(registry.get_command("two").is_some());
    assert_eq!(command_text(registry.unregister("one")), "Command 'one' not found");
    assert_eq!(registry.stats().total_commands, 1);
    assert_eq!(registry.stats().total_aliases, 0);
}

#[test]
fn all_commands_of_a_plugin_go_at_once() {
    let mut registry = Registry::new();
    registry
        .register(Command::new("a", "", echo(), "p").with_aliases(names(&["a1"])))
        .unwrap();
    registry
        .register(Command::new("b", "", echo(), "q").with_aliases(names(&["b1"])))
        .unwrap();
    registry
        .register(Command::new("c", "", echo(), "p").with_aliases(names(&["c1", "b"])))
        .unwrap();
    assert_eq!(registry.get_commands_from_plugin("p"), names(&["a", "c"]));
    registry.unregister_all_from_plugin("p").unwrap();
    let left: Vec<&str> = registry.get_all_commands().iter().map(|c| c.name.as_str()).collect();
    assert_eq!(left, vec!["b"]);
    assert!(registry.get_command("a1").is_none());
    assert!(registry.get_command("c1").is_none());
    assert_eq!(registry.execute("b1 x").unwrap(), "b[\"x\"]");
    assert_eq!(registry.execute("b x").unwrap(), "b[\"x\"]");
    assert_eq!(registry.stats().total_aliases, 1);
    registry.unregister_all_from_plugin("nobody").unwrap();
    assert_eq!(registry.stats().total_commands, 1);
    assert!(registry.get_commands_from_plugin("p").is_empty());
}

#[test]
fn a_command_line_is_split_at_its_first_white_space() {
    assert_eq!(parse_command_line("hello world"), ("hello".to_string(), "world".to_string()));
    assert_eq!(
        parse_command_line("  kick   42  for reasons \t"),
        ("kick".to_string(), "42  for reasons".to_string())
    );
    assert_eq!(parse_command_line("help"), ("help".to_string(), String::new()));
    assert_eq!(parse_command_line("cmd\targ"), ("cmd".to_string(), "arg".to_string()));
    assert_eq!(parse_command_line("   "), (String::new(), String::new()));
    assert_eq!(parse_command_line(""), (String::new(), String::new()));
}

#[test]
fn words_are_the_runs_between_white_space() {
    assert_eq!(split_words("a  bb\tccc\n"), names(&["a", "bb", "ccc"]));
    assert_eq!(split_words("   "), names(&[]));
    assert_eq!(split_words(""), names(&[]));
    assert_eq!(split_words("one"), names(&["one"]));
    assert_eq!(split_words("a\u{3000}b\u{a0}c"), names(&["a", "b", "c"]));
    assert_eq!(split_words("a\u{200b}b"), names(&["a\u{200b}b"]));
    for c in ['\t', '\n', '\u{b}', '\u{c}', '\r', ' ', '\u{85}', '\u{a0}', '\u{1680}', '\u{2000}',
        '\u{200a}', '\u{2028}', '\u{2029}', '\u{202f}', '\u{205f}', '\u{3000}']
    {
        assert!(is_whitespace(c));
        assert!(c.is_whitespace());
    }
    for c in ['a', '0', '\u{8}', '\u{e}', '\u{1f}', '\u{200b}', '\u{feff}', '\u{180e}'] {
        assert_eq!(is_whitespace(c), c.is_whitespace());
    }
}

#[test]
fn quoted_arguments_keep_their_spaces_and_escapes_keep_one_character() {
    assert_eq!(split_quoted("a b  c"), names(&["a", "b", "c"]));
    assert_eq!(split_quoted("key=\"a b\" other"), names(&["key=a b", "other"]));
    assert_eq!(split_quoted("a\\ b c"), names(&["a b", "c"]));
    assert_eq!(split_quoted("say \\\"hi\\\""), names(&["say", "\"hi\""]));
    assert_eq!(split_quoted("\"unclosed quote"), names(&["unclosed quote"]));
    assert_eq!(split_quoted("trailing\\"), names(&["trailing"]));
    assert_eq!(split_quoted("\"\""), names(&[]));
    assert_eq!(split_quoted("a\tb"), names(&["a\tb"]));
    assert_eq!(split_quoted(""), names(&[]));
}

#[test]
fn parsers_of_each_kind_split_the_arguments() {
    let mut registry = Registry::new();
    registry
        .register(
            Command::new("kv", "", echo(), "p")
                .with_argument_parser(Registry::create_key_value_parser()),
        )
        .unwrap();
    registry
        .register(
            Command::new("re", "", echo(), "p")
                .with_argument_parser(Registry::create_regex_parser(r"^(\d+)-(x)?(\w+)$").unwrap()),
        )
        .unwrap();
    let custom: Parser = Box::new(|text| {
        if text.is_empty() {
            Err(Error::Command("nothing to parse".to_string()))
        } else {
            Ok(text.split(',').map(|s| s.to_string()).collect())
        }
    });
    registry
        .register(
            Command::new("csv", "", echo(), "p")
                .with_argument_parser(ArgumentParser::Custom(custom)),
        )
        .unwrap();

    assert_eq!(registry.execute("kv name=\"a b\" c").unwrap(), "kv[\"name=a b\", \"c\"]");
    assert_eq!(registry.execute("re 12-abc").unwrap(), "re[\"12\", \"abc\"]");
    assert_eq!(registry.execute("re 12-xabc").unwrap(), "re[\"12\", \"x\", \"abc\"]");
    assert_eq!(
        command_text(registry.execute("re nothing")),
        "Arguments don't match pattern: ^(\\d+)-(x)?(\\w+)$"
    );
    assert_eq!(registry.execute("csv a,b c,d").unwrap(), "csv[\"a\", \"b c\", \"d\"]");
    assert_eq!(command_text(registry.execute("csv")), "nothing to parse");

    let broken = Registry::create_regex_parser("(unclosed");
    assert!(command_text(broken.map(|_| ())).starts_with("Invalid regex pattern: "));
    let command = registry.get_command("kv").unwrap();
    assert_eq!(command.parse_arguments("x \"y z\"").unwrap(), names(&["x", "y z"]));
    assert_eq!(command.execute("x").unwrap(), "kv[\"x\"]");
}

#[test]
fn capture_groups_give_the_arguments_without_the_whole_match() {
    let groups = vec![Some("12-abc".to_string()), Some("12".to_string()), None, Some("abc".to_string())];
    assert_eq!(arguments_from_groups(&groups), names(&["12", "abc"]));
    assert_eq!(arguments_from_groups(&vec![Some("whole".to_string())]), names(&[]));
    assert_eq!(arguments_from_groups(&Vec::new()), names(&[]));
}

#[test]
fn commands_are_found_by_name_alias_and_description() {
    let mut registry = Registry::new();
    registry
        .register(
            Command::new("kick_user", "Removes a user", echo(), "admin")
                .with_aliases(names(&["boot"]))
                .with_permissions(names(&["moderate"])),
        )
        .unwrap();
    registry.register(Command::new("help", "Shows the commands", echo(), "core")).unwrap();
    assert_eq!(registry.search_commands("user"), names(&["kick_user"]));
    assert_eq!(registry.search_commands("oo"), names(&["kick_user"]));
    assert_eq!(registry.search_commands("command"), names(&["help"]));
    assert_eq!(registry.search_commands(""), names(&["kick_user", "help"]));
    assert_eq!(registry.search_commands("zzz"), names(&[]));
    let command = registry.get_command("boot").unwrap();
    assert!(command.matches("kick_user"));
    assert!(command.matches("boot"));
    assert!(!command.matches("kick"));
    assert_eq!(command.permissions, Some(names(&["moderate"])));
    assert!(contains_text("abc", "bc"));
    assert!(contains_text("abc", ""));
    assert!(!contains_text("abc", "abcd"));
    assert!(!contains_text("", "a"));
}
