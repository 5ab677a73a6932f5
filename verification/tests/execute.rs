use hashidx::execute::{parse_command, pre_process, Command, SEP};

fn insert(k: &str, v: &str) -> Command {
    Command::Insert(k.to_string(), v.to_string())
}

fn same(a: &Command, b: &Command) -> bool {
    format!("{:?}", a) == format!("{:?}", b)
}

#[test]
fn pre_process_separates_words() {
    assert_eq!(pre_process("insert a b\n"), format!("insert{SEP}a{SEP}b"));
    assert_eq!(pre_process("  get x  "), format!("get{SEP}x"));
    assert_eq!(pre_process(""), "");
}

#[test]
fn pre_process_keeps_quoted_text() {
    assert_eq!(pre_process("insert \"my key\" \"a\nb\""), format!("insert{SEP}my key{SEP}a\nb"));
    assert_eq!(pre_process("a\"\"b"), "ab");
    assert_eq!(pre_process("a\"b c"), "ab c");
}

#[test]
fn parse_commands() {
    assert!(same(&parse_command("\n"), &Command::Nothing));
    assert!(same(&parse_command("insert key value\n"), &insert("key", "value")));
    assert!(same(&parse_command("insert \"two words\" \"x y\"\n"), &insert("two words", "x y")));
    assert!(same(&parse_command("get key\n"), &Command::Get("key".to_string())));
    assert!(same(&parse_command("info\n"), &Command::Info));
    assert!(same(&parse_command("exit\n"), &Command::Exit));
}

#[test]
fn parse_bad_commands_show_usage() {
    assert!(same(&parse_command("insert key\n"), &Command::Usage));
    assert!(same(&parse_command("get\n"), &Command::Usage));
    assert!(same(&parse_command("get a b\n"), &Command::Usage));
    assert!(same(&parse_command("exit now\n"), &Command::Usage));
    assert!(same(&parse_command("INFO\n"), &Command::Usage));
    // two spaces make an empty word
    assert!(same(&parse_command("get  key\n"), &Command::Usage));
}
