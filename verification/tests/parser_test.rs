use ru_shell::parser::ast_node_trait::{CommandAstNode, CommandType};
use ru_shell::parser::cmds_ast_node::ExeCommandAstNode;
use ru_shell::parser::Parser;
use ru_shell::token::token::{Token, TokenType};

#[test]
fn test_show_command() {
    let mut command_ast: Vec<CommandAstNode> = Vec::new();

    let mut ls_command = ExeCommandAstNode::new(Token::new(TokenType::Ls, "ls"));
    ls_command.set_options(vec![
        ("-l".to_string(), "".to_string()),
        ("-h".to_string(), "".to_string()),
        ("--tree".to_string(), "".to_string()),
        ("--depth".to_string(), "3".to_string()),
    ]);
    ls_command.set_values(vec!["Programs/Rust/ru-shell".to_string()]);

    command_ast.push(CommandAstNode::Exe(ls_command));
}

#[test]
fn test_parser() {
    let parser =
        Parser::new("ls -l -h --tree --depth 3 ~/Programs/Rust/ru-shell,Programs/Rust/ru-shell");

    let mut iter = parser.iter();
    while let Some(command) = iter.next() {
        assert_eq!(command.token_type(), &TokenType::Ls);
        assert_eq!(command.cmd_type(), &CommandType::ExtCommand);
        assert_eq!(command.get_option("-l"), Some("".to_string()));
        assert_eq!(command.get_option("-h"), Some("".to_string()));
        assert_eq!(command.get_option("--tree"), Some("".to_string()));
        assert_eq!(command.get_option("--depth"), Some("3".to_string()));
    }
}

#[test]
fn test_new_parser() {
    let parser = Parser::new("ls -l -h --tree --depth=3 src/");

    let mut iter = parser.iter();
    while let Some(command) = iter.next() {
        assert_eq!(command.token_type(), &TokenType::Ls);
        assert_eq!(command.cmd_type(), &CommandType::ExtCommand);
        assert_eq!(command.get_option("-l"), Some("".to_string()));
        assert_eq!(command.get_option("-h"), Some("".to_string()));
        assert_eq!(command.get_option("--tree"), Some("".to_string()));
        assert_eq!(command.get_option("--depth"), Some("3".to_string()));
        assert_eq!(command.get_values().unwrap()[0], "src/");
    }
}

#[test]
fn test_cd_command_parse() {
    let parser = Parser::new("cd ~/Programs/Rust/ru-shell,Programs/Rust/ru-shell");

    let mut iter = parser.iter();
    while let Some(command) = iter.next() {
        assert_eq!(command.token_type(), &TokenType::Cd);
        assert_eq!(command.cmd_type(), &CommandType::ExtCommand);
    }
}

#[test]
fn test_chain_command_parse() {
    // This command is parsed as a right-nested chain:
    //      Pipe
    //     /    \
    //   Ls     Pipe
    //         /    \
    //       Cat    Grep
    let parser = Parser::new("ls -l -h | cat | grep -i -n -r \"main\" ~/Programs/Rust/ru-shell");

    let mut iter = parser.iter();
    let cmd = iter.next().unwrap();
    assert_eq!(cmd.cmd_type(), &CommandType::ChainCommand);
    assert_eq!(cmd.token_type(), &TokenType::Pipe);

    let source = cmd.get_source().unwrap();
    assert_eq!(source.cmd_type(), &CommandType::ExtCommand);
    assert_eq!(source.token_type(), &TokenType::Ls);

    let destination = cmd.get_destination().unwrap();
    assert_eq!(destination.cmd_type(), &CommandType::ChainCommand);
    assert_eq!(destination.token_type(), &TokenType::Pipe);

    let second_source = destination.get_source().unwrap();
    assert_eq!(second_source.cmd_type(), &CommandType::ExtCommand);
    assert_eq!(second_source.token_type(), &TokenType::Cat);

    let second_destination = destination.get_destination().unwrap();
    assert_eq!(second_destination.cmd_type(), &CommandType::ExtCommand);
    assert_eq!(second_destination.token_type(), &TokenType::Grep);
}

#[test]
fn test_grep_command_parse() {
    let parser = Parser::new("grep -i -n -r \"main\" ~/Programs/Rust/ru-shell");

    let mut iter = parser.iter();
    let cmd = iter.next().unwrap();
    assert_eq!(cmd.cmd_type(), &CommandType::ExtCommand);
    assert_eq!(cmd.token_type(), &TokenType::Grep);
    assert_eq!(cmd.get_option("-i"), Some("".to_string()));
    assert_eq!(cmd.get_option("-n"), Some("".to_string()));
    assert_eq!(cmd.get_option("-r"), Some("".to_string()));
    assert_eq!(cmd.get_values().unwrap()[0], "main");
    assert_eq!(cmd.get_values().unwrap()[1], "~/Programs/Rust/ru-shell");
}

#[test]
fn test_cat_cmd_parse() {
    let parser = Parser::new("cat ~/Programs/Rust/ru-shell/Cargo.toml");

    let mut iter = parser.iter();
    let cmd = iter.next().unwrap();
    assert_eq!(cmd.cmd_type(), &CommandType::ExtCommand);
    assert_eq!(cmd.token_type(), &TokenType::Cat);
    assert_eq!(cmd.get_values().unwrap()[0], "~/Programs/Rust/ru-shell/Cargo.toml");
}

#[test]
fn test_cat_cmd_with_options_parse() {
    let parser = Parser::new("cat -n -b -s ~/Programs/Rust/ru-shell/Cargo.toml");

    let mut iter = parser.iter();
    let cmd = iter.next().unwrap();
    assert_eq!(cmd.cmd_type(), &CommandType::ExtCommand);
    assert_eq!(cmd.token_type(), &TokenType::Cat);
    assert_eq!(cmd.get_option("-n"), Some("".to_string()));
    assert_eq!(cmd.get_option("-b"), Some("".to_string()));
    assert_eq!(cmd.get_option("-s"), Some("".to_string()));
    assert_eq!(cmd.get_values().unwrap()[0], "~/Programs/Rust/ru-shell/Cargo.toml");
}

#[test]
fn test_error_grammar() {
    let parser = Parser::new("-l -h");

    let errs = parser.errors();

    assert_eq!(errs.len(), 1);
    for err in errs {
        println!("{}", err);
    }
}

#[test]
fn test_error_grep_cmd_without_pattern() {
    let parser = Parser::new("grep -i -n -r");

    let errs = parser.errors();

    assert_eq!(errs.len(), 1);
    for err in errs {
        println!("{}", err);
    }
}

#[test]
fn test_error_grep_cmd_without_path() {
    let parser = Parser::new("grep -i -n -r \"main\"");

    let errs = parser.errors();

    assert_eq!(errs.len(), 1);
    for err in errs {
        println!("{}", err);
    }
}

#[test]
fn test_error_grep_cmd_without_left_quotation_mark_of_pattern() {
    let parser = Parser::new("grep -i -n -r main");

    let errs = parser.errors();

    assert_eq!(errs.len(), 1);
    for err in errs {
        println!("{}", err);
    }
}

#[test]
fn test_error_grep_cmd_without_right_quotation_mark_of_pattern() {
    let parser = Parser::new("grep -i col Cargo.toml");

    let errs = parser.errors();

    assert_eq!(errs.len(), 1);
    for err in errs {
        println!("{}", err);
    }
}
