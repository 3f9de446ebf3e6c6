use ru_shell::lexer::Lexer;
use ru_shell::parser::ast_node_trait::CommandType;
use ru_shell::parser::Parser;
use ru_shell::token::token::TokenType;

// A keyword must not be recognized on a prefix match: `lsx` is one
// word, not `ls` followed by `x`.
#[test]
fn test_keyword_prefix_is_literal() {
    let mut l = Lexer::new("lsx");
    let t = l.next_token().unwrap();
    assert_eq!(*t.token_type(), TokenType::Literal);
    assert_eq!(t.literal(), "lsx");
    let eof = l.next_token().unwrap();
    assert_eq!(*eof.token_type(), TokenType::Eof);
    assert!(l.next_token().is_none());
}

// `&&&` is `&&` then `&`; `||` is one token, not two pipes.
#[test]
fn test_combined_symbols_split() {
    let mut l = Lexer::new("&&&");
    let a = l.next_token().unwrap();
    assert_eq!(*a.token_type(), TokenType::And);
    assert_eq!(a.literal(), "&&");
    let b = l.next_token().unwrap();
    assert_eq!(*b.token_type(), TokenType::Background);
    assert_eq!(b.literal(), "&");
    assert_eq!(*l.next_token().unwrap().token_type(), TokenType::Eof);

    let mut l2 = Lexer::new("||");
    let o = l2.next_token().unwrap();
    assert_eq!(*o.token_type(), TokenType::Or);
    assert_eq!(o.literal(), "||");
    assert_eq!(*l2.next_token().unwrap().token_type(), TokenType::Eof);
}

// Re-joining the literals of all scanned tokens reproduces the
// non-whitespace content of the line.
#[test]
fn test_literal_round_trip() {
    let input = "ls -l --depth=3 a/b.c,d | grep \"x\" f";
    let mut l = Lexer::new(input);
    let mut joined = String::new();
    while let Some(t) = l.next_token() {
        joined.push_str(&t.literal());
    }
    let stripped: String = input.chars().filter(|c| !c.is_whitespace()).collect();
    assert_eq!(joined, stripped);
}

// Peeking shows the next token without consuming it.
#[test]
fn test_peek_token() {
    let mut l = Lexer::new("ls -l");
    let peeked = l.peek_token().unwrap();
    let next = l.next_token().unwrap();
    assert_eq!(*peeked.token_type(), *next.token_type());
    assert_eq!(peeked.literal(), next.literal());
    assert_eq!(*next.token_type(), TokenType::Ls);
    assert_eq!(*l.peek_token().unwrap().token_type(), TokenType::ShortParam);
}

// Both value forms fill the same option: `--depth 3` and `--depth=3`.
#[test]
fn test_option_value_forms_agree() {
    let p1 = Parser::new("ls --depth 3");
    let p2 = Parser::new("ls --depth=3");
    let c1 = p1.iter().next().unwrap();
    let c2 = p2.iter().next().unwrap();
    assert_eq!(c1.get_option("--depth"), Some("3".to_string()));
    assert_eq!(c2.get_option("--depth"), Some("3".to_string()));
}

// Re-specifying an option overwrites its earlier value.
#[test]
fn test_option_overwrite() {
    let parser = Parser::new("ls --depth 3 --depth=5");
    let cmd = parser.iter().next().unwrap();
    assert_eq!(cmd.get_option("--depth"), Some("5".to_string()));
}

// An option the command does not know still parses structurally.
#[test]
fn test_unknown_option_is_stored() {
    let parser = Parser::new("cat --frobnicate=yes x");
    let cmd = parser.iter().next().unwrap();
    assert_eq!(cmd.get_option("--frobnicate"), Some("yes".to_string()));
    assert_eq!(parser.errors().len(), 0);
}

// `a/b.c,d/e` is two paths, each one unsplit string.
#[test]
fn test_path_splitting() {
    let parser = Parser::new("ls a/b.c,d/e");
    let cmd = parser.iter().next().unwrap();
    let values = cmd.get_values().unwrap();
    assert_eq!(values.len(), 2);
    assert_eq!(values[0], "a/b.c");
    assert_eq!(values[1], "d/e");
}

// The example chain of the grammar: source `ls`, destination a chain
// of `cat` and the `grep` node.
#[test]
fn test_chain_shape() {
    let parser = Parser::new("ls | cat | grep \"x\" f");
    let cmd = parser.iter().next().unwrap();
    assert_eq!(cmd.cmd_type(), &CommandType::ChainCommand);
    let src = cmd.get_source().unwrap();
    assert_eq!(src.token_type(), &TokenType::Ls);
    let dst = cmd.get_destination().unwrap();
    assert_eq!(dst.cmd_type(), &CommandType::ChainCommand);
    assert_eq!(dst.get_source().unwrap().token_type(), &TokenType::Cat);
    assert_eq!(dst.get_destination().unwrap().token_type(), &TokenType::Grep);
}

// A pipe with nothing after it keeps the chain, with no destination
// and no error.
#[test]
fn test_trailing_pipe() {
    let parser = Parser::new("ls |");
    let cmd = parser.iter().next().unwrap();
    assert_eq!(cmd.cmd_type(), &CommandType::ChainCommand);
    assert!(cmd.get_source().is_some());
    assert!(cmd.get_destination().is_none());
    assert_eq!(parser.errors().len(), 0);
}

// Re-parsing the same line twice yields the same trees and messages.
#[test]
fn test_reparse_same_line() {
    let line = "ls -l --depth 3 a,b | grep \"m\" f";
    let p1 = Parser::new(line);
    let p2 = Parser::new(line);

    let mut it1 = p1.iter();
    let mut it2 = p2.iter();
    loop {
        match (it1.next(), it2.next()) {
            (None, None) => break,
            (Some(a), Some(b)) => {
                assert_eq!(a.token_type(), b.token_type());
                assert_eq!(a.cmd_type(), b.cmd_type());
                assert_eq!(a.get_option("-l"), b.get_option("-l"));
                assert_eq!(a.get_option("--depth"), b.get_option("--depth"));
                assert_eq!(a.get_values(), b.get_values());
            },
            _ => panic!("the two parses differ in length"),
        }
    }
    assert_eq!(p1.errors(), p2.errors());
}

// An empty line parses to no trees and no errors.
#[test]
fn test_empty_input() {
    let parser = Parser::new("");
    assert!(parser.iter().next().is_none());
    assert_eq!(parser.errors().len(), 0);

    let blank = Parser::new("   ");
    assert!(blank.iter().next().is_none());
    assert_eq!(blank.errors().len(), 0);
}

// A pattern with nothing between its quotes is the valid empty
// pattern.
#[test]
fn test_empty_pattern() {
    let parser = Parser::new("grep \"\" f");
    let cmd = parser.iter().next().unwrap();
    let values = cmd.get_values().unwrap();
    assert_eq!(values[0], "");
    assert_eq!(values[1], "f");
    assert_eq!(parser.errors().len(), 0);
}

// The exact text of the three error kinds: the failing span, a colon,
// and the message.
#[test]
fn test_error_message_text() {
    let invalid = Parser::new("-l -h");
    assert_eq!(invalid.errors()[0], "-l: Invalid command");

    let no_pattern = Parser::new("grep -i -n -r");
    assert_eq!(
        no_pattern.errors()[0],
        "grep -i -n -r: Missing pattern. You can use `\"` to quote the pattern."
    );

    let no_close = Parser::new("grep -i \"col Cargo.toml");
    assert_eq!(
        no_close.errors()[0],
        "grep -i \" col Cargo.toml: Invalid pattern, missing right quotation mark."
    );

    let no_path = Parser::new("grep -i \"main\"");
    assert_eq!(
        no_path.errors()[0],
        "grep -i \" main \": Grep command needs a path"
    );
}

// An option at the end of the line, or `=` with nothing after it,
// leaves the option's value empty.
#[test]
fn test_option_without_value() {
    let p1 = Parser::new("ls --depth");
    assert_eq!(p1.iter().next().unwrap().get_option("--depth"), Some("".to_string()));

    let p2 = Parser::new("ls --depth=");
    assert_eq!(p2.iter().next().unwrap().get_option("--depth"), Some("".to_string()));
}

// A bare `cd` has no positional values at all.
#[test]
fn test_bare_cd() {
    let parser = Parser::new("cd");
    let cmd = parser.iter().next().unwrap();
    assert_eq!(cmd.token_type(), &TokenType::Cd);
    assert!(cmd.get_values().is_none());
    assert_eq!(parser.errors().len(), 0);
}

// A line that starts with something other than a command keyword is
// one invalid-command error.
#[test]
fn test_symbol_is_not_a_command() {
    let parser = Parser::new("&& ls");
    assert_eq!(parser.errors().len(), 1);
    assert!(parser.iter().next().is_none());
}

// A single-quoted pattern does not satisfy the pattern search, which
// requires double quotes.
#[test]
fn test_single_quoted_pattern_rejected() {
    let parser = Parser::new("grep 'x' f");
    assert_eq!(parser.errors().len(), 1);
}

// Re-parsing a line with errors reproduces the same error messages.
#[test]
fn test_reparse_error_line() {
    let p1 = Parser::new("grep -i -n -r");
    let p2 = Parser::new("grep -i -n -r");
    assert_eq!(p1.errors(), p2.errors());
}

// Values parse only once, after the options: trailing options after
// the values are not attached to the command; what is left after the
// top-level advance fails the command-keyword check instead.
#[test]
fn test_option_after_values() {
    let parser = Parser::new("cat x -b -c");
    let errs = parser.errors();
    assert_eq!(errs.len(), 1);
    assert_eq!(errs[0], "-c: Invalid command");
    let cmd = parser.iter().next().unwrap();
    assert_eq!(cmd.token_type(), &TokenType::Cat);
    assert_eq!(cmd.get_values().unwrap()[0], "x");
    assert_eq!(cmd.get_option("-b"), None);
}
