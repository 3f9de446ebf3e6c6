pub mod ast_node_trait;
pub mod cmds_ast_node;
pub mod grammar;

use crate::lexer::{lemma_tokenize_wf, tokenize, Lexer};
use crate::parser::ast_node_trait::CommandAstNode;
use crate::parser::cmds_ast_node::{ChainCommandAstNode, ExeCommandAstNode};
use crate::parser::grammar::{
    adv, err_msg, is_command_kind, is_param_kind, is_path_kind, lemma_adv,
    lemma_sp_cmd_body_range, lemma_sp_cmd_range, lemma_sp_option_range, lemma_sp_path_range,
    msg_invalid, msg_missing_pattern, msg_missing_rquote, pairs_view, sp_cmd, sp_cmd_body,
    sp_option, sp_options, sp_path, sp_path_rest, sp_paths, sp_pattern, sp_run, strs_view,
    takes_bare_value, wf_stream, Node, PatternResult,
};
use crate::token::token::{Tok, Token, TokenType};
use vstd::prelude::*;

verus! {

// Since the syntax of a command line is simpler than that of a
// programming language, this parser works through the tokens in order,
// with a single token of look-ahead.  The only distinction to be drawn
// is between execution commands and chain commands: execution commands
// (`ls`, `cd`, `grep`, `cat`) stand for one invocation each, and chain
// commands join two of them with a pipe, nesting to the right:
//
//     Pipe
//    /    \
//  Ls     Pipe
//        /    \
//      Cat    Grep
//
// What `Parser::new` produces is pinned down, in whole, by the grammar
// functions of the `grammar` module: the stored AST and the recorded
// errors are exactly `sp_run` of the scanned token stream.
pub struct Parser {
    // The scanner the tokens are pulled from, one at a time.
    lexer: Lexer,
    // The token under the cursor.
    cur_token: Token,
    // Where the error span of the command being parsed begins, as a
    // token index; the scanner's cursor marks the span's end.
    cmd_start_index: usize,
    // The command AST built so far, one tree per top-level command.
    command_ast: Vec<CommandAstNode>,
    // The errors recorded while parsing, as finished messages.
    errors: Vec<String>,
}

impl Parser {
    /// The token stream being parsed.
    pub closed spec fn toks(&self) -> Seq<Tok> {
        self.lexer.toks()
    }

    /// The cursor: the index of the token currently looked at.
    pub closed spec fn q(&self) -> int {
        self.lexer.pos() - 1
    }

    /// Where the current command's error span begins.
    pub closed spec fn start(&self) -> int {
        self.cmd_start_index as int
    }

    /// The token under the cursor.
    pub closed spec fn cur(&self) -> Tok {
        self.cur_token@
    }

    /// The models of the stored command trees, in order.
    pub closed spec fn ast(&self) -> Seq<Node> {
        self.command_ast@.map_values(|n: CommandAstNode| n@)
    }

    /// The recorded error messages, in order.
    pub closed spec fn errs(&self) -> Seq<Seq<char>> {
        self.errors@.map_values(|s: String| s@)
    }

    /// Every stored command tree is well-formed.
    pub closed spec fn wf(&self) -> bool {
        forall|i: int| 0 <= i < self.command_ast@.len() ==> (#[trigger] self.command_ast@[i]).wf()
    }

    /// The parser's internal invariant while a parse is running: the
    /// token stream is well-formed, the cursor sits on a real token,
    /// and the token under the cursor is the one the cursor points at.
    pub closed spec fn parsing_wf(&self) -> bool {
        &&& wf_stream(self.toks())
        &&& 1 <= self.lexer.pos() <= self.toks().len()
        &&& self.cur_token@ == self.toks()[self.q()]
        &&& self.wf()
    }

    /// Parse one line of input.  The stored AST and the recorded
    /// errors are exactly what the grammar assigns to the line's token
    /// stream: nothing else is stored, and nothing is reordered.
    pub fn new(input: &str) -> (p: Parser)
        ensures
            p.ast() == sp_run(tokenize(input@), 0, 0).0,
            p.errs() == sp_run(tokenize(input@), 0, 0).1,
            p.wf(),
    {
        let lexer = Lexer::new(input);
        proof {
            lemma_tokenize_wf(input@);
        }
        let mut parser = Parser {
            lexer,
            cur_token: Token::new(TokenType::Eof, ""),
            cmd_start_index: 0,
            command_ast: Vec::new(),
            errors: Vec::new(),
        };
        // Initialize the current token.
        match parser.lexer.next_token() {
            Some(t) => {
                parser.cur_token = t;
            },
            None => {},
        }
        proof {
            assert(parser.ast() =~= Seq::<Node>::empty());
            assert(parser.errs() =~= Seq::<Seq<char>>::empty());
        }
        // Build the AST.
        parser.parse();
        // Release the scanner's storage; the tokens are consumed.
        parser.lexer.clear();
        proof {
            assert(parser.ast() =~= Seq::<Node>::empty() + sp_run(tokenize(input@), 0, 0).0);
            assert(parser.errs() =~= Seq::<Seq<char>>::empty() + sp_run(tokenize(input@), 0, 0).1);
        }
        parser
    }

    /// Walk the stored command trees from the first one.
    pub fn iter(&self) -> (it: ParserIterator)
        requires
            self.wf(),
        ensures
            it.nodes() == self.ast(),
            it.idx() == 0,
            it.wf(),
    {
        ParserIterator::new(self)
    }

    /// Drop the stored command trees.
    pub fn clear(&mut self)
        ensures
            final(self).ast() == Seq::<Node>::empty(),
            final(self).errs() == old(self).errs(),
            final(self).wf(),
    {
        self.command_ast.clear();
        proof {
            assert(final(self).ast() =~= Seq::<Node>::empty());
        }
    }

    /// The errors recorded while parsing, as finished messages: the
    /// source span each error arose from, then what went wrong.
    pub fn errors(&self) -> (r: Vec<String>)
        ensures
            strs_view(r@) == self.errs(),
    {
        let mut out: Vec<String> = Vec::new();
        let n = self.errors.len();
        let mut i: usize = 0;
        while i < n
            invariant
                i <= n,
                n == self.errors.len(),
                out@.len() == i as int,
                forall|j: int| 0 <= j < i ==> (#[trigger] out@[j])@ == self.errors@[j]@,
            decreases n - i,
        {
            out.push(self.errors[i].clone());
            i = i + 1;
        }
        proof {
            assert(strs_view(out@) =~= self.errs());
        }
        out
    }

    /// Pull the next token from the scanner; once the scanner is
    /// exhausted the cursor stays on `Eof`.
    fn next_token(&mut self)
        requires
            old(self).parsing_wf(),
        ensures
            final(self).parsing_wf(),
            final(self).toks() == old(self).toks(),
            final(self).ast() == old(self).ast(),
            final(self).errs() == old(self).errs(),
            final(self).start() == old(self).start(),
            final(self).q() == adv(old(self).toks(), old(self).q()),
            final(self).wf() == old(self).wf(),
    {
        match self.lexer.next_token() {
            Some(t) => {
                self.cur_token = t;
            },
            None => {
                self.cur_token = Token::new(TokenType::Eof, "");
                proof {
                    reveal_strlit("");
                    assert(self.cur_token@.lit =~= Seq::<char>::empty());
                }
            },
        }
    }

    /// Record one error: the source text of the span from the current
    /// command's start to the cursor, a colon, and the message; the
    /// next span starts after the cursor.
    fn collect_error(&mut self, err_msg_text: &str)
        requires
            old(self).parsing_wf(),
        ensures
            final(self).parsing_wf(),
            final(self).toks() == old(self).toks(),
            final(self).ast() == old(self).ast(),
            final(self).q() == old(self).q(),
            final(self).cur() == old(self).cur(),
            final(self).errs() == old(self).errs().push(
                err_msg(
                    old(self).toks(),
                    old(self).start(),
                    old(self).q() + 1,
                    err_msg_text@,
                ),
            ),
            final(self).start() == old(self).q() + 1,
    {
        let end = self.lexer.position();
        let mut msg = self.lexer.joint_tokens_to_str_by_range(self.cmd_start_index, end);
        msg.append(": ");
        msg.append(err_msg_text);
        let ghost pushed = msg@;
        self.errors.push(msg);
        self.cmd_start_index = end;
        proof {
            assert(final(self).errs() =~= old(self).errs().push(pushed));
        }
    }

    /// Is the token under the cursor a command keyword?
    fn check_wether_is_command(&self) -> (b: bool)
        ensures
            b == is_command_kind(self.cur().kind),
    {
        match self.cur_token.token_type {
            TokenType::Ls | TokenType::Cd | TokenType::Grep | TokenType::Cat => true,
            _ => false,
        }
    }

    /// Store one finished command tree.
    fn store_ast_node(&mut self, node: CommandAstNode)
        requires
            old(self).parsing_wf(),
            node.wf(),
        ensures
            final(self).parsing_wf(),
            final(self).toks() == old(self).toks(),
            final(self).errs() == old(self).errs(),
            final(self).q() == old(self).q(),
            final(self).cur() == old(self).cur(),
            final(self).start() == old(self).start(),
            final(self).ast() == old(self).ast().push(node@),
    {
        self.command_ast.push(node);
        proof {
            assert(final(self).ast() =~= old(self).ast().push(node@));
        }
    }

    /// The top-level loop: while the cursor is not at `Eof`, require a
    /// command keyword, parse one command, store its tree and move on.
    /// A token that is no command records one "invalid command" error
    /// and ends the line, as does a command that recorded an error.
    #[verifier::loop_isolation(false)]
    fn parse(&mut self)
        requires
            old(self).parsing_wf(),
        ensures
            final(self).parsing_wf(),
            final(self).toks() == old(self).toks(),
            final(self).ast() == old(self).ast() + sp_run(
                old(self).toks(),
                old(self).q(),
                old(self).start(),
            ).0,
            final(self).errs() == old(self).errs() + sp_run(
                old(self).toks(),
                old(self).q(),
                old(self).start(),
            ).1,
        decreases old(self).toks().len() - old(self).q(),
    {
        let ghost toks = old(self).toks();
        let ghost r = sp_run(toks, old(self).q(), old(self).start());
        while !(self.cur_token.token_type == TokenType::Eof)
            invariant
                self.parsing_wf(),
                self.toks() == toks,
                old(self).ast() + r.0 == self.ast() + sp_run(toks, self.q(), self.start()).0,
                old(self).errs() + r.1 == self.errs() + sp_run(toks, self.q(), self.start()).1,
            decreases self.toks().len() - self.q(),
        {
            let ghost q0 = self.q();
            let ghost s0 = self.start();
            // Check that the current token is a command keyword.
            if !self.check_wether_is_command() {
                self.collect_error("Invalid command");
                proof {
                    assert(sp_run(toks, q0, s0).1 =~= seq![
                        err_msg(toks, s0, q0 + 1, msg_invalid()),
                    ]);
                    assert(final(self).errs() =~= old(self).errs() + r.1);
                    assert(final(self).ast() =~= old(self).ast() + r.0);
                }
                return ;
            }
            let n_errs0 = self.errors.len();
            let node = match self.parse_exe_cmd() {
                Some(node) => node,
                None => {
                    proof {
                        assert(final(self).errs() =~= old(self).errs() + r.1);
                        assert(final(self).ast() =~= old(self).ast() + r.0);
                    }
                    return ;
                },
            };
            let had_error = self.errors.len() > n_errs0;
            proof {
                let c = sp_cmd(toks, q0, s0);
                assert(had_error == (c.2.len() > 0));
            }
            let ghost pre_ast = self.ast();
            let ghost pre_errs = self.errs();
            self.store_ast_node(node);
            if had_error {
                proof {
                    assert(final(self).errs() =~= old(self).errs() + r.1);
                    assert(final(self).ast() =~= old(self).ast() + r.0);
                }
                return ;
            }
            self.next_token();
            let pos = self.lexer.position();
            self.cmd_start_index = pos - 1;
            proof {
                let c = sp_cmd(toks, q0, s0);
                lemma_sp_cmd_range(toks, q0, s0);
                lemma_adv(toks, c.1);
                assert(self.q() == adv(toks, c.1));
                let q2 = crate::parser::grammar::bump(toks, q0, adv(toks, c.1));
                assert(q2 == self.q());
                assert(self.start() == q2);
                assert(sp_run(toks, q0, s0).0 == seq![c.0->0] + sp_run(toks, q2, q2).0);
                assert(sp_run(toks, q0, s0).1 == sp_run(toks, q2, q2).1);
                assert(pre_ast + (seq![node@] + sp_run(toks, q2, q2).0) =~= pre_ast.push(node@)
                    + sp_run(toks, q2, q2).0);
                assert(pre_errs + c.2 =~= pre_errs);
            }
        }
        proof {
            assert(sp_run(toks, self.q(), self.start()).0 =~= Seq::<Node>::empty());
            assert(sp_run(toks, self.q(), self.start()).1 =~= Seq::<Seq<char>>::empty());
            assert(final(self).ast() =~= old(self).ast() + r.0);
            assert(final(self).errs() =~= old(self).errs() + r.1);
        }
    }

    /// Parse one command: dispatch on its keyword, then, when the
    /// command is whole and a pipe follows, build the chain whose
    /// source is the command just parsed and whose destination is the
    /// rest of the line, parsed recursively.
    fn parse_exe_cmd(&mut self) -> (r: Option<CommandAstNode>)
        requires
            old(self).parsing_wf(),
        ensures
            final(self).parsing_wf(),
            final(self).toks() == old(self).toks(),
            final(self).ast() == old(self).ast(),
            ({
                let c = sp_cmd(old(self).toks(), old(self).q(), old(self).start());
                &&& final(self).q() == c.1
                &&& final(self).errs() == old(self).errs() + c.2
                &&& (r is Some <==> c.0 is Some)
                &&& (r is Some ==> r->0@ == c.0->0 && r->0.wf())
                &&& (c.2.len() == 0 ==> final(self).start() == old(self).start())
            }),
        decreases old(self).toks().len() - old(self).q(),
    {
        let ghost toks = old(self).toks();
        let ghost q0 = old(self).q();
        let ghost s0 = old(self).start();
        let n_errs0 = self.errors.len();
        let node_opt = match self.cur_token.token_type {
            TokenType::Ls => self.parse_ls_cmd(),
            TokenType::Cd => self.parse_cd_cmd(),
            TokenType::Cat => self.parse_cat_cmd(),
            TokenType::Grep => self.parse_grep_cmd(),
            _ => {
                proof {
                    assert(final(self).errs() =~= old(self).errs() + Seq::<Seq<char>>::empty());
                }
                return None;
            },
        };
        proof {
            lemma_sp_cmd_body_range(toks, q0, s0);
        }
        let node = match node_opt {
            Some(node) => node,
            None => {
                return None;
            },
        };
        let ghost b = sp_cmd_body(toks, q0, s0);
        let no_error = self.errors.len() == n_errs0;
        proof {
            if toks[q0].kind == TokenType::Grep {
                assert(self.errs() == old(self).errs() + b.2);
                assert(self.errs().len() == old(self).errs().len() + b.2.len());
            } else {
                assert(b.2 =~= Seq::<Seq<char>>::empty());
                assert(self.errs() == old(self).errs());
            }
            assert(n_errs0 as int == old(self).errs().len());
            assert(self.errors.len() as int == self.errs().len());
            assert(no_error == (b.2.len() == 0));
        }
        if no_error && self.cur_token.token_type == TokenType::Pipe {
            let pipe_token = self.cur_token.clone();
            let mut chain = ChainCommandAstNode::new(pipe_token);
            self.next_token();
            proof {
                lemma_adv(toks, b.1);
            }
            let destination = self.parse_exe_cmd();
            chain.set_source(Some(Box::new(node)));
            match destination {
                Some(d) => chain.set_destination(Some(Box::new(d))),
                None => chain.set_destination(None),
            }
            Some(CommandAstNode::Chain(chain))
        } else {
            Some(node)
        }
    }

    /// Parse the `ls` command: its options (only `--depth` takes a
    /// bare value), then its optional comma-separated paths.
    pub fn parse_ls_cmd(&mut self) -> (r: Option<CommandAstNode>)
        requires
            old(self).parsing_wf(),
            old(self).cur().kind == TokenType::Ls,
        ensures
            final(self).parsing_wf(),
            final(self).toks() == old(self).toks(),
            final(self).ast() == old(self).ast(),
            final(self).errs() == old(self).errs(),
            final(self).start() == old(self).start(),
            ({
                let b = sp_cmd_body(old(self).toks(), old(self).q(), old(self).start());
                &&& final(self).q() == b.1
                &&& r is Some
                &&& r->0@ == b.0->0
                &&& r->0.wf()
            }),
    {
        self.parse_plain_cmd(TokenType::Ls)
    }

    /// Parse the `cd` command: structural options, then its optional
    /// comma-separated paths.
    pub fn parse_cd_cmd(&mut self) -> (r: Option<CommandAstNode>)
        requires
            old(self).parsing_wf(),
            old(self).cur().kind == TokenType::Cd,
        ensures
            final(self).parsing_wf(),
            final(self).toks() == old(self).toks(),
            final(self).ast() == old(self).ast(),
            final(self).errs() == old(self).errs(),
            final(self).start() == old(self).start(),
            ({
                let b = sp_cmd_body(old(self).toks(), old(self).q(), old(self).start());
                &&& final(self).q() == b.1
                &&& r is Some
                &&& r->0@ == b.0->0
                &&& r->0.wf()
            }),
    {
        self.parse_plain_cmd(TokenType::Cd)
    }

    /// Parse the `cat` command: its options (none takes a bare value),
    /// then its optional comma-separated paths.
    pub fn parse_cat_cmd(&mut self) -> (r: Option<CommandAstNode>)
        requires
            old(self).parsing_wf(),
            old(self).cur().kind == TokenType::Cat,
        ensures
            final(self).parsing_wf(),
            final(self).toks() == old(self).toks(),
            final(self).ast() == old(self).ast(),
            final(self).errs() == old(self).errs(),
            final(self).start() == old(self).start(),
            ({
                let b = sp_cmd_body(old(self).toks(), old(self).q(), old(self).start());
                &&& final(self).q() == b.1
                &&& r is Some
                &&& r->0@ == b.0->0
                &&& r->0.wf()
            }),
    {
        self.parse_plain_cmd(TokenType::Cat)
    }

    /// The shared shape of every command but the pattern search: the
    /// keyword, the run of options, the optional paths.
    fn parse_plain_cmd(&mut self, kind: TokenType) -> (r: Option<CommandAstNode>)
        requires
            old(self).parsing_wf(),
            old(self).cur().kind == kind,
            kind == TokenType::Ls || kind == TokenType::Cd || kind == TokenType::Cat,
        ensures
            final(self).parsing_wf(),
            final(self).toks() == old(self).toks(),
            final(self).ast() == old(self).ast(),
            final(self).errs() == old(self).errs(),
            final(self).start() == old(self).start(),
            ({
                let b = sp_cmd_body(old(self).toks(), old(self).q(), old(self).start());
                &&& final(self).q() == b.1
                &&& r is Some
                &&& r->0@ == b.0->0
                &&& r->0.wf()
            }),
    {
        let ghost toks = old(self).toks();
        let ghost q0 = old(self).q();
        proof {
            lemma_adv(toks, q0);
        }
        let token = self.cur_token.clone();
        let mut cmd = ExeCommandAstNode::new(token);
        self.next_token();
        let options = self.parse_options_for(kind);
        cmd.set_options(options);
        match self.parse_paths() {
            Some(paths) => cmd.set_values(paths),
            None => {},
        }
        Some(CommandAstNode::Exe(cmd))
    }

    /// Parse the pattern-search command: its options, its mandatory
    /// quoted pattern, its mandatory paths.  A missing or unclosed
    /// pattern records an error and aborts the command; missing paths
    /// record an error but keep the node built so far.
    pub fn parse_grep_cmd(&mut self) -> (r: Option<CommandAstNode>)
        requires
            old(self).parsing_wf(),
            old(self).cur().kind == TokenType::Grep,
        ensures
            final(self).parsing_wf(),
            final(self).toks() == old(self).toks(),
            final(self).ast() == old(self).ast(),
            ({
                let b = sp_cmd_body(old(self).toks(), old(self).q(), old(self).start());
                &&& final(self).q() == b.1
                &&& final(self).errs() == old(self).errs() + b.2
                &&& (r is Some <==> b.0 is Some)
                &&& (r is Some ==> r->0@ == b.0->0 && r->0.wf())
                &&& (b.2.len() == 0 ==> final(self).start() == old(self).start())
            }),
    {
        let ghost toks = old(self).toks();
        let ghost q0 = old(self).q();
        proof {
            lemma_adv(toks, q0);
        }
        let token = self.cur_token.clone();
        let mut cmd = ExeCommandAstNode::new(token);
        self.next_token();
        let options = self.parse_options_for(TokenType::Grep);
        cmd.set_options(options);
        let pattern = match self.parse_pattern() {
            Some(pattern) => pattern,
            None => {
                proof {
                    assert(old(self).errs() + sp_cmd_body(toks, q0, old(self).start()).2
                        =~= final(self).errs());
                }
                return None;
            },
        };
        cmd.add_value(pattern);
        match self.parse_paths() {
            Some(paths) => {
                cmd.set_values(paths);
                proof {
                    assert(old(self).errs() + Seq::<Seq<char>>::empty() =~= final(self).errs());
                }
            },
            None => {
                self.collect_error("Grep command needs a path");
                proof {
                    assert(old(self).errs() + sp_cmd_body(toks, q0, old(self).start()).2
                        =~= final(self).errs());
                }
            },
        }
        Some(CommandAstNode::Exe(cmd))
    }

    /// Parse one option and its value.  The option's name becomes the
    /// key.  A value is taken after `=` for any option; an option that
    /// allows it (`whether_parsing_value`) also takes a bare following
    /// value.  Otherwise the value is the empty string.
    pub fn parse_option(&mut self, whether_parsing_value: bool) -> (r: (String, String))
        requires
            old(self).parsing_wf(),
            is_param_kind(old(self).cur().kind),
        ensures
            final(self).parsing_wf(),
            final(self).toks() == old(self).toks(),
            final(self).ast() == old(self).ast(),
            final(self).errs() == old(self).errs(),
            final(self).start() == old(self).start(),
            ({
                let o = sp_option(old(self).toks(), old(self).q(), whether_parsing_value);
                &&& r.0@ == o.0
                &&& r.1@ == o.1
                &&& final(self).q() == o.2
            }),
    {
        proof {
            lemma_adv(old(self).toks(), old(self).q());
        }
        let option = self.cur_token.literal();
        self.next_token();
        let mut value = String::new();
        if self.cur_token.token_type == TokenType::Assignment {
            proof {
                lemma_adv(old(self).toks(), self.q());
            }
            self.next_token();
            if self.cur_token.token_type == TokenType::Literal || self.cur_token.token_type
                == TokenType::Num {
                proof {
                    lemma_adv(old(self).toks(), self.q());
                }
                value = self.cur_token.literal();
                self.next_token();
            }
        } else if whether_parsing_value && (self.cur_token.token_type == TokenType::Literal
            || self.cur_token.token_type == TokenType::Num) {
            proof {
                lemma_adv(old(self).toks(), self.q());
            }
            value = self.cur_token.literal();
            self.next_token();
        }
        (option, value)
    }

    /// Parse the run of options at the front of a command, deciding per
    /// option name whether it may take a bare value.
    #[verifier::loop_isolation(false)]
    fn parse_options_for(&mut self, cmd: TokenType) -> (opts: Vec<(String, String)>)
        requires
            old(self).parsing_wf(),
        ensures
            final(self).parsing_wf(),
            final(self).toks() == old(self).toks(),
            final(self).ast() == old(self).ast(),
            final(self).errs() == old(self).errs(),
            final(self).start() == old(self).start(),
            ({
                let o = sp_options(old(self).toks(), old(self).q(), cmd);
                &&& pairs_view(opts@) == o.0
                &&& final(self).q() == o.1
            }),
    {
        let ghost toks = old(self).toks();
        let ghost q0 = old(self).q();
        let ghost o = sp_options(toks, q0, cmd);
        let mut opts: Vec<(String, String)> = Vec::new();
        proof {
            assert(pairs_view(opts@) =~= Seq::<(Seq<char>, Seq<char>)>::empty());
        }
        while self.cur_token.token_type == TokenType::ShortParam || self.cur_token.token_type
            == TokenType::LongParam
            invariant
                self.parsing_wf(),
                self.toks() == toks,
                self.ast() == old(self).ast(),
                self.errs() == old(self).errs(),
                self.start() == old(self).start(),
                o.0 == pairs_view(opts@) + sp_options(toks, self.q(), cmd).0,
                o.1 == sp_options(toks, self.q(), cmd).1,
            decreases self.toks().len() - self.q(),
        {
            let ghost qi = self.q();
            let ghost acc0 = pairs_view(opts@);
            proof {
                lemma_sp_option_range(toks, qi, takes_bare_value(cmd, toks[qi].lit));
            }
            let whether_parsing_value = cmd == TokenType::Ls && self.cur_token.literal()
                == "--depth".to_owned();
            let (option, value) = self.parse_option(whether_parsing_value);
            let ghost kv = (option@, value@);
            opts.push((option, value));
            proof {
                let so = sp_option(toks, qi, takes_bare_value(cmd, toks[qi].lit));
                assert(pairs_view(opts@) =~= acc0.push(kv));
                assert(sp_options(toks, qi, cmd).0 == seq![kv] + sp_options(
                    toks,
                    self.q(),
                    cmd,
                ).0);
                assert(acc0 + (seq![kv] + sp_options(toks, self.q(), cmd).0) =~= acc0.push(kv)
                    + sp_options(toks, self.q(), cmd).0);
            }
        }
        opts
    }

    /// Parse a comma-separated list of paths.  `None` when no path
    /// begins at the cursor; paths are never empty strings.
    #[verifier::loop_isolation(false)]
    pub fn parse_paths(&mut self) -> (r: Option<Vec<String>>)
        requires
            old(self).parsing_wf(),
        ensures
            final(self).parsing_wf(),
            final(self).toks() == old(self).toks(),
            final(self).ast() == old(self).ast(),
            final(self).errs() == old(self).errs(),
            final(self).start() == old(self).start(),
            ({
                let p = sp_paths(old(self).toks(), old(self).q(), );
                &&& final(self).q() == p.1
                &&& (p.0.len() == 0 <==> r is None)
                &&& (r is Some ==> strs_view(r->0@) == p.0)
            }),
    {
        let ghost toks = old(self).toks();
        let ghost q0 = old(self).q();
        let ghost p = sp_paths(toks, q0);
        let mut paths: Vec<String> = Vec::new();
        let mut more = true;
        proof {
            assert(strs_view(paths@) =~= Seq::<Seq<char>>::empty());
        }
        while more && path_kind_token(&self.cur_token.token_type)
            invariant
                self.parsing_wf(),
                self.toks() == toks,
                self.ast() == old(self).ast(),
                self.errs() == old(self).errs(),
                self.start() == old(self).start(),
                more ==> p.0 == strs_view(paths@) + sp_paths(toks, self.q(), ).0 && p.1
                    == sp_paths(toks, self.q(), ).1,
                !more ==> p.0 == strs_view(paths@) && p.1 == self.q() && paths@.len() > 0,
            decreases self.toks().len() - self.q(), (if more { 1int } else { 0int }),
        {
            let ghost qi = self.q();
            let ghost acc0 = strs_view(paths@);
            proof {
                lemma_sp_path_range(toks, qi);
            }
            let path = self.parse_path();
            let ghost sp = sp_path(toks, qi);
            paths.push(path);
            proof {
                assert(strs_view(paths@) =~= acc0.push(sp.0));
            }
            if self.cur_token.token_type == TokenType::Comma {
                proof {
                    lemma_adv(toks, self.q());
                }
                self.next_token();
                proof {
                    assert(sp_paths(toks, qi).0 == seq![sp.0] + sp_paths(toks, self.q()).0);
                    assert(acc0 + (seq![sp.0] + sp_paths(toks, self.q()).0) =~= acc0.push(sp.0)
                        + sp_paths(toks, self.q()).0);
                }
            } else {
                more = false;
                proof {
                    assert(sp_paths(toks, qi).0 =~= seq![sp.0]);
                    assert(acc0 + seq![sp.0] =~= acc0.push(sp.0));
                }
            }
        }
        proof {
            if more {
                assert(sp_paths(toks, self.q()).0 =~= Seq::<Seq<char>>::empty());
                assert(p.0 =~= strs_view(paths@));
            }
            assert(p.0.len() == paths@.len());
        }
        if paths.is_empty() {
            None
        } else {
            Some(paths)
        }
    }

    /// Parse one path: the token under the cursor, then every
    /// following token that can continue a path, concatenated into one
    /// string without separators.
    #[verifier::loop_isolation(false)]
    fn parse_path(&mut self) -> (r: String)
        requires
            old(self).parsing_wf(),
            is_path_kind(old(self).cur().kind),
        ensures
            final(self).parsing_wf(),
            final(self).toks() == old(self).toks(),
            final(self).ast() == old(self).ast(),
            final(self).errs() == old(self).errs(),
            final(self).start() == old(self).start(),
            ({
                let p = sp_path(old(self).toks(), old(self).q());
                &&& r@ == p.0
                &&& final(self).q() == p.1
            }),
    {
        let ghost toks = old(self).toks();
        let ghost q0 = old(self).q();
        let ghost p = sp_path(toks, q0);
        proof {
            lemma_adv(toks, q0);
        }
        let mut path = self.cur_token.literal();
        self.next_token();
        while path_kind_token(&self.cur_token.token_type)
            invariant
                self.parsing_wf(),
                self.toks() == toks,
                self.ast() == old(self).ast(),
                self.errs() == old(self).errs(),
                self.start() == old(self).start(),
                p == sp_path_rest(toks, self.q(), path@),
            decreases self.toks().len() - self.q(),
        {
            proof {
                lemma_adv(toks, self.q());
            }
            let lit = self.cur_token.literal();
            path.append(lit.as_str());
            self.next_token();
        }
        path
    }

    /// Parse the quoted pattern of the pattern-search command: an
    /// opening quote, the pattern tokens concatenated, a closing
    /// quote.  A missing opening or closing quote records an error and
    /// yields `None`; a pattern with nothing between the quotes is the
    /// valid empty pattern.
    #[verifier::loop_isolation(false)]
    fn parse_pattern(&mut self) -> (r: Option<String>)
        requires
            old(self).parsing_wf(),
        ensures
            final(self).parsing_wf(),
            final(self).toks() == old(self).toks(),
            final(self).ast() == old(self).ast(),
            ({
                let toks = old(self).toks();
                let q0 = old(self).q();
                let s0 = old(self).start();
                match sp_pattern(toks, q0) {
                    PatternResult::Found { pat, q: e } => {
                        &&& r is Some
                        &&& r->0@ == pat
                        &&& final(self).q() == e
                        &&& final(self).errs() == old(self).errs()
                        &&& final(self).start() == s0
                    },
                    PatternResult::MissingOpen { q: e } => {
                        &&& r is None
                        &&& final(self).q() == e
                        &&& final(self).errs() == old(self).errs().push(
                            err_msg(toks, s0, e + 1, msg_missing_pattern()),
                        )
                        &&& final(self).start() == e + 1
                    },
                    PatternResult::MissingClose { q: e } => {
                        &&& r is None
                        &&& final(self).q() == e
                        &&& final(self).errs() == old(self).errs().push(
                            err_msg(toks, s0, e + 1, msg_missing_rquote()),
                        )
                        &&& final(self).start() == e + 1
                    },
                }
            }),
    {
        let ghost toks = old(self).toks();
        let ghost q0 = old(self).q();
        if self.cur_token.token_type == TokenType::Quote {
            proof {
                lemma_adv(toks, q0);
            }
            self.next_token();
        } else {
            self.collect_error("Missing pattern. You can use `\"` to quote the pattern.");
            return None;
        }
        let mut pattern = String::new();
        while path_kind_token(&self.cur_token.token_type)
            invariant
                self.parsing_wf(),
                self.toks() == toks,
                self.ast() == old(self).ast(),
                self.errs() == old(self).errs(),
                self.start() == old(self).start(),
                sp_path_rest(toks, q0 + 1, Seq::empty()) == sp_path_rest(
                    toks,
                    self.q(),
                    pattern@,
                ),
            decreases self.toks().len() - self.q(),
        {
            proof {
                lemma_adv(toks, self.q());
            }
            let lit = self.cur_token.literal();
            pattern.append(lit.as_str());
            self.next_token();
        }
        if self.cur_token.token_type == TokenType::Quote {
            proof {
                lemma_adv(toks, self.q());
            }
            self.next_token();
            Some(pattern)
        } else {
            self.collect_error("Invalid pattern, missing right quotation mark.");
            None
        }
    }
}

/// Re-parsing is idempotent: what `Parser::new` stores is a function
/// of the input line alone, so two parser instances built from the
/// same line hold identical command trees — option maps, positional
/// values and children — and identical error messages.
pub proof fn lemma_reparse_idempotent(input: Seq<char>, p1: Parser, p2: Parser)
    requires
        p1.ast() == sp_run(tokenize(input), 0, 0).0,
        p1.errs() == sp_run(tokenize(input), 0, 0).1,
        p2.ast() == sp_run(tokenize(input), 0, 0).0,
        p2.errs() == sp_run(tokenize(input), 0, 0).1,
    ensures
        p1.ast() == p2.ast(),
        p1.errs() == p2.errs(),
{
}

/// Test whether a token category can be part of a path or pattern.
fn path_kind_token(k: &TokenType) -> (b: bool)
    ensures
        b == is_path_kind(*k),
{
    match k {
        TokenType::Literal | TokenType::Num | TokenType::Slash | TokenType::Dot
        | TokenType::Tilde => true,
        _ => false,
    }
}

/// A walk over a parser's finished command trees, from the first.
pub struct ParserIterator {
    command_ast: Vec<CommandAstNode>,
    index: usize,
}

impl ParserIterator {
    /// The models of the trees the iterator walks over.
    pub closed spec fn nodes(&self) -> Seq<Node> {
        self.command_ast@.map_values(|n: CommandAstNode| n@)
    }

    /// The position of the walk.
    pub closed spec fn idx(&self) -> int {
        self.index as int
    }

    /// Every tree walked over is well-formed.
    pub closed spec fn wf(&self) -> bool {
        forall|i: int| 0 <= i < self.command_ast@.len() ==> (#[trigger] self.command_ast@[i]).wf()
    }

    /// Start a walk over the given parser's trees.
    pub fn new(parser: &Parser) -> (it: ParserIterator)
        requires
            parser.wf(),
        ensures
            it.nodes() == parser.ast(),
            it.idx() == 0,
            it.wf(),
    {
        let mut nodes: Vec<CommandAstNode> = Vec::new();
        let n = parser.command_ast.len();
        let mut i: usize = 0;
        while i < n
            invariant
                i <= n,
                n == parser.command_ast@.len(),
                parser.wf(),
                nodes@.len() == i as int,
                forall|j: int|
                    0 <= j < i ==> (#[trigger] nodes@[j])@ == parser.command_ast@[j]@
                        && nodes@[j].wf(),
            decreases n - i,
        {
            nodes.push(parser.command_ast[i].clone_cmd());
            i = i + 1;
        }
        proof {
            assert(nodes@.map_values(|n: CommandAstNode| n@) =~= parser.ast());
        }
        ParserIterator { command_ast: nodes, index: 0 }
    }

    /// The next tree, copied out, or `None` at the end of the walk.
    pub fn next(&mut self) -> (r: Option<CommandAstNode>)
        ensures
            final(self).nodes() == old(self).nodes(),
            final(self).wf() == old(self).wf(),
            old(self).idx() < old(self).nodes().len() ==> {
                &&& r is Some
                &&& r->0@ == old(self).nodes()[old(self).idx()]
                &&& (old(self).wf() ==> r->0.wf())
                &&& final(self).idx() == old(self).idx() + 1
            },
            old(self).idx() >= old(self).nodes().len() ==> r is None && final(self).idx() == old(
                self,
            ).idx(),
    {
        if self.index >= self.command_ast.len() {
            return None;
        }
        let node = self.command_ast[self.index].clone_cmd();
        self.index = self.index + 1;
        Some(node)
    }
}

} // verus!
