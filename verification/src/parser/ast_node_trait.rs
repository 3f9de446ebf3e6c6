use crate::parser::cmds_ast_node::{
    lemma_chain_view, lemma_exe_view, opt_node_view, opt_node_wf, ChainCommandAstNode,
    ExeCommandAstNode,
};
use crate::parser::grammar::{
    node_add_value, node_set_destination, node_set_options, node_set_source, node_set_values,
    pairs_view, strs_view, Node,
};
use crate::token::token::TokenType;
use vstd::prelude::*;

verus! {

/// The two shapes a command node can take: an execution command (`ls`,
/// `cd`, `grep`, `cat`) or a chain command (a pipeline stage).
#[derive(Debug, Clone, Copy, PartialEq, Eq, Structural)]
pub enum CommandType {
    ExtCommand,
    ChainCommand,
}

/// A command AST node: the closed union of the two node shapes.  The
/// command set and the chain shape are both fixed, so the parser and
/// its callers can match on this exhaustively.
#[derive(Debug)]
pub enum CommandAstNode {
    Exe(ExeCommandAstNode),
    Chain(ChainCommandAstNode),
}

impl View for CommandAstNode {
    type V = Node;

    open spec fn view(&self) -> Node
        decreases self,
    {
        match self {
            CommandAstNode::Exe(e) => e@,
            CommandAstNode::Chain(c) => c@,
        }
    }
}

impl CommandAstNode {
    /// Well-formedness of the node and, recursively, its children.
    pub open spec fn wf(&self) -> bool
        decreases self,
    {
        match self {
            CommandAstNode::Exe(e) => e.wf(),
            CommandAstNode::Chain(c) => c.wf(),
        }
    }

    /// The category of the token this node was built from.
    pub fn token_type(&self) -> (r: &TokenType)
        ensures
            *r == self@.tok().kind,
    {
        match self {
            CommandAstNode::Exe(e) => e.token_type(),
            CommandAstNode::Chain(c) => c.token_type(),
        }
    }

    /// The shape of this node: execution or chain.
    pub fn cmd_type(&self) -> (r: &CommandType)
        requires
            self.wf(),
        ensures
            *r == self@.cmd_type(),
    {
        match self {
            CommandAstNode::Exe(e) => e.cmd_type(),
            CommandAstNode::Chain(c) => c.cmd_type(),
        }
    }

    /// Record a list of options.  Only an execution command has
    /// options; a chain node ignores them.
    pub fn set_options(&mut self, options: Vec<(String, String)>)
        requires
            old(self).wf(),
        ensures
            final(self).wf(),
            final(self)@ == node_set_options(old(self)@, pairs_view(options@)),
    {
        match self {
            CommandAstNode::Exe(e) => e.set_options(options),
            CommandAstNode::Chain(c) => {
                proof {
                    lemma_chain_view(*c);
                }
            },
        }
    }

    /// Look an option up by name.  A chain node has none.
    pub fn get_option(&self, option: &str) -> (r: Option<String>)
        requires
            self.wf(),
        ensures
            self@.opts().contains_key(option@) ==> r is Some && r->0@ == self@.opts()[option@],
            !self@.opts().contains_key(option@) ==> r is None,
    {
        match self {
            CommandAstNode::Exe(e) => e.get_option(option),
            CommandAstNode::Chain(c) => {
                proof {
                    lemma_chain_view(*c);
                }
                None
            },
        }
    }

    /// Append one positional value.  A chain node ignores it.
    pub fn add_value(&mut self, value: String)
        requires
            old(self).wf(),
        ensures
            final(self).wf(),
            final(self)@ == node_add_value(old(self)@, value@),
    {
        match self {
            CommandAstNode::Exe(e) => e.add_value(value),
            CommandAstNode::Chain(c) => {
                proof {
                    lemma_chain_view(*c);
                }
            },
        }
    }

    /// Append a list of positional values.  A chain node ignores them.
    pub fn set_values(&mut self, values: Vec<String>)
        requires
            old(self).wf(),
        ensures
            final(self).wf(),
            final(self)@ == node_set_values(old(self)@, strs_view(values@)),
    {
        match self {
            CommandAstNode::Exe(e) => e.set_values(values),
            CommandAstNode::Chain(c) => {
                proof {
                    lemma_chain_view(*c);
                }
            },
        }
    }

    /// The positional values, if any were recorded.  A chain node has
    /// none.
    pub fn get_values(&self) -> (r: Option<Vec<String>>)
        ensures
            r is Some <==> self@.vals() is Some,
            r is Some ==> strs_view(r->0@) == self@.vals()->0,
    {
        match self {
            CommandAstNode::Exe(e) => e.get_values(),
            CommandAstNode::Chain(c) => {
                proof {
                    lemma_chain_view(*c);
                }
                None
            },
        }
    }

    /// Set the source child of a chain node.  An execution node has no
    /// children and ignores it.
    pub fn set_source(&mut self, values: Option<Box<CommandAstNode>>)
        requires
            old(self).wf(),
            opt_node_wf(values),
        ensures
            final(self).wf(),
            final(self)@ == node_set_source(old(self)@, opt_node_view(values)),
    {
        match self {
            CommandAstNode::Exe(e) => {
                proof {
                    lemma_exe_view(*e);
                }
            },
            CommandAstNode::Chain(c) => c.set_source(values),
        }
    }

    /// The source child of a chain node, copied out.
    pub fn get_source(&self) -> (r: Option<Box<CommandAstNode>>)
        requires
            self.wf(),
        ensures
            opt_node_view(r) == self@.src(),
            opt_node_wf(r),
    {
        match self {
            CommandAstNode::Exe(e) => {
                proof {
                    lemma_exe_view(*e);
                }
                None
            },
            CommandAstNode::Chain(c) => c.get_source(),
        }
    }

    /// Set the destination child of a chain node.  An execution node
    /// has no children and ignores it.
    pub fn set_destination(&mut self, values: Option<Box<CommandAstNode>>)
        requires
            old(self).wf(),
            opt_node_wf(values),
        ensures
            final(self).wf(),
            final(self)@ == node_set_destination(old(self)@, opt_node_view(values)),
    {
        match self {
            CommandAstNode::Exe(e) => {
                proof {
                    lemma_exe_view(*e);
                }
            },
            CommandAstNode::Chain(c) => c.set_destination(values),
        }
    }

    /// The destination child of a chain node, copied out.
    pub fn get_destination(&self) -> (r: Option<Box<CommandAstNode>>)
        requires
            self.wf(),
        ensures
            opt_node_view(r) == self@.dst(),
            opt_node_wf(r),
    {
        match self {
            CommandAstNode::Exe(e) => {
                proof {
                    lemma_exe_view(*e);
                }
                None
            },
            CommandAstNode::Chain(c) => c.get_destination(),
        }
    }

    /// A structurally identical copy of this node and its children.
    pub fn clone_cmd(&self) -> (res: CommandAstNode)
        ensures
            res@ == self@,
            self.wf() ==> res.wf(),
        decreases *self,
    {
        match self {
            CommandAstNode::Exe(e) => CommandAstNode::Exe(e.clone_cmd()),
            CommandAstNode::Chain(c) => CommandAstNode::Chain(c.clone_cmd()),
        }
    }
}

} // verus!
