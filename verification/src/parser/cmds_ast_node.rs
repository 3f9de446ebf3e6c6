use crate::parser::ast_node_trait::{CommandAstNode, CommandType};
use crate::parser::grammar::{
    assoc_find, chain_node, exe_node, insert_all, lemma_assoc_find_none, lemma_insert_all_push,
    lemma_insert_all_update, lemma_opts_map_find, node_add_value, node_insert_opt,
    node_set_destination, node_set_options, node_set_source, node_set_values, pairs_view,
    strs_view, unique_keys, Node,
};
use crate::token::token::{Token, TokenType};
use vstd::prelude::*;

verus! {

/// The view of an optional boxed child node.
pub open spec fn opt_node_view(o: Option<Box<CommandAstNode>>) -> Option<Box<Node>>
    decreases o,
{
    match o {
        None => None,
        Some(b) => Some(Box::new((*b)@)),
    }
}

/// A child is well-formed when it is absent or its node is.
pub open spec fn opt_node_wf(o: Option<Box<CommandAstNode>>) -> bool
    decreases o,
{
    match o {
        None => true,
        Some(b) => (*b).wf(),
    }
}

// ===================================================================
// Execution command nodes
// ===================================================================
/// An execution command: one keyword invocation, its options and its
/// positional values.  Options are kept as name/value pairs with unique
/// names; recording a name again overwrites its value.
#[derive(Debug)]
pub struct ExeCommandAstNode {
    command_type: CommandType,
    token: Token,
    options: Vec<(String, String)>,
    values: Option<Vec<String>>,
}

impl View for ExeCommandAstNode {
    type V = Node;

    closed spec fn view(&self) -> Node {
        Node::Exe {
            token: self.token@,
            opts: insert_all(Map::empty(), pairs_view(self.options@)),
            values: match self.values {
                None => None,
                Some(vs) => Some(strs_view(vs@)),
            },
        }
    }
}

impl ExeCommandAstNode {
    /// Well-formedness: the option names are unique, and the node knows
    /// itself as an execution command.
    pub closed spec fn wf(&self) -> bool {
        &&& unique_keys(pairs_view(self.options@))
        &&& self.command_type == CommandType::ExtCommand
    }

    /// A fresh execution node for a keyword token.
    pub fn new(token: Token) -> (n: ExeCommandAstNode)
        ensures
            n@ == exe_node(token@),
            n.wf(),
    {
        let n = ExeCommandAstNode {
            command_type: CommandType::ExtCommand,
            token,
            options: Vec::new(),
            values: None,
        };
        proof {
            assert(pairs_view(n.options@) =~= Seq::<(Seq<char>, Seq<char>)>::empty());
        }
        n
    }

    /// The category of the keyword token this command was built from.
    pub fn token_type(&self) -> (r: &TokenType)
        ensures
            *r == self@.tok().kind,
    {
        &self.token.token_type
    }

    /// The shape of this node: always an execution command.
    pub fn cmd_type(&self) -> (r: &CommandType)
        requires
            self.wf(),
        ensures
            *r == self@.cmd_type(),
    {
        &self.command_type
    }

    /// Record one option, overwriting any earlier value under the same
    /// name.
    #[verifier::loop_isolation(false)]
    fn insert_option(&mut self, option: String, value: String)
        requires
            old(self).wf(),
        ensures
            final(self).wf(),
            final(self)@ == node_insert_opt(old(self)@, option@, value@),
    {
        let ghost pairs0 = pairs_view(self.options@);
        let n = self.options.len();
        let mut i: usize = 0;
        while i < n
            invariant
                i <= n,
                n == self.options.len(),
                *self == *old(self),
                pairs0 == pairs_view(self.options@),
                forall|j: int| 0 <= j < i ==> (#[trigger] pairs0[j]).0 != option@,
            decreases n - i,
        {
            if self.options[i].0 == option {
                proof {
                    assert(unique_keys(pairs0));
                    assert(pairs0[i as int] == (self.options@[i as int].0@, self.options@[i
                        as int].1@));
                    assert(pairs0[i as int].0 == option@);
                }
                self.options[i] = (option, value);
                proof {
                    let kv = (option@, value@);
                    let updated = pairs0.update(i as int, kv);
                    assert(pairs_view(self.options@) =~= updated);
                    lemma_insert_all_update(Map::empty(), pairs0, i as int, kv);
                    assert(forall|x: int|
                        0 <= x < updated.len() ==> (#[trigger] updated[x]).0 == pairs0[x].0);
                    assert(unique_keys(updated));
                }
                return ;
            }
            i = i + 1;
        }
        proof {
            assert(forall|j: int| 0 <= j < pairs0.len() ==> (#[trigger] pairs0[j]).0 != option@);
        }
        self.options.push((option, value));
        proof {
            assert(pairs_view(self.options@) =~= pairs0.push((option@, value@)));
            lemma_insert_all_push(Map::empty(), pairs0, (option@, value@));
            assert forall|a: int, b: int|
                0 <= a < b < pairs0.push((option@, value@)).len() implies (#[trigger] pairs0.push(
                (option@, value@),
            )[a]).0 != (#[trigger] pairs0.push((option@, value@))[b]).0 by {
                if b < pairs0.len() {
                    assert(pairs0.push((option@, value@))[a].0 == pairs0[a].0);
                    assert(pairs0.push((option@, value@))[b].0 == pairs0[b].0);
                } else {
                    assert(pairs0.push((option@, value@))[a].0 == pairs0[a].0);
                    assert(pairs0.push((option@, value@))[b] == (option@, value@));
                }
            }
        }
    }

    /// Record a list of options, in order; later pairs overwrite
    /// earlier ones of the same name.
    #[verifier::loop_isolation(false)]
    pub fn set_options(&mut self, options: Vec<(String, String)>)
        requires
            old(self).wf(),
        ensures
            final(self).wf(),
            final(self)@ == node_set_options(old(self)@, pairs_view(options@)),
    {
        let n = options.len();
        proof {
            assert(pairs_view(options@).skip(0) =~= pairs_view(options@));
        }
        let mut i: usize = 0;
        while i < n
            invariant
                i <= n,
                n == options.len(),
                self.wf(),
                node_set_options(old(self)@, pairs_view(options@)) == node_set_options(
                    self@,
                    pairs_view(options@).skip(i as int),
                ),
            decreases n - i,
        {
            let ghost before = self@;
            let option = options[i].0.clone();
            let value = options[i].1.clone();
            self.insert_option(option, value);
            proof {
                let pv = pairs_view(options@);
                let sk = pv.skip(i as int);
                assert(sk.len() == n - i);
                assert(sk[0] == pv[i as int]);
                assert(pv[i as int] == (options@[i as int].0@, options@[i as int].1@));
                assert(sk.drop_first() =~= pv.skip(i + 1));
                assert(node_set_options(before, sk) == node_set_options(self@, pv.skip(i + 1)));
            }
            i = i + 1;
        }
        proof {
            assert(pairs_view(options@).skip(n as int) =~= Seq::<(Seq<char>, Seq<char>)>::empty());
        }
    }

    /// Look an option up by name: its value if the option was given,
    /// `None` otherwise.
    #[verifier::loop_isolation(false)]
    pub fn get_option(&self, option: &str) -> (r: Option<String>)
        requires
            self.wf(),
        ensures
            self@.opts().contains_key(option@) ==> r is Some && r->0@ == self@.opts()[option@],
            !self@.opts().contains_key(option@) ==> r is None,
    {
        let key = option.to_owned();
        let ghost pairs = pairs_view(self.options@);
        proof {
            lemma_opts_map_find(Map::empty(), pairs, option@);
            assert(pairs.skip(0) =~= pairs);
        }
        let n = self.options.len();
        let mut i: usize = 0;
        while i < n
            invariant
                i <= n,
                n == self.options.len(),
                self.wf(),
                pairs == pairs_view(self.options@),
                key@ == option@,
                forall|j: int| 0 <= j < i ==> (#[trigger] pairs[j]).0 != option@,
                assoc_find(pairs, option@) == assoc_find(pairs.skip(i as int), option@),
            decreases n - i,
        {
            if self.options[i].0 == key {
                proof {
                    assert(pairs[i as int] == (self.options@[i as int].0@, self.options@[i
                        as int].1@));
                    assert(pairs.skip(i as int)[0] == pairs[i as int]);
                    assert(pairs.skip(i as int).len() > 0);
                    assert(assoc_find(pairs.skip(i as int), option@) == Some(
                        pairs[i as int].1,
                    ));
                    assert(self@.opts() == insert_all(Map::empty(), pairs));
                }
                return Some(self.options[i].1.clone());
            }
            proof {
                assert(pairs.skip(i as int)[0] == pairs[i as int]);
                assert(pairs.skip(i as int).drop_first() =~= pairs.skip(i + 1));
            }
            i = i + 1;
        }
        proof {
            assert(pairs.skip(n as int) =~= Seq::<(Seq<char>, Seq<char>)>::empty());
            lemma_assoc_find_none(pairs, option@);
        }
        None
    }

    /// Append one positional value.
    pub fn add_value(&mut self, value: String)
        requires
            old(self).wf(),
        ensures
            final(self).wf(),
            final(self)@ == node_add_value(old(self)@, value@),
    {
        match &mut self.values {
            Some(vs) => {
                let ghost cur = vs@;
                vs.push(value);
                proof {
                    assert(strs_view(vs@) =~= strs_view(cur).push(value@));
                }
            },
            None => {
                let mut vs: Vec<String> = Vec::new();
                vs.push(value);
                proof {
                    assert(strs_view(vs@) =~= seq![value@]);
                }
                self.values = Some(vs);
            },
        }
    }

    /// Append a list of positional values, in order.
    pub fn set_values(&mut self, values: Vec<String>)
        requires
            old(self).wf(),
        ensures
            final(self).wf(),
            final(self)@ == node_set_values(old(self)@, strs_view(values@)),
    {
        match &mut self.values {
            Some(vs) => {
                let ghost cur = vs@;
                let mut rest = values;
                vs.append(&mut rest);
                proof {
                    assert(strs_view(vs@) =~= strs_view(cur) + strs_view(values@));
                }
            },
            None => {
                self.values = Some(values);
            },
        }
    }

    /// The positional values, in order, if any were recorded.
    pub fn get_values(&self) -> (r: Option<Vec<String>>)
        ensures
            r is Some <==> self@.vals() is Some,
            r is Some ==> strs_view(r->0@) == self@.vals()->0,
    {
        match &self.values {
            None => None,
            Some(vs) => {
                let mut out: Vec<String> = Vec::new();
                let n = vs.len();
                let mut i: usize = 0;
                while i < n
                    invariant
                        i <= n,
                        n == vs.len(),
                        out@.len() == i as int,
                        forall|j: int| 0 <= j < i ==> (#[trigger] out@[j])@ == vs@[j]@,
                    decreases n - i,
                {
                    out.push(vs[i].clone());
                    i = i + 1;
                }
                proof {
                    assert(strs_view(out@) =~= strs_view(vs@));
                }
                Some(out)
            },
        }
    }

    /// A structurally identical copy of this node.
    pub fn clone_cmd(&self) -> (res: ExeCommandAstNode)
        ensures
            res@ == self@,
            self.wf() ==> res.wf(),
    {
        let mut options: Vec<(String, String)> = Vec::new();
        let n = self.options.len();
        let mut i: usize = 0;
        while i < n
            invariant
                i <= n,
                n == self.options.len(),
                options@.len() == i as int,
                forall|j: int| 0 <= j < i ==> (#[trigger] options@[j]) == self.options@[j],
            decreases n - i,
        {
            options.push((self.options[i].0.clone(), self.options[i].1.clone()));
            i = i + 1;
        }
        proof {
            assert(options@ =~= self.options@);
        }
        let values = match &self.values {
            None => None,
            Some(vs) => {
                let mut out: Vec<String> = Vec::new();
                let m = vs.len();
                let mut i: usize = 0;
                while i < m
                    invariant
                        i <= m,
                        m == vs.len(),
                        out@.len() == i as int,
                        forall|j: int| 0 <= j < i ==> (#[trigger] out@[j]) == vs@[j],
                    decreases m - i,
                {
                    out.push(vs[i].clone());
                    i = i + 1;
                }
                proof {
                    assert(out@ =~= vs@);
                }
                Some(out)
            },
        };
        ExeCommandAstNode {
            command_type: self.command_type,
            token: self.token.clone(),
            options,
            values,
        }
    }
}

/// The view of an execution command node is an execution node.
pub proof fn lemma_exe_view(e: ExeCommandAstNode)
    ensures
        e@ is Exe,
{
}

/// The view of a chain command node is a chain node.
pub proof fn lemma_chain_view(c: ChainCommandAstNode)
    ensures
        c@ is Chain,
{
}

// ===================================================================
// Chain command nodes
// ===================================================================
/// A chain command: a pipeline stage linking a source command, whose
/// output feeds the chain, to a destination command.
#[derive(Debug)]
pub struct ChainCommandAstNode {
    command_type: CommandType,
    token: Token,
    data_source: Option<Box<CommandAstNode>>,
    data_destination: Option<Box<CommandAstNode>>,
}

impl View for ChainCommandAstNode {
    type V = Node;

    closed spec fn view(&self) -> Node
        decreases self,
    {
        Node::Chain {
            token: self.token@,
            source: opt_node_view(self.data_source),
            destination: opt_node_view(self.data_destination),
        }
    }
}

impl ChainCommandAstNode {
    /// Well-formedness: the children, where present, are well-formed.
    pub closed spec fn wf(&self) -> bool
        decreases self,
    {
        &&& self.command_type == CommandType::ChainCommand
        &&& opt_node_wf(self.data_source)
        &&& opt_node_wf(self.data_destination)
    }

    /// A fresh chain node for a pipe token, with no children yet.
    pub fn new(token: Token) -> (n: ChainCommandAstNode)
        ensures
            n@ == chain_node(token@),
            n.wf(),
    {
        ChainCommandAstNode {
            command_type: CommandType::ChainCommand,
            token,
            data_source: None,
            data_destination: None,
        }
    }

    /// The category of the token this chain was built from.
    pub fn token_type(&self) -> (r: &TokenType)
        ensures
            *r == self@.tok().kind,
    {
        &self.token.token_type
    }

    /// The shape of this node: always a chain command.
    pub fn cmd_type(&self) -> (r: &CommandType)
        requires
            self.wf(),
        ensures
            *r == self@.cmd_type(),
    {
        &self.command_type
    }

    /// Set the source child: the command whose output feeds the chain.
    pub fn set_source(&mut self, values: Option<Box<CommandAstNode>>)
        requires
            old(self).wf(),
            opt_node_wf(values),
        ensures
            final(self).wf(),
            final(self)@ == node_set_source(old(self)@, opt_node_view(values)),
    {
        self.data_source = values;
    }

    /// The source child, copied out, if it has been set.
    pub fn get_source(&self) -> (r: Option<Box<CommandAstNode>>)
        requires
            self.wf(),
        ensures
            opt_node_view(r) == self@.src(),
            opt_node_wf(r),
    {
        match &self.data_source {
            None => None,
            Some(b) => Some(Box::new(b.clone_cmd())),
        }
    }

    /// Set the destination child: the command the chain feeds into.
    pub fn set_destination(&mut self, values: Option<Box<CommandAstNode>>)
        requires
            old(self).wf(),
            opt_node_wf(values),
        ensures
            final(self).wf(),
            final(self)@ == node_set_destination(old(self)@, opt_node_view(values)),
    {
        self.data_destination = values;
    }

    /// The destination child, copied out, if it has been set.
    pub fn get_destination(&self) -> (r: Option<Box<CommandAstNode>>)
        requires
            self.wf(),
        ensures
            opt_node_view(r) == self@.dst(),
            opt_node_wf(r),
    {
        match &self.data_destination {
            None => None,
            Some(b) => Some(Box::new(b.clone_cmd())),
        }
    }

    /// A structurally identical copy of this node and its children.
    pub fn clone_cmd(&self) -> (res: ChainCommandAstNode)
        ensures
            res@ == self@,
            self.wf() ==> res.wf(),
        decreases *self,
    {
        let data_source = match &self.data_source {
            None => None,
            Some(b) => Some(Box::new(b.clone_cmd())),
        };
        let data_destination = match &self.data_destination {
            None => None,
            Some(b) => Some(Box::new(b.clone_cmd())),
        };
        ChainCommandAstNode {
            command_type: self.command_type,
            token: self.token.clone(),
            data_source,
            data_destination,
        }
    }
}

} // verus!
