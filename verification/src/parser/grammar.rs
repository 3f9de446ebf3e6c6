use crate::lexer::join_range;
use crate::parser::ast_node_trait::CommandType;
use crate::token::token::{Tok, TokenType};
use vstd::prelude::*;

verus! {

// ===================================================================
// The command tree as a mathematical value
// ===================================================================
/// The model of a command AST node.
///
/// An execution node carries the keyword token it was built from, a map
/// from option name to option value (the empty string for options that
/// take no argument), and the ordered positional values, `None` until
/// the first value is recorded.  A chain node carries the pipe token
/// and its two children; either may be absent while the tree is under
/// construction or after a failed parse.
pub enum Node {
    Exe { token: Tok, opts: Map<Seq<char>, Seq<char>>, values: Option<Seq<Seq<char>>> },
    Chain { token: Tok, source: Option<Box<Node>>, destination: Option<Box<Node>> },
}

impl Node {
    /// The shape of the node: execution or chain.
    pub open spec fn cmd_type(self) -> CommandType {
        match self {
            Node::Exe { .. } => CommandType::ExtCommand,
            Node::Chain { .. } => CommandType::ChainCommand,
        }
    }

    /// The token the node was built from.
    pub open spec fn tok(self) -> Tok {
        match self {
            Node::Exe { token, .. } => token,
            Node::Chain { token, .. } => token,
        }
    }

    /// The option map of an execution node.
    pub open spec fn opts(self) -> Map<Seq<char>, Seq<char>> {
        match self {
            Node::Exe { opts, .. } => opts,
            Node::Chain { .. } => Map::empty(),
        }
    }

    /// The positional values of an execution node.
    pub open spec fn vals(self) -> Option<Seq<Seq<char>>> {
        match self {
            Node::Exe { values, .. } => values,
            Node::Chain { .. } => None,
        }
    }

    /// The source child of a chain node.
    pub open spec fn src(self) -> Option<Box<Node>> {
        match self {
            Node::Exe { .. } => None,
            Node::Chain { source, .. } => source,
        }
    }

    /// The destination child of a chain node.
    pub open spec fn dst(self) -> Option<Box<Node>> {
        match self {
            Node::Exe { .. } => None,
            Node::Chain { destination, .. } => destination,
        }
    }
}

/// A fresh execution node for a keyword token: no options, no values.
pub open spec fn exe_node(token: Tok) -> Node {
    Node::Exe { token, opts: Map::empty(), values: None }
}

/// A fresh chain node for a pipe token: no children yet.
pub open spec fn chain_node(token: Tok) -> Node {
    Node::Chain { token, source: None, destination: None }
}

// ===================================================================
// Option maps
// ===================================================================
/// The views of a sequence of owned string pairs.
pub open spec fn pairs_view(pairs: Seq<(String, String)>) -> Seq<(Seq<char>, Seq<char>)> {
    pairs.map_values(|p: (String, String)| (p.0@, p.1@))
}

/// Insert the given pairs into a map, in order; a later pair with the
/// same name overwrites an earlier one.
pub open spec fn insert_all(
    m: Map<Seq<char>, Seq<char>>,
    pairs: Seq<(Seq<char>, Seq<char>)>,
) -> Map<Seq<char>, Seq<char>>
    decreases pairs.len(),
{
    if pairs.len() == 0 {
        m
    } else {
        insert_all(m.insert(pairs[0].0, pairs[0].1), pairs.drop_first())
    }
}

/// No two pairs carry the same name.
pub open spec fn unique_keys(pairs: Seq<(Seq<char>, Seq<char>)>) -> bool {
    forall|i: int, j: int|
        0 <= i < j < pairs.len() ==> (#[trigger] pairs[i]).0 != (#[trigger] pairs[j]).0
}

/// The first pair with the given name, if any.
pub open spec fn assoc_find(pairs: Seq<(Seq<char>, Seq<char>)>, k: Seq<char>) -> Option<
    Seq<char>,
>
    decreases pairs.len(),
{
    if pairs.len() == 0 {
        None
    } else if pairs[0].0 == k {
        Some(pairs[0].1)
    } else {
        assoc_find(pairs.drop_first(), k)
    }
}

/// A name that occurs in no pair is not found.
pub proof fn lemma_assoc_find_none(pairs: Seq<(Seq<char>, Seq<char>)>, k: Seq<char>)
    requires
        forall|i: int| 0 <= i < pairs.len() ==> (#[trigger] pairs[i]).0 != k,
    ensures
        assoc_find(pairs, k) is None,
    decreases pairs.len(),
{
    if pairs.len() > 0 {
        assert(forall|i: int|
            0 <= i < pairs.drop_first().len() ==> (#[trigger] pairs.drop_first()[i]) == pairs[i
                + 1]);
        lemma_assoc_find_none(pairs.drop_first(), k);
    }
}

/// Dropping the first pair keeps the names unique.
pub proof fn lemma_unique_drop_first(pairs: Seq<(Seq<char>, Seq<char>)>)
    requires
        unique_keys(pairs),
        pairs.len() > 0,
    ensures
        unique_keys(pairs.drop_first()),
{
    assert forall|i: int, j: int|
        0 <= i < j < pairs.drop_first().len() implies (#[trigger] pairs.drop_first()[i]).0 != (
    #[trigger] pairs.drop_first()[j]).0 by {
        assert(pairs.drop_first()[i] == pairs[i + 1]);
        assert(pairs.drop_first()[j] == pairs[j + 1]);
    }
}

/// With unique names, looking a name up in the folded map agrees with
/// scanning the pairs for their first (and only) occurrence of it.
pub proof fn lemma_opts_map_find(
    m: Map<Seq<char>, Seq<char>>,
    pairs: Seq<(Seq<char>, Seq<char>)>,
    k: Seq<char>,
)
    requires
        unique_keys(pairs),
    ensures
        match assoc_find(pairs, k) {
            Some(v) => insert_all(m, pairs).contains_key(k) && insert_all(m, pairs)[k] == v,
            None => (insert_all(m, pairs).contains_key(k) <==> m.contains_key(k)) && (
            m.contains_key(k) ==> insert_all(m, pairs)[k] == m[k]),
        },
    decreases pairs.len(),
{
    if pairs.len() > 0 {
        let m2 = m.insert(pairs[0].0, pairs[0].1);
        lemma_unique_drop_first(pairs);
        lemma_opts_map_find(m2, pairs.drop_first(), k);
        if pairs[0].0 == k {
            assert(forall|i: int|
                0 <= i < pairs.drop_first().len() ==> (#[trigger] pairs.drop_first()[i]) == pairs[
                    i + 1]);
            lemma_assoc_find_none(pairs.drop_first(), k);
        }
    }
}

/// Inserting a pair whose name none of the later pairs carry commutes
/// with folding those pairs in.
pub proof fn lemma_insert_all_absent(
    m: Map<Seq<char>, Seq<char>>,
    pairs: Seq<(Seq<char>, Seq<char>)>,
    k: Seq<char>,
    v: Seq<char>,
)
    requires
        forall|i: int| 0 <= i < pairs.len() ==> (#[trigger] pairs[i]).0 != k,
    ensures
        insert_all(m.insert(k, v), pairs) == insert_all(m, pairs).insert(k, v),
    decreases pairs.len(),
{
    if pairs.len() == 0 {
    } else {
        assert(forall|i: int|
            0 <= i < pairs.drop_first().len() ==> (#[trigger] pairs.drop_first()[i]) == pairs[i
                + 1]);
        let p0 = pairs[0];
        assert(m.insert(k, v).insert(p0.0, p0.1) =~= m.insert(p0.0, p0.1).insert(k, v));
        lemma_insert_all_absent(m.insert(p0.0, p0.1), pairs.drop_first(), k, v);
    }
}

/// Appending a pair to the sequence inserts it into the folded map.
pub proof fn lemma_insert_all_push(
    m: Map<Seq<char>, Seq<char>>,
    pairs: Seq<(Seq<char>, Seq<char>)>,
    kv: (Seq<char>, Seq<char>),
)
    ensures
        insert_all(m, pairs.push(kv)) == insert_all(m, pairs).insert(kv.0, kv.1),
    decreases pairs.len(),
{
    if pairs.len() == 0 {
        assert(pairs.push(kv)[0] == kv);
        assert(pairs.push(kv).drop_first() =~= Seq::<(Seq<char>, Seq<char>)>::empty());
        assert(insert_all(m, pairs.push(kv)) == insert_all(
            m.insert(kv.0, kv.1),
            Seq::<(Seq<char>, Seq<char>)>::empty(),
        ));
        assert(insert_all(m.insert(kv.0, kv.1), Seq::<(Seq<char>, Seq<char>)>::empty())
            == m.insert(kv.0, kv.1));
        assert(insert_all(m, pairs) == m);
    } else {
        let m2 = m.insert(pairs[0].0, pairs[0].1);
        assert(pairs.push(kv)[0] == pairs[0]);
        assert(pairs.push(kv).drop_first() =~= pairs.drop_first().push(kv));
        assert(insert_all(m, pairs.push(kv)) == insert_all(m2, pairs.drop_first().push(kv)));
        lemma_insert_all_push(m2, pairs.drop_first(), kv);
        assert(insert_all(m, pairs) == insert_all(m2, pairs.drop_first()));
    }
}

/// Overwriting the pair that carries a name updates that name in the
/// folded map.
pub proof fn lemma_insert_all_update(
    m: Map<Seq<char>, Seq<char>>,
    pairs: Seq<(Seq<char>, Seq<char>)>,
    idx: int,
    kv: (Seq<char>, Seq<char>),
)
    requires
        unique_keys(pairs),
        0 <= idx < pairs.len(),
        pairs[idx].0 == kv.0,
    ensures
        insert_all(m, pairs.update(idx, kv)) == insert_all(m, pairs).insert(kv.0, kv.1),
    decreases pairs.len(),
{
    let rest = pairs.drop_first();
    assert(forall|i: int| 0 <= i < rest.len() ==> (#[trigger] rest[i]) == pairs[i + 1]);
    if idx == 0 {
        assert(pairs.update(0, kv)[0] == kv);
        assert(pairs.update(0, kv).drop_first() =~= rest);
        assert(forall|i: int| 0 <= i < rest.len() ==> (#[trigger] rest[i]).0 != kv.0);
        lemma_insert_all_absent(m, rest, kv.0, kv.1);
        lemma_insert_all_absent(m, rest, kv.0, pairs[0].1);
        assert(insert_all(m, rest).insert(kv.0, pairs[0].1).insert(kv.0, kv.1) =~= insert_all(
            m,
            rest,
        ).insert(kv.0, kv.1));
    } else {
        lemma_unique_drop_first(pairs);
        assert(pairs.update(idx, kv)[0] == pairs[0]);
        assert(pairs.update(idx, kv).drop_first() =~= rest.update(idx - 1, kv));
        assert(rest[idx - 1] == pairs[idx]);
        lemma_insert_all_update(m.insert(pairs[0].0, pairs[0].1), rest, idx - 1, kv);
    }
}

/// The option map described by a sequence of name/value pairs.
pub open spec fn opts_map(pairs: Seq<(Seq<char>, Seq<char>)>) -> Map<Seq<char>, Seq<char>> {
    insert_all(Map::empty(), pairs)
}

/// Record one option on a node, overwriting any earlier value under
/// the same name; a chain node has no options and ignores it.
pub open spec fn node_insert_opt(n: Node, k: Seq<char>, v: Seq<char>) -> Node {
    match n {
        Node::Exe { token, opts, values } => Node::Exe { token, opts: opts.insert(k, v), values },
        Node::Chain { .. } => n,
    }
}

/// Record options on a node: an execution node folds the pairs into its
/// option map; a chain node has no options and ignores them.
pub open spec fn node_set_options(n: Node, pairs: Seq<(Seq<char>, Seq<char>)>) -> Node {
    match n {
        Node::Exe { token, opts, values } => Node::Exe {
            token,
            opts: insert_all(opts, pairs),
            values,
        },
        Node::Chain { .. } => n,
    }
}

/// Append one positional value to an execution node.
pub open spec fn node_add_value(n: Node, v: Seq<char>) -> Node {
    match n {
        Node::Exe { token, opts, values } => Node::Exe {
            token,
            opts,
            values: match values {
                None => Some(seq![v]),
                Some(vs) => Some(vs.push(v)),
            },
        },
        Node::Chain { .. } => n,
    }
}

/// Append positional values to an execution node.
pub open spec fn node_set_values(n: Node, vs: Seq<Seq<char>>) -> Node {
    match n {
        Node::Exe { token, opts, values } => Node::Exe {
            token,
            opts,
            values: match values {
                None => Some(vs),
                Some(cur) => Some(cur + vs),
            },
        },
        Node::Chain { .. } => n,
    }
}

/// Set the source child of a chain node; an execution node has no
/// children and ignores it.
pub open spec fn node_set_source(n: Node, v: Option<Box<Node>>) -> Node {
    match n {
        Node::Exe { .. } => n,
        Node::Chain { token, source, destination } => Node::Chain {
            token,
            source: v,
            destination,
        },
    }
}

/// Set the destination child of a chain node; an execution node has no
/// children and ignores it.
pub open spec fn node_set_destination(n: Node, v: Option<Box<Node>>) -> Node {
    match n {
        Node::Exe { .. } => n,
        Node::Chain { token, source, destination } => Node::Chain {
            token,
            source,
            destination: v,
        },
    }
}

/// The views of a sequence of owned strings.
pub open spec fn strs_view(vs: Seq<String>) -> Seq<Seq<char>> {
    vs.map_values(|s: String| s@)
}


// ===================================================================
// Token-kind classes the grammar is driven by
// ===================================================================
/// A command keyword token.
pub open spec fn is_command_kind(k: TokenType) -> bool {
    k == TokenType::Ls || k == TokenType::Cd || k == TokenType::Grep || k == TokenType::Cat
}

/// An option token, short or long.
pub open spec fn is_param_kind(k: TokenType) -> bool {
    k == TokenType::ShortParam || k == TokenType::LongParam
}

/// A token that can be part of a path, or of a quoted pattern.
pub open spec fn is_path_kind(k: TokenType) -> bool {
    k == TokenType::Literal || k == TokenType::Num || k == TokenType::Slash || k
        == TokenType::Dot || k == TokenType::Tilde
}

/// A token that can stand as an option's value.
pub open spec fn is_value_kind(k: TokenType) -> bool {
    k == TokenType::Literal || k == TokenType::Num
}

/// The one option that takes a bare following value: `ls --depth 3`.
/// Every other option takes a value only through `=`.
pub open spec fn takes_bare_value(cmd: TokenType, key: Seq<char>) -> bool {
    cmd == TokenType::Ls && key == "--depth"@
}

// ===================================================================
// Cursor motion
// ===================================================================
/// One step of the token cursor: the parser advances by one token and
/// then stays on the final `Eof` token forever.
pub open spec fn adv(toks: Seq<Tok>, q: int) -> int {
    if q + 1 < toks.len() {
        q + 1
    } else {
        q
    }
}

/// Clamp a cursor position so that, whatever the input, the grammar
/// functions advance and stay inside the token stream.  On well-formed
/// streams the clamps never act (see the range lemmas below).
pub open spec fn bump(toks: Seq<Tok>, q: int, e: int) -> int {
    if e <= q {
        q + 1
    } else if e > toks.len() {
        toks.len() as int
    } else {
        e
    }
}

// ===================================================================
// Error messages
// ===================================================================
/// An error record: the source text of the span it arose from,
/// re-joined from the tokens in `[lo, hi)`, then the message.
pub open spec fn err_msg(toks: Seq<Tok>, lo: int, hi: int, m: Seq<char>) -> Seq<char> {
    join_range(toks, lo, hi) + ": "@ + m
}

/// A token that is not a command keyword where one is required.
pub open spec fn msg_invalid() -> Seq<char> {
    "Invalid command"@
}

/// A pattern-search command with no opening quote for its pattern.
pub open spec fn msg_missing_pattern() -> Seq<char> {
    "Missing pattern. You can use `\"` to quote the pattern."@
}

/// A pattern-search command whose pattern never closes.
pub open spec fn msg_missing_rquote() -> Seq<char> {
    "Invalid pattern, missing right quotation mark."@
}

/// A pattern-search command with no path after its pattern.
pub open spec fn msg_needs_path() -> Seq<char> {
    "Grep command needs a path"@
}

// ===================================================================
// The grammar, one production per function
// ===================================================================
/// One option: its name, then an optional value.  A value is taken
/// after `=` for any option, or bare (no `=`) for the options that
/// allow it; otherwise the value is the empty string.
pub open spec fn sp_option(toks: Seq<Tok>, q: int, bare: bool) -> (Seq<char>, Seq<char>, int) {
    let key = toks[q].lit;
    let q1 = adv(toks, q);
    if toks[q1].kind == TokenType::Assignment {
        let q2 = adv(toks, q1);
        if is_value_kind(toks[q2].kind) {
            (key, toks[q2].lit, adv(toks, q2))
        } else {
            (key, Seq::empty(), q2)
        }
    } else if bare && is_value_kind(toks[q1].kind) {
        (key, toks[q1].lit, adv(toks, q1))
    } else {
        (key, Seq::empty(), q1)
    }
}

/// The run of options at the front of a command, in order.
pub open spec fn sp_options(toks: Seq<Tok>, q: int, cmd: TokenType) -> (
    Seq<(Seq<char>, Seq<char>)>,
    int,
)
    decreases toks.len() - q when 0 <= q <= toks.len()
{
    if q < toks.len() && is_param_kind(toks[q].kind) {
        let r = sp_option(toks, q, takes_bare_value(cmd, toks[q].lit));
        let rest = sp_options(toks, bump(toks, q, r.2), cmd);
        (seq![(r.0, r.1)] + rest.0, rest.1)
    } else {
        (Seq::empty(), q)
    }
}

/// The tokens of one path (or of a quoted pattern's body), concatenated
/// without separators onto `acc`.
pub open spec fn sp_path_rest(toks: Seq<Tok>, q: int, acc: Seq<char>) -> (Seq<char>, int)
    decreases toks.len() - q when 0 <= q <= toks.len()
{
    if q < toks.len() && is_path_kind(toks[q].kind) {
        sp_path_rest(toks, bump(toks, q, adv(toks, q)), acc + toks[q].lit)
    } else {
        (acc, q)
    }
}

/// One path: the token under the cursor, then every following token
/// that can continue a path, concatenated.
pub open spec fn sp_path(toks: Seq<Tok>, q: int) -> (Seq<char>, int) {
    sp_path_rest(toks, bump(toks, q, adv(toks, q)), toks[q].lit)
}

/// A comma-separated list of paths.  Parsing stops at the first token
/// that cannot start a path; a comma not followed by a path ends the
/// list as well.
pub open spec fn sp_paths(toks: Seq<Tok>, q: int) -> (Seq<Seq<char>>, int)
    decreases toks.len() - q when 0 <= q <= toks.len()
{
    if q < toks.len() && is_path_kind(toks[q].kind) {
        let p = sp_path(toks, q);
        let q1 = bump(toks, q, p.1);
        if q1 < toks.len() && toks[q1].kind == TokenType::Comma {
            let rest = sp_paths(toks, bump(toks, q1, adv(toks, q1)));
            (seq![p.0] + rest.0, rest.1)
        } else {
            (seq![p.0], q1)
        }
    } else {
        (Seq::empty(), q)
    }
}

/// The outcome of parsing a quoted pattern.
pub ghost enum PatternResult {
    Found { pat: Seq<char>, q: int },
    MissingOpen { q: int },
    MissingClose { q: int },
}

/// A quoted pattern: an opening quote, any run of pattern tokens
/// concatenated, and a closing quote.  A pattern with no tokens between
/// the quotes is the valid empty pattern.
pub open spec fn sp_pattern(toks: Seq<Tok>, q: int) -> PatternResult {
    if !(q < toks.len() && toks[q].kind == TokenType::Quote) {
        PatternResult::MissingOpen { q }
    } else {
        let r = sp_path_rest(toks, bump(toks, q, adv(toks, q)), Seq::empty());
        if r.1 < toks.len() && toks[r.1].kind == TokenType::Quote {
            PatternResult::Found { pat: r.0, q: bump(toks, r.1, adv(toks, r.1)) }
        } else {
            PatternResult::MissingClose { q: r.1 }
        }
    }
}

/// The body of one command, without chaining: the keyword, its options,
/// for the pattern-search command its mandatory quoted pattern and
/// mandatory paths, and for every other command its optional paths.
///
/// Returns the node built (`None` when a missing or unclosed pattern
/// aborts the command), the final cursor, and the errors recorded.
/// `start` is where the error spans of this command begin.
pub open spec fn sp_cmd_body(toks: Seq<Tok>, q: int, start: int) -> (
    Option<Node>,
    int,
    Seq<Seq<char>>,
) {
    let tok = toks[q];
    let q1 = bump(toks, q, adv(toks, q));
    if tok.kind == TokenType::Grep {
        let o = sp_options(toks, q1, TokenType::Grep);
        let base = node_set_options(exe_node(tok), o.0);
        match sp_pattern(toks, o.1) {
            PatternResult::MissingOpen { q: q3 } => (
                None,
                q3,
                seq![err_msg(toks, start, q3 + 1, msg_missing_pattern())],
            ),
            PatternResult::MissingClose { q: q3 } => (
                None,
                q3,
                seq![err_msg(toks, start, q3 + 1, msg_missing_rquote())],
            ),
            PatternResult::Found { pat, q: q3 } => {
                let with_pat = node_add_value(base, pat);
                let pr = sp_paths(toks, q3);
                if pr.0.len() == 0 {
                    (
                        Some(with_pat),
                        pr.1,
                        seq![err_msg(toks, start, pr.1 + 1, msg_needs_path())],
                    )
                } else {
                    (Some(node_set_values(with_pat, pr.0)), pr.1, Seq::empty())
                }
            },
        }
    } else {
        let o = sp_options(toks, q1, tok.kind);
        let base = node_set_options(exe_node(tok), o.0);
        let pr = sp_paths(toks, o.1);
        if pr.0.len() == 0 {
            (Some(base), pr.1, Seq::empty())
        } else {
            (Some(node_set_values(base, pr.0)), pr.1, Seq::empty())
        }
    }
}

/// One full command: its body, then — when the body succeeded without
/// errors and a pipe follows — the chain: the pipe is consumed and the
/// rest of the line is parsed as the chain's destination, recursively,
/// so `a | b | c` associates as `Chain(a, Chain(b, c))`.  A pipe whose
/// destination is not a command leaves the destination absent, without
/// an error of its own.
pub open spec fn sp_cmd(toks: Seq<Tok>, q: int, start: int) -> (Option<Node>, int, Seq<Seq<char>>)
    decreases toks.len() - q when 0 <= q <= toks.len()
{
    if !(q < toks.len() && is_command_kind(toks[q].kind)) {
        (None, q, Seq::empty())
    } else {
        let b = sp_cmd_body(toks, q, start);
        match b.0 {
            None => b,
            Some(node) => {
                let q1 = bump(toks, q, b.1);
                if b.2.len() == 0 && q1 < toks.len() && toks[q1].kind == TokenType::Pipe {
                    let qp = bump(toks, q1, adv(toks, q1));
                    let d = sp_cmd(toks, qp, start);
                    (
                        Some(
                            Node::Chain {
                                token: toks[q1],
                                source: Some(Box::new(node)),
                                destination: match d.0 {
                                    None => None,
                                    Some(dn) => Some(Box::new(dn)),
                                },
                            },
                        ),
                        d.1,
                        d.2,
                    )
                } else {
                    (Some(node), b.1, b.2)
                }
            },
        }
    }
}

/// The whole line: while the cursor is not at `Eof`, require a command
/// keyword (else record one "invalid command" error and stop), parse
/// one command, store its node, advance past the final token looked at,
/// and start the next command's error span there.  A command that
/// recorded an error ends the line.
pub open spec fn sp_run(toks: Seq<Tok>, q: int, start: int) -> (Seq<Node>, Seq<Seq<char>>)
    decreases toks.len() - q when 0 <= q <= toks.len()
{
    if !(q < toks.len()) || toks[q].kind == TokenType::Eof {
        (Seq::empty(), Seq::empty())
    } else if !is_command_kind(toks[q].kind) {
        (Seq::empty(), seq![err_msg(toks, start, q + 1, msg_invalid())])
    } else {
        let c = sp_cmd(toks, q, start);
        match c.0 {
            None => (Seq::empty(), c.2),
            Some(node) => {
                if c.2.len() > 0 {
                    (seq![node], c.2)
                } else {
                    let q2 = bump(toks, q, adv(toks, c.1));
                    let r = sp_run(toks, q2, q2);
                    (seq![node] + r.0, r.1)
                }
            },
        }
    }
}



// ===================================================================
// Range lemmas: on well-formed token streams the clamps in `bump`
// never act, and every production moves the cursor only forward,
// never past the final `Eof` token.
// ===================================================================
/// The token stream the grammar runs on: nonempty, exactly one `Eof`,
/// at the end.  (Re-stated here from the scanner's side for reference.)
pub open spec fn wf_stream(toks: Seq<Tok>) -> bool {
    crate::lexer::wf_toks(toks)
}

/// A non-`Eof` token never sits on the last position, so `adv` really
/// advances there.
pub proof fn lemma_adv(toks: Seq<Tok>, q: int)
    requires
        wf_stream(toks),
        0 <= q < toks.len(),
    ensures
        q <= adv(toks, q) < toks.len(),
        toks[q].kind != TokenType::Eof ==> adv(toks, q) == q + 1,
{
    if toks[q].kind != TokenType::Eof {
        assert(toks[toks.len() - 1] == crate::lexer::eof_tok());
    }
}

/// Range of `sp_option`: it consumes the option token and stays inside
/// the stream.
pub proof fn lemma_sp_option_range(toks: Seq<Tok>, q: int, bare: bool)
    requires
        wf_stream(toks),
        0 <= q < toks.len(),
        is_param_kind(toks[q].kind),
    ensures
        q + 1 <= sp_option(toks, q, bare).2 < toks.len(),
{
    lemma_adv(toks, q);
    let q1 = adv(toks, q);
    lemma_adv(toks, q1);
    if toks[q1].kind == TokenType::Assignment {
        let q2 = adv(toks, q1);
        lemma_adv(toks, q2);
    }
}

/// Range of `sp_options`.
pub proof fn lemma_sp_options_range(toks: Seq<Tok>, q: int, cmd: TokenType)
    requires
        wf_stream(toks),
        0 <= q < toks.len(),
    ensures
        q <= sp_options(toks, q, cmd).1 < toks.len(),
    decreases toks.len() - q,
{
    if is_param_kind(toks[q].kind) {
        let r = sp_option(toks, q, takes_bare_value(cmd, toks[q].lit));
        lemma_sp_option_range(toks, q, takes_bare_value(cmd, toks[q].lit));
        assert(bump(toks, q, r.2) == r.2);
        lemma_sp_options_range(toks, r.2, cmd);
    }
}

/// Range of `sp_path_rest`.
pub proof fn lemma_sp_path_rest_range(toks: Seq<Tok>, q: int, acc: Seq<char>)
    requires
        wf_stream(toks),
        0 <= q < toks.len(),
    ensures
        q <= sp_path_rest(toks, q, acc).1 < toks.len(),
    decreases toks.len() - q,
{
    if is_path_kind(toks[q].kind) {
        lemma_adv(toks, q);
        assert(bump(toks, q, adv(toks, q)) == q + 1);
        lemma_sp_path_rest_range(toks, q + 1, acc + toks[q].lit);
    }
}

/// Range of `sp_path`: it consumes its first token.
pub proof fn lemma_sp_path_range(toks: Seq<Tok>, q: int)
    requires
        wf_stream(toks),
        0 <= q < toks.len(),
        is_path_kind(toks[q].kind),
    ensures
        q + 1 <= sp_path(toks, q).1 < toks.len(),
{
    lemma_adv(toks, q);
    assert(bump(toks, q, adv(toks, q)) == q + 1);
    lemma_sp_path_rest_range(toks, q + 1, toks[q].lit);
}

/// Range of `sp_paths`.
pub proof fn lemma_sp_paths_range(toks: Seq<Tok>, q: int)
    requires
        wf_stream(toks),
        0 <= q < toks.len(),
    ensures
        q <= sp_paths(toks, q).1 < toks.len(),
    decreases toks.len() - q,
{
    if is_path_kind(toks[q].kind) {
        lemma_sp_path_range(toks, q);
        let p = sp_path(toks, q);
        assert(bump(toks, q, p.1) == p.1);
        if p.1 < toks.len() && toks[p.1].kind == TokenType::Comma {
            lemma_adv(toks, p.1);
            assert(bump(toks, p.1, adv(toks, p.1)) == p.1 + 1);
            lemma_sp_paths_range(toks, p.1 + 1);
        }
    }
}

/// Range of `sp_pattern`.
pub proof fn lemma_sp_pattern_range(toks: Seq<Tok>, q: int)
    requires
        wf_stream(toks),
        0 <= q < toks.len(),
    ensures
        match sp_pattern(toks, q) {
            PatternResult::Found { pat, q: e } => q + 1 <= e < toks.len(),
            PatternResult::MissingOpen { q: e } => e == q,
            PatternResult::MissingClose { q: e } => q + 1 <= e < toks.len(),
        },
{
    if q < toks.len() && toks[q].kind == TokenType::Quote {
        lemma_adv(toks, q);
        assert(bump(toks, q, adv(toks, q)) == q + 1);
        lemma_sp_path_rest_range(toks, q + 1, Seq::empty());
        let r = sp_path_rest(toks, bump(toks, q, adv(toks, q)), Seq::empty());
        if r.1 < toks.len() && toks[r.1].kind == TokenType::Quote {
            lemma_adv(toks, r.1);
        }
    }
}

/// Range of `sp_cmd_body`: it consumes at least the keyword token.
pub proof fn lemma_sp_cmd_body_range(toks: Seq<Tok>, q: int, start: int)
    requires
        wf_stream(toks),
        0 <= q < toks.len(),
        is_command_kind(toks[q].kind),
    ensures
        q + 1 <= sp_cmd_body(toks, q, start).1 < toks.len(),
{
    lemma_adv(toks, q);
    assert(bump(toks, q, adv(toks, q)) == q + 1);
    let q1 = q + 1;
    let tok = toks[q];
    if tok.kind == TokenType::Grep {
        lemma_sp_options_range(toks, q1, TokenType::Grep);
        let o = sp_options(toks, q1, TokenType::Grep);
        lemma_sp_pattern_range(toks, o.1);
        match sp_pattern(toks, o.1) {
            PatternResult::Found { pat, q: q3 } => {
                lemma_sp_paths_range(toks, q3);
            },
            PatternResult::MissingOpen { .. } => {},
            PatternResult::MissingClose { .. } => {},
        }
    } else {
        lemma_sp_options_range(toks, q1, tok.kind);
        let o = sp_options(toks, q1, tok.kind);
        lemma_sp_paths_range(toks, o.1);
    }
}

/// Range of `sp_cmd`.
pub proof fn lemma_sp_cmd_range(toks: Seq<Tok>, q: int, start: int)
    requires
        wf_stream(toks),
        0 <= q < toks.len(),
    ensures
        q <= sp_cmd(toks, q, start).1 < toks.len(),
        is_command_kind(toks[q].kind) ==> q + 1 <= sp_cmd(toks, q, start).1,
    decreases toks.len() - q,
{
    if is_command_kind(toks[q].kind) {
        lemma_sp_cmd_body_range(toks, q, start);
        let b = sp_cmd_body(toks, q, start);
        match b.0 {
            None => {},
            Some(node) => {
                assert(bump(toks, q, b.1) == b.1);
                if b.2.len() == 0 && b.1 < toks.len() && toks[b.1].kind == TokenType::Pipe {
                    lemma_adv(toks, b.1);
                    assert(bump(toks, b.1, adv(toks, b.1)) == b.1 + 1);
                    lemma_sp_cmd_range(toks, b.1 + 1, start);
                }
            },
        }
    }
}



// ===================================================================
// The shape of every parsed tree
// ===================================================================
/// The documented shape of a finished command tree: an execution node
/// carries a command keyword; a chain node carries the pipe token, its
/// source is always present and always an execution node, and its
/// destination, when present — it is absent only when the input ended
/// or broke off after the pipe — has the same shape, recursively.
pub open spec fn tree_shape(n: Node) -> bool
    decreases n,
{
    match n {
        Node::Exe { token, .. } => is_command_kind(token.kind),
        Node::Chain { token, source, destination } => {
            &&& token.kind == TokenType::Pipe
            &&& match source {
                Some(s) => (*s) is Exe && tree_shape(*s),
                None => false,
            }
            &&& match destination {
                Some(d) => tree_shape(*d),
                None => true,
            }
        },
    }
}

/// The body of a command always builds an execution node, for the
/// keyword token it started at.
pub proof fn lemma_sp_cmd_body_exe(toks: Seq<Tok>, q: int, start: int)
    ensures
        match sp_cmd_body(toks, q, start).0 {
            Some(n) => n is Exe && n.tok() == toks[q],
            None => true,
        },
{
}

/// Every tree `sp_cmd` yields has the documented shape.
pub proof fn lemma_sp_cmd_shape(toks: Seq<Tok>, q: int, start: int)
    requires
        0 <= q <= toks.len(),
    ensures
        match sp_cmd(toks, q, start).0 {
            Some(n) => tree_shape(n),
            None => true,
        },
    decreases toks.len() - q,
{
    if q < toks.len() && is_command_kind(toks[q].kind) {
        lemma_sp_cmd_body_exe(toks, q, start);
        let b = sp_cmd_body(toks, q, start);
        match b.0 {
            None => {},
            Some(node) => {
                assert(tree_shape(node));
                let q1 = bump(toks, q, b.1);
                if b.2.len() == 0 && q1 < toks.len() && toks[q1].kind == TokenType::Pipe {
                    let qp = bump(toks, q1, adv(toks, q1));
                    lemma_sp_cmd_shape(toks, qp, start);
                    let d = sp_cmd(toks, qp, start);
                    assert(*Box::new(node) == node);
                    match d.0 {
                        None => {},
                        Some(dn) => {
                            assert(*Box::new(dn) == dn);
                        },
                    }
                    assert(tree_shape(sp_cmd(toks, q, start).0->0));
                }
            },
        }
    }
}

/// Every tree the parser stores has the documented shape: this is the
/// structural invariant of the whole AST, proved for every input line.
pub proof fn lemma_parsed_tree_shape(toks: Seq<Tok>, q: int, start: int, i: int)
    requires
        0 <= q <= toks.len(),
        0 <= i < sp_run(toks, q, start).0.len(),
    ensures
        tree_shape(sp_run(toks, q, start).0[i]),
    decreases toks.len() - q,
{
    if q < toks.len() && toks[q].kind != TokenType::Eof && is_command_kind(toks[q].kind) {
        lemma_sp_cmd_shape(toks, q, start);
        let c = sp_cmd(toks, q, start);
        match c.0 {
            None => {},
            Some(node) => {
                if c.2.len() > 0 {
                } else {
                    let q2 = bump(toks, q, adv(toks, c.1));
                    if i == 0 {
                        assert(sp_run(toks, q, start).0[0] == node);
                    } else {
                        assert(sp_run(toks, q, start).0[i] == sp_run(toks, q2, q2).0[i - 1]);
                        lemma_parsed_tree_shape(toks, q2, q2, i - 1);
                    }
                }
            },
        }
    }
}


} // verus!
