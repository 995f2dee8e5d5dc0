//! The command tree: a trie of command words, resolution of a token
//! sequence to a node, contextual help, and the per-line dispatch
//! decision that intercepts `help`.

use vstd::prelude::*;

verus! {

use crate::text::{join_words_spec, str_eq, strs_view};

/// Which handler a resolvable command stands for.
#[derive(Clone, Copy, Debug, PartialEq, Eq, Structural)]
pub enum HandlerId {
    AddExpense,
    AddSheet,
    DeleteSheet,
    DeleteExpense,
    ShowExpenses,
    ShowSheets,
    ShowCategories,
    Select,
}

/// One node of the command tree: a word, its help description, its
/// child words, and, on nodes that accept trailing arguments, the
/// handler to run. `extra_args` holds exactly of nodes that own a
/// handler; resolution stops at such a node and the remaining tokens
/// become the handler's argument tail.
pub struct CommandNode {
    pub cmd: String,
    pub description: String,
    pub children: Vec<CommandNode>,
    pub handler: Option<HandlerId>,
    pub extra_args: bool,
}

/// Resolution from a node: an empty token list names the node itself,
/// a node that accepts trailing arguments captures whatever remains,
/// and otherwise the first token must name a child, by exact word
/// equality.
pub open spec fn resolve_node(node: CommandNode, toks: Seq<Seq<char>>) -> Option<CommandNode>
    decreases toks.len(), node.children@.len() + 1,
{
    if toks.len() == 0 || node.extra_args {
        Some(node)
    } else {
        resolve_children(node.children@, 0, toks)
    }
}

/// Resolution against the children from index `i` on: the first child
/// whose word equals the first token takes over.
pub open spec fn resolve_children(cs: Seq<CommandNode>, i: int, toks: Seq<Seq<char>>) -> Option<
    CommandNode,
>
    decreases toks.len(), cs.len() - i,
{
    if toks.len() == 0 || i < 0 || i >= cs.len() {
        None
    } else if cs[i].cmd@ == toks[0] {
        resolve_node(cs[i], toks.drop_first())
    } else {
        resolve_children(cs, i + 1, toks)
    }
}

/// A node that accepts trailing arguments resolves to itself whatever
/// the tokens: nothing past it is searched, and the whole remainder
/// is its argument tail.
pub proof fn lemma_resolution_stops_at_handler(node: CommandNode, toks: Seq<Seq<char>>)
    requires
        node.extra_args,
    ensures
        resolve_node(node, toks) == Some(node),
{
}

impl CommandNode {
    /// Builds a leaf node. The node accepts trailing arguments
    /// exactly when it owns a handler.
    pub fn new(cmd: &str, description: &str, handler: Option<HandlerId>) -> (r: CommandNode)
        ensures
            r.cmd@ == cmd@,
            r.description@ == description@,
            r.children@.len() == 0,
            r.handler == handler,
            r.extra_args == (handler is Some),
    {
        let extra_args = match handler {
            Some(_) => true,
            None => false,
        };
        CommandNode {
            cmd: String::from_str(cmd),
            description: String::from_str(description),
            children: Vec::new(),
            handler,
            extra_args,
        }
    }

    /// Appends a child, builder style.
    pub fn add_child(self, child: CommandNode) -> (r: CommandNode)
        ensures
            r.cmd == self.cmd,
            r.description == self.description,
            r.handler == self.handler,
            r.extra_args == self.extra_args,
            r.children@ == self.children@.push(child),
    {
        let mut s = self;
        s.children.push(child);
        s
    }

    /// Resolves the tokens from index `from` up to `to` against this
    /// node.
    pub fn find_command<'a>(&'a self, tokens: &Vec<String>, from: usize, to: usize) -> (r: Option<
        &'a CommandNode,
    >)
        requires
            from <= to <= tokens@.len(),
        ensures
            match r {
                Some(n) => resolve_node(*self, strs_view(tokens@).subrange(from as int, to as int))
                    == Some(*n),
                None => resolve_node(*self, strs_view(tokens@).subrange(from as int, to as int))
                    is None,
            },
        decreases to - from,
    {
        let ghost toks = strs_view(tokens@).subrange(from as int, to as int);
        if from == to || self.extra_args {
            return Some(self);
        }
        proof {
            assert(toks[0] == tokens@[from as int]@);
            assert(toks.drop_first() =~= strs_view(tokens@).subrange(from + 1 as int, to as int));
        }
        let first = &tokens[from];
        let mut j: usize = 0;
        let n = self.children.len();
        while j < n
            invariant
                j <= n,
                n == self.children@.len(),
                from < to <= tokens@.len(),
                !self.extra_args,
                toks == strs_view(tokens@).subrange(from as int, to as int),
                toks.len() > 0,
                toks[0] == tokens@[from as int]@,
                toks.drop_first() == strs_view(tokens@).subrange(from + 1 as int, to as int),
                first == &tokens[from as int],
                resolve_node(*self, toks) == resolve_children(self.children@, j as int, toks),
            decreases n - j,
        {
            let child = &self.children[j];
            if str_eq(child.cmd.as_str(), first.as_str()) {
                let r = child.find_command(tokens, from + 1, to);
                proof {
                    assert(resolve_children(self.children@, j as int, toks) == resolve_node(
                        self.children@[j as int],
                        toks.drop_first(),
                    ));
                }
                return r;
            }
            j = j + 1;
        }
        None
    }
}

// ------------------------------------------------------------------
// Contextual help
// ------------------------------------------------------------------

/// The help lines for the children of a node.
pub open spec fn child_lines_spec(cs: Seq<CommandNode>) -> Seq<char>
    decreases cs.len(),
{
    if cs.len() == 0 {
        Seq::empty()
    } else {
        "?   "@ + cs[0].cmd@ + " - "@ + cs[0].description@ + "\n"@ + child_lines_spec(
            cs.drop_first(),
        )
    }
}

/// Child lines distribute over appending one child.
pub proof fn lemma_child_lines_push(cs: Seq<CommandNode>, c: CommandNode)
    ensures
        child_lines_spec(cs.push(c)) == child_lines_spec(cs) + ("?   "@ + c.cmd@ + " - "@
            + c.description@ + "\n"@),
    decreases cs.len(),
{
    let line = "?   "@ + c.cmd@ + " - "@ + c.description@ + "\n"@;
    if cs.len() == 0 {
        assert(cs.push(c)[0] == c);
        assert(cs.push(c).drop_first() =~= Seq::<CommandNode>::empty());
        assert(child_lines_spec(Seq::<CommandNode>::empty()) == Seq::<char>::empty());
        assert(child_lines_spec(cs.push(c)) == line + Seq::<char>::empty());
        assert(line + Seq::<char>::empty() =~= line);
        assert(child_lines_spec(cs) + line =~= line);
    } else {
        assert(cs.push(c)[0] == cs[0]);
        assert(cs.push(c).drop_first() =~= cs.drop_first().push(c));
        lemma_child_lines_push(cs.drop_first(), c);
        let head = "?   "@ + cs[0].cmd@ + " - "@ + cs[0].description@ + "\n"@;
        assert(head + (child_lines_spec(cs.drop_first()) + line) =~= (head + child_lines_spec(
            cs.drop_first(),
        )) + line);
    }
}

/// The header of a help rendering: a general banner when the context
/// is empty, the context words otherwise.
pub open spec fn help_header_spec(ctx: Seq<Seq<char>>) -> Seq<char> {
    if ctx.len() == 0 {
        "? A budget tracker CLI application.\n?  Available commands:\n"@
    } else {
        "? HELP: "@ + join_words_spec(ctx) + "\n"@
    }
}

/// The full help rendering for a node under a context: the header,
/// the node's description, and one line per immediate child.
pub open spec fn help_text_spec(node: CommandNode, ctx: Seq<Seq<char>>) -> Seq<char> {
    let body = help_header_spec(ctx) + "?   "@ + node.description@ + "\n"@;
    if node.children@.len() == 0 {
        body
    } else {
        body + "? SUBCOMMANDS: \n"@ + child_lines_spec(node.children@)
    }
}

impl CommandNode {
    /// Renders this node's help under the context words `tokens[..to]`.
    pub fn show_help(&self, tokens: &Vec<String>, to: usize) -> (r: String)
        requires
            to <= tokens@.len(),
        ensures
            r@ == help_text_spec(*self, strs_view(tokens@).subrange(0, to as int)),
    {
        let ghost ctx = strs_view(tokens@).subrange(0, to as int);
        let mut out: String = String::new();
        if to == 0 {
            out.append("? A budget tracker CLI application.\n?  Available commands:\n");
        } else {
            out.append("? HELP: ");
            // Only the first `to` words form the context; re-join them.
            let mut ctx_words: Vec<String> = Vec::new();
            let mut i: usize = 0;
            while i < to
                invariant
                    i <= to <= tokens@.len(),
                    strs_view(ctx_words@) == strs_view(tokens@).subrange(0, i as int),
                decreases to - i,
            {
                let ghost dv = strs_view(ctx_words@);
                let w = tokens[i].clone();
                proof {
                    assert(w@ == tokens@[i as int]@);
                }
                ctx_words.push(w);
                proof {
                    assert(strs_view(ctx_words@) =~= dv.push(tokens@[i as int]@));
                    assert(dv.push(tokens@[i as int]@) =~= strs_view(tokens@).subrange(
                        0,
                        i + 1 as int,
                    ));
                }
                i = i + 1;
            }
            let ctx_joined = crate::text::join_words(&ctx_words, 0);
            proof {
                assert(strs_view(ctx_words@).skip(0) =~= ctx);
            }
            out.append(ctx_joined.as_str());
            out.append("\n");
        }
        proof {
            assert(out@ =~= help_header_spec(ctx));
        }
        out.append("?   ");
        out.append(self.description.as_str());
        out.append("\n");
        let ghost body = help_header_spec(ctx) + "?   "@ + self.description@ + "\n"@;
        proof {
            assert(out@ =~= body);
        }
        if self.children.len() == 0 {
            return out;
        }
        out.append("? SUBCOMMANDS: \n");
        let ghost cs = self.children@;
        let mut j: usize = 0;
        let n = self.children.len();
        proof {
            assert(child_lines_spec(cs.take(0)) =~= Seq::<char>::empty());
            assert(out@ =~= body + "? SUBCOMMANDS: \n"@ + child_lines_spec(cs.take(0)));
        }
        while j < n
            invariant
                j <= n,
                n == self.children@.len(),
                cs == self.children@,
                body == help_header_spec(ctx) + "?   "@ + self.description@ + "\n"@,
                out@ == body + "? SUBCOMMANDS: \n"@ + child_lines_spec(cs.take(j as int)),
            decreases n - j,
        {
            let child = &self.children[j];
            out.append("?   ");
            out.append(child.cmd.as_str());
            out.append(" - ");
            out.append(child.description.as_str());
            out.append("\n");
            proof {
                lemma_child_lines_push(cs.take(j as int), cs[j as int]);
                assert(cs.take(j as int).push(cs[j as int]) =~= cs.take(j + 1 as int));
                assert(out@ =~= body + "? SUBCOMMANDS: \n"@ + child_lines_spec(
                    cs.take(j + 1 as int),
                ));
            }
            j = j + 1;
        }
        proof {
            assert(cs.take(n as int) =~= cs);
        }
        out
    }
}

// ------------------------------------------------------------------
// Per-line dispatch
// ------------------------------------------------------------------

/// What one input line asks for, once tokenized: render help, report
/// an unknown help context, run a handler, do nothing because the
/// resolved node has no handler, or report an unknown command.
pub enum LineAction {
    ShowHelp(String),
    HelpUnknown,
    Run(HandlerId),
    NoHandler,
    Unknown,
}

/// The index of the first `help` token, or -1.
pub open spec fn first_help(toks: Seq<Seq<char>>) -> int
    decreases toks.len(),
{
    if toks.len() == 0 {
        -1
    } else if toks[0] == "help"@ {
        0
    } else {
        let r = first_help(toks.drop_first());
        if r == -1 {
            -1
        } else {
            r + 1
        }
    }
}

/// Characterizes `first_help` by what stands left of the found index.
pub proof fn lemma_first_help_at(toks: Seq<Seq<char>>, i: int)
    requires
        0 <= i <= toks.len(),
        forall|j: int| 0 <= j < i ==> toks[j] != "help"@,
        i < toks.len() ==> toks[i] == "help"@,
    ensures
        first_help(toks) == if i == toks.len() {
            -1int
        } else {
            i
        },
    decreases i,
{
    if toks.len() == 0 {
    } else if i == 0 {
    } else {
        assert(toks[0] != "help"@);
        let t = toks.drop_first();
        assert(forall|j: int| 0 <= j < i - 1 ==> t[j] == #[trigger] toks[j + 1]);
        assert(i - 1 < t.len() ==> t[i - 1] == toks[i]);
        lemma_first_help_at(t, i - 1);
    }
}

/// The position of the first `help` token, when there is one.
pub fn help_position(tokens: &Vec<String>) -> (r: Option<usize>)
    ensures
        match r {
            Some(i) => first_help(strs_view(tokens@)) == i as int && i < tokens@.len(),
            None => first_help(strs_view(tokens@)) == -1,
        },
{
    let ghost toks = strs_view(tokens@);
    let n = tokens.len();
    let mut hp: usize = 0;
    while hp < n
        invariant
            hp <= n,
            n == tokens@.len(),
            toks == strs_view(tokens@),
            forall|j: int| 0 <= j < hp ==> toks[j] != "help"@,
        decreases n - hp,
    {
        if str_eq(tokens[hp].as_str(), "help") {
            proof {
                lemma_first_help_at(toks, hp as int);
            }
            return Some(hp);
        }
        hp = hp + 1;
    }
    proof {
        lemma_first_help_at(toks, n as int);
    }
    None
}

/// Decides what one tokenized line asks for. A `help` token anywhere
/// takes priority: everything before it is resolved as the help
/// context, and normal dispatch is skipped.
pub fn dispatch_line(tree: &CommandNode, tokens: &Vec<String>) -> (r: LineAction)
    ensures
        ({
            let toks = strs_view(tokens@);
            let hp = first_help(toks);
            if hp == -1 {
                match resolve_node(*tree, toks) {
                    Some(n) => match n.handler {
                        Some(h) => r matches LineAction::Run(rh) && rh == h,
                        None => r is NoHandler,
                    },
                    None => r is Unknown,
                }
            } else {
                match resolve_node(*tree, toks.take(hp)) {
                    Some(n) => (r matches LineAction::ShowHelp(s) && s@ == help_text_spec(
                        n,
                        toks.take(hp),
                    )),
                    None => r is HelpUnknown,
                }
            }
        }),
{
    let ghost toks = strs_view(tokens@);
    let n = tokens.len();
    let pos = help_position(tokens);
    let (found, hp): (bool, usize) = match pos {
        Some(i) => (true, i),
        None => (false, 0),
    };
    if found {
        proof {
            assert(toks.take(hp as int) =~= toks.subrange(0, hp as int));
        }
        match tree.find_command(tokens, 0, hp) {
            Some(node) => {
                let text = node.show_help(tokens, hp);
                LineAction::ShowHelp(text)
            },
            None => LineAction::HelpUnknown,
        }
    } else {
        proof {
            assert(toks.subrange(0, n as int) =~= toks);
        }
        match tree.find_command(tokens, 0, n) {
            Some(node) => match node.handler {
                Some(h) => LineAction::Run(h),
                None => LineAction::NoHandler,
            },
            None => LineAction::Unknown,
        }
    }
}


// ------------------------------------------------------------------
// The fixed verb hierarchy
// ------------------------------------------------------------------

/// The shape of the tracker's command tree: the five verbs and their
/// subcommands, each handler-owning node accepting trailing
/// arguments.
pub open spec fn tree_shape(t: CommandNode) -> bool {
    &&& !t.extra_args
    &&& t.handler is None
    &&& t.children@.len() == 5
    &&& {
        let add = t.children@[0];
        &&& add.cmd@ == "add"@
        &&& !add.extra_args
        &&& add.handler is None
        &&& add.children@.len() == 2
        &&& add.children@[0].cmd@ == "expense"@
        &&& add.children@[0].handler == Some(HandlerId::AddExpense)
        &&& add.children@[0].extra_args
        &&& add.children@[1].cmd@ == "sheet"@
        &&& add.children@[1].handler == Some(HandlerId::AddSheet)
        &&& add.children@[1].extra_args
    }
    &&& {
        let del = t.children@[1];
        &&& del.cmd@ == "delete"@
        &&& !del.extra_args
        &&& del.handler is None
        &&& del.children@.len() == 2
        &&& del.children@[0].cmd@ == "sheet"@
        &&& del.children@[0].handler == Some(HandlerId::DeleteSheet)
        &&& del.children@[0].extra_args
        &&& del.children@[1].cmd@ == "expense"@
        &&& del.children@[1].handler == Some(HandlerId::DeleteExpense)
        &&& del.children@[1].extra_args
    }
    &&& {
        let m = t.children@[2];
        &&& m.cmd@ == "modify"@
        &&& !m.extra_args
        &&& m.handler is None
        &&& m.children@.len() == 0
    }
    &&& {
        let show = t.children@[3];
        &&& show.cmd@ == "show"@
        &&& !show.extra_args
        &&& show.handler is None
        &&& show.children@.len() == 3
        &&& show.children@[0].cmd@ == "expenses"@
        &&& show.children@[0].handler == Some(HandlerId::ShowExpenses)
        &&& show.children@[0].extra_args
        &&& show.children@[1].cmd@ == "sheets"@
        &&& show.children@[1].handler == Some(HandlerId::ShowSheets)
        &&& show.children@[1].extra_args
        &&& show.children@[2].cmd@ == "categories"@
        &&& show.children@[2].handler == Some(HandlerId::ShowCategories)
        &&& show.children@[2].extra_args
    }
    &&& {
        let sel = t.children@[4];
        &&& sel.cmd@ == "select"@
        &&& sel.handler == Some(HandlerId::Select)
        &&& sel.extra_args
    }
}

/// Builds the tracker's fixed command tree.
pub fn command_tree() -> (t: CommandNode)
    ensures
        tree_shape(t),
{
    let t = CommandNode::new("root", "Budget tracker CLI.", None).add_child(
        CommandNode::new("add", "Add a new record to a budget tracker.", None).add_child(
            CommandNode::new(
                "expense",
                "Add a new expense record to an active sheet.",
                Some(HandlerId::AddExpense),
            ),
        ).add_child(
            CommandNode::new(
                "sheet",
                "Add a new expense sheet to an tracker database.",
                Some(HandlerId::AddSheet),
            ),
        ),
    ).add_child(
        CommandNode::new(
            "delete",
            "Removes provided element from the tracker database.",
            None,
        ).add_child(
            CommandNode::new(
                "sheet",
                "Removes selected expense sheet from the tracker database",
                Some(HandlerId::DeleteSheet),
            ),
        ).add_child(
            CommandNode::new(
                "expense",
                "Removes selected expense record from the active sheet",
                Some(HandlerId::DeleteExpense),
            ),
        ),
    ).add_child(
        CommandNode::new("modify", "Modify an existing record in an expenses database", None),
    ).add_child(
        CommandNode::new(
            "show",
            "Print a configuration of selected category.",
            None,
        ).add_child(
            CommandNode::new(
                "expenses",
                "Print expenses from the active month.",
                Some(HandlerId::ShowExpenses),
            ),
        ).add_child(
            CommandNode::new(
                "sheets",
                "Print a list of all available expense sheets.",
                Some(HandlerId::ShowSheets),
            ),
        ).add_child(
            CommandNode::new(
                "categories",
                "List all available expense categories.",
                Some(HandlerId::ShowCategories),
            ),
        ),
    ).add_child(
        CommandNode::new(
            "select",
            "Select an active sheet which will be updated with a new expenses logs.",
            Some(HandlerId::Select),
        ),
    );
    t
}

/// Tail arguments are captured verbatim: whatever tokens follow
/// `add expense`, resolution reaches the add-expense handler node and
/// searches nothing past it.
pub proof fn lemma_add_expense_captures_tail(t: CommandNode, tail: Seq<Seq<char>>)
    requires
        tree_shape(t),
    ensures
        resolve_node(t, seq!["add"@, "expense"@] + tail) matches Some(n) && n.handler == Some(
            HandlerId::AddExpense,
        ),
{
    let toks = seq!["add"@, "expense"@] + tail;
    assert(toks[0] == "add"@);
    assert(toks.len() >= 2);
    let add = t.children@[0];
    assert(resolve_node(t, toks) == resolve_children(t.children@, 0, toks));
    assert(resolve_children(t.children@, 0, toks) == resolve_node(add, toks.drop_first()));
    let toks1 = toks.drop_first();
    assert(toks1[0] == "expense"@);
    assert(toks1.len() >= 1);
    let exp = add.children@[0];
    assert(resolve_node(add, toks1) == resolve_children(add.children@, 0, toks1));
    assert(resolve_children(add.children@, 0, toks1) == resolve_node(exp, toks1.drop_first()));
    assert(exp.extra_args);
    assert(resolve_node(exp, toks1.drop_first()) == Some(exp));
}

} // verus!
