//! The root chat's tool loop: the system note that lists the tools, and the
//! decisions of the multi-round loop (when to stop, what is returned, how
//! the token counts add up). The model calls and the tools themselves are
//! run by the caller, which hands each turn's outcome back.
use vstd::prelude::*;
use crate::commands::{chapter_number_from_label, chapter_number_spec};
use crate::json::{get_spec, json_get, Json};
use crate::kb_context::{truncate_chars, truncate_spec};
use crate::models::{first_node, find_node, NodeKind, NovelTree, TreeNode};
use crate::tree_refs::{find_root_index, first_where, is_novel, lemma_first_where};

verus! {

/// Most model rounds of one tool loop.
pub const MAX_ROUNDS: usize = 6;
/// Characters of one tool result handed back to the model.
pub const RESULT_CHARS: usize = 4000;

pub const TOOLS_NOTE_ZH: &'static str = "\n【工具】你可调用工具查询/修改结构树、章节记忆与知识库：list_tree、get_node、update_node、set_root_outline、get_chapter_memory、search_chapter_memory、list_knowledge、search_knowledge。需要事实或改树时先调工具，再回答用户。删除类操作不要用工具（用斜杠指令）。";
pub const TOOLS_NOTE_EN: &'static str = "\n[Tools] You may call: list_tree, get_node, update_node, set_root_outline, get_chapter_memory, search_chapter_memory, list_knowledge, search_knowledge. Use tools before answering when you need facts or tree edits. Do not delete via tools (use slash commands).";
/// Answer of a loop that used up its rounds.
pub const TOO_MANY_ROUNDS: &'static str = "（工具调用轮次过多，已停止。请缩小问题后重试。）";

/// The note appended to the system prompt that lists the tools.
pub fn tools_system_note(zh: bool) -> (r: &'static str)
    ensures
        r@ == (if zh { TOOLS_NOTE_ZH@ } else { TOOLS_NOTE_EN@ }),
{
    if zh { TOOLS_NOTE_ZH } else { TOOLS_NOTE_EN }
}

/// A finished model completion with its token usage.
pub struct CompletionResult {
    pub content: String,
    pub used_mock: bool,
    pub model: String,
    pub prompt_tokens: u32,
    pub completion_tokens: u32,
    pub total_tokens: u32,
}

/// The outcome of a tool loop: the final completion, and whether a tool
/// changed the structure tree.
pub struct ToolRunResult {
    pub completion: CompletionResult,
    pub tree_dirty: bool,
}

/// One model round as the caller saw it.
pub struct ToolTurn {
    pub content: String,
    pub model: String,
    pub used_mock: bool,
    pub prompt_tokens: u32,
    pub completion_tokens: u32,
    /// Whether the model asked for tools.
    pub wants_tools: bool,
}

/// Progress of one tool loop.
pub struct ToolLoop {
    pub rounds: usize,
    pub prompt_tokens: u32,
    pub completion_tokens: u32,
    pub model: String,
    pub used_mock: bool,
    pub tree_dirty: bool,
}

/// What the caller does after a round.
pub enum ToolStep {
    /// Run the requested tools, report each with `tool_done`, then ask again
    /// (while `may_ask` says so).
    RunTools,
    /// The loop is over with this result.
    Finish(ToolRunResult),
}

/// `a + b`, held at `u32::MAX`.
pub open spec fn sat_add(a: u32, b: u32) -> u32 {
    if a + b > u32::MAX { u32::MAX } else { (a + b) as u32 }
}

impl ToolLoop {
    /// Nothing asked yet.
    pub fn new() -> (r: Self)
        ensures
            r.rounds == 0,
            r.prompt_tokens == 0,
            r.completion_tokens == 0,
            r.model@.len() == 0,
            !r.used_mock,
            !r.tree_dirty,
    {
        ToolLoop {
            rounds: 0,
            prompt_tokens: 0,
            completion_tokens: 0,
            model: String::new(),
            used_mock: false,
            tree_dirty: false,
        }
    }

    /// Whether another model round may be asked.
    pub fn may_ask(&self) -> (r: bool)
        ensures
            r == (self.rounds < MAX_ROUNDS),
    {
        self.rounds < MAX_ROUNDS
    }

    /// Records one model round: its usage is added (saturating), its model
    /// and mock flag kept; with no tool request the loop finishes with the
    /// round's text.
    pub fn record_turn(&mut self, turn: ToolTurn) -> (step: ToolStep)
        requires
            old(self).rounds < MAX_ROUNDS,
        ensures
            final(self).rounds == old(self).rounds + 1,
            final(self).prompt_tokens == sat_add(old(self).prompt_tokens, turn.prompt_tokens),
            final(self).completion_tokens == sat_add(old(self).completion_tokens, turn.completion_tokens),
            final(self).model == turn.model,
            final(self).used_mock == turn.used_mock,
            final(self).tree_dirty == old(self).tree_dirty,
            turn.wants_tools <==> step is RunTools,
            step matches ToolStep::Finish(res) ==> {
                &&& res.completion.content == turn.content
                &&& res.completion.model == turn.model
                &&& res.completion.used_mock == turn.used_mock
                &&& res.completion.prompt_tokens == final(self).prompt_tokens
                &&& res.completion.completion_tokens == final(self).completion_tokens
                &&& res.completion.total_tokens == sat_add(final(self).prompt_tokens, final(self).completion_tokens)
                &&& res.tree_dirty == old(self).tree_dirty
            },
    {
        self.rounds = self.rounds + 1;
        self.model = turn.model.clone();
        self.used_mock = turn.used_mock;
        self.prompt_tokens = self.prompt_tokens.saturating_add(turn.prompt_tokens);
        self.completion_tokens = self.completion_tokens.saturating_add(turn.completion_tokens);
        if turn.wants_tools {
            ToolStep::RunTools
        } else {
            ToolStep::Finish(ToolRunResult {
                completion: CompletionResult {
                    content: turn.content,
                    used_mock: self.used_mock,
                    model: turn.model,
                    prompt_tokens: self.prompt_tokens,
                    completion_tokens: self.completion_tokens,
                    total_tokens: self.prompt_tokens.saturating_add(self.completion_tokens),
                },
                tree_dirty: self.tree_dirty,
            })
        }
    }

    /// Records one tool's outcome; returns the text handed back to the
    /// model, cut to `RESULT_CHARS` characters.
    pub fn tool_done(&mut self, output: &str, changed_tree: bool) -> (r: String)
        ensures
            final(self).tree_dirty == (old(self).tree_dirty || changed_tree),
            final(self).rounds == old(self).rounds,
            final(self).prompt_tokens == old(self).prompt_tokens,
            final(self).completion_tokens == old(self).completion_tokens,
            final(self).model == old(self).model,
            final(self).used_mock == old(self).used_mock,
            r@ == truncate_spec(output@, RESULT_CHARS as nat),
    {
        if changed_tree {
            self.tree_dirty = true;
        }
        truncate_chars(output, RESULT_CHARS)
    }

    /// The result of a loop that used up its rounds: a fixed notice, with
    /// the usage and tree flag gathered so far.
    pub fn exhausted(&self) -> (res: ToolRunResult)
        ensures
            res.completion.content@ == TOO_MANY_ROUNDS@,
            res.completion.model == self.model,
            res.completion.used_mock == self.used_mock,
            res.completion.prompt_tokens == self.prompt_tokens,
            res.completion.completion_tokens == self.completion_tokens,
            res.completion.total_tokens == sat_add(self.prompt_tokens, self.completion_tokens),
            res.tree_dirty == self.tree_dirty,
    {
        ToolRunResult {
            completion: CompletionResult {
                content: String::from_str(TOO_MANY_ROUNDS),
                used_mock: self.used_mock,
                model: self.model.clone(),
                prompt_tokens: self.prompt_tokens,
                completion_tokens: self.completion_tokens,
                total_tokens: self.prompt_tokens.saturating_add(self.completion_tokens),
            },
            tree_dirty: self.tree_dirty,
        }
    }
}

/// The chapter card numbered `n` by its label.
pub open spec fn chapter_numbered(x: TreeNode, n: u32) -> bool {
    x.kind == NodeKind::Chapter && chapter_number_spec(x.label@) == Some(n)
}

/// The card a tool call names: by a non-empty `node_id` (the first card
/// with that id, if any), else by chapter number `n` (the first chapter
/// whose label carries it), else none.
pub open spec fn resolved_node(ns: Seq<TreeNode>, args: Json) -> Option<int> {
    match get_spec(args, "node_id"@) {
        Some(Json::Str(id)) if id@.len() > 0 => first_node(ns, id@),
        _ => match get_spec(args, "n"@) {
            Some(Json::Num(x)) if x.as_u64 is Some => {
                let n = x.as_u64->Some_0 as u32;
                first_where(ns, |t: TreeNode| chapter_numbered(t, n))
            },
            _ => None,
        },
    }
}

/// The position of the card a tool call edits (see `resolved_node`).
pub fn resolve_node_mut(tree: &NovelTree, args: &Json) -> (r: Option<usize>)
    ensures
        match r {
            Some(i) => i < tree.nodes@.len() && resolved_node(tree.nodes@, *args) == Some(i as int),
            None => resolved_node(tree.nodes@, *args) is None,
        },
{
    match json_get(args, "node_id") {
        Some(Json::Str(id)) => {
            if crate::text::chars_of(id.as_str()).len() > 0 {
                return find_node(&tree.nodes, id);
            }
        },
        _ => {},
    }
    let n: u32 = match json_get(args, "n") {
        Some(Json::Num(x)) => match x.as_u64 {
            Some(k) => #[verifier::truncate] (k as u32),
            None => {
                return None;
            },
        },
        _ => {
            return None;
        },
    };
    let ghost p = |t: TreeNode| chapter_numbered(t, n);
    assert(resolved_node(tree.nodes@, *args) == first_where(tree.nodes@, p));
    let mut i: usize = 0;
    while i < tree.nodes.len()
        invariant
            i <= tree.nodes.len(),
            p == (|t: TreeNode| chapter_numbered(t, n)),
            resolved_node(tree.nodes@, *args) == first_where(tree.nodes@, p),
            forall|j: int| 0 <= j < i ==> !p(#[trigger] tree.nodes@[j]),
        decreases tree.nodes.len() - i,
    {
        let t = &tree.nodes[i];
        if t.kind == NodeKind::Chapter && chapter_number_from_label(t.label.as_str()) == Some(n) {
            proof {
                lemma_first_where(tree.nodes@, p, i as int);
            }
            return Some(i);
        }
        i += 1;
    }
    assert(!(exists|k: int| 0 <= k < tree.nodes@.len() && p(tree.nodes@[k])));
    None
}

/// The card a tool call reads (see `resolved_node`).
pub fn resolve_node<'a>(tree: &'a NovelTree, args: &Json) -> (r: Option<&'a TreeNode>)
    ensures
        match r {
            Some(x) => resolved_node(tree.nodes@, *args) matches Some(i) && *x == tree.nodes@[i],
            None => resolved_node(tree.nodes@, *args) is None,
        },
{
    match resolve_node_mut(tree, args) {
        Some(i) => Some(&tree.nodes[i]),
        None => None,
    }
}

/// What `update_node` does with the tree: the named card gets the given
/// label and outline; nothing changes without either, or without a card.
pub open spec fn updated_node(n: TreeNode, args: Json) -> TreeNode {
    let n1 = match get_spec(args, "label"@) {
        Some(Json::Str(l)) => TreeNode { label: l, ..n },
        _ => n,
    };
    match get_spec(args, "outline"@) {
        Some(Json::Str(o)) => TreeNode { outline: o, ..n1 },
        _ => n1,
    }
}

pub open spec fn has_str(args: Json, key: Seq<char>) -> bool {
    get_spec(args, key) matches Some(Json::Str(_))
}

/// The `update_node` tool: sets a card's label and/or outline. Its reply
/// and whether the tree changed.
pub fn update_node(tree: &mut NovelTree, args: &Json) -> (r: (String, bool))
    ensures
        final(tree).novel_id == old(tree).novel_id,
        final(tree).edges@ == old(tree).edges@,
        !has_str(*args, "label"@) && !has_str(*args, "outline"@) ==> {
            &&& r.0@ == "provide label and/or outline"@
            &&& !r.1
            &&& final(tree).nodes@ == old(tree).nodes@
        },
        (has_str(*args, "label"@) || has_str(*args, "outline"@)) ==> match resolved_node(old(tree).nodes@, *args) {
            Some(k) => {
                let n = updated_node(old(tree).nodes@[k], *args);
                &&& final(tree).nodes@ == old(tree).nodes@.update(k, n)
                &&& r.1
                &&& r.0@ == "updated "@ + n.id@ + " ("@ + n.label@ + ")"@
            },
            None => {
                &&& r.0@ == "node not found"@
                &&& !r.1
                &&& final(tree).nodes@ == old(tree).nodes@
            },
        },
{
    let label: Option<String> = match json_get(args, "label") {
        Some(Json::Str(l)) => Some(l.clone()),
        _ => None,
    };
    let outline: Option<String> = match json_get(args, "outline") {
        Some(Json::Str(o)) => Some(o.clone()),
        _ => None,
    };
    if label.is_none() && outline.is_none() {
        return (String::from_str("provide label and/or outline"), false);
    }
    match resolve_node_mut(tree, args) {
        Some(k) => {
            let ghost ns0 = tree.nodes@;
            let mut n = tree.nodes.remove(k);
            match label {
                Some(l) => {
                    n.label = l;
                },
                None => {},
            }
            match outline {
                Some(o) => {
                    n.outline = o;
                },
                None => {},
            }
            let mut msg = crate::text::chars_of("updated ");
            crate::text::append_str(&mut msg, n.id.as_str());
            crate::text::append_str(&mut msg, " (");
            crate::text::append_str(&mut msg, n.label.as_str());
            crate::text::append_str(&mut msg, ")");
            tree.nodes.insert(k, n);
            assert(tree.nodes@ =~= ns0.update(k as int, updated_node(ns0[k as int], *args)));
            (crate::text::string_of(&msg), true)
        },
        None => (String::from_str("node not found"), false),
    }
}

fn set_outline_at(nodes: &mut Vec<TreeNode>, k: usize, o: String)
    requires
        k < old(nodes)@.len(),
    ensures
        final(nodes)@ == old(nodes)@.update(k as int, TreeNode { outline: o, ..old(nodes)@[k as int] }),
{
    let ghost ns0 = nodes@;
    let ghost og = o;
    let mut n = nodes.remove(k);
    n.outline = o;
    nodes.insert(k, n);
    assert(nodes@ =~= ns0.update(k as int, TreeNode { outline: og, ..ns0[k as int] }));
}

/// The `set_root_outline` tool: replaces the root card's outline.
pub fn set_root_outline(tree: &mut NovelTree, args: &Json) -> (r: (String, bool))
    ensures
        final(tree).novel_id == old(tree).novel_id,
        final(tree).edges@ == old(tree).edges@,
        match get_spec(*args, "outline"@) {
            Some(Json::Str(o)) => match first_where(old(tree).nodes@, |n: TreeNode| is_novel(n)) {
                Some(k) => {
                    &&& final(tree).nodes@ == old(tree).nodes@.update(k, TreeNode { outline: o, ..old(tree).nodes@[k] })
                    &&& r.0@ == "root outline updated"@
                    &&& r.1
                },
                None => r.0@ == "root not found"@ && !r.1 && final(tree).nodes@ == old(tree).nodes@,
            },
            _ => r.0@ == "outline required"@ && !r.1 && final(tree).nodes@ == old(tree).nodes@,
        },
{
    let o: String = match json_get(args, "outline") {
        Some(Json::Str(o)) => o.clone(),
        _ => {
            return (String::from_str("outline required"), false);
        },
    };
    match find_root_index(&tree.nodes) {
        Some(k) => {
            set_outline_at(&mut tree.nodes, k, o);
            (String::from_str("root outline updated"), true)
        },
        None => (String::from_str("root not found"), false),
    }
}

/// The lowercase name of a card kind, as the tree listing shows it.
pub open spec fn kind_name(k: NodeKind) -> Seq<char> {
    match k {
        NodeKind::Novel => "novel"@,
        NodeKind::Volume => "volume"@,
        NodeKind::Chapter => "chapter"@,
        NodeKind::Character => "character"@,
        NodeKind::SidePlot => "sideplot"@,
        NodeKind::Knowledge => "knowledge"@,
    }
}

fn kind_name_exec(k: NodeKind) -> (r: &'static str)
    ensures
        r@ == kind_name(k),
{
    match k {
        NodeKind::Novel => "novel",
        NodeKind::Volume => "volume",
        NodeKind::Chapter => "chapter",
        NodeKind::Character => "character",
        NodeKind::SidePlot => "sideplot",
        NodeKind::Knowledge => "knowledge",
    }
}

/// One line of the tree listing: kind, id, label, word count and the first
/// 80 characters of the outline (with `…` when cut).
pub open spec fn tree_line(n: TreeNode) -> Seq<char> {
    "- ["@ + kind_name(n.kind) + "] "@ + n.id@ + " | "@ + n.label@ + " | words="@
        + crate::text::decimal(n.word_count as nat) + " | outline="@ + truncate_spec(n.outline@, 80)
}

pub open spec fn tree_lines(ns: Seq<TreeNode>) -> Seq<Seq<char>> {
    ns.map_values(|n: TreeNode| tree_line(n))
}

/// The whole tree, one line per card, or `(empty tree)`.
pub open spec fn list_tree_spec(tree: NovelTree) -> Seq<char> {
    if tree.nodes@.len() == 0 {
        "(empty tree)"@
    } else {
        crate::text::join(tree_lines(tree.nodes@), "\n"@)
    }
}

/// See `list_tree_spec`.
pub fn list_tree(tree: &NovelTree) -> (r: String)
    ensures
        r@ == list_tree_spec(*tree),
{
    let mut lines: Vec<Vec<char>> = Vec::new();
    let mut i: usize = 0;
    while i < tree.nodes.len()
        invariant
            i <= tree.nodes@.len(),
            crate::text::vviews(lines@) =~= tree_lines(tree.nodes@.subrange(0, i as int)),
        decreases tree.nodes@.len() - i,
    {
        let n = &tree.nodes[i];
        let mut line = crate::text::chars_of("- [");
        crate::text::append_str(&mut line, kind_name_exec(n.kind));
        crate::text::append_str(&mut line, "] ");
        crate::text::append_str(&mut line, n.id.as_str());
        crate::text::append_str(&mut line, " | ");
        crate::text::append_str(&mut line, n.label.as_str());
        crate::text::append_str(&mut line, " | words=");
        crate::text::append_decimal(&mut line, n.word_count as u64);
        crate::text::append_str(&mut line, " | outline=");
        crate::text::append_str(&mut line, truncate_chars(n.outline.as_str(), 80).as_str());
        let ghost before = crate::text::vviews(lines@);
        lines.push(line);
        proof {
            assert(tree.nodes@.subrange(0, i + 1) =~= tree.nodes@.subrange(0, i as int).push(tree.nodes@[i as int]));
            assert(crate::text::vviews(lines@) =~= before.push(tree_line(tree.nodes@[i as int])));
        }
        i += 1;
    }
    assert(tree.nodes@.subrange(0, tree.nodes@.len() as int) =~= tree.nodes@);
    if lines.len() == 0 {
        String::from_str("(empty tree)")
    } else {
        crate::text::string_of(&crate::text::join_exec(&lines, "\n"))
    }
}

pub open spec fn pair_views(v: Seq<(String, String)>) -> Seq<(Seq<char>, Seq<char>)> {
    v.map_values(|p: (String, String)| (p.0@, p.1@))
}

/// One stored fact as the chat tools show it.
pub open spec fn memory_item(p: (Seq<char>, Seq<char>)) -> Seq<char> {
    "- "@ + p.1
}

/// A memory search hit as the chat tools show it.
pub open spec fn memory_hit(p: (Seq<char>, Seq<char>)) -> Seq<char> {
    "[memory:"@ + p.0 + "] "@ + truncate_spec(p.1, crate::kb_context::MEMORY_FACT_CAP as nat)
}

/// The `get_chapter_memory` tool's reply, given the stored facts of the
/// chapter it names (`rows`, or the store's error).
pub open spec fn chapter_memory_reply(tree: NovelTree, args: Json, rows: Result<Seq<(Seq<char>, Seq<char>)>, Seq<char>>) -> Seq<char> {
    match resolved_node(tree.nodes@, args) {
        None => "node not found"@,
        Some(i) => if tree.nodes@[i].kind != NodeKind::Chapter {
            "not a chapter node"@
        } else {
            match rows {
                Ok(rs) => if rs.len() == 0 {
                    "(no memory)"@
                } else {
                    crate::text::join(rs.map_values(|p: (Seq<char>, Seq<char>)| memory_item(p)), "\n"@)
                },
                Err(e) => e,
            }
        },
    }
}

/// See `chapter_memory_reply`. The app reads `rows` for the card that
/// `resolve_node` names.
pub fn get_chapter_memory(tree: &NovelTree, args: &Json, rows: Result<Vec<(String, String)>, String>) -> (r: String)
    ensures
        r@ == chapter_memory_reply(*tree, *args, match rows {
            Ok(v) => Ok(pair_views(v@)),
            Err(e) => Err(e@),
        }),
{
    let n = match resolve_node(tree, args) {
        Some(n) => n,
        None => {
            return String::from_str("node not found");
        },
    };
    if n.kind != NodeKind::Chapter {
        return String::from_str("not a chapter node");
    }
    match rows {
        Ok(rs) => {
            if rs.len() == 0 {
                return String::from_str("(no memory)");
            }
            let mut lines: Vec<Vec<char>> = Vec::new();
            let mut i: usize = 0;
            while i < rs.len()
                invariant
                    i <= rs@.len(),
                    crate::text::vviews(lines@) =~= pair_views(rs@).subrange(0, i as int).map_values(
                        |p: (Seq<char>, Seq<char>)| memory_item(p),
                    ),
                decreases rs@.len() - i,
            {
                let mut line = crate::text::chars_of("- ");
                crate::text::append_str(&mut line, rs[i].1.as_str());
                let ghost before = crate::text::vviews(lines@);
                lines.push(line);
                proof {
                    assert(pair_views(rs@).subrange(0, i + 1) =~= pair_views(rs@).subrange(0, i as int).push(pair_views(rs@)[i as int]));
                    assert(crate::text::vviews(lines@) =~= before.push(memory_item(pair_views(rs@)[i as int])));
                }
                i += 1;
            }
            assert(pair_views(rs@).subrange(0, rs@.len() as int) =~= pair_views(rs@));
            crate::text::string_of(&crate::text::join_exec(&lines, "\n"))
        },
        Err(e) => e,
    }
}

/// The `search_chapter_memory` tool's reply: its trimmed `query` is
/// required; the stored facts (`rows`, `None` when the store failed) are
/// ranked for it (see `rank_spec`), keeping `limit` (default 6, at least 1).
pub open spec fn memory_search_reply(args: Json, rows: Option<Seq<(Seq<char>, Seq<char>)>>) -> Seq<char> {
    let q = crate::text::trim(match get_spec(args, "query"@) {
        Some(Json::Str(s)) => s@,
        _ => Seq::empty(),
    });
    let limit: nat = match get_spec(args, "limit"@) {
        Some(Json::Num(x)) if x.as_u64 is Some => (x.as_u64->Some_0 as usize) as nat,
        _ => crate::kb_context::MEMORY_RETRIEVE_K as nat,
    };
    if q.len() == 0 {
        "query required"@
    } else {
        match rows {
            None => "db error"@,
            Some(rs) => {
                let hits = crate::chapter_memory::rank_spec(rs, q, if limit >= 1 { limit } else { 1 });
                if hits.len() == 0 {
                    "(no hits)"@
                } else {
                    crate::text::join(hits.map_values(|p: (Seq<char>, Seq<char>)| memory_hit(p)), "\n"@)
                }
            },
        }
    }
}

/// See `memory_search_reply`.
pub fn search_chapter_memory(args: &Json, rows: Option<&[(String, String)]>) -> (r: String)
    ensures
        r@ == memory_search_reply(*args, match rows {
            Some(v) => Some(pair_views(v@)),
            None => None,
        }),
{
    let q = match json_get(args, "query") {
        Some(Json::Str(s)) => crate::text::trim_str(s.as_str()),
        _ => Vec::new(),
    };
    if q.len() == 0 {
        return String::from_str("query required");
    }
    let limit: usize = match json_get(args, "limit") {
        Some(Json::Num(x)) => match x.as_u64 {
            Some(k) => #[verifier::truncate] (k as usize),
            None => crate::kb_context::MEMORY_RETRIEVE_K,
        },
        _ => crate::kb_context::MEMORY_RETRIEVE_K,
    };
    let all = match rows {
        Some(v) => v,
        None => {
            return String::from_str("db error");
        },
    };
    let qs = crate::text::string_of(&q);
    let hits = crate::chapter_memory::rank_memory(all, qs.as_str(), if limit >= 1 { limit } else { 1 });
    assert(crate::chapter_memory::pviews(all@) == pair_views(all@));
    if hits.len() == 0 {
        return String::from_str("(no hits)");
    }
    let ghost hv = crate::chapter_memory::pviews(hits@);
    let mut lines: Vec<Vec<char>> = Vec::new();
    let mut i: usize = 0;
    while i < hits.len()
        invariant
            i <= hits@.len(),
            hv == crate::chapter_memory::pviews(hits@),
            crate::text::vviews(lines@) =~= hv.subrange(0, i as int).map_values(
                |p: (Seq<char>, Seq<char>)| memory_hit(p),
            ),
        decreases hits@.len() - i,
    {
        let mut line = crate::text::chars_of("[memory:");
        crate::text::append_str(&mut line, hits[i].0.as_str());
        crate::text::append_str(&mut line, "] ");
        crate::text::append_str(&mut line, truncate_chars(hits[i].1.as_str(), crate::kb_context::MEMORY_FACT_CAP).as_str());
        let ghost before = crate::text::vviews(lines@);
        lines.push(line);
        proof {
            assert(hv.subrange(0, i + 1) =~= hv.subrange(0, i as int).push(hv[i as int]));
            assert(crate::text::vviews(lines@) =~= before.push(memory_hit(hv[i as int])));
        }
        i += 1;
    }
    assert(hv.subrange(0, hits@.len() as int) =~= hv);
    crate::text::string_of(&crate::text::join_exec(&lines, "\n"))
}

} // verus!
