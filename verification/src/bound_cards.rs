//! The cards a chapter's outline must obey: the characters and plot cards
//! linked to the chapter, with the relation lines between those characters.
use vstd::prelude::*;
use crate::cast::contains_str_id;
use crate::character_fmt::{character_full_spec, format_character_full, CHARACTER_INJECT_CAP};
use crate::kb_context::{truncate_chars, truncate_spec};
use crate::land_beats::add_ids;
use crate::models::{find_node, first_node, str_views, NodeKind, NovelTree, TreeEdge, TreeNode};
use crate::plot_consolidate::{add_all, add_unique};
use crate::root_reference::{edge_chars, gather_edge_chars};
use crate::text::{append, append_str, ascii_lower_seq, chars_of, string_of, trim, trim_str};

verus! {

/// The characters gathered through the plot cards: each card's listed
/// characters, then the character cards linked to it.
pub open spec fn plot_chars_fold(ns: Seq<TreeNode>, es: Seq<TreeEdge>, pids: Seq<Seq<char>>, acc: Seq<Seq<char>>) -> Seq<Seq<char>>
    decreases pids.len(),
{
    if pids.len() == 0 {
        acc
    } else {
        let prev = plot_chars_fold(ns, es, pids.drop_last(), acc);
        let pid = pids.last();
        let listed = match first_node(ns, pid) {
            Some(k) => add_all(prev, str_views(ns[k].linked_character_ids@)),
            None => prev,
        };
        edge_chars(ns, es, pid, listed)
    }
}

/// The first card with id `id` is a character card.
pub open spec fn is_char_at(ns: Seq<TreeNode>, id: Seq<char>) -> bool {
    first_node(ns, id) matches Some(k) && ns[k].kind == NodeKind::Character
}

/// Both ends of every link between two character cards that touches
/// `seed`, added in link order.
pub open spec fn rel_closure(ns: Seq<TreeNode>, es: Seq<TreeEdge>, seed: Seq<Seq<char>>, acc: Seq<Seq<char>>) -> Seq<Seq<char>>
    decreases es.len(),
{
    if es.len() == 0 {
        acc
    } else {
        let prev = rel_closure(ns, es.drop_last(), seed, acc);
        let e = es.last();
        if is_char_at(ns, e.source@) && is_char_at(ns, e.target@) && (seed.contains(e.source@) || seed.contains(e.target@)) {
            add_unique(add_unique(prev, e.source@), e.target@)
        } else {
            prev
        }
    }
}

/// The chapter's characters: those it lists, the character cards linked
/// to it, those of its plot cards (`plots`), then the other ends of
/// character relations touching them.
pub open spec fn bound_char_ids(tree: NovelTree, node_id: Seq<char>, plots: Seq<Seq<char>>) -> Seq<Seq<char>> {
    let ns = tree.nodes@;
    let es = tree.edges@;
    let own = match first_node(ns, node_id) {
        Some(k) => str_views(ns[k].linked_character_ids@),
        None => Seq::empty(),
    };
    let c2 = plot_chars_fold(ns, es, plots, edge_chars(ns, es, node_id, own));
    rel_closure(ns, es, c2, c2)
}

/// One character's entry.
pub open spec fn bound_char_entry(ns: Seq<TreeNode>, id: Seq<char>, zh: bool) -> Seq<char> {
    match first_node(ns, id) {
        Some(k) => match ns[k].character {
            Some(c) => "- 「"@ + ns[k].label@ + "」\n"@
                + truncate_spec(character_full_spec(ns[k].label@, c), CHARACTER_INJECT_CAP as nat) + "\n"@,
            None => if zh {
                "- 「"@ + ns[k].label@ + "」（人物卡字段未补全，仍须保留其人）\n"@
            } else {
                "- “"@ + ns[k].label@ + "” (card incomplete; still keep this character)\n"@
            },
        },
        None => Seq::empty(),
    }
}

pub open spec fn bound_char_block(ns: Seq<TreeNode>, ids: Seq<Seq<char>>, zh: bool) -> Seq<char>
    decreases ids.len(),
{
    if ids.len() == 0 { Seq::empty() } else { bound_char_block(ns, ids.drop_last(), zh) + bound_char_entry(ns, ids.last(), zh) }
}

/// A relation line between two of the chapter's characters.
pub open spec fn rel_line(ns: Seq<TreeNode>, e: TreeEdge, ids: Seq<Seq<char>>, zh: bool) -> Seq<char> {
    if is_char_at(ns, e.source@) && is_char_at(ns, e.target@) && ids.contains(e.source@) && ids.contains(e.target@) {
        let a = ns[first_node(ns, e.source@)->Some_0];
        let b = ns[first_node(ns, e.target@)->Some_0];
        let rel = if trim(e.label@).len() == 0 { if zh { "（关系未标注）"@ } else { "(unlabeled)"@ } } else { e.label@ };
        "- "@ + a.label@ + " ↔ "@ + b.label@ + "："@ + rel + "\n"@
    } else {
        Seq::empty()
    }
}

pub open spec fn rel_block(ns: Seq<TreeNode>, es: Seq<TreeEdge>, ids: Seq<Seq<char>>, zh: bool) -> Seq<char>
    decreases es.len(),
{
    if es.len() == 0 { Seq::empty() } else { rel_block(ns, es.drop_last(), ids, zh) + rel_line(ns, es.last(), ids, zh) }
}

/// How a plot card's state is told to the model.
pub open spec fn plot_status_text(n: TreeNode, zh: bool) -> Seq<char> {
    let absorbed = match n.side_plot { Some(m) => m.absorbed, None => false };
    let status = match n.side_plot { Some(m) => trim(m.status@), None => Seq::empty() };
    let low = ascii_lower_seq(status);
    if zh {
        if absorbed {
            "已吸收（作既定事实，勿推翻；不必再推进）"@
        } else if status.len() == 0 || low == "active"@ {
            "进行中（新大纲须安排推进）"@
        } else if low == "resolved"@ {
            "已收束（作既定事实，勿推翻）"@
        } else if low == "deferred"@ {
            "搁置（勿当本章主推进，亦勿矛盾）"@
        } else {
            "状态："@ + status
        }
    } else if absorbed {
        "absorbed (established fact; do not overturn; need not advance)"@
    } else if status.len() == 0 || low == "active"@ {
        "active (must advance in new outline)"@
    } else if low == "resolved"@ {
        "resolved (established fact; do not overturn)"@
    } else if low == "deferred"@ {
        "deferred (do not make primary advance; do not contradict)"@
    } else {
        "status: "@ + status
    }
}

/// One plot card's entry.
pub open spec fn bound_plot_entry(ns: Seq<TreeNode>, id: Seq<char>, zh: bool) -> Seq<char> {
    match first_node(ns, id) {
        Some(k) => {
            let n = ns[k];
            let outline = if trim(n.outline@).len() == 0 {
                if zh { "（大纲为空）"@ } else { "(empty outline)"@ }
            } else {
                truncate_spec(n.outline@, 800)
            };
            if zh {
                "- 「"@ + n.label@ + "」["@ + plot_status_text(n, zh) + "]\n  要点："@ + outline + "\n"@
            } else {
                "- “"@ + n.label@ + "” ["@ + plot_status_text(n, zh) + "]\n  Beats: "@ + outline + "\n"@
            }
        },
        None => Seq::empty(),
    }
}

pub open spec fn bound_plot_block(ns: Seq<TreeNode>, ids: Seq<Seq<char>>, zh: bool) -> Seq<char>
    decreases ids.len(),
{
    if ids.len() == 0 { Seq::empty() } else { bound_plot_block(ns, ids.drop_last(), zh) + bound_plot_entry(ns, ids.last(), zh) }
}

pub open spec fn bound_head(zh: bool) -> Seq<char> {
    if zh {
        "## 本章已链接人物与剧情（硬约束：必须严格遵守）\n**人物**：言行/动机/关系必须严格符合下列人设，不得改写核心性格或让未链接人物压过链接人物。\n**剧情**：必须严格落实下列各卡要点——进行中须写入大纲并推进；已收束/已吸收/搁置仅作既定事实，不得推翻或无视。\n禁止另起无关主线；禁止只点名不落地。\n### 人物\n"@
    } else {
        "## Chapter-linked characters & plots (hard constraint: obey strictly)\n**Characters**: speech/motives/relations MUST match cards below; do not rewrite core personality or let unlinked cast overshadow linked ones.\n**Plots**: land every beat by status—advance active in the outline; treat resolved/absorbed/deferred as facts (do not overturn/ignore).\nNo unrelated main line; no name-drops without landing.\n### Characters\n"@
    }
}

/// The block an outline is written under: the chapter's characters, the
/// relation lines among them, and its plot cards (`local` then the
/// `inherited` ones not among them) with their state; empty when the
/// chapter has neither characters nor plot cards.
pub open spec fn bound_cards_spec(tree: NovelTree, node_id: Seq<char>, local: Seq<Seq<char>>, inherited: Seq<Seq<char>>, zh: bool) -> Seq<char> {
    let ns = tree.nodes@;
    let plots = add_all(local, inherited);
    let ids = bound_char_ids(tree, node_id, plots);
    let chars = bound_char_block(ns, ids, zh);
    let rels = rel_block(ns, tree.edges@, ids, zh);
    let pl = bound_plot_block(ns, plots, zh);
    if chars.len() == 0 && pl.len() == 0 {
        Seq::empty()
    } else {
        let c = if chars.len() == 0 { if zh { "（本章未链接人物卡）\n"@ } else { "(no chapter-linked character cards)\n"@ } } else { chars };
        let r = if rels.len() == 0 {
            Seq::empty()
        } else if zh {
            "### 人物关系\n"@ + rels + "\n"@
        } else {
            "### Character relations\n"@ + rels + "\n"@
        };
        let p = if pl.len() == 0 { if zh { "（本章未链接剧情卡）\n"@ } else { "(no chapter-linked plot cards)\n"@ } } else { pl };
        bound_head(zh) + c + "\n"@ + r + (if zh { "### 剧情卡\n"@ } else { "### Plot cards\n"@ }) + p + "\n"@
    }
}

pub(crate) fn is_char_at_exec(ns: &Vec<TreeNode>, id: &String) -> (r: bool)
    ensures
        r == is_char_at(ns@, id@),
{
    match find_node(ns, id) {
        Some(k) => ns[k].kind == NodeKind::Character,
        None => false,
    }
}

pub(crate) fn plot_chars_exec(tree: &NovelTree, pids: &Vec<String>, acc: &mut Vec<String>)
    ensures
        str_views(final(acc)@) == plot_chars_fold(tree.nodes@, tree.edges@, str_views(pids@), str_views(old(acc)@)),
{
    let ghost a0 = str_views(acc@);
    let mut i: usize = 0;
    while i < pids.len()
        invariant
            i <= pids@.len(),
            str_views(acc@) == plot_chars_fold(tree.nodes@, tree.edges@, str_views(pids@.subrange(0, i as int)), a0),
        decreases pids@.len() - i,
    {
        assert(str_views(pids@.subrange(0, i + 1)).drop_last() =~= str_views(pids@.subrange(0, i as int)));
        match find_node(&tree.nodes, &pids[i]) {
            Some(k) => add_ids(acc, &tree.nodes[k].linked_character_ids),
            None => {},
        }
        gather_edge_chars(&tree.nodes, &tree.edges, &pids[i], acc);
        i += 1;
    }
    assert(pids@.subrange(0, pids@.len() as int) =~= pids@);
}

fn add_once(acc: &mut Vec<String>, x: &String)
    ensures
        str_views(final(acc)@) == add_unique(str_views(old(acc)@), x@),
{
    if !contains_str_id(acc, x) {
        let ghost before = str_views(acc@);
        acc.push(String::from_str(x.as_str()));
        assert(str_views(acc@) =~= before.push(x@));
    }
}

pub(crate) fn rel_closure_exec(tree: &NovelTree, seed: &Vec<String>, acc: &mut Vec<String>)
    ensures
        str_views(final(acc)@) == rel_closure(tree.nodes@, tree.edges@, str_views(seed@), str_views(old(acc)@)),
{
    let ghost a0 = str_views(acc@);
    let mut i: usize = 0;
    while i < tree.edges.len()
        invariant
            i <= tree.edges@.len(),
            str_views(acc@) == rel_closure(tree.nodes@, tree.edges@.subrange(0, i as int), str_views(seed@), a0),
        decreases tree.edges@.len() - i,
    {
        assert(tree.edges@.subrange(0, i + 1).drop_last() =~= tree.edges@.subrange(0, i as int));
        let e = &tree.edges[i];
        if is_char_at_exec(&tree.nodes, &e.source) && is_char_at_exec(&tree.nodes, &e.target)
            && (contains_str_id(seed, &e.source) || contains_str_id(seed, &e.target)) {
            add_once(acc, &e.source);
            add_once(acc, &e.target);
        }
        i += 1;
    }
    assert(tree.edges@.subrange(0, tree.edges@.len() as int) =~= tree.edges@);
}

pub(crate) fn merge_plots(local: &Vec<String>, inherited: &Vec<String>) -> (r: Vec<String>)
    ensures
        str_views(r@) == add_all(str_views(local@), str_views(inherited@)),
{
    let mut r = crate::cast::clone_ids(local);
    add_ids(&mut r, inherited);
    r
}

fn char_ids_exec(tree: &NovelTree, node_id: &String, plots: &Vec<String>) -> (r: Vec<String>)
    ensures
        str_views(r@) == bound_char_ids(*tree, node_id@, str_views(plots@)),
{
    let mut ids: Vec<String> = match find_node(&tree.nodes, node_id) {
        Some(k) => crate::cast::clone_ids(&tree.nodes[k].linked_character_ids),
        None => Vec::new(),
    };
    let ghost own = match first_node(tree.nodes@, node_id@) {
        Some(k) => str_views(tree.nodes@[k].linked_character_ids@),
        None => Seq::<Seq<char>>::empty(),
    };
    assert(str_views(ids@) =~= own);
    gather_edge_chars(&tree.nodes, &tree.edges, node_id, &mut ids);
    assert(str_views(ids@) == edge_chars(tree.nodes@, tree.edges@, node_id@, own));
    plot_chars_exec(tree, plots, &mut ids);
    let seed = crate::cast::clone_ids(&ids);
    rel_closure_exec(tree, &seed, &mut ids);
    ids
}

fn char_entry_exec(ns: &Vec<TreeNode>, id: &String, zh: bool, out: &mut Vec<char>)
    ensures
        final(out)@ == old(out)@ + bound_char_entry(ns@, id@, zh),
{
    let ghost o0 = out@;
    match find_node(ns, id) {
        Some(k) => {
            let n = &ns[k];
            match &n.character {
                Some(c) => {
                    append_str(out, "- 「");
                    append_str(out, n.label.as_str());
                    append_str(out, "」\n");
                    let body = truncate_chars(format_character_full(n.label.as_str(), c).as_str(), CHARACTER_INJECT_CAP);
                    append_str(out, body.as_str());
                    append_str(out, "\n");
                },
                None => {
                    if zh {
                        append_str(out, "- 「");
                        append_str(out, n.label.as_str());
                        append_str(out, "」（人物卡字段未补全，仍须保留其人）\n");
                    } else {
                        append_str(out, "- “");
                        append_str(out, n.label.as_str());
                        append_str(out, "” (card incomplete; still keep this character)\n");
                    }
                },
            }
        },
        None => {
            assert(out@ =~= o0 + Seq::<char>::empty());
        },
    }
}

fn rel_line_exec(ns: &Vec<TreeNode>, e: &TreeEdge, ids: &Vec<String>, zh: bool, out: &mut Vec<char>)
    ensures
        final(out)@ == old(out)@ + rel_line(ns@, *e, str_views(ids@), zh),
{
    let ghost o0 = out@;
    if is_char_at_exec(ns, &e.source) && is_char_at_exec(ns, &e.target)
        && contains_str_id(ids, &e.source) && contains_str_id(ids, &e.target) {
        let a = find_node(ns, &e.source).unwrap();
        let b = find_node(ns, &e.target).unwrap();
        append_str(out, "- ");
        append_str(out, ns[a].label.as_str());
        append_str(out, " ↔ ");
        append_str(out, ns[b].label.as_str());
        append_str(out, "：");
        if trim_str(e.label.as_str()).len() == 0 {
            append_str(out, if zh { "（关系未标注）" } else { "(unlabeled)" });
        } else {
            append_str(out, e.label.as_str());
        }
        append_str(out, "\n");
    } else {
        assert(out@ =~= o0 + Seq::<char>::empty());
    }
}

fn status_text_exec(n: &TreeNode, zh: bool) -> (r: Vec<char>)
    ensures
        r@ == plot_status_text(*n, zh),
{
    let (absorbed, status) = match &n.side_plot {
        Some(m) => (m.absorbed, trim_str(m.status.as_str())),
        None => (false, Vec::new()),
    };
    let low = crate::global_chat::ascii_lowercase(&status);
    let active = status.len() == 0 || crate::text::eq_str(&low, "active");
    let resolved = crate::text::eq_str(&low, "resolved");
    let deferred = crate::text::eq_str(&low, "deferred");
    if zh {
        if absorbed {
            chars_of("已吸收（作既定事实，勿推翻；不必再推进）")
        } else if active {
            chars_of("进行中（新大纲须安排推进）")
        } else if resolved {
            chars_of("已收束（作既定事实，勿推翻）")
        } else if deferred {
            chars_of("搁置（勿当本章主推进，亦勿矛盾）")
        } else {
            let mut t = chars_of("状态：");
            append(&mut t, &status);
            t
        }
    } else if absorbed {
        chars_of("absorbed (established fact; do not overturn; need not advance)")
    } else if active {
        chars_of("active (must advance in new outline)")
    } else if resolved {
        chars_of("resolved (established fact; do not overturn)")
    } else if deferred {
        chars_of("deferred (do not make primary advance; do not contradict)")
    } else {
        let mut t = chars_of("status: ");
        append(&mut t, &status);
        t
    }
}

fn plot_entry_exec(ns: &Vec<TreeNode>, id: &String, zh: bool, out: &mut Vec<char>)
    ensures
        final(out)@ == old(out)@ + bound_plot_entry(ns@, id@, zh),
{
    let ghost o0 = out@;
    match find_node(ns, id) {
        Some(k) => {
            let n = &ns[k];
            let st = status_text_exec(n, zh);
            let outline: Vec<char> = if trim_str(n.outline.as_str()).len() == 0 {
                if zh { chars_of("（大纲为空）") } else { chars_of("(empty outline)") }
            } else {
                chars_of(truncate_chars(n.outline.as_str(), 800).as_str())
            };
            append_str(out, if zh { "- 「" } else { "- “" });
            append_str(out, n.label.as_str());
            append_str(out, if zh { "」[" } else { "” [" });
            append(out, &st);
            append_str(out, if zh { "]\n  要点：" } else { "]\n  Beats: " });
            append(out, &outline);
            append_str(out, "\n");
        },
        None => {
            assert(out@ =~= o0 + Seq::<char>::empty());
        },
    }
}

/// See `bound_cards_spec`. `local` and `inherited` are the chapter's own
/// plot cards and those it inherits from the root and its volume, as the
/// tree-link rules give them.
pub fn chapter_bound_cards_for_outline(tree: &NovelTree, node_id: &str, local: &Vec<String>, inherited: &Vec<String>, zh: bool) -> (r: String)
    ensures
        r@ == bound_cards_spec(*tree, node_id@, str_views(local@), str_views(inherited@), zh),
{
    let nid = String::from_str(node_id);
    let plots = merge_plots(local, inherited);
    let ids = char_ids_exec(tree, &nid, &plots);
    let ghost iv = str_views(ids@);
    let ghost pv = str_views(plots@);
    let mut chars: Vec<char> = Vec::new();
    let mut i: usize = 0;
    while i < ids.len()
        invariant
            i <= ids@.len(),
            iv == str_views(ids@),
            chars@ == bound_char_block(tree.nodes@, iv.subrange(0, i as int), zh),
        decreases ids@.len() - i,
    {
        assert(iv.subrange(0, i + 1).drop_last() =~= iv.subrange(0, i as int));
        char_entry_exec(&tree.nodes, &ids[i], zh, &mut chars);
        i += 1;
    }
    assert(iv.subrange(0, ids@.len() as int) =~= iv);
    let mut rels: Vec<char> = Vec::new();
    let mut j: usize = 0;
    while j < tree.edges.len()
        invariant
            j <= tree.edges@.len(),
            iv == str_views(ids@),
            rels@ == rel_block(tree.nodes@, tree.edges@.subrange(0, j as int), iv, zh),
        decreases tree.edges@.len() - j,
    {
        assert(tree.edges@.subrange(0, j + 1).drop_last() =~= tree.edges@.subrange(0, j as int));
        rel_line_exec(&tree.nodes, &tree.edges[j], &ids, zh, &mut rels);
        j += 1;
    }
    assert(tree.edges@.subrange(0, tree.edges@.len() as int) =~= tree.edges@);
    let mut pl: Vec<char> = Vec::new();
    let mut k: usize = 0;
    while k < plots.len()
        invariant
            k <= plots@.len(),
            pv == str_views(plots@),
            pl@ == bound_plot_block(tree.nodes@, pv.subrange(0, k as int), zh),
        decreases plots@.len() - k,
    {
        assert(pv.subrange(0, k + 1).drop_last() =~= pv.subrange(0, k as int));
        plot_entry_exec(&tree.nodes, &plots[k], zh, &mut pl);
        k += 1;
    }
    assert(pv.subrange(0, plots@.len() as int) =~= pv);
    if chars.len() == 0 && pl.len() == 0 {
        return String::new();
    }
    let mut out = if zh {
        chars_of("## 本章已链接人物与剧情（硬约束：必须严格遵守）\n**人物**：言行/动机/关系必须严格符合下列人设，不得改写核心性格或让未链接人物压过链接人物。\n**剧情**：必须严格落实下列各卡要点——进行中须写入大纲并推进；已收束/已吸收/搁置仅作既定事实，不得推翻或无视。\n禁止另起无关主线；禁止只点名不落地。\n### 人物\n")
    } else {
        chars_of("## Chapter-linked characters & plots (hard constraint: obey strictly)\n**Characters**: speech/motives/relations MUST match cards below; do not rewrite core personality or let unlinked cast overshadow linked ones.\n**Plots**: land every beat by status—advance active in the outline; treat resolved/absorbed/deferred as facts (do not overturn/ignore).\nNo unrelated main line; no name-drops without landing.\n### Characters\n")
    };
    if chars.len() == 0 {
        append_str(&mut out, if zh { "（本章未链接人物卡）\n" } else { "(no chapter-linked character cards)\n" });
    } else {
        append(&mut out, &chars);
    }
    append_str(&mut out, "\n");
    if rels.len() > 0 {
        append_str(&mut out, if zh { "### 人物关系\n" } else { "### Character relations\n" });
        append(&mut out, &rels);
        append_str(&mut out, "\n");
    }
    append_str(&mut out, if zh { "### 剧情卡\n" } else { "### Plot cards\n" });
    if pl.len() == 0 {
        append_str(&mut out, if zh { "（本章未链接剧情卡）\n" } else { "(no chapter-linked plot cards)\n" });
    } else {
        append(&mut out, &pl);
    }
    append_str(&mut out, "\n");
    string_of(&out)
}

} // verus!
