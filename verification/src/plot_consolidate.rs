//! What the root's "consolidate plots" request is built from: the most
//! recent chapters with their outlines and memory, the plot cards already
//! on the root, and the plot cards of those chapters.
use vstd::prelude::*;
use crate::cast::{add_linked_cards, clone_ids, contains_str_id, is_kind_id, is_kind_id_exec, linked_cards};
use crate::models::{derefs, find_node, first_node, str_views, NodeKind, NovelTree, TreeNode};
use crate::text::{append, append_str, chars_of, join, join_exec, slice, string_of, trim, trim_str, vviews};
use crate::tree_edit::{ev, evs, root_of, EdgeV};
use crate::tree_refs::{find_root_index, first_where, lemma_first_where, sort_chapters, sorted_chapter_nodes};
use crate::json::{get_spec, Json};
use crate::models::SidePlotMeta;

verus! {

/// How many recent chapters a consolidation reads: 1 to 30.
pub open spec fn window_of(w: u32) -> int {
    if w < 1 { 1 } else if w > 30 { 30 } else { w as int }
}

/// The last `window_of(w)` chapters in reading order.
pub open spec fn recent_spec(ns: Seq<TreeNode>, w: u32) -> Seq<TreeNode> {
    let chs = sort_chapters(ns);
    let start = if chs.len() > window_of(w) { chs.len() - window_of(w) } else { 0 };
    chs.subrange(start, chs.len() as int)
}

/// The chapters a consolidation reads (see `recent_spec`).
pub fn consolidate_recent(tree: &NovelTree, chapter_window: u32) -> (r: Vec<&TreeNode>)
    ensures
        derefs(r@) == recent_spec(tree.nodes@, chapter_window),
{
    let chs = sorted_chapter_nodes(tree);
    let w: usize = if chapter_window < 1 { 1 } else if chapter_window > 30 { 30 } else { chapter_window as usize };
    let start = if chs.len() > w { chs.len() - w } else { 0 };
    let mut out: Vec<&TreeNode> = Vec::new();
    let mut i = start;
    while i < chs.len()
        invariant
            start <= i <= chs.len(),
            derefs(out@) == derefs(chs@).subrange(start as int, i as int),
        decreases chs.len() - i,
    {
        let ghost before = out@;
        out.push(chs[i]);
        assert(derefs(out@) =~= derefs(before).push(*chs@[i as int]));
        assert(derefs(chs@)[i as int] == *chs@[i as int]);
        assert(derefs(out@) =~= derefs(chs@).subrange(start as int, i + 1));
        i += 1;
    }
    out
}

/// At most the first `n` characters.
pub open spec fn first_chars(s: Seq<char>, n: nat) -> Seq<char> {
    if s.len() <= n { s } else { s.subrange(0, n as int) }
}

pub(crate) fn first_chars_exec(s: &str, n: usize) -> (r: Vec<char>)
    ensures
        r@ == first_chars(s@, n as nat),
{
    let v = chars_of(s);
    if v.len() <= n { v } else { slice(&v, 0, n) }
}

/// The memory rows of chapter `id`, in row order.
pub open spec fn memory_of(rows: Seq<(Seq<char>, Seq<char>)>, id: Seq<char>) -> Seq<Seq<char>>
    decreases rows.len(),
{
    if rows.len() == 0 {
        Seq::empty()
    } else {
        let rest = memory_of(rows.drop_last(), id);
        if rows.last().0 == id { rest.push(rows.last().1) } else { rest }
    }
}

pub open spec fn row_views(rows: Seq<(String, String)>) -> Seq<(Seq<char>, Seq<char>)> {
    rows.map_values(|r: (String, String)| (r.0@, r.1@))
}

/// One chapter's entry: label, id, outline (first 800 characters) and
/// memory (its rows joined, first 1200 characters), with a placeholder
/// for either when blank.
pub open spec fn chapter_entry(c: TreeNode, rows: Seq<(Seq<char>, Seq<char>)>, zh: bool) -> Seq<char> {
    let os = first_chars(c.outline@, 800);
    let ms = first_chars(join(memory_of(rows, c.id@), "\n"@), 1200);
    if zh {
        "### "@ + c.label@ + "\nid="@ + c.id@ + "\n大纲："@ + (if trim(os).len() == 0 { "（空）"@ } else { os })
            + "\n记忆："@ + (if trim(ms).len() == 0 { "（无）"@ } else { ms }) + "\n\n"@
    } else {
        "### "@ + c.label@ + "\nid="@ + c.id@ + "\nOutline: "@ + (if trim(os).len() == 0 { "(empty)"@ } else { os })
            + "\nMemory: "@ + (if trim(ms).len() == 0 { "(none)"@ } else { ms }) + "\n\n"@
    }
}

pub open spec fn chapters_block_spec(cs: Seq<TreeNode>, rows: Seq<(Seq<char>, Seq<char>)>, zh: bool) -> Seq<char>
    decreases cs.len(),
{
    if cs.len() == 0 { Seq::empty() } else { chapters_block_spec(cs.drop_last(), rows, zh) + chapter_entry(cs.last(), rows, zh) }
}

fn memory_text(rows: &[(String, String)], id: &String) -> (r: Vec<char>)
    ensures
        r@ == join(memory_of(row_views(rows@), id@), "\n"@),
{
    let ghost rv = row_views(rows@);
    let mut parts: Vec<Vec<char>> = Vec::new();
    let mut i: usize = 0;
    while i < rows.len()
        invariant
            i <= rows.len(),
            rv == row_views(rows@),
            vviews(parts@) == memory_of(rv.subrange(0, i as int), id@),
        decreases rows.len() - i,
    {
        assert(rv.subrange(0, i + 1).drop_last() =~= rv.subrange(0, i as int));
        assert(rv.subrange(0, i + 1).last() == (rows@[i as int].0@, rows@[i as int].1@));
        if rows[i].0 == *id {
            let ghost before = vviews(parts@);
            parts.push(chars_of(rows[i].1.as_str()));
            assert(vviews(parts@) =~= before.push(rows@[i as int].1@));
        }
        i += 1;
    }
    assert(rv.subrange(0, rows.len() as int) =~= rv);
    join_exec(&parts, "\n")
}

fn chapter_entry_exec(c: &TreeNode, memory: &[(String, String)], zh: bool) -> (r: Vec<char>)
    ensures
        r@ == chapter_entry(*c, row_views(memory@), zh),
{
    let os = first_chars_exec(c.outline.as_str(), 800);
    let mem = memory_text(memory, &c.id);
    let ms = if mem.len() <= 1200 { mem } else { slice(&mem, 0, 1200) };
    let mut out: Vec<char> = Vec::new();
    append_str(&mut out, "### ");
    append_str(&mut out, c.label.as_str());
    append_str(&mut out, "\nid=");
    append_str(&mut out, c.id.as_str());
    append_str(&mut out, if zh { "\n大纲：" } else { "\nOutline: " });
    if crate::text::trimmed(&os).len() == 0 {
        append_str(&mut out, if zh { "（空）" } else { "(empty)" });
    } else {
        append(&mut out, &os);
    }
    append_str(&mut out, if zh { "\n记忆：" } else { "\nMemory: " });
    if crate::text::trimmed(&ms).len() == 0 {
        append_str(&mut out, if zh { "（无）" } else { "(none)" });
    } else {
        append(&mut out, &ms);
    }
    append_str(&mut out, "\n\n");
    assert(out@ =~= chapter_entry(*c, row_views(memory@), zh));
    out
}

/// The recent chapters as the request lists them (see `chapter_entry`);
/// `memory` holds (chapter id, memory text) rows.
pub fn chapters_block(recent: &[&TreeNode], memory: &[(String, String)], zh: bool) -> (r: String)
    ensures
        r@ == chapters_block_spec(derefs(recent@), row_views(memory@), zh),
{
    let ghost cs = derefs(recent@);
    let ghost rv = row_views(memory@);
    let mut out: Vec<char> = Vec::new();
    let mut i: usize = 0;
    while i < recent.len()
        invariant
            i <= recent.len(),
            cs == derefs(recent@),
            rv == row_views(memory@),
            out@ == chapters_block_spec(cs.subrange(0, i as int), rv, zh),
        decreases recent.len() - i,
    {
        assert(cs.subrange(0, i + 1).drop_last() =~= cs.subrange(0, i as int));
        assert(cs.subrange(0, i + 1).last() == *recent@[i as int]);
        let c = recent[i];
        let entry = chapter_entry_exec(c, memory, zh);
        append(&mut out, &entry);
        i += 1;
    }
    assert(cs.subrange(0, recent.len() as int) =~= cs);
    string_of(&out)
}

/// The plot cards on the root: those it lists, then side-plot cards linked
/// to it.
pub open spec fn root_plot_ids_spec(tree: NovelTree, root: TreeNode) -> Seq<Seq<char>> {
    linked_cards(evs(tree.edges@), tree.nodes@, root.id@, NodeKind::SidePlot, str_views(root.linked_side_plot_ids@))
}

/// See `root_plot_ids_spec`.
pub fn root_plot_ids(tree: &NovelTree, root: &TreeNode) -> (r: Vec<String>)
    ensures
        str_views(r@) == root_plot_ids_spec(*tree, *root),
{
    let mut ids = clone_ids(&root.linked_side_plot_ids);
    add_linked_cards(&mut ids, tree, &root.id, NodeKind::SidePlot);
    ids
}

/// `s` as `bool`'s text.
pub open spec fn bool_text(b: bool) -> Seq<char> {
    if b { "true"@ } else { "false"@ }
}

/// A plot card's status as listed: `active` when it has no plot data or a
/// blank status.
pub open spec fn listed_status(n: TreeNode) -> Seq<char> {
    match n.side_plot {
        Some(m) => if trim(m.status@).len() == 0 { "active"@ } else { m.status@ },
        None => "active"@,
    }
}

pub open spec fn absorbed_of(n: TreeNode) -> bool {
    match n.side_plot {
        Some(m) => m.absorbed,
        None => false,
    }
}

/// One root plot's line (nothing for an id no card has).
pub open spec fn root_plot_line(ns: Seq<TreeNode>, id: Seq<char>) -> Seq<char> {
    match first_node(ns, id) {
        Some(k) => "- id="@ + ns[k].id@ + " | status="@ + listed_status(ns[k]) + " | absorbed="@
            + bool_text(absorbed_of(ns[k])) + " | 「"@ + ns[k].label@ + "」\n  "@ + ns[k].outline@ + "\n"@,
        None => Seq::empty(),
    }
}

/// One chapter plot's line (nothing for an id no card has).
pub open spec fn chapter_plot_line(ns: Seq<TreeNode>, id: Seq<char>) -> Seq<char> {
    match first_node(ns, id) {
        Some(k) => "- id="@ + ns[k].id@ + " | absorbed="@ + bool_text(absorbed_of(ns[k])) + " | 「"@
            + ns[k].label@ + "」\n  "@ + ns[k].outline@ + "\n"@,
        None => Seq::empty(),
    }
}

pub open spec fn plot_lines(ns: Seq<TreeNode>, ids: Seq<Seq<char>>, root_side: bool) -> Seq<char>
    decreases ids.len(),
{
    if ids.len() == 0 {
        Seq::empty()
    } else {
        plot_lines(ns, ids.drop_last(), root_side)
            + (if root_side { root_plot_line(ns, ids.last()) } else { chapter_plot_line(ns, ids.last()) })
    }
}

/// A list of plot cards as the request shows it: one line per card (see
/// `root_plot_line` / `chapter_plot_line`), or a placeholder when the list
/// is empty.
pub open spec fn plots_block_spec(ns: Seq<TreeNode>, ids: Seq<Seq<char>>, root_side: bool, zh: bool) -> Seq<char> {
    if ids.len() == 0 {
        if zh { "（无）\n"@ } else { "(none)\n"@ }
    } else {
        plot_lines(ns, ids, root_side)
    }
}

/// See `plots_block_spec`.
pub fn plots_block(tree: &NovelTree, ids: &Vec<String>, root_side: bool, zh: bool) -> (r: String)
    ensures
        r@ == plots_block_spec(tree.nodes@, str_views(ids@), root_side, zh),
{
    if ids.len() == 0 {
        return if zh { String::from_str("（无）\n") } else { String::from_str("(none)\n") };
    }
    let ghost iv = str_views(ids@);
    let mut out: Vec<char> = Vec::new();
    let mut i: usize = 0;
    while i < ids.len()
        invariant
            i <= ids.len(),
            iv == str_views(ids@),
            out@ == plot_lines(tree.nodes@, iv.subrange(0, i as int), root_side),
        decreases ids.len() - i,
    {
        assert(iv.subrange(0, i + 1).drop_last() =~= iv.subrange(0, i as int));
        assert(iv.subrange(0, i + 1).last() == ids@[i as int]@);
        let ghost base = out@;
        match find_node(&tree.nodes, &ids[i]) {
            Some(k) => {
                let n = &tree.nodes[k];
                append_str(&mut out, "- id=");
                append_str(&mut out, n.id.as_str());
                if root_side {
                    append_str(&mut out, " | status=");
                    let st: Vec<char> = match &n.side_plot {
                        Some(m) => if trim_str(m.status.as_str()).len() == 0 { chars_of("active") } else { chars_of(m.status.as_str()) },
                        None => chars_of("active"),
                    };
                    append(&mut out, &st);
                }
                append_str(&mut out, " | absorbed=");
                let abs = match &n.side_plot {
                    Some(m) => m.absorbed,
                    None => false,
                };
                append_str(&mut out, if abs { "true" } else { "false" });
                append_str(&mut out, " | 「");
                append_str(&mut out, n.label.as_str());
                append_str(&mut out, "」\n  ");
                append_str(&mut out, n.outline.as_str());
                append_str(&mut out, "\n");
            },
            None => {},
        }
        assert(out@ =~= base + (if root_side { root_plot_line(tree.nodes@, iv[i as int]) } else { chapter_plot_line(tree.nodes@, iv[i as int]) }));
        i += 1;
    }
    assert(iv.subrange(0, ids.len() as int) =~= iv);
    string_of(&out)
}

/// `acc` with `x` added unless it is there.
pub open spec fn add_unique(acc: Seq<Seq<char>>, x: Seq<char>) -> Seq<Seq<char>> {
    if acc.contains(x) { acc } else { acc.push(x) }
}

pub open spec fn add_all(acc: Seq<Seq<char>>, xs: Seq<Seq<char>>) -> Seq<Seq<char>>
    decreases xs.len(),
{
    if xs.len() == 0 { acc } else { add_unique(add_all(acc, xs.drop_last()), xs.last()) }
}

/// The plot ids the recent chapters list, in card order.
pub open spec fn listed_plots(ns: Seq<TreeNode>, recent: Seq<Seq<char>>, acc: Seq<Seq<char>>) -> Seq<Seq<char>>
    decreases ns.len(),
{
    if ns.len() == 0 {
        acc
    } else {
        let prev = listed_plots(ns.drop_last(), recent, acc);
        let n = ns.last();
        if n.kind == NodeKind::Chapter && recent.contains(n.id@) { add_all(prev, str_views(n.linked_side_plot_ids@)) } else { prev }
    }
}

/// The side-plot cards linked to a recent chapter, in link order.
pub open spec fn linked_plots(es: Seq<EdgeV>, ns: Seq<TreeNode>, recent: Seq<Seq<char>>, acc: Seq<Seq<char>>) -> Seq<Seq<char>>
    decreases es.len(),
{
    if es.len() == 0 {
        acc
    } else {
        let prev = linked_plots(es.drop_last(), ns, recent, acc);
        let e = es.last();
        let pl = if recent.contains(e.source) { Some(e.target) } else if recent.contains(e.target) { Some(e.source) } else { None };
        match pl {
            Some(p) => if is_kind_id(ns, p, NodeKind::SidePlot) { add_unique(prev, p) } else { prev },
            None => prev,
        }
    }
}

/// `ids` without those in `drop`.
pub open spec fn without(ids: Seq<Seq<char>>, drop: Seq<Seq<char>>) -> Seq<Seq<char>>
    decreases ids.len(),
{
    if ids.len() == 0 {
        Seq::empty()
    } else {
        let rest = without(ids.drop_last(), drop);
        if drop.contains(ids.last()) { rest } else { rest.push(ids.last()) }
    }
}

/// The plot cards of the recent chapters that are not on the root: those
/// the chapters list, then those linked to them, each once.
pub open spec fn chapter_plot_ids_spec(tree: NovelTree, recent: Seq<Seq<char>>, root_ids: Seq<Seq<char>>) -> Seq<Seq<char>> {
    without(linked_plots(evs(tree.edges@), tree.nodes@, recent, listed_plots(tree.nodes@, recent, Seq::empty())), root_ids)
}

fn add_unique_exec(acc: &mut Vec<String>, x: &String)
    ensures
        str_views(final(acc)@) == add_unique(str_views(old(acc)@), x@),
{
    if !contains_str_id(acc, x) {
        let ghost before = str_views(acc@);
        acc.push(x.clone());
        assert(str_views(acc@) =~= before.push(x@));
    }
}

fn add_all_exec(acc: &mut Vec<String>, xs: &Vec<String>)
    ensures
        str_views(final(acc)@) == add_all(str_views(old(acc)@), str_views(xs@)),
{
    let ghost a0 = str_views(acc@);
    let ghost xv = str_views(xs@);
    let mut i: usize = 0;
    while i < xs.len()
        invariant
            i <= xs.len(),
            xv == str_views(xs@),
            str_views(acc@) == add_all(a0, xv.subrange(0, i as int)),
        decreases xs.len() - i,
    {
        assert(xv.subrange(0, i + 1).drop_last() =~= xv.subrange(0, i as int));
        assert(xv.subrange(0, i + 1).last() == xs@[i as int]@);
        add_unique_exec(acc, &xs[i]);
        i += 1;
    }
    assert(xv.subrange(0, xs.len() as int) =~= xv);
}

/// See `chapter_plot_ids_spec`. (The set is listed in the order the cards
/// are first met.)
pub fn chapter_plot_ids(tree: &NovelTree, recent: &Vec<String>, root_ids: &Vec<String>) -> (r: Vec<String>)
    ensures
        str_views(r@) == chapter_plot_ids_spec(*tree, str_views(recent@), str_views(root_ids@)),
{
    let ghost rv = str_views(recent@);
    let mut acc: Vec<String> = Vec::new();
    let mut i: usize = 0;
    assert(str_views(acc@) =~= Seq::<Seq<char>>::empty());
    while i < tree.nodes.len()
        invariant
            i <= tree.nodes.len(),
            rv == str_views(recent@),
            str_views(acc@) == listed_plots(tree.nodes@.subrange(0, i as int), rv, Seq::empty()),
        decreases tree.nodes.len() - i,
    {
        assert(tree.nodes@.subrange(0, i + 1).drop_last() =~= tree.nodes@.subrange(0, i as int));
        assert(tree.nodes@.subrange(0, i + 1).last() == tree.nodes@[i as int]);
        let n = &tree.nodes[i];
        if n.kind == NodeKind::Chapter && contains_str_id(recent, &n.id) {
            add_all_exec(&mut acc, &n.linked_side_plot_ids);
        }
        i += 1;
    }
    assert(tree.nodes@.subrange(0, tree.nodes.len() as int) =~= tree.nodes@);
    let ghost es = evs(tree.edges@);
    let ghost a1 = str_views(acc@);
    let mut j: usize = 0;
    assert(es.subrange(0, 0) =~= Seq::<EdgeV>::empty());
    while j < tree.edges.len()
        invariant
            j <= tree.edges.len(),
            rv == str_views(recent@),
            es == evs(tree.edges@),
            str_views(acc@) == linked_plots(es.subrange(0, j as int), tree.nodes@, rv, a1),
        decreases tree.edges.len() - j,
    {
        assert(es.subrange(0, j + 1).drop_last() =~= es.subrange(0, j as int));
        assert(es.subrange(0, j + 1).last() == ev(tree.edges@[j as int]));
        let e = &tree.edges[j];
        let pl: Option<&String> = if contains_str_id(recent, &e.source) {
            Some(&e.target)
        } else if contains_str_id(recent, &e.target) {
            Some(&e.source)
        } else {
            None
        };
        match pl {
            Some(p) => {
                if is_kind_id_exec(&tree.nodes, p, NodeKind::SidePlot) {
                    add_unique_exec(&mut acc, p);
                }
            },
            None => {},
        }
        j += 1;
    }
    assert(es.subrange(0, tree.edges.len() as int) =~= es);
    let ghost a2 = str_views(acc@);
    let mut out: Vec<String> = Vec::new();
    let mut q: usize = 0;
    assert(a2.subrange(0, 0) =~= Seq::<Seq<char>>::empty());
    assert(str_views(out@) =~= Seq::<Seq<char>>::empty());
    while q < acc.len()
        invariant
            q <= acc.len(),
            a2 == str_views(acc@),
            str_views(out@) == without(a2.subrange(0, q as int), str_views(root_ids@)),
        decreases acc.len() - q,
    {
        assert(a2.subrange(0, q + 1).drop_last() =~= a2.subrange(0, q as int));
        assert(a2.subrange(0, q + 1).last() == acc@[q as int]@);
        if !contains_str_id(root_ids, &acc[q]) {
            let ghost before = str_views(out@);
            out.push(acc[q].clone());
            assert(str_views(out@) =~= before.push(acc@[q as int]@));
        }
        q += 1;
    }
    assert(a2.subrange(0, acc.len() as int) =~= a2);
    out
}

/// A plot card's data as (status, absorbed).
pub open spec fn meta_view(n: TreeNode) -> Option<(Seq<char>, bool)> {
    match n.side_plot {
        Some(m) => Some((m.status@, m.absorbed)),
        None => None,
    }
}

pub open spec fn metas(ns: Seq<TreeNode>) -> Seq<Option<(Seq<char>, bool)>> {
    ns.map_values(|n: TreeNode| meta_view(n))
}

/// The first side-plot card with id `id`.
pub open spec fn plot_index(ns: Seq<TreeNode>, id: Seq<char>) -> Option<int> {
    first_where(ns, |n: TreeNode| n.id@ == id && n.kind == NodeKind::SidePlot)
}

/// One absorb step (see `absorb_fold`): the plot data and count after id
/// `x`.
pub open spec fn absorb_step(
    ns: Seq<TreeNode>,
    m1: Seq<Option<(Seq<char>, bool)>>,
    c1: nat,
    x: Json,
    chapter_ids: Seq<Seq<char>>,
) -> (Seq<Option<(Seq<char>, bool)>>, nat) {
    match x {
        Json::Str(s) => if chapter_ids.contains(s@) {
            match plot_index(ns, s@) {
                Some(k) => {
                    let (st, ab) = match m1[k] { Some(m) => m, None => (Seq::empty(), false) };
                    (m1.update(k, Some((if trim(st).len() == 0 { "deferred"@ } else { st }, true))), if ab { c1 } else { c1 + 1 })
                },
                None => (m1, c1),
            }
        } else {
            (m1, c1)
        },
        _ => (m1, c1),
    }
}

/// The plot data after absorbing ids `ids` one by one, and how many cards
/// were newly absorbed: each id that is a string naming one of the
/// chapters' plot cards marks the first side-plot card with that id
/// absorbed, its blank status becoming `deferred` (a card without plot
/// data starts from a blank status, not absorbed).
pub open spec fn absorb_fold(
    ns: Seq<TreeNode>,
    ms: Seq<Option<(Seq<char>, bool)>>,
    ids: Seq<Json>,
    chapter_ids: Seq<Seq<char>>,
) -> (Seq<Option<(Seq<char>, bool)>>, nat)
    decreases ids.len(),
{
    if ids.len() == 0 {
        (ms, 0)
    } else {
        let (m1, c1) = absorb_fold(ns, ms, ids.drop_last(), chapter_ids);
        absorb_step(ns, m1, c1, ids.last(), chapter_ids)
    }
}

/// `n2` is `n` with only its plot data possibly changed.
pub open spec fn same_but_meta(n: TreeNode, n2: TreeNode) -> bool {
    &&& n2.id == n.id
    &&& n2.kind == n.kind
    &&& n2.label == n.label
    &&& n2.outline == n.outline
    &&& n2.detailed_outline == n.detailed_outline
    &&& n2.character == n.character
    &&& n2.knowledge == n.knowledge
    &&& n2.linked_character_ids == n.linked_character_ids
    &&& n2.linked_side_plot_ids == n.linked_side_plot_ids
    &&& n2.linked_knowledge_ids == n.linked_knowledge_ids
    &&& n2.position == n.position
    &&& n2.word_count == n.word_count
    &&& n2.word_count_min == n.word_count_min
    &&& n2.word_count_max == n.word_count_max
    &&& n2.chapter_count == n.chapter_count
}

pub(crate) fn find_plot(ns: &Vec<TreeNode>, id: &String) -> (r: Option<usize>)
    ensures
        match r {
            Some(k) => plot_index(ns@, id@) == Some(k as int) && k < ns.len(),
            None => plot_index(ns@, id@) is None,
        },
{
    let ghost p = |n: TreeNode| n.id@ == id@ && n.kind == NodeKind::SidePlot;
    let mut i: usize = 0;
    while i < ns.len()
        invariant
            i <= ns.len(),
            p == (|n: TreeNode| n.id@ == id@ && n.kind == NodeKind::SidePlot),
            forall|j: int| 0 <= j < i ==> !p(#[trigger] ns@[j]),
        decreases ns.len() - i,
    {
        if ns[i].id == *id && ns[i].kind == NodeKind::SidePlot {
            proof {
                lemma_first_where(ns@, p, i as int);
            }
            return Some(i);
        }
        i += 1;
    }
    assert(!(exists|k: int| 0 <= k < ns@.len() && p(ns@[k])));
    None
}

/// Marks a plot card absorbed, a blank status becoming `deferred`;
/// returns whether it was absorbed before.
fn absorb_node(n: &mut TreeNode) -> (was: bool)
    ensures
        same_but_meta(*old(n), *final(n)),
        was == (match meta_view(*old(n)) { Some(m) => m.1, None => false }),
        meta_view(*final(n)) == Some(({
            let st = match meta_view(*old(n)) { Some(m) => m.0, None => Seq::<char>::empty() };
            if trim(st).len() == 0 { "deferred"@ } else { st }
        }, true)),
{
    let old_meta = n.side_plot.take();
    let (st, ab) = match old_meta {
        Some(m) => (m.status, m.absorbed),
        None => (String::new(), false),
    };
    let st2 = if trim_str(st.as_str()).len() == 0 { String::from_str("deferred") } else { st };
    n.side_plot = Some(SidePlotMeta { status: st2, absorbed: true });
    ab
}

/// Absorbs the plot card at `k` (see `absorb_node`).
#[verifier::spinoff_prover]
fn absorb_at(nodes: &mut Vec<TreeNode>, k: usize, Ghost(ns0): Ghost<Seq<TreeNode>>) -> (ab: bool)
    requires
        k < old(nodes)@.len(),
        old(nodes)@.len() == ns0.len(),
        forall|j: int| 0 <= j < ns0.len() ==> #[trigger] same_but_meta(ns0[j], old(nodes)@[j]),
    ensures
        final(nodes)@.len() == ns0.len(),
        forall|j: int| 0 <= j < ns0.len() ==> #[trigger] same_but_meta(ns0[j], final(nodes)@[j]),
        metas(final(nodes)@) == metas(old(nodes)@).update(k as int, metas(final(nodes)@)[k as int]),
        ab == (match metas(old(nodes)@)[k as int] { Some(m) => m.1, None => false }),
        metas(final(nodes)@)[k as int] == Some(({
            let st = match metas(old(nodes)@)[k as int] { Some(m) => m.0, None => Seq::<char>::empty() };
            if trim(st).len() == 0 { "deferred"@ } else { st }
        }, true)),
{
    let ghost before = nodes@;
    let mut n = nodes.remove(k);
    let ghost n0 = n;
    let ab = absorb_node(&mut n);
    let ghost nv = n;
    nodes.insert(k, n);
    proof {
        assert(n0 == before[k as int]);
        assert(nodes@ =~= before.update(k as int, nv));
        assert(metas(nodes@) =~= metas(before).update(k as int, meta_view(nv)));
        assert(metas(before)[k as int] == meta_view(n0));
        assert forall|j: int| 0 <= j < ns0.len() implies #[trigger] same_but_meta(ns0[j], nodes@[j]) by {
            assert(same_but_meta(ns0[j], before[j]));
        }
    }
    ab
}

/// One absorb step on the nodes (see `absorb_step`); returns whether a
/// card was newly absorbed.
#[verifier::spinoff_prover]
#[verifier::rlimit(40)]
fn absorb_one(nodes: &mut Vec<TreeNode>, x: &Json, chapter_ids: &Vec<String>, Ghost(ns0): Ghost<Seq<TreeNode>>) -> (newly: bool)
    requires
        old(nodes)@.len() == ns0.len(),
        forall|j: int| 0 <= j < ns0.len() ==> #[trigger] same_but_meta(ns0[j], old(nodes)@[j]),
    ensures
        final(nodes)@.len() == ns0.len(),
        forall|j: int| 0 <= j < ns0.len() ==> #[trigger] same_but_meta(ns0[j], final(nodes)@[j]),
        (metas(final(nodes)@), if newly { 1nat } else { 0nat })
            == absorb_step(ns0, metas(old(nodes)@), 0, *x, str_views(chapter_ids@)),
{
    let s = match x {
        Json::Str(s) => s,
        _ => {
            return false;
        },
    };
    if !contains_str_id(chapter_ids, s) {
        return false;
    }
    proof {
        lemma_plot_index_kept(ns0, nodes@, s@);
    }
    let k = match find_plot(nodes, s) {
        Some(k) => k,
        None => {
            return false;
        },
    };
    let ghost before = nodes@;
    let ab = absorb_at(nodes, k, Ghost(ns0));
    proof {
        lemma_absorb_one_result(ns0, metas(before), metas(nodes@), k as int, s@, str_views(chapter_ids@),
            metas(before)[k as int], metas(nodes@)[k as int], ab);
    }
    !ab
}

proof fn lemma_absorb_one_result(
    ns0: Seq<TreeNode>,
    m0: Seq<Option<(Seq<char>, bool)>>,
    m1: Seq<Option<(Seq<char>, bool)>>,
    k: int,
    s: Seq<char>,
    cv: Seq<Seq<char>>,
    old_meta: Option<(Seq<char>, bool)>,
    new_meta: Option<(Seq<char>, bool)>,
    ab: bool,
)
    requires
        plot_index(ns0, s) == Some(k),
        cv.contains(s),
        m0[k] == old_meta,
        m1 == m0.update(k, new_meta),
        ab == (match old_meta { Some(m) => m.1, None => false }),
        new_meta == Some(({
            let st = match old_meta { Some(m) => m.0, None => Seq::<char>::empty() };
            if trim(st).len() == 0 { "deferred"@ } else { st }
        }, true)),
    ensures
        forall|x: String| #[trigger] x@ == s ==> (m1, if !ab { 1nat } else { 0nat }) == absorb_step(ns0, m0, 0, Json::Str(x), cv),
{
}

/// Marks the chapters' plot cards named in `ids` absorbed (see
/// `absorb_fold`) and returns how many were newly absorbed.
pub fn absorb_plots(tree: &mut NovelTree, ids: &Vec<Json>, chapter_ids: &Vec<String>) -> (r: u32)
    requires
        ids@.len() <= u32::MAX,
    ensures
        final(tree).novel_id == old(tree).novel_id,
        final(tree).edges == old(tree).edges,
        final(tree).nodes@.len() == old(tree).nodes@.len(),
        forall|i: int| 0 <= i < old(tree).nodes@.len() ==> #[trigger] same_but_meta(old(tree).nodes@[i], final(tree).nodes@[i]),
        metas(final(tree).nodes@) == absorb_fold(old(tree).nodes@, metas(old(tree).nodes@), ids@, str_views(chapter_ids@)).0,
        r == absorb_fold(old(tree).nodes@, metas(old(tree).nodes@), ids@, str_views(chapter_ids@)).1,
{
    let ghost ns0 = tree.nodes@;
    let ghost cv = str_views(chapter_ids@);
    let mut count: u32 = 0;
    let mut i: usize = 0;
    assert(ids@.subrange(0, 0) =~= Seq::<Json>::empty());
    while i < ids.len()
        invariant
            i <= ids.len(),
            ids@.len() <= u32::MAX,
            cv == str_views(chapter_ids@),
            tree.nodes@.len() == ns0.len(),
            forall|j: int| 0 <= j < ns0.len() ==> #[trigger] same_but_meta(ns0[j], tree.nodes@[j]),
            metas(tree.nodes@) == absorb_fold(ns0, metas(ns0), ids@.subrange(0, i as int), cv).0,
            count == absorb_fold(ns0, metas(ns0), ids@.subrange(0, i as int), cv).1,
            count <= i,
            tree.novel_id == old(tree).novel_id,
            tree.edges == old(tree).edges,
        decreases ids.len() - i,
    {
        assert(ids@.subrange(0, i + 1).drop_last() =~= ids@.subrange(0, i as int));
        assert(ids@.subrange(0, i + 1).last() == ids@[i as int]);
        let ghost m_prev = metas(tree.nodes@);
        let newly = absorb_one(&mut tree.nodes, &ids[i], chapter_ids, Ghost(ns0));
        proof {
            lemma_absorb_step_count(ns0, m_prev, count as nat, ids@[i as int], cv);
        }
        if newly {
            count = count + 1;
        }
        i += 1;
    }
    assert(ids@.subrange(0, ids.len() as int) =~= ids@);
    count
}

proof fn lemma_absorb_step_count(ns: Seq<TreeNode>, m: Seq<Option<(Seq<char>, bool)>>, c: nat, x: Json, cv: Seq<Seq<char>>)
    ensures
        absorb_step(ns, m, c, x, cv).0 == absorb_step(ns, m, 0, x, cv).0,
        absorb_step(ns, m, c, x, cv).1 == c + absorb_step(ns, m, 0, x, cv).1,
{
}

proof fn lemma_plot_index_kept(ns: Seq<TreeNode>, ns2: Seq<TreeNode>, id: Seq<char>)
    requires
        ns2.len() == ns.len(),
        forall|j: int| 0 <= j < ns.len() ==> #[trigger] same_but_meta(ns[j], ns2[j]),
    ensures
        plot_index(ns2, id) == plot_index(ns, id),
{
    let p = |n: TreeNode| n.id@ == id && n.kind == NodeKind::SidePlot;
    crate::tree_edit::lemma_first_where_props(ns, p);
    crate::tree_edit::lemma_first_where_props(ns2, p);
    match first_where(ns, p) {
        Some(r) => {
            assert forall|j: int| 0 <= j < r implies !p(ns2[j]) by {
                assert(same_but_meta(ns[j], ns2[j]));
            }
            assert(same_but_meta(ns[r], ns2[r]));
            lemma_first_where(ns2, p, r);
        },
        None => {
            match first_where(ns2, p) {
                Some(r2) => {
                    assert(same_but_meta(ns[r2], ns2[r2]));
                    assert(p(ns[r2]));
                },
                None => {},
            }
        },
    }
}

/// A root plot the consolidation reply proposes.
pub struct RootPlotItem {
    pub label: String,
    pub outline: String,
    pub status: String,
    pub id: String,
}

/// The text of a member when it is a string; empty otherwise.
pub open spec fn text_or_empty(o: Option<Json>) -> Seq<char> {
    match o {
        Some(Json::Str(s)) => s@,
        _ => Seq::empty(),
    }
}

/// The fields of a proposed root plot: `label` (or `title`), `outline`,
/// `status` (normalized, `active` when missing) and `id`, trimmed; none
/// when it has neither label nor outline.
pub open spec fn root_plot_item_spec(p: Json) -> Option<(Seq<char>, Seq<char>, Seq<char>, Seq<char>)> {
    let label = trim(text_or_empty(crate::plan_json::or_else(get_spec(p, "label"@), get_spec(p, "title"@))));
    let outline = trim(text_or_empty(get_spec(p, "outline"@)));
    let status = match get_spec(p, "status"@) {
        Some(Json::Str(s)) => crate::card_meta::plot_status_spec(s@),
        _ => crate::card_meta::plot_status_spec("active"@),
    };
    let id = trim(text_or_empty(get_spec(p, "id"@)));
    if label.len() == 0 && outline.len() == 0 { None } else { Some((label, outline, status, id)) }
}

fn text_of(o: Option<&Json>) -> (r: Vec<char>)
    ensures
        r@ == trim(text_or_empty(match o { Some(x) => Some(*x), None => None })),
{
    match o {
        Some(Json::Str(s)) => trim_str(s.as_str()),
        _ => {
            let e: Vec<char> = Vec::new();
            assert(trim(Seq::<char>::empty()) =~= Seq::<char>::empty()) by {
                reveal_with_fuel(crate::text::trim_start, 2);
                reveal_with_fuel(crate::text::trim_end, 2);
            }
            e
        },
    }
}

/// See `root_plot_item_spec`.
pub fn root_plot_item(p: &Json) -> (r: Option<RootPlotItem>)
    ensures
        match r {
            Some(it) => root_plot_item_spec(*p) == Some((it.label@, it.outline@, it.status@, it.id@)),
            None => root_plot_item_spec(*p) is None,
        },
{
    let lab = match crate::json::json_get(p, "label") {
        Some(x) => Some(x),
        None => crate::json::json_get(p, "title"),
    };
    let label = text_of(lab);
    let outline = text_of(crate::json::json_get(p, "outline"));
    if label.len() == 0 && outline.len() == 0 {
        return None;
    }
    let status = match crate::json::json_get(p, "status") {
        Some(Json::Str(s)) => crate::card_meta::normalize_plot_status(s.as_str()),
        _ => crate::card_meta::normalize_plot_status("active"),
    };
    let id = text_of(crate::json::json_get(p, "id"));
    Some(RootPlotItem { label: string_of(&label), outline: string_of(&outline), status: status, id: string_of(&id) })
}

/// Brings the existing plot card at `k` up to a proposed root plot: its
/// label and outline where the proposal gives them, the proposal's status,
/// and no longer absorbed.
pub fn update_root_plot_card(tree: &mut NovelTree, k: usize, item: &RootPlotItem)
    requires
        k < old(tree).nodes@.len(),
    ensures
        final(tree).novel_id == old(tree).novel_id,
        final(tree).edges == old(tree).edges,
        final(tree).nodes@.len() == old(tree).nodes@.len(),
        forall|j: int| 0 <= j < old(tree).nodes@.len() && j != k ==> final(tree).nodes@[j] == old(tree).nodes@[j],
        final(tree).nodes@[k as int].label@ == (if item.label@.len() > 0 { item.label@ } else { old(tree).nodes@[k as int].label@ }),
        final(tree).nodes@[k as int].outline@ == (if item.outline@.len() > 0 { item.outline@ } else { old(tree).nodes@[k as int].outline@ }),
        meta_view(final(tree).nodes@[k as int]) == Some((item.status@, false)),
        final(tree).nodes@[k as int].id == old(tree).nodes@[k as int].id,
        final(tree).nodes@[k as int].kind == old(tree).nodes@[k as int].kind,
        final(tree).nodes@[k as int].linked_side_plot_ids == old(tree).nodes@[k as int].linked_side_plot_ids,
        final(tree).nodes@[k as int].linked_character_ids == old(tree).nodes@[k as int].linked_character_ids,
        final(tree).nodes@[k as int].linked_knowledge_ids == old(tree).nodes@[k as int].linked_knowledge_ids,
        final(tree).nodes@[k as int].position == old(tree).nodes@[k as int].position,
{
    let ghost ns0 = tree.nodes@;
    let mut n = tree.nodes.remove(k);
    if item.label.unicode_len() > 0 {
        n.label = item.label.clone();
    }
    if item.outline.unicode_len() > 0 {
        n.outline = item.outline.clone();
    }
    n.side_plot = Some(SidePlotMeta { status: item.status.clone(), absorbed: false });
    let ghost nv = n;
    tree.nodes.insert(k, n);
    assert(tree.nodes@ =~= ns0.update(k as int, nv));
}

} // verus!
