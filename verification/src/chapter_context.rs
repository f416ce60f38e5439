//! The context a chapter is written against: the chapter's title, outline
//! and detailed outline, and the cards linked to it: characters (its own,
//! the root's and its volume's, its plot cards', and the other ends of their
//! relations), the relations among them, its plot cards, and its knowledge
//! cards within their budget.
use vstd::prelude::*;
use crate::bound_cards::{is_char_at, is_char_at_exec, merge_plots, plot_chars_exec, plot_chars_fold, rel_closure, rel_closure_exec};
use crate::character_fmt::{character_full_spec, format_character_full};
use crate::core_laws_fmt::{inject_body_spec, knowledge_card_inject_body};
use crate::kb_context::{capped_spec, card_views, format_knowledge_cards_capped_var, truncate_chars, truncate_spec};
use crate::land_beats::add_ids;
use crate::models::{find_node, first_node, str_views, NodeKind, NovelTree, TreeEdge, TreeNode};
use crate::outline_parse::nonblank;
use crate::plot_consolidate::{add_all, first_chars, first_chars_exec};
use crate::root_reference::{edge_chars, gather_edge_chars, root_pos};
use crate::text::{append, append_decimal, append_str, chars_of, decimal, join, join_exec, string_of, trim, trim_str, vviews};
use crate::tree_refs::find_root_index;

verus! {

/// The locale's words for the chapter context.
pub struct ContextLabels {
    pub name: String,
    pub card_incomplete: String,
    pub no_characters: String,
    pub relation_unset: String,
    pub empty_plot: String,
    pub no_plots: String,
    pub empty_knowledge: String,
    pub no_knowledge: String,
    pub empty_outline: String,
    pub empty_detailed_outline: String,
    pub chapter_title: String,
    pub chapter_outline: String,
    pub chapter_detailed_outline: String,
    pub chars_header: String,
    pub relations_header: String,
    pub plots_header: String,
    pub knowledge_header: String,
}

/// What the tree-link and card rules give for one chapter: its own and
/// inherited plot cards, the root's plot cards, the root's and the
/// volume's characters, the plot cards whose state lets them be injected,
/// the knowledge cards to write with (id, priority, per-card cap) and their
/// total budget, and the chapter texts of its plot cards.
pub struct ContextLinks {
    pub local_plot_ids: Vec<String>,
    pub inherited_plot_ids: Vec<String>,
    pub root_plot_ids: Vec<String>,
    pub root_character_ids: Vec<String>,
    pub volume_character_ids: Vec<String>,
    pub injectable_plot_ids: Vec<String>,
    pub knowledge: Vec<(String, u8, usize)>,
    pub knowledge_total: usize,
    pub plot_bodies: Vec<(String, String)>,
}

// ---------------------------------------------------------------------------
// Characters
// ---------------------------------------------------------------------------

/// The characters held book-wide: the root's, and the character cards
/// linked to the root card.
pub open spec fn ctx_root_chars(t: NovelTree, l: ContextLinks) -> Seq<Seq<char>> {
    match root_pos(t) {
        Some(r) => edge_chars(t.nodes@, t.edges@, t.nodes@[r].id@, str_views(l.root_character_ids@)),
        None => str_views(l.root_character_ids@),
    }
}

/// The chapter's characters: its own, those linked to it, the root's and
/// the volume's, those linked to the root card, its plot cards', then the
/// other ends of relations touching them.
pub open spec fn ctx_char_ids(t: NovelTree, node_id: Seq<char>, l: ContextLinks) -> Seq<Seq<char>> {
    let ns = t.nodes@;
    let es = t.edges@;
    let own = match first_node(ns, node_id) {
        Some(k) => str_views(ns[k].linked_character_ids@),
        None => Seq::empty(),
    };
    let c1 = edge_chars(ns, es, node_id, own);
    let c3 = add_all(add_all(c1, str_views(l.root_character_ids@)), str_views(l.volume_character_ids@));
    let c4 = match root_pos(t) {
        Some(r) => edge_chars(ns, es, ns[r].id@, c3),
        None => c3,
    };
    let plots = add_all(str_views(l.local_plot_ids@), str_views(l.inherited_plot_ids@));
    let c5 = plot_chars_fold(ns, es, plots, c4);
    rel_closure(ns, es, c5, c5)
}

/// The book-wide mark of a character.
pub open spec fn char_mark(book: Seq<Seq<char>>, id: Seq<char>, zh: bool) -> Seq<char> {
    if book.contains(id) { if zh { "｜全书人物"@ } else { "｜book-wide"@ } } else { Seq::empty() }
}

/// The rest of a character's entry after its name and mark.
pub open spec fn char_tail(n: TreeNode, lab: ContextLabels, slim: bool) -> Seq<char> {
    match n.character {
        Some(c) => "\n"@ + truncate_spec(character_full_spec(n.label@, c), if slim { 1200nat } else { 4500nat }) + "\n"@,
        None => " "@ + lab.card_incomplete@ + "\n"@,
    }
}

pub open spec fn ctx_char_entry(ns: Seq<TreeNode>, id: Seq<char>, book: Seq<Seq<char>>, lab: ContextLabels, slim: bool, zh: bool) -> Seq<char> {
    match first_node(ns, id) {
        Some(k) => "- "@ + lab.name@ + "："@ + ns[k].label@ + char_mark(book, id, zh) + char_tail(ns[k], lab, slim),
        None => Seq::empty(),
    }
}

pub open spec fn ctx_char_block(ns: Seq<TreeNode>, ids: Seq<Seq<char>>, book: Seq<Seq<char>>, lab: ContextLabels, slim: bool, zh: bool) -> Seq<char>
    decreases ids.len(),
{
    if ids.len() == 0 {
        Seq::empty()
    } else {
        ctx_char_block(ns, ids.drop_last(), book, lab, slim, zh) + ctx_char_entry(ns, ids.last(), book, lab, slim, zh)
    }
}

pub open spec fn ctx_rel_line(ns: Seq<TreeNode>, e: TreeEdge, ids: Seq<Seq<char>>, unset: Seq<char>) -> Seq<char> {
    if is_char_at(ns, e.source@) && is_char_at(ns, e.target@) && ids.contains(e.source@) && ids.contains(e.target@) {
        let a = ns[first_node(ns, e.source@)->Some_0];
        let b = ns[first_node(ns, e.target@)->Some_0];
        let rel = if trim(e.label@).len() == 0 { unset } else { e.label@ };
        "- "@ + a.label@ + " ↔ "@ + b.label@ + "："@ + rel + "\n"@
    } else {
        Seq::empty()
    }
}

pub open spec fn ctx_rel_block(ns: Seq<TreeNode>, es: Seq<TreeEdge>, ids: Seq<Seq<char>>, unset: Seq<char>) -> Seq<char>
    decreases es.len(),
{
    if es.len() == 0 { Seq::empty() } else { ctx_rel_block(ns, es.drop_last(), ids, unset) + ctx_rel_line(ns, es.last(), ids, unset) }
}

// ---------------------------------------------------------------------------
// Plot cards
// ---------------------------------------------------------------------------

/// A plot card may be injected: a plot card without a state, or one whose
/// state allows it.
pub open spec fn injectable(n: TreeNode, inj: Seq<Seq<char>>) -> bool {
    n.kind == NodeKind::SidePlot && (n.side_plot is None || inj.contains(n.id@))
}

/// The labels of the cards `ids` names (those that exist).
pub open spec fn labels_of(ns: Seq<TreeNode>, ids: Seq<Seq<char>>) -> Seq<Seq<char>>
    decreases ids.len(),
{
    if ids.len() == 0 {
        Seq::empty()
    } else {
        let rest = labels_of(ns, ids.drop_last());
        match first_node(ns, ids.last()) {
            Some(k) => rest.push(ns[k].label@),
            None => rest,
        }
    }
}

/// The labels of the character cards linked to `id`, added once each.
pub open spec fn edge_labels(ns: Seq<TreeNode>, es: Seq<TreeEdge>, id: Seq<char>, acc: Seq<Seq<char>>) -> Seq<Seq<char>>
    decreases es.len(),
{
    if es.len() == 0 {
        acc
    } else {
        let prev = edge_labels(ns, es.drop_last(), id, acc);
        let e = es.last();
        if e.source@ == id || e.target@ == id {
            let other = if e.source@ == id { e.target@ } else { e.source@ };
            match first_node(ns, other) {
                Some(k) => if ns[k].kind == NodeKind::Character && !prev.contains(ns[k].label@) { prev.push(ns[k].label@) } else { prev },
                None => prev,
            }
        } else {
            prev
        }
    }
}

/// The chapter text stored for a plot card, empty without one.
pub open spec fn body_of(bodies: Seq<(Seq<char>, Seq<char>)>, id: Seq<char>) -> Seq<char>
    decreases bodies.len(),
{
    if bodies.len() == 0 {
        Seq::empty()
    } else if bodies[0].0 == id {
        bodies[0].1
    } else {
        body_of(bodies.drop_first(), id)
    }
}

pub open spec fn pair_views(v: Seq<(String, String)>) -> Seq<(Seq<char>, Seq<char>)> {
    v.map_values(|p: (String, String)| (p.0@, p.1@))
}

/// A plot card's scope mark: book-wide, volume, or none.
pub open spec fn plot_mark(l: ContextLinks, id: Seq<char>, zh: bool) -> Seq<char> {
    if str_views(l.root_plot_ids@).contains(id) {
        if zh { "｜全书剧情·进行中"@ } else { "｜book-wide · active"@ }
    } else if str_views(l.inherited_plot_ids@).contains(id) {
        if zh { "｜分卷剧情·进行中"@ } else { "｜volume · active"@ }
    } else {
        Seq::empty()
    }
}

/// The names of a plot card's characters, or the "none" word.
pub open spec fn cast_text(t: NovelTree, n: TreeNode, id: Seq<char>, zh: bool) -> Seq<char> {
    let cast = edge_labels(t.nodes@, t.edges@, id, labels_of(t.nodes@, str_views(n.linked_character_ids@)));
    if cast.len() == 0 { if zh { "（未标）"@ } else { "(none)"@ } } else { join(cast, "、"@) }
}

/// A plot card's entry without its text.
pub open spec fn plot_head(t: NovelTree, n: TreeNode, id: Seq<char>, l: ContextLinks, lab: ContextLabels, zh: bool) -> Seq<char> {
    let ot = if trim(n.outline@).len() == 0 { lab.empty_plot@ } else { n.outline@ };
    if zh {
        "- 「"@ + n.label@ + "」"@ + plot_mark(l, id, zh) + "\n  剧情要点："@ + ot + "\n  关联人物："@ + cast_text(t, n, id, zh) + "\n"@
    } else {
        "- “"@ + n.label@ + "”"@ + plot_mark(l, id, zh) + "\n  Beats: "@ + ot + "\n  Cast: "@ + cast_text(t, n, id, zh) + "\n"@
    }
}

/// A plot card's text part: the first 2000 characters of its chapter text,
/// when not slim and not blank.
pub open spec fn plot_text_part(l: ContextLinks, id: Seq<char>, slim: bool, zh: bool) -> Seq<char> {
    let snip = first_chars(body_of(pair_views(l.plot_bodies@), id), 2000);
    if slim || trim(snip).len() == 0 {
        Seq::empty()
    } else if zh {
        "  剧情正文/补充：\n"@ + snip + "\n"@
    } else {
        "  Plot body / notes:\n"@ + snip + "\n"@
    }
}

pub open spec fn ctx_plot_entry(t: NovelTree, id: Seq<char>, l: ContextLinks, lab: ContextLabels, slim: bool, zh: bool) -> Seq<char> {
    match first_node(t.nodes@, id) {
        Some(k) => if !injectable(t.nodes@[k], str_views(l.injectable_plot_ids@)) {
            Seq::empty()
        } else {
            plot_head(t, t.nodes@[k], id, l, lab, zh) + plot_text_part(l, id, slim, zh)
        },
        None => Seq::empty(),
    }
}

pub open spec fn ctx_plot_block(t: NovelTree, ids: Seq<Seq<char>>, l: ContextLinks, lab: ContextLabels, slim: bool, zh: bool) -> Seq<char>
    decreases ids.len(),
{
    if ids.len() == 0 { Seq::empty() } else { ctx_plot_block(t, ids.drop_last(), l, lab, slim, zh) + ctx_plot_entry(t, ids.last(), l, lab, slim, zh) }
}

// ---------------------------------------------------------------------------
// Knowledge cards
// ---------------------------------------------------------------------------

/// A knowledge card's body for the chapter: its injected body, else its
/// extraction prompt behind the "empty" word, else its outline, else the
/// "empty" word.
pub open spec fn kn_body(t: NovelTree, n: TreeNode, lab: ContextLabels) -> Seq<char> {
    let b = inject_body_spec(t, n);
    if trim(b).len() > 0 {
        b
    } else {
        let prompt = match n.knowledge { Some(k) => trim(k.extract_prompt@), None => Seq::empty() };
        let outline = trim(n.outline@);
        if prompt.len() > 0 {
            lab.empty_knowledge@ + "："@ + prompt
        } else if outline.len() > 0 {
            outline
        } else {
            lab.empty_knowledge@
        }
    }
}

/// The knowledge rows (priority, label, body, cap) of the cards that exist.
pub open spec fn kn_rows(t: NovelTree, ks: Seq<(String, u8, usize)>, lab: ContextLabels) -> Seq<(u8, Seq<char>, Seq<char>, nat)>
    decreases ks.len(),
{
    if ks.len() == 0 {
        Seq::empty()
    } else {
        let rest = kn_rows(t, ks.drop_last(), lab);
        let x = ks.last();
        match first_node(t.nodes@, x.0@) {
            Some(k) => rest.push((x.1, t.nodes@[k].label@, kn_body(t, t.nodes@[k], lab), x.2 as nat)),
            None => rest,
        }
    }
}

/// The rows of priority `p`, in order.
pub open spec fn with_pri(rows: Seq<(u8, Seq<char>, Seq<char>, nat)>, p: nat) -> Seq<(Seq<char>, Seq<char>, nat)>
    decreases rows.len(),
{
    if rows.len() == 0 {
        Seq::empty()
    } else {
        let rest = with_pri(rows.drop_last(), p);
        let r = rows.last();
        if r.0 as nat == p { rest.push((r.1, r.2, r.3)) } else { rest }
    }
}

/// The rows of priority below `p`, lower priorities first, each in order
/// (a stable sort by priority).
pub open spec fn by_pri(rows: Seq<(u8, Seq<char>, Seq<char>, nat)>, p: nat) -> Seq<(Seq<char>, Seq<char>, nat)>
    decreases p,
{
    if p == 0 { Seq::empty() } else { by_pri(rows, (p - 1) as nat) + with_pri(rows, (p - 1) as nat) }
}

/// The knowledge part: the rows by priority within the total budget (see
/// `capped_spec`), or the "none" word.
pub open spec fn ctx_knowledge(t: NovelTree, l: ContextLinks, lab: ContextLabels, zh: bool) -> Seq<char> {
    let k = capped_spec(by_pri(kn_rows(t, l.knowledge@, lab), 256), l.knowledge_total as nat, zh);
    if k.len() == 0 { lab.no_knowledge@ } else { k }
}

// ---------------------------------------------------------------------------
// The two parts
// ---------------------------------------------------------------------------

pub open spec fn numbered_lines(items: Seq<Seq<char>>) -> Seq<Seq<char>> {
    Seq::new(items.len(), |i: int| decimal((i + 1) as nat) + ". "@ + items[i])
}

/// The chapter's title, outline and numbered detailed outline.
pub open spec fn chapter_info_spec(t: NovelTree, node_id: Seq<char>, lab: ContextLabels) -> Seq<char> {
    let ns = t.nodes@;
    let (label, outline, detailed) = match first_node(ns, node_id) {
        Some(k) => (ns[k].label@, ns[k].outline@, str_views(ns[k].detailed_outline@)),
        None => (Seq::empty(), Seq::empty(), Seq::empty()),
    };
    let ot = if trim(outline).len() == 0 { lab.empty_outline@ } else { outline };
    let nb = nonblank(detailed);
    let dt = if nb.len() > 0 { join(numbered_lines(nb), "\n"@) } else { lab.empty_detailed_outline@ };
    lab.chapter_title@ + "："@ + label + "\n"@ + lab.chapter_outline@ + "：\n"@ + ot + "\n"@
        + lab.chapter_detailed_outline@ + "：\n"@ + dt
}

/// The linked cards: characters, relations (when any), plot cards and
/// knowledge cards, each under its header.
pub open spec fn chapter_cards_spec(t: NovelTree, node_id: Seq<char>, l: ContextLinks, lab: ContextLabels, slim: bool, zh: bool) -> Seq<char> {
    let ids = ctx_char_ids(t, node_id, l);
    let cb = ctx_char_block(t.nodes@, ids, ctx_root_chars(t, l), lab, slim, zh);
    let chars = if cb.len() == 0 { lab.no_characters@ } else { cb };
    let rels = ctx_rel_block(t.nodes@, t.edges@, ids, lab.relation_unset@);
    let pb = ctx_plot_block(t, add_all(str_views(l.local_plot_ids@), str_views(l.inherited_plot_ids@)), l, lab, slim, zh);
    let plots = if pb.len() == 0 { lab.no_plots@ } else { pb };
    let kn = ctx_knowledge(t, l, lab, zh);
    if rels.len() == 0 {
        lab.chars_header@ + "\n"@ + chars + "\n"@ + lab.plots_header@ + "\n"@ + plots + "\n"@ + lab.knowledge_header@ + "\n"@ + kn
    } else {
        lab.chars_header@ + "\n"@ + chars + "\n"@ + lab.relations_header@ + "\n"@ + rels + "\n"@
            + lab.plots_header@ + "\n"@ + plots + "\n"@ + lab.knowledge_header@ + "\n"@ + kn
    }
}

// ---------------------------------------------------------------------------
// Executable parts
// ---------------------------------------------------------------------------

fn root_chars_exec(tree: &NovelTree, l: &ContextLinks) -> (r: Vec<String>)
    ensures
        str_views(r@) == ctx_root_chars(*tree, *l),
{
    let mut r = crate::cast::clone_ids(&l.root_character_ids);
    match find_root_index(&tree.nodes) {
        Some(i) => gather_edge_chars(&tree.nodes, &tree.edges, &tree.nodes[i].id, &mut r),
        None => {},
    }
    r
}

fn char_ids_exec(tree: &NovelTree, node_id: &String, l: &ContextLinks) -> (r: Vec<String>)
    ensures
        str_views(r@) == ctx_char_ids(*tree, node_id@, *l),
{
    let mut ids: Vec<String> = match find_node(&tree.nodes, node_id) {
        Some(k) => crate::cast::clone_ids(&tree.nodes[k].linked_character_ids),
        None => Vec::new(),
    };
    let ghost own = match first_node(tree.nodes@, node_id@) {
        Some(k) => str_views(tree.nodes@[k].linked_character_ids@),
        None => Seq::<Seq<char>>::empty(),
    };
    assert(str_views(ids@) =~= own);
    gather_edge_chars(&tree.nodes, &tree.edges, node_id, &mut ids);
    add_ids(&mut ids, &l.root_character_ids);
    add_ids(&mut ids, &l.volume_character_ids);
    match find_root_index(&tree.nodes) {
        Some(i) => gather_edge_chars(&tree.nodes, &tree.edges, &tree.nodes[i].id, &mut ids),
        None => {},
    }
    let plots = merge_plots(&l.local_plot_ids, &l.inherited_plot_ids);
    plot_chars_exec(tree, &plots, &mut ids);
    let seed = crate::cast::clone_ids(&ids);
    rel_closure_exec(tree, &seed, &mut ids);
    ids
}

fn char_mark_exec(book: &Vec<String>, id: &String, zh: bool) -> (r: &'static str)
    ensures
        r@ == char_mark(str_views(book@), id@, zh),
{
    proof {
        reveal_strlit("");
    }
    if crate::cast::contains_str_id(book, id) {
        if zh { "｜全书人物" } else { "｜book-wide" }
    } else {
        ""
    }
}

fn char_tail_exec(n: &TreeNode, lab: &ContextLabels, slim: bool, out: &mut Vec<char>)
    ensures
        final(out)@ == old(out)@ + char_tail(*n, *lab, slim),
{
    match &n.character {
        Some(c) => {
            append_str(out, "\n");
            let cap: usize = if slim { 1200 } else { 4500 };
            let body = truncate_chars(format_character_full(n.label.as_str(), c).as_str(), cap);
            append_str(out, body.as_str());
            append_str(out, "\n");
        },
        None => {
            append_str(out, " ");
            append_str(out, lab.card_incomplete.as_str());
            append_str(out, "\n");
        },
    }
}

fn char_entry_exec(ns: &Vec<TreeNode>, id: &String, book: &Vec<String>, lab: &ContextLabels, slim: bool, zh: bool, out: &mut Vec<char>)
    ensures
        final(out)@ == old(out)@ + ctx_char_entry(ns@, id@, str_views(book@), *lab, slim, zh),
{
    let ghost o0 = out@;
    match find_node(ns, id) {
        Some(k) => {
            let n = &ns[k];
            let mark = char_mark_exec(book, id, zh);
            append_str(out, "- ");
            append_str(out, lab.name.as_str());
            append_str(out, "：");
            append_str(out, n.label.as_str());
            append_str(out, mark);
            char_tail_exec(n, lab, slim, out);
        },
        None => {
            assert(out@ =~= o0 + Seq::<char>::empty());
        },
    }
}

fn rel_line_exec(ns: &Vec<TreeNode>, e: &TreeEdge, ids: &Vec<String>, unset: &String, out: &mut Vec<char>)
    ensures
        final(out)@ == old(out)@ + ctx_rel_line(ns@, *e, str_views(ids@), unset@),
{
    let ghost o0 = out@;
    if is_char_at_exec(ns, &e.source) && is_char_at_exec(ns, &e.target)
        && crate::cast::contains_str_id(ids, &e.source) && crate::cast::contains_str_id(ids, &e.target) {
        let a = find_node(ns, &e.source).unwrap();
        let b = find_node(ns, &e.target).unwrap();
        append_str(out, "- ");
        append_str(out, ns[a].label.as_str());
        append_str(out, " ↔ ");
        append_str(out, ns[b].label.as_str());
        append_str(out, "：");
        if trim_str(e.label.as_str()).len() == 0 {
            append_str(out, unset.as_str());
        } else {
            append_str(out, e.label.as_str());
        }
        append_str(out, "\n");
    } else {
        assert(out@ =~= o0 + Seq::<char>::empty());
    }
}

fn labels_of_exec(ns: &Vec<TreeNode>, ids: &Vec<String>) -> (r: Vec<Vec<char>>)
    ensures
        vviews(r@) == labels_of(ns@, str_views(ids@)),
{
    let mut out: Vec<Vec<char>> = Vec::new();
    let mut i: usize = 0;
    while i < ids.len()
        invariant
            i <= ids@.len(),
            vviews(out@) == labels_of(ns@, str_views(ids@.subrange(0, i as int))),
        decreases ids@.len() - i,
    {
        assert(str_views(ids@.subrange(0, i + 1)).drop_last() =~= str_views(ids@.subrange(0, i as int)));
        match find_node(ns, &ids[i]) {
            Some(k) => {
                let ghost before = vviews(out@);
                out.push(chars_of(ns[k].label.as_str()));
                assert(vviews(out@) =~= before.push(ns@[k as int].label@));
            },
            None => {},
        }
        i += 1;
    }
    assert(ids@.subrange(0, ids@.len() as int) =~= ids@);
    out
}

fn contains_vec(v: &Vec<Vec<char>>, x: &Vec<char>) -> (r: bool)
    ensures
        r == vviews(v@).contains(x@),
{
    let mut i: usize = 0;
    while i < v.len()
        invariant
            i <= v@.len(),
            forall|j: int| 0 <= j < i ==> vviews(v@)[j] != x@,
        decreases v@.len() - i,
    {
        if crate::text::eq(&v[i], x) {
            assert(vviews(v@)[i as int] == x@);
            return true;
        }
        i += 1;
    }
    false
}

fn edge_labels_exec(ns: &Vec<TreeNode>, es: &Vec<TreeEdge>, id: &String, acc: &mut Vec<Vec<char>>)
    ensures
        vviews(final(acc)@) == edge_labels(ns@, es@, id@, vviews(old(acc)@)),
{
    let ghost a0 = vviews(acc@);
    let mut i: usize = 0;
    while i < es.len()
        invariant
            i <= es@.len(),
            vviews(acc@) == edge_labels(ns@, es@.subrange(0, i as int), id@, a0),
        decreases es@.len() - i,
    {
        assert(es@.subrange(0, i + 1).drop_last() =~= es@.subrange(0, i as int));
        let e = &es[i];
        if e.source == *id || e.target == *id {
            let other = if e.source == *id { &e.target } else { &e.source };
            match find_node(ns, other) {
                Some(k) => {
                    let lv = chars_of(ns[k].label.as_str());
                    if ns[k].kind == NodeKind::Character && !contains_vec(acc, &lv) {
                        let ghost before = vviews(acc@);
                        acc.push(lv);
                        assert(vviews(acc@) =~= before.push(ns@[k as int].label@));
                    }
                },
                None => {},
            }
        }
        i += 1;
    }
    assert(es@.subrange(0, es@.len() as int) =~= es@);
}

fn body_of_exec(bodies: &Vec<(String, String)>, id: &String) -> (r: Vec<char>)
    ensures
        r@ == body_of(pair_views(bodies@), id@),
{
    let ghost v = pair_views(bodies@);
    let mut i: usize = 0;
    assert(v.skip(0) =~= v);
    while i < bodies.len()
        invariant
            i <= bodies@.len(),
            v == pair_views(bodies@),
            body_of(v, id@) == body_of(v.skip(i as int), id@),
        decreases bodies@.len() - i,
    {
        assert(v.skip(i as int).drop_first() =~= v.skip(i + 1));
        if bodies[i].0 == *id {
            return chars_of(bodies[i].1.as_str());
        }
        i += 1;
    }
    Vec::new()
}

fn plot_mark_exec(l: &ContextLinks, id: &String, zh: bool) -> (r: &'static str)
    ensures
        r@ == plot_mark(*l, id@, zh),
{
    proof {
        reveal_strlit("");
    }
    if crate::cast::contains_str_id(&l.root_plot_ids, id) {
        if zh { "｜全书剧情·进行中" } else { "｜book-wide · active" }
    } else if crate::cast::contains_str_id(&l.inherited_plot_ids, id) {
        if zh { "｜分卷剧情·进行中" } else { "｜volume · active" }
    } else {
        ""
    }
}

fn cast_text_exec(tree: &NovelTree, n: &TreeNode, id: &String, zh: bool) -> (r: Vec<char>)
    ensures
        r@ == cast_text(*tree, *n, id@, zh),
{
    let mut cast = labels_of_exec(&tree.nodes, &n.linked_character_ids);
    edge_labels_exec(&tree.nodes, &tree.edges, id, &mut cast);
    if cast.len() == 0 {
        if zh { chars_of("（未标）") } else { chars_of("(none)") }
    } else {
        join_exec(&cast, "、")
    }
}

fn plot_head_exec(tree: &NovelTree, n: &TreeNode, id: &String, l: &ContextLinks, lab: &ContextLabels, zh: bool, out: &mut Vec<char>)
    ensures
        final(out)@ == old(out)@ + plot_head(*tree, *n, id@, *l, *lab, zh),
{
    let ot: &str = if trim_str(n.outline.as_str()).len() == 0 { lab.empty_plot.as_str() } else { n.outline.as_str() };
    let mark = plot_mark_exec(l, id, zh);
    let ct = cast_text_exec(tree, n, id, zh);
    append_str(out, if zh { "- 「" } else { "- “" });
    append_str(out, n.label.as_str());
    append_str(out, if zh { "」" } else { "”" });
    append_str(out, mark);
    append_str(out, if zh { "\n  剧情要点：" } else { "\n  Beats: " });
    append_str(out, ot);
    append_str(out, if zh { "\n  关联人物：" } else { "\n  Cast: " });
    append(out, &ct);
    append_str(out, "\n");
}

fn plot_text_exec(l: &ContextLinks, id: &String, slim: bool, zh: bool, out: &mut Vec<char>)
    ensures
        final(out)@ == old(out)@ + plot_text_part(*l, id@, slim, zh),
{
    let ghost o0 = out@;
    let body = body_of_exec(&l.plot_bodies, id);
    let snip = first_chars_exec(string_of(&body).as_str(), 2000);
    if !slim && crate::text::trimmed(&snip).len() > 0 {
        append_str(out, if zh { "  剧情正文/补充：\n" } else { "  Plot body / notes:\n" });
        append(out, &snip);
        append_str(out, "\n");
    } else {
        assert(out@ =~= o0 + Seq::<char>::empty());
    }
}

fn plot_entry_exec(tree: &NovelTree, id: &String, l: &ContextLinks, lab: &ContextLabels, slim: bool, zh: bool, out: &mut Vec<char>)
    ensures
        final(out)@ == old(out)@ + ctx_plot_entry(*tree, id@, *l, *lab, slim, zh),
{
    let ghost o0 = out@;
    match find_node(&tree.nodes, id) {
        Some(k) => {
            let n = &tree.nodes[k];
            let inj = n.kind == NodeKind::SidePlot
                && (n.side_plot.is_none() || crate::cast::contains_str_id(&l.injectable_plot_ids, &n.id));
            if !inj {
                assert(out@ =~= o0 + Seq::<char>::empty());
                return;
            }
            plot_head_exec(tree, n, id, l, lab, zh, out);
            plot_text_exec(l, id, slim, zh, out);
        },
        None => {
            assert(out@ =~= o0 + Seq::<char>::empty());
        },
    }
}

fn kn_body_exec(tree: &NovelTree, n: &TreeNode, lab: &ContextLabels) -> (r: String)
    ensures
        r@ == kn_body(*tree, *n, *lab),
{
    let b = knowledge_card_inject_body(tree, n);
    if trim_str(b.as_str()).len() > 0 {
        return b;
    }
    let prompt = match &n.knowledge {
        Some(k) => trim_str(k.extract_prompt.as_str()),
        None => Vec::new(),
    };
    proof {
        if n.knowledge is None {
            assert(trim(Seq::<char>::empty()) =~= Seq::<char>::empty()) by {
                reveal_with_fuel(crate::text::trim_start, 2);
                reveal_with_fuel(crate::text::trim_end, 2);
            }
        }
    }
    let outline = trim_str(n.outline.as_str());
    if prompt.len() > 0 {
        let mut t = chars_of(lab.empty_knowledge.as_str());
        append_str(&mut t, "：");
        append(&mut t, &prompt);
        string_of(&t)
    } else if outline.len() > 0 {
        string_of(&outline)
    } else {
        String::from_str(lab.empty_knowledge.as_str())
    }
}

pub open spec fn row_views(v: Seq<(u8, String, String, usize)>) -> Seq<(u8, Seq<char>, Seq<char>, nat)> {
    v.map_values(|r: (u8, String, String, usize)| (r.0, r.1@, r.2@, r.3 as nat))
}

fn kn_rows_exec(tree: &NovelTree, ks: &Vec<(String, u8, usize)>, lab: &ContextLabels) -> (r: Vec<(u8, String, String, usize)>)
    ensures
        row_views(r@) == kn_rows(*tree, ks@, *lab),
{
    let mut out: Vec<(u8, String, String, usize)> = Vec::new();
    let mut i: usize = 0;
    while i < ks.len()
        invariant
            i <= ks@.len(),
            row_views(out@) == kn_rows(*tree, ks@.subrange(0, i as int), *lab),
        decreases ks@.len() - i,
    {
        assert(ks@.subrange(0, i + 1).drop_last() =~= ks@.subrange(0, i as int));
        match find_node(&tree.nodes, &ks[i].0) {
            Some(k) => {
                let n = &tree.nodes[k];
                let body = kn_body_exec(tree, n, lab);
                let ghost before = row_views(out@);
                out.push((ks[i].1, String::from_str(n.label.as_str()), body, ks[i].2));
                assert(row_views(out@) =~= before.push((ks@[i as int].1, n.label@, kn_body(*tree, *n, *lab), ks@[i as int].2 as nat)));
            },
            None => {},
        }
        i += 1;
    }
    assert(ks@.subrange(0, ks@.len() as int) =~= ks@);
    out
}

fn sort_rows(rows: &Vec<(u8, String, String, usize)>) -> (r: Vec<(String, String, usize)>)
    ensures
        card_views(r@) == by_pri(row_views(rows@), 256),
{
    let ghost rv = row_views(rows@);
    let mut out: Vec<(String, String, usize)> = Vec::new();
    let mut p: u16 = 0;
    while p < 256
        invariant
            p <= 256,
            rv == row_views(rows@),
            card_views(out@) == by_pri(rv, p as nat),
        decreases 256 - p,
    {
        let ghost base = card_views(out@);
        let mut i: usize = 0;
        while i < rows.len()
            invariant
                i <= rows@.len(),
                p < 256,
                rv == row_views(rows@),
                card_views(out@) == base + with_pri(rv.subrange(0, i as int), p as nat),
            decreases rows@.len() - i,
        {
            assert(rv.subrange(0, i + 1).drop_last() =~= rv.subrange(0, i as int));
            if rows[i].0 as u16 == p {
                let ghost before = card_views(out@);
                out.push((String::from_str(rows[i].1.as_str()), String::from_str(rows[i].2.as_str()), rows[i].3));
                assert(card_views(out@) =~= before.push((rv[i as int].1, rv[i as int].2, rv[i as int].3)));
            }
            i += 1;
        }
        assert(rv.subrange(0, rows@.len() as int) =~= rv);
        p = p + 1;
    }
    out
}

/// The chapter context: its title, outline and detailed outline
/// (`chapter_info_spec`), and its linked cards (`chapter_cards_spec`).
/// `links` carries what the tree-link and card rules give for the chapter;
/// `slim` (used for outlines) shortens character cards and leaves out plot
/// texts.
pub fn chapter_context(tree: &NovelTree, node_id: &str, links: &ContextLinks, labels: &ContextLabels, slim: bool, zh: bool) -> (r: (String, String))
    ensures
        r.0@ == chapter_info_spec(*tree, node_id@, *labels),
        r.1@ == chapter_cards_spec(*tree, node_id@, *links, *labels, slim, zh),
{
    let nid = String::from_str(node_id);
    let info = chapter_info_exec(tree, &nid, labels);
    let cards = chapter_cards_exec(tree, &nid, links, labels, slim, zh);
    (info, cards)
}

fn chapter_info_exec(tree: &NovelTree, nid: &String, lab: &ContextLabels) -> (r: String)
    ensures
        r@ == chapter_info_spec(*tree, nid@, *lab),
{
    let (label, outline, detailed): (Vec<char>, Vec<char>, Vec<Vec<char>>) = match find_node(&tree.nodes, nid) {
        Some(k) => {
            let n = &tree.nodes[k];
            let d = &n.detailed_outline;
            let mut nb: Vec<Vec<char>> = Vec::new();
            let mut i: usize = 0;
            while i < d.len()
                invariant
                    i <= d@.len(),
                    vviews(nb@) == nonblank(str_views(d@.subrange(0, i as int))),
                decreases d@.len() - i,
            {
                assert(str_views(d@.subrange(0, i + 1)).drop_last() =~= str_views(d@.subrange(0, i as int)));
                let t = trim_str(d[i].as_str());
                if t.len() > 0 {
                    let ghost before = vviews(nb@);
                    nb.push(t);
                    assert(vviews(nb@) =~= before.push(trim(d@[i as int]@)));
                }
                i += 1;
            }
            assert(d@.subrange(0, d@.len() as int) =~= d@);
            (chars_of(n.label.as_str()), chars_of(n.outline.as_str()), nb)
        },
        None => (Vec::new(), Vec::new(), Vec::new()),
    };
    proof {
        if first_node(tree.nodes@, nid@) is None {
            assert(nonblank(Seq::<Seq<char>>::empty()) =~= Seq::<Seq<char>>::empty());
        }
    }
    let mut out = chars_of(lab.chapter_title.as_str());
    append_str(&mut out, "：");
    append(&mut out, &label);
    append_str(&mut out, "\n");
    append_str(&mut out, lab.chapter_outline.as_str());
    append_str(&mut out, "：\n");
    if crate::text::trimmed(&outline).len() == 0 {
        append_str(&mut out, lab.empty_outline.as_str());
    } else {
        append(&mut out, &outline);
    }
    append_str(&mut out, "\n");
    append_str(&mut out, lab.chapter_detailed_outline.as_str());
    append_str(&mut out, "：\n");
    if detailed.len() > 0 {
        let ghost dv = vviews(detailed@);
        let mut lines: Vec<Vec<char>> = Vec::new();
        let mut i: usize = 0;
        while i < detailed.len()
            invariant
                i <= detailed@.len(),
                dv == vviews(detailed@),
                vviews(lines@) =~= numbered_lines(dv).take(i as int),
            decreases detailed@.len() - i,
        {
            let mut line: Vec<char> = Vec::new();
            append_decimal(&mut line, (i + 1) as u64);
            append_str(&mut line, ". ");
            append(&mut line, &detailed[i]);
            let ghost before = vviews(lines@);
            lines.push(line);
            assert(vviews(lines@) =~= before.push(numbered_lines(dv)[i as int]));
            assert(numbered_lines(dv).take(i + 1) =~= numbered_lines(dv).take(i as int).push(numbered_lines(dv)[i as int]));
            i += 1;
        }
        assert(numbered_lines(dv).take(detailed@.len() as int) =~= numbered_lines(dv));
        append(&mut out, &join_exec(&lines, "\n"));
    } else {
        append_str(&mut out, lab.empty_detailed_outline.as_str());
    }
    string_of(&out)
}

#[verifier::spinoff_prover]
fn chapter_cards_exec(tree: &NovelTree, nid: &String, l: &ContextLinks, lab: &ContextLabels, slim: bool, zh: bool) -> (r: String)
    ensures
        r@ == chapter_cards_spec(*tree, nid@, *l, *lab, slim, zh),
{
    let ids = char_ids_exec(tree, nid, l);
    let book = root_chars_exec(tree, l);
    let ghost iv = str_views(ids@);
    let mut cb: Vec<char> = Vec::new();
    let mut i: usize = 0;
    while i < ids.len()
        invariant
            i <= ids@.len(),
            iv == str_views(ids@),
            cb@ == ctx_char_block(tree.nodes@, iv.subrange(0, i as int), str_views(book@), *lab, slim, zh),
        decreases ids@.len() - i,
    {
        assert(iv.subrange(0, i + 1).drop_last() =~= iv.subrange(0, i as int));
        char_entry_exec(&tree.nodes, &ids[i], &book, lab, slim, zh, &mut cb);
        i += 1;
    }
    assert(iv.subrange(0, ids@.len() as int) =~= iv);
    let mut rels: Vec<char> = Vec::new();
    let mut j: usize = 0;
    while j < tree.edges.len()
        invariant
            j <= tree.edges@.len(),
            iv == str_views(ids@),
            rels@ == ctx_rel_block(tree.nodes@, tree.edges@.subrange(0, j as int), iv, lab.relation_unset@),
        decreases tree.edges@.len() - j,
    {
        assert(tree.edges@.subrange(0, j + 1).drop_last() =~= tree.edges@.subrange(0, j as int));
        rel_line_exec(&tree.nodes, &tree.edges[j], &ids, &lab.relation_unset, &mut rels);
        j += 1;
    }
    assert(tree.edges@.subrange(0, tree.edges@.len() as int) =~= tree.edges@);
    let plots = merge_plots(&l.local_plot_ids, &l.inherited_plot_ids);
    let ghost pv = str_views(plots@);
    let mut pb: Vec<char> = Vec::new();
    let mut k: usize = 0;
    while k < plots.len()
        invariant
            k <= plots@.len(),
            pv == str_views(plots@),
            pb@ == ctx_plot_block(*tree, pv.subrange(0, k as int), *l, *lab, slim, zh),
        decreases plots@.len() - k,
    {
        assert(pv.subrange(0, k + 1).drop_last() =~= pv.subrange(0, k as int));
        plot_entry_exec(tree, &plots[k], l, lab, slim, zh, &mut pb);
        k += 1;
    }
    assert(pv.subrange(0, plots@.len() as int) =~= pv);
    let rows = kn_rows_exec(tree, &l.knowledge, lab);
    let cards = sort_rows(&rows);
    let kn0 = format_knowledge_cards_capped_var(cards.as_slice(), l.knowledge_total, zh);
    let kn: &str = if kn0.unicode_len() == 0 { lab.no_knowledge.as_str() } else { kn0.as_str() };
    let mut out = chars_of(lab.chars_header.as_str());
    append_str(&mut out, "\n");
    if cb.len() == 0 {
        append_str(&mut out, lab.no_characters.as_str());
    } else {
        append(&mut out, &cb);
    }
    append_str(&mut out, "\n");
    if rels.len() > 0 {
        append_str(&mut out, lab.relations_header.as_str());
        append_str(&mut out, "\n");
        append(&mut out, &rels);
        append_str(&mut out, "\n");
    }
    append_str(&mut out, lab.plots_header.as_str());
    append_str(&mut out, "\n");
    if pb.len() == 0 {
        append_str(&mut out, lab.no_plots.as_str());
    } else {
        append(&mut out, &pb);
    }
    append_str(&mut out, "\n");
    append_str(&mut out, lab.knowledge_header.as_str());
    append_str(&mut out, "\n");
    append_str(&mut out, kn);
    string_of(&out)
}

} // verus!
