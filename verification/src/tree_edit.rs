//! Deleting a card from the structure tree: a volume's chapters are hung on
//! what the volume hung on, a chapter's neighbours are linked to each
//! other, and nothing afterwards refers to a node that is gone.
use vstd::prelude::*;
use crate::models::{find_node, first_node, str_views, NodeKind, NovelTree, TreeEdge, TreeNode};
use crate::text::{append_str, chars_of, string_of};
use crate::commands::{normalize_word_range, normalize_word_range_spec};
use crate::tree_refs::{find_root_index, first_where, is_novel, lemma_first_where};

verus! {

/// What an edge holds, as text.
pub struct EdgeV {
    pub id: Seq<char>,
    pub source: Seq<char>,
    pub target: Seq<char>,
    pub kind: Seq<char>,
    pub sh: Option<Seq<char>>,
    pub th: Option<Seq<char>>,
    pub label: Seq<char>,
}

pub open spec fn opt_view(o: Option<String>) -> Option<Seq<char>> {
    match o { Some(s) => Some(s@), None => None }
}

pub open spec fn ev(e: TreeEdge) -> EdgeV {
    EdgeV {
        id: e.id@,
        source: e.source@,
        target: e.target@,
        kind: e.kind@,
        sh: opt_view(e.source_handle),
        th: opt_view(e.target_handle),
        label: e.label@,
    }
}

pub open spec fn evs(es: Seq<TreeEdge>) -> Seq<EdgeV> {
    es.map_values(|e: TreeEdge| ev(e))
}

/// `o`, or `d` when `o` is unset.
pub open spec fn or_default(o: Option<Seq<char>>, d: Seq<char>) -> Option<Seq<char>> {
    if o is Some { o } else { Some(d) }
}

/// A chapter link `a → b` with the given handles, named `e-a-b`.
pub open spec fn link(a: Seq<char>, b: Seq<char>, sh: Option<Seq<char>>, th: Option<Seq<char>>) -> EdgeV {
    EdgeV { id: "e-"@ + a + "-"@ + b, source: a, target: b, kind: "chapter"@, sh: sh, th: th, label: Seq::empty() }
}

/// A chapter or volume link.
pub open spec fn is_flow(kind: Seq<char>) -> bool {
    kind == "chapter"@ || kind == "volume"@
}

pub open spec fn has_flow(es: Seq<EdgeV>, a: Seq<char>, b: Seq<char>) -> bool {
    exists|i: int| 0 <= i < es.len() && is_flow(es[i].kind) && es[i].source == a && es[i].target == b
}

pub open spec fn has_chapter_link(es: Seq<EdgeV>, a: Seq<char>, b: Seq<char>) -> bool {
    exists|i: int| 0 <= i < es.len() && es[i].kind == "chapter"@ && es[i].source == a && es[i].target == b
}

/// The first flow link into `id`.
pub open spec fn first_pred(es: Seq<EdgeV>, id: Seq<char>) -> Option<EdgeV>
    decreases es.len(),
{
    if es.len() == 0 {
        None
    } else if is_flow(es[0].kind) && es[0].target == id {
        Some(es[0])
    } else {
        first_pred(es.drop_first(), id)
    }
}

/// The chapters a volume leads to, with their target handles.
pub open spec fn children_of(es: Seq<EdgeV>, id: Seq<char>) -> Seq<(Seq<char>, Option<Seq<char>>)>
    decreases es.len(),
{
    if es.len() == 0 {
        Seq::empty()
    } else {
        let rest = children_of(es.drop_last(), id);
        if es.last().kind == "chapter"@ && es.last().source == id { rest.push((es.last().target, es.last().th)) } else { rest }
    }
}

/// Each child linked from `attach` unless a flow link already joins them.
pub open spec fn reattach(es: Seq<EdgeV>, kids: Seq<(Seq<char>, Option<Seq<char>>)>, attach: Seq<char>, ash: Option<Seq<char>>) -> Seq<EdgeV>
    decreases kids.len(),
{
    if kids.len() == 0 {
        es
    } else {
        let es1 = reattach(es, kids.drop_last(), attach, ash);
        let (child, th) = kids.last();
        if has_flow(es1, attach, child) { es1 } else { es1.push(link(attach, child, ash, or_default(th, "top"@))) }
    }
}

/// The chapter links into `id` (source, source handle).
pub open spec fn preds_of(es: Seq<EdgeV>, id: Seq<char>) -> Seq<(Seq<char>, Option<Seq<char>>)>
    decreases es.len(),
{
    if es.len() == 0 {
        Seq::empty()
    } else {
        let rest = preds_of(es.drop_last(), id);
        if es.last().kind == "chapter"@ && es.last().target == id { rest.push((es.last().source, es.last().sh)) } else { rest }
    }
}

/// `pred` linked to each successor it is not yet linked to.
pub open spec fn bridge_one(es: Seq<EdgeV>, pred: (Seq<char>, Option<Seq<char>>), succs: Seq<(Seq<char>, Option<Seq<char>>)>) -> Seq<EdgeV>
    decreases succs.len(),
{
    if succs.len() == 0 {
        es
    } else {
        let es1 = bridge_one(es, pred, succs.drop_last());
        let succ = succs.last();
        if pred.0 == succ.0 || has_chapter_link(es1, pred.0, succ.0) {
            es1
        } else {
            es1.push(link(pred.0, succ.0, or_default(pred.1, "bottom"@), or_default(succ.1, "top"@)))
        }
    }
}

/// Every predecessor linked to every successor.
pub open spec fn bridge(es: Seq<EdgeV>, preds: Seq<(Seq<char>, Option<Seq<char>>)>, succs: Seq<(Seq<char>, Option<Seq<char>>)>) -> Seq<EdgeV>
    decreases preds.len(),
{
    if preds.len() == 0 { es } else { bridge_one(bridge(es, preds.drop_last(), succs), preds.last(), succs) }
}

/// The links before the node is removed: a volume's chapters re-hung, a
/// chapter's neighbours joined; other kinds leave the links as they are.
pub open spec fn relinked(es: Seq<EdgeV>, kind: NodeKind, id: Seq<char>, root: Seq<char>) -> Seq<EdgeV> {
    if kind == NodeKind::Volume {
        let p = first_pred(es, id);
        let attach = match p { Some(e) => e.source, None => root };
        let ash = match p { Some(e) => or_default(e.sh, "bottom"@), None => Some("bottom"@) };
        reattach(es, children_of(es, id), attach, ash)
    } else if kind == NodeKind::Chapter {
        bridge(es, preds_of(es, id), children_of(es, id))
    } else {
        es
    }
}

/// Ids of the nodes left.
pub open spec fn alive(ns: Seq<TreeNode>, x: Seq<char>) -> bool {
    exists|i: int| 0 <= i < ns.len() && ns[i].id@ == x
}

/// The links whose two ends are left.
pub open spec fn live_edges(es: Seq<EdgeV>, ns: Seq<TreeNode>, id: Seq<char>) -> Seq<EdgeV>
    decreases es.len(),
{
    if es.len() == 0 {
        Seq::empty()
    } else {
        let rest = live_edges(es.drop_last(), ns, id);
        let e = es.last();
        if e.source != id && e.target != id && alive(ns, e.source) && alive(ns, e.target) { rest.push(e) } else { rest }
    }
}

/// The ids that name a node left.
pub open spec fn live_ids(ids: Seq<Seq<char>>, ns: Seq<TreeNode>) -> Seq<Seq<char>>
    decreases ids.len(),
{
    if ids.len() == 0 {
        Seq::empty()
    } else {
        let rest = live_ids(ids.drop_last(), ns);
        if alive(ns, ids.last()) { rest.push(ids.last()) } else { rest }
    }
}

/// The nodes other than `id`, in order.
pub open spec fn other_nodes(ns: Seq<TreeNode>, id: Seq<char>) -> Seq<TreeNode>
    decreases ns.len(),
{
    if ns.len() == 0 {
        Seq::empty()
    } else {
        let rest = other_nodes(ns.drop_last(), id);
        if ns.last().id@ != id { rest.push(ns.last()) } else { rest }
    }
}

/// `n2` is `n` with its links kept only to nodes in `ns`.
pub open spec fn pruned(n: TreeNode, n2: TreeNode, ns: Seq<TreeNode>) -> bool {
    &&& same_card(n, n2)
    &&& str_views(n2.linked_character_ids@) == live_ids(str_views(n.linked_character_ids@), ns)
    &&& str_views(n2.linked_side_plot_ids@) == live_ids(str_views(n.linked_side_plot_ids@), ns)
    &&& str_views(n2.linked_knowledge_ids@) == live_ids(str_views(n.linked_knowledge_ids@), ns)
}

/// Why a card cannot be deleted, if it cannot.
pub open spec fn delete_error(tree: NovelTree, id: Seq<char>, protected: bool) -> Option<Seq<char>> {
    let ns = tree.nodes@;
    match crate::models::first_node(ns, id) {
        None => Some("节点不存在"@),
        Some(k) => if ns[k].kind == NodeKind::Novel {
            Some("根节点不能删除"@)
        } else if ns[k].kind == NodeKind::Knowledge && protected {
            Some("生成/精修卡不能删除"@)
        } else if ns[k].kind == NodeKind::Volume && first_where(ns, |n: TreeNode| is_novel(n)) is None {
            Some("根节点不存在"@)
        } else {
            None
        },
    }
}

/// `after` is `before` with card `id` deleted: nodes other than `id` kept
/// in order with their links pruned to the nodes left, and the links (re-
/// hung or bridged as `relinked` says) kept where both ends are left.
pub open spec fn deleted(before: NovelTree, id: Seq<char>, after: NovelTree) -> bool {
    let ns = before.nodes@;
    let k = crate::models::first_node(ns, id)->Some_0;
    let root = match first_where(ns, |n: TreeNode| is_novel(n)) { Some(r) => ns[r].id@, None => Seq::empty() };
    let left = other_nodes(ns, id);
    &&& after.novel_id == before.novel_id
    &&& after.nodes@.len() == left.len()
    &&& forall|i: int| 0 <= i < left.len() ==> pruned(left[i], #[trigger] after.nodes@[i], left)
    &&& evs(after.edges@) == live_edges(relinked(evs(before.edges@), ns[k].kind, id, root), left, id)
}

fn opt_copy(o: &Option<String>) -> (r: Option<String>)
    ensures
        opt_view(r) == opt_view(*o),
{
    match o { Some(s) => Some(s.clone()), None => None }
}

fn or_default_exec(o: &Option<String>, d: &str) -> (r: Option<String>)
    ensures
        opt_view(r) == or_default(opt_view(*o), d@),
{
    match o { Some(s) => Some(s.clone()), None => Some(String::from_str(d)) }
}

fn make_link(a: &String, b: &String, sh: Option<String>, th: Option<String>) -> (e: TreeEdge)
    ensures
        ev(e) == link(a@, b@, opt_view(sh), opt_view(th)),
{
    let mut id = chars_of("e-");
    append_str(&mut id, a.as_str());
    append_str(&mut id, "-");
    append_str(&mut id, b.as_str());
    let e = TreeEdge {
        id: string_of(&id),
        source: a.clone(),
        target: b.clone(),
        kind: String::from_str("chapter"),
        source_handle: sh,
        target_handle: th,
        label: String::new(),
    };
    assert(ev(e).id =~= link(a@, b@, opt_view(sh), opt_view(th)).id);
    e
}

pub(crate) fn push_edge(es: &mut Vec<TreeEdge>, e: TreeEdge)
    ensures
        evs(final(es)@) == evs(old(es)@).push(ev(e)),
{
    let ghost before = evs(es@);
    es.push(e);
    assert(evs(es@) =~= before.push(ev(e)));
}

fn is_flow_exec(k: &String) -> (r: bool)
    ensures
        r == is_flow(k@),
{
    crate::text::eq_str(&chars_of(k.as_str()), "chapter") || crate::text::eq_str(&chars_of(k.as_str()), "volume")
}

fn is_chapter_kind(k: &String) -> (r: bool)
    ensures
        r == (k@ == "chapter"@),
{
    crate::text::eq_str(&chars_of(k.as_str()), "chapter")
}

fn has_flow_exec(es: &Vec<TreeEdge>, a: &String, b: &String, chapter_only: bool) -> (r: bool)
    ensures
        r == (if chapter_only { has_chapter_link(evs(es@), a@, b@) } else { has_flow(evs(es@), a@, b@) }),
{
    let ghost v = evs(es@);
    let mut i: usize = 0;
    while i < es.len()
        invariant
            i <= es.len(),
            v == evs(es@),
            forall|j: int| 0 <= j < i ==> !(
                (if chapter_only { v[j].kind == "chapter"@ } else { is_flow(v[j].kind) })
                && v[j].source == a@ && v[j].target == b@),
        decreases es.len() - i,
    {
        let e = &es[i];
        let k_ok = if chapter_only { is_chapter_kind(&e.kind) } else { is_flow_exec(&e.kind) };
        if k_ok && e.source == *a && e.target == *b {
            assert(v[i as int] == ev(es@[i as int]));
            return true;
        }
        i += 1;
    }
    false
}

fn first_pred_exec(es: &Vec<TreeEdge>, id: &String) -> (r: Option<usize>)
    ensures
        match r {
            Some(i) => i < es.len() && first_pred(evs(es@), id@) == Some(ev(es@[i as int])),
            None => first_pred(evs(es@), id@) is None,
        },
{
    let ghost v = evs(es@);
    let mut i: usize = 0;
    assert(v.subrange(0, v.len() as int) =~= v);
    while i < es.len()
        invariant
            i <= es.len(),
            v == evs(es@),
            first_pred(v, id@) == first_pred(v.subrange(i as int, v.len() as int), id@),
        decreases es.len() - i,
    {
        let ghost t = v.subrange(i as int, v.len() as int);
        assert(t.drop_first() =~= v.subrange(i + 1, v.len() as int));
        assert(t[0] == ev(es@[i as int]));
        if is_flow_exec(&es[i].kind) && es[i].target == *id {
            return Some(i);
        }
        i += 1;
    }
    None
}

pub open spec fn pair_views(v: Seq<(String, Option<String>)>) -> Seq<(Seq<char>, Option<Seq<char>>)> {
    v.map_values(|p: (String, Option<String>)| (p.0@, opt_view(p.1)))
}

/// Chapter links out of (`outgoing`) or into `id`, as (other end, its
/// handle on that end's side).
fn ends_exec(es: &Vec<TreeEdge>, id: &String, outgoing: bool) -> (r: Vec<(String, Option<String>)>)
    ensures
        pair_views(r@) == (if outgoing { children_of(evs(es@), id@) } else { preds_of(evs(es@), id@) }),
{
    let ghost v = evs(es@);
    let mut out: Vec<(String, Option<String>)> = Vec::new();
    let mut i: usize = 0;
    while i < es.len()
        invariant
            i <= es.len(),
            v == evs(es@),
            pair_views(out@) == (if outgoing { children_of(v.subrange(0, i as int), id@) } else { preds_of(v.subrange(0, i as int), id@) }),
        decreases es.len() - i,
    {
        assert(v.subrange(0, i + 1).drop_last() =~= v.subrange(0, i as int));
        assert(v.subrange(0, i + 1).last() == ev(es@[i as int]));
        let e = &es[i];
        let ghost before = out@;
        if is_chapter_kind(&e.kind) {
            if outgoing && e.source == *id {
                out.push((e.target.clone(), opt_copy(&e.target_handle)));
                assert(pair_views(out@) =~= pair_views(before).push((e.target@, opt_view(e.target_handle))));
            } else if !outgoing && e.target == *id {
                out.push((e.source.clone(), opt_copy(&e.source_handle)));
                assert(pair_views(out@) =~= pair_views(before).push((e.source@, opt_view(e.source_handle))));
            }
        }
        i += 1;
    }
    assert(v.subrange(0, es.len() as int) =~= v);
    out
}

fn reattach_exec(es: &mut Vec<TreeEdge>, kids: &Vec<(String, Option<String>)>, attach: &String, ash: &Option<String>)
    ensures
        evs(final(es)@) == reattach(evs(old(es)@), pair_views(kids@), attach@, opt_view(*ash)),
{
    let ghost e0 = evs(es@);
    let ghost kv = pair_views(kids@);
    let mut i: usize = 0;
    while i < kids.len()
        invariant
            i <= kids.len(),
            kv == pair_views(kids@),
            evs(es@) == reattach(e0, kv.subrange(0, i as int), attach@, opt_view(*ash)),
        decreases kids.len() - i,
    {
        assert(kv.subrange(0, i + 1).drop_last() =~= kv.subrange(0, i as int));
        assert(kv.subrange(0, i + 1).last() == (kids@[i as int].0@, opt_view(kids@[i as int].1)));
        let (child, th) = (&kids[i].0, &kids[i].1);
        if !has_flow_exec(es, attach, child, false) {
            let e = make_link(attach, child, opt_copy(ash), or_default_exec(th, "top"));
            push_edge(es, e);
        }
        i += 1;
    }
    assert(kv.subrange(0, kids.len() as int) =~= kv);
}

fn bridge_exec(es: &mut Vec<TreeEdge>, preds: &Vec<(String, Option<String>)>, succs: &Vec<(String, Option<String>)>)
    ensures
        evs(final(es)@) == bridge(evs(old(es)@), pair_views(preds@), pair_views(succs@)),
{
    let ghost e0 = evs(es@);
    let ghost pv = pair_views(preds@);
    let ghost sv = pair_views(succs@);
    let mut i: usize = 0;
    while i < preds.len()
        invariant
            i <= preds.len(),
            pv == pair_views(preds@),
            sv == pair_views(succs@),
            evs(es@) == bridge(e0, pv.subrange(0, i as int), sv),
        decreases preds.len() - i,
    {
        assert(pv.subrange(0, i + 1).drop_last() =~= pv.subrange(0, i as int));
        let ghost p = pv[i as int];
        assert(pv.subrange(0, i + 1).last() == p);
        let ghost e1 = evs(es@);
        let mut j: usize = 0;
        while j < succs.len()
            invariant
                j <= succs.len(),
                i < preds.len(),
                pv == pair_views(preds@),
                sv == pair_views(succs@),
                p == pv[i as int],
                evs(es@) == bridge_one(e1, p, sv.subrange(0, j as int)),
            decreases succs.len() - j,
        {
            assert(sv.subrange(0, j + 1).drop_last() =~= sv.subrange(0, j as int));
            assert(sv.subrange(0, j + 1).last() == sv[j as int]);
            let pr = &preds[i];
            let sc = &succs[j];
            if pr.0 != sc.0 && !has_flow_exec(es, &pr.0, &sc.0, true) {
                let e = make_link(&pr.0, &sc.0, or_default_exec(&pr.1, "bottom"), or_default_exec(&sc.1, "top"));
                push_edge(es, e);
            }
            j += 1;
        }
        assert(sv.subrange(0, succs.len() as int) =~= sv);
        i += 1;
    }
    assert(pv.subrange(0, preds.len() as int) =~= pv);
}

fn id_in(ids: &Vec<String>, x: &String) -> (r: bool)
    ensures
        r == exists|i: int| 0 <= i < ids@.len() && ids@[i]@ == x@,
{
    let mut i: usize = 0;
    while i < ids.len()
        invariant
            i <= ids.len(),
            forall|j: int| 0 <= j < i ==> ids@[j]@ != x@,
        decreases ids.len() - i,
    {
        if ids[i] == *x {
            return true;
        }
        i += 1;
    }
    false
}

fn prune_ids(ids: &Vec<String>, left_ids: &Vec<String>, Ghost(left): Ghost<Seq<TreeNode>>) -> (r: Vec<String>)
    requires
        forall|x: Seq<char>| alive(left, x) <==> exists|i: int| 0 <= i < left_ids@.len() && left_ids@[i]@ == x,
    ensures
        str_views(r@) == live_ids(str_views(ids@), left),
{
    let ghost v = str_views(ids@);
    let mut out: Vec<String> = Vec::new();
    let mut i: usize = 0;
    while i < ids.len()
        invariant
            i <= ids.len(),
            v == str_views(ids@),
            forall|x: Seq<char>| alive(left, x) <==> exists|q: int| 0 <= q < left_ids@.len() && left_ids@[q]@ == x,
            str_views(out@) == live_ids(v.subrange(0, i as int), left),
        decreases ids.len() - i,
    {
        assert(v.subrange(0, i + 1).drop_last() =~= v.subrange(0, i as int));
        assert(v.subrange(0, i + 1).last() == ids@[i as int]@);
        let ghost before = out@;
        if id_in(left_ids, &ids[i]) {
            out.push(ids[i].clone());
            assert(str_views(out@) =~= str_views(before).push(ids@[i as int]@));
        }
        i += 1;
    }
    assert(v.subrange(0, ids.len() as int) =~= v);
    out
}

pub open spec fn node_ids(ns: Seq<TreeNode>) -> Seq<Seq<char>> {
    ns.map_values(|n: TreeNode| n.id@)
}

/// `ids` names exactly the nodes of `ns`.
pub open spec fn lists_ids(ns: Seq<TreeNode>, ids: Seq<String>) -> bool {
    forall|x: Seq<char>| alive(ns, x) <==> exists|q: int| 0 <= q < ids.len() && ids[q]@ == x
}

fn relink_edges(edges: &mut Vec<TreeEdge>, kind: NodeKind, id: &String, root_id: &String)
    ensures
        evs(final(edges)@) == relinked(evs(old(edges)@), kind, id@, root_id@),
{
    if kind == NodeKind::Volume {
        let p = first_pred_exec(edges, id);
        let attach: String = match p { Some(i) => edges[i].source.clone(), None => root_id.clone() };
        let ash: Option<String> = match p {
            Some(i) => or_default_exec(&edges[i].source_handle, "bottom"),
            None => Some(String::from_str("bottom")),
        };
        let kids = ends_exec(edges, id, true);
        reattach_exec(edges, &kids, &attach, &ash);
    } else if kind == NodeKind::Chapter {
        let preds = ends_exec(edges, id, false);
        let succs = ends_exec(edges, id, true);
        bridge_exec(edges, &preds, &succs);
    }
}

fn split_nodes(nodes: Vec<TreeNode>, id: &String) -> (r: (Vec<TreeNode>, Vec<String>))
    ensures
        r.0@ == other_nodes(nodes@, id@),
        str_views(r.1@) == node_ids(r.0@),
{
    let ghost ns = nodes@;
    let n_all = nodes.len();
    let mut rest = nodes;
    let mut left: Vec<TreeNode> = Vec::new();
    let mut left_ids: Vec<String> = Vec::new();
    let mut i: usize = 0;
    while rest.len() > 0
        invariant
            ns.len() == n_all,
            i + rest@.len() == n_all,
            rest@ == ns.subrange(i as int, ns.len() as int),
            left@ == other_nodes(ns.subrange(0, i as int), id@),
            str_views(left_ids@) == node_ids(left@),
        decreases rest@.len(),
    {
        assert(ns.subrange(0, i + 1).drop_last() =~= ns.subrange(0, i as int));
        let ghost r0 = rest@;
        let n = rest.remove(0);
        assert(n == ns[i as int]);
        assert(rest@ =~= ns.subrange(i + 1, ns.len() as int));
        assert(ns.subrange(0, i + 1).last() == n);
        if n.id != *id {
            let ghost lb = left@;
            let ghost lib = left_ids@;
            let c = n.id.clone();
            left_ids.push(c);
            left.push(n);
            assert(str_views(left_ids@) =~= str_views(lib).push(n.id@));
            assert(node_ids(left@) =~= node_ids(lb).push(n.id@));
        }
        i += 1;
    }
    assert(ns.subrange(0, ns.len() as int) =~= ns);
    (left, left_ids)
}

proof fn lemma_lists_ids(lv: Seq<TreeNode>, ids: Seq<String>)
    requires
        str_views(ids) == node_ids(lv),
    ensures
        lists_ids(lv, ids),
{
    assert(str_views(ids).len() == ids.len());
    assert(node_ids(lv).len() == lv.len());
    assert forall|x: Seq<char>| alive(lv, x) <==> exists|q: int| 0 <= q < ids.len() && ids[q]@ == x by {
        if alive(lv, x) {
            let q = choose|q: int| 0 <= q < lv.len() && lv[q].id@ == x;
            assert(str_views(ids)[q] == ids[q]@);
            assert(node_ids(lv)[q] == lv[q].id@);
            assert(0 <= q < ids.len() && ids[q]@ == x);
        }
        if exists|q: int| 0 <= q < ids.len() && ids[q]@ == x {
            let q = choose|q: int| 0 <= q < ids.len() && ids[q]@ == x;
            assert(str_views(ids)[q] == ids[q]@);
            assert(node_ids(lv)[q] == lv[q].id@);
            assert(0 <= q < lv.len() && lv[q].id@ == x);
        }
    }
}

fn keep_live(edges: Vec<TreeEdge>, id: &String, left_ids: &Vec<String>, Ghost(lv): Ghost<Seq<TreeNode>>) -> (r: Vec<TreeEdge>)
    requires
        lists_ids(lv, left_ids@),
    ensures
        evs(r@) == live_edges(evs(edges@), lv, id@),
{
    let ghost rv = evs(edges@);
    let n_all = edges.len();
    let mut kept: Vec<TreeEdge> = Vec::new();
    let mut erest = edges;
    let mut j: usize = 0;
    while erest.len() > 0
        invariant
            rv.len() == n_all,
            j + erest@.len() == n_all,
            evs(erest@) == rv.subrange(j as int, rv.len() as int),
            evs(kept@) == live_edges(rv.subrange(0, j as int), lv, id@),
            lists_ids(lv, left_ids@),
        decreases erest@.len(),
    {
        assert(rv.subrange(0, j + 1).drop_last() =~= rv.subrange(0, j as int));
        let ghost er = erest@;
        let e = erest.remove(0);
        assert(evs(er)[0] == ev(e));
        assert(evs(erest@) =~= evs(er).subrange(1, er.len() as int));
        assert(rv.subrange(0, j + 1).last() == ev(e));
        if e.source != *id && e.target != *id && id_in(left_ids, &e.source) && id_in(left_ids, &e.target) {
            push_edge(&mut kept, e);
        }
        j += 1;
    }
    assert(rv.subrange(0, rv.len() as int) =~= rv);
    kept
}

fn prune_nodes(left: Vec<TreeNode>, left_ids: &Vec<String>, Ghost(lv): Ghost<Seq<TreeNode>>) -> (r: Vec<TreeNode>)
    requires
        left@ == lv,
        lists_ids(lv, left_ids@),
    ensures
        r@.len() == lv.len(),
        forall|z: int| 0 <= z < lv.len() ==> pruned(lv[z], #[trigger] r@[z], lv),
{
    let n_all = left.len();
    let mut out_nodes: Vec<TreeNode> = Vec::new();
    let mut nrest = left;
    let mut q: usize = 0;
    while nrest.len() > 0
        invariant
            lv.len() == n_all,
            q + nrest@.len() == n_all,
            nrest@ == lv.subrange(q as int, lv.len() as int),
            out_nodes@.len() == q,
            lists_ids(lv, left_ids@),
            forall|z: int| 0 <= z < q ==> pruned(lv[z], #[trigger] out_nodes@[z], lv),
        decreases nrest@.len(),
    {
        let n = nrest.remove(0);
        assert(n == lv[q as int]);
        assert(nrest@ =~= lv.subrange(q + 1, lv.len() as int));
        let lc = prune_ids(&n.linked_character_ids, left_ids, Ghost(lv));
        let lp = prune_ids(&n.linked_side_plot_ids, left_ids, Ghost(lv));
        let lk = prune_ids(&n.linked_knowledge_ids, left_ids, Ghost(lv));
        let TreeNode {
            id: nid, kind: nkind, label, outline, detailed_outline, character, knowledge, side_plot,
            linked_character_ids: _, linked_side_plot_ids: _, linked_knowledge_ids: _, position,
            word_count, word_count_min, word_count_max, chapter_count,
        } = n;
        let m = TreeNode {
            id: nid,
            kind: nkind,
            label: label,
            outline: outline,
            detailed_outline: detailed_outline,
            character: character,
            knowledge: knowledge,
            side_plot: side_plot,
            linked_character_ids: lc,
            linked_side_plot_ids: lp,
            linked_knowledge_ids: lk,
            position: position,
            word_count: word_count,
            word_count_min: word_count_min,
            word_count_max: word_count_max,
            chapter_count: chapter_count,
        };
        assert(pruned(lv[q as int], m, lv));
        out_nodes.push(m);
        q += 1;
    }
    out_nodes
}

/// Deletes card `node_id` from the tree (see `deleted`); `protected` says
/// whether the card is one of the generation / refinement prompt cards,
/// which cannot be deleted. The root cannot be deleted either.
pub fn delete_tree_card_inner(tree: NovelTree, node_id: &str, protected: bool) -> (r: Result<NovelTree, String>)
    ensures
        match r {
            Ok(t) => delete_error(tree, node_id@, protected) is None && deleted(tree, node_id@, t),
            Err(e) => delete_error(tree, node_id@, protected) == Some(e@),
        },
{
    let ghost t0 = tree;
    let id = String::from_str(node_id);
    let k = match crate::models::find_node(&tree.nodes, &id) {
        Some(k) => k,
        None => {
            return Err(String::from_str("节点不存在"));
        },
    };
    let kind = tree.nodes[k].kind;
    if kind == NodeKind::Novel {
        return Err(String::from_str("根节点不能删除"));
    }
    if kind == NodeKind::Knowledge && protected {
        return Err(String::from_str("生成/精修卡不能删除"));
    }
    let mut root_id = String::new();
    if kind == NodeKind::Volume {
        match crate::tree_refs::find_root_index(&tree.nodes) {
            Some(r) => {
                root_id = tree.nodes[r].id.clone();
            },
            None => {
                return Err(String::from_str("根节点不存在"));
            },
        }
    }
    let ghost root = match first_where(t0.nodes@, |n: TreeNode| is_novel(n)) { Some(r) => t0.nodes@[r].id@, None => Seq::empty() };
    assert(kind == NodeKind::Volume ==> root_id@ == root);
    let NovelTree { novel_id, nodes, edges } = tree;
    let mut edges = edges;
    relink_edges(&mut edges, kind, &id, &root_id);
    assert(evs(edges@) == relinked(evs(t0.edges@), kind, node_id@, root));
    let (left, left_ids) = split_nodes(nodes, &id);
    let ghost lv = left@;
    proof {
        lemma_lists_ids(lv, left_ids@);
    }
    let kept = keep_live(edges, &id, &left_ids, Ghost(lv));
    let out_nodes = prune_nodes(left, &left_ids, Ghost(lv));
    let t = NovelTree { novel_id: novel_id, nodes: out_nodes, edges: kept };
    Ok(t)
}

proof fn lemma_other_nodes(ns: Seq<TreeNode>, id: Seq<char>)
    ensures
        forall|i: int| 0 <= i < other_nodes(ns, id).len() ==> (#[trigger] other_nodes(ns, id)[i]).id@ != id,
    decreases ns.len(),
{
    if ns.len() > 0 {
        lemma_other_nodes(ns.drop_last(), id);
    }
}

proof fn lemma_live_edges(es: Seq<EdgeV>, ns: Seq<TreeNode>, id: Seq<char>)
    ensures
        forall|i: int| 0 <= i < live_edges(es, ns, id).len() ==> {
            let e = #[trigger] live_edges(es, ns, id)[i];
            e.source != id && e.target != id && alive(ns, e.source) && alive(ns, e.target)
        },
    decreases es.len(),
{
    if es.len() > 0 {
        lemma_live_edges(es.drop_last(), ns, id);
    }
}

proof fn lemma_live_ids(ids: Seq<Seq<char>>, ns: Seq<TreeNode>)
    ensures
        forall|i: int| 0 <= i < live_ids(ids, ns).len() ==> alive(ns, #[trigger] live_ids(ids, ns)[i]),
    decreases ids.len(),
{
    if ids.len() > 0 {
        let rest = live_ids(ids.drop_last(), ns);
        lemma_live_ids(ids.drop_last(), ns);
        assert forall|i: int| 0 <= i < live_ids(ids, ns).len() implies alive(ns, #[trigger] live_ids(ids, ns)[i]) by {
            if i < rest.len() {
                assert(live_ids(ids, ns)[i] == rest[i]);
            }
        }
    }
}

/// After a card is deleted, no node carries its id, and every link and
/// every linked character, side-plot or knowledge id of the tree left
/// names a node that is still in it.
pub proof fn deletion_leaves_no_dangling_reference(before: NovelTree, id: Seq<char>, after: NovelTree)
    requires
        deleted(before, id, after),
    ensures
        !alive(after.nodes@, id),
        forall|i: int| 0 <= i < after.edges@.len() ==> {
            let e = #[trigger] after.edges@[i];
            e.source@ != id && e.target@ != id && alive(after.nodes@, e.source@) && alive(after.nodes@, e.target@)
        },
        forall|i: int, j: int| 0 <= i < after.nodes@.len() && 0 <= j < after.nodes@[i].linked_character_ids@.len()
            ==> alive(after.nodes@, #[trigger] after.nodes@[i].linked_character_ids@[j]@),
        forall|i: int, j: int| 0 <= i < after.nodes@.len() && 0 <= j < after.nodes@[i].linked_side_plot_ids@.len()
            ==> alive(after.nodes@, #[trigger] after.nodes@[i].linked_side_plot_ids@[j]@),
        forall|i: int, j: int| 0 <= i < after.nodes@.len() && 0 <= j < after.nodes@[i].linked_knowledge_ids@.len()
            ==> alive(after.nodes@, #[trigger] after.nodes@[i].linked_knowledge_ids@[j]@),
{
    let ns = before.nodes@;
    let left = other_nodes(ns, id);
    let an = after.nodes@;
    let k = crate::models::first_node(ns, id)->Some_0;
    let root = match first_where(ns, |n: TreeNode| is_novel(n)) { Some(r) => ns[r].id@, None => Seq::empty() };
    let rel = relinked(evs(before.edges@), ns[k].kind, id, root);
    lemma_other_nodes(ns, id);
    lemma_live_edges(rel, left, id);
    assert forall|x: Seq<char>| alive(an, x) <==> alive(left, x) by {
        if alive(an, x) {
            let q = choose|q: int| 0 <= q < an.len() && an[q].id@ == x;
            assert(pruned(left[q], an[q], left));
        }
        if alive(left, x) {
            let q = choose|q: int| 0 <= q < left.len() && left[q].id@ == x;
            assert(pruned(left[q], an[q], left));
            assert(0 <= q < an.len() && an[q].id@ == x);
        }
    }
    assert(!alive(an, id)) by {
        if alive(left, id) {
            let q = choose|q: int| 0 <= q < left.len() && left[q].id@ == id;
            assert(left[q].id@ != id);
        }
    }
    assert forall|i: int| 0 <= i < after.edges@.len() implies {
        let e = #[trigger] after.edges@[i];
        e.source@ != id && e.target@ != id && alive(an, e.source@) && alive(an, e.target@)
    } by {
        assert(evs(after.edges@)[i] == ev(after.edges@[i]));
        assert(live_edges(rel, left, id)[i] == ev(after.edges@[i]));
    }
    assert forall|i: int, j: int| 0 <= i < an.len() && 0 <= j < an[i].linked_character_ids@.len()
        implies alive(an, #[trigger] an[i].linked_character_ids@[j]@) by {
        assert(pruned(left[i], an[i], left));
        let v = str_views(left[i].linked_character_ids@);
        lemma_live_ids(v, left);
        assert(str_views(an[i].linked_character_ids@)[j] == an[i].linked_character_ids@[j]@);
        assert(alive(left, live_ids(v, left)[j]));
    }
    assert forall|i: int, j: int| 0 <= i < an.len() && 0 <= j < an[i].linked_side_plot_ids@.len()
        implies alive(an, #[trigger] an[i].linked_side_plot_ids@[j]@) by {
        assert(pruned(left[i], an[i], left));
        let v = str_views(left[i].linked_side_plot_ids@);
        lemma_live_ids(v, left);
        assert(str_views(an[i].linked_side_plot_ids@)[j] == an[i].linked_side_plot_ids@[j]@);
        assert(alive(left, live_ids(v, left)[j]));
    }
    assert forall|i: int, j: int| 0 <= i < an.len() && 0 <= j < an[i].linked_knowledge_ids@.len()
        implies alive(an, #[trigger] an[i].linked_knowledge_ids@[j]@) by {
        assert(pruned(left[i], an[i], left));
        let v = str_views(left[i].linked_knowledge_ids@);
        lemma_live_ids(v, left);
        assert(str_views(an[i].linked_knowledge_ids@)[j] == an[i].linked_knowledge_ids@[j]@);
        assert(alive(left, live_ids(v, left)[j]));
    }
}

/// The id of the root (novel) card.
pub open spec fn root_of(ns: Seq<TreeNode>) -> Option<Seq<char>> {
    match first_where(ns, |n: TreeNode| is_novel(n)) {
        Some(r) => Some(ns[r].id@),
        None => None,
    }
}

/// The id of the root card, `root` when the tree has none.
pub fn root_id(tree: &NovelTree) -> (r: String)
    ensures
        r@ == (match root_of(tree.nodes@) { Some(id) => id, None => "root"@ }),
{
    match find_root_index(&tree.nodes) {
        Some(i) => tree.nodes[i].id.clone(),
        None => String::from_str("root"),
    }
}

/// `n2` is `n` with only its linked ids possibly changed.
pub open spec fn same_card(n: TreeNode, n2: TreeNode) -> bool {
    &&& n2.id == n.id
    &&& n2.kind == n.kind
    &&& n2.label == n.label
    &&& n2.outline == n.outline
    &&& n2.detailed_outline == n.detailed_outline
    &&& n2.character == n.character
    &&& n2.knowledge == n.knowledge
    &&& n2.side_plot == n.side_plot
    &&& n2.position == n.position
    &&& n2.word_count == n.word_count
    &&& n2.word_count_min == n.word_count_min
    &&& n2.word_count_max == n.word_count_max
    &&& n2.chapter_count == n.chapter_count
}

/// `ids` with `x` added last unless it is there.
pub open spec fn with_id(ids: Seq<Seq<char>>, x: Seq<char>) -> Seq<Seq<char>> {
    if ids.contains(x) { ids } else { ids.push(x) }
}

/// A character link between `host` and `c`, either way round.
pub open spec fn has_char_edge(es: Seq<EdgeV>, host: Seq<char>, c: Seq<char>) -> bool {
    exists|i: int| 0 <= i < es.len() && es[i].kind == "character"@
        && ((es[i].source == host && es[i].target == c) || (es[i].source == c && es[i].target == host))
}

/// The character link `host → c` a card gets.
pub open spec fn char_link(host: Seq<char>, c: Seq<char>) -> EdgeV {
    EdgeV {
        id: "e-"@ + host + "-"@ + c,
        source: host,
        target: c,
        kind: "character"@,
        sh: Some("left"@),
        th: Some("right"@),
        label: Seq::empty(),
    }
}

pub(crate) fn contains_id(ids: &Vec<String>, x: &String) -> (r: bool)
    ensures
        r == str_views(ids@).contains(x@),
{
    let r = id_in(ids, x);
    proof {
        if r {
            let i = choose|i: int| 0 <= i < ids@.len() && ids@[i]@ == x@;
            assert(str_views(ids@)[i] == x@);
        }
        if str_views(ids@).contains(x@) {
            let i = choose|i: int| 0 <= i < str_views(ids@).len() && str_views(ids@)[i] == x@;
            assert(ids@[i]@ == x@);
        }
    }
    r
}

pub(crate) fn push_id(ids: &mut Vec<String>, x: String)
    ensures
        str_views(final(ids)@) == str_views(old(ids)@).push(x@),
{
    let ghost before = str_views(ids@);
    ids.push(x);
    assert(str_views(ids@) =~= before.push(x@));
}

fn has_char_edge_exec(es: &Vec<TreeEdge>, host: &String, c: &String) -> (r: bool)
    ensures
        r == has_char_edge(evs(es@), host@, c@),
{
    let ghost v = evs(es@);
    let mut i: usize = 0;
    while i < es.len()
        invariant
            i <= es.len(),
            v == evs(es@),
            forall|j: int| 0 <= j < i ==> !(v[j].kind == "character"@
                && ((v[j].source == host@ && v[j].target == c@) || (v[j].source == c@ && v[j].target == host@))),
        decreases es.len() - i,
    {
        let e = &es[i];
        assert(v[i as int] == ev(es@[i as int]));
        if crate::text::eq_str(&chars_of(e.kind.as_str()), "character")
            && ((e.source == *host && e.target == *c) || (e.source == *c && e.target == *host)) {
            return true;
        }
        i += 1;
    }
    false
}

/// `after` is `before` with character `c` linked to card `host` (see
/// `ensure_character_linked`).
pub open spec fn char_linked(before: NovelTree, after: NovelTree, host: Seq<char>, c: Seq<char>) -> bool {
    &&& after.novel_id == before.novel_id
    &&& after.nodes@.len() == before.nodes@.len()
    &&& match first_node(before.nodes@, host) {
        Some(k) => {
            &&& same_card(before.nodes@[k], after.nodes@[k])
            &&& after.nodes@[k].linked_side_plot_ids == before.nodes@[k].linked_side_plot_ids
            &&& after.nodes@[k].linked_knowledge_ids == before.nodes@[k].linked_knowledge_ids
            &&& str_views(after.nodes@[k].linked_character_ids@)
                == with_id(str_views(before.nodes@[k].linked_character_ids@), c)
            &&& forall|j: int| 0 <= j < before.nodes@.len() && j != k ==> after.nodes@[j] == before.nodes@[j]
        },
        None => after.nodes@ == before.nodes@,
    }
    &&& evs(after.edges@) == (if has_char_edge(evs(before.edges@), host, c) {
        evs(before.edges@)
    } else {
        evs(before.edges@).push(char_link(host, c))
    })
}

/// Links character `char_id` to card `host_id`: the host lists it (once),
/// and a character link joins them (once, either way round).
pub fn ensure_character_linked(tree: &mut NovelTree, host_id: &str, char_id: &str)
    ensures
        char_linked(*old(tree), *final(tree), host_id@, char_id@),
{
    let host = String::from_str(host_id);
    let cid = String::from_str(char_id);
    match find_node(&tree.nodes, &host) {
        Some(k) => {
            if !contains_id(&tree.nodes[k].linked_character_ids, &cid) {
                let ghost ns0 = tree.nodes@;
                let mut n = tree.nodes.remove(k);
                push_id(&mut n.linked_character_ids, cid.clone());
                tree.nodes.insert(k, n);
                assert forall|j: int| 0 <= j < ns0.len() && j != k implies tree.nodes@[j] == ns0[j] by {
                    if j < k {
                        assert(tree.nodes@[j] == ns0[j]);
                    } else {
                        assert(tree.nodes@[j] == ns0[j]);
                    }
                }
            }
        },
        None => {},
    }
    if !has_char_edge_exec(&tree.edges, &host, &cid) {
        let mut id = chars_of("e-");
        append_str(&mut id, host_id);
        append_str(&mut id, "-");
        append_str(&mut id, char_id);
        let e = TreeEdge {
            id: string_of(&id),
            source: host.clone(),
            target: cid.clone(),
            kind: String::from_str("character"),
            source_handle: Some(String::from_str("left")),
            target_handle: Some(String::from_str("right")),
            label: String::new(),
        };
        assert(ev(e) == char_link(host_id@, char_id@));
        push_edge(&mut tree.edges, e);
    }
}

pub open spec fn pair_strs(v: Seq<(String, String)>) -> Seq<(Seq<char>, Seq<char>)> {
    v.map_values(|p: (String, String)| (p.0@, p.1@))
}

/// A side-plot link between `host` and `p`, either way round.
pub open spec fn has_plot_edge(es: Seq<EdgeV>, host: Seq<char>, p: Seq<char>) -> bool {
    exists|i: int| 0 <= i < es.len() && es[i].kind == "side_plot"@
        && ((es[i].source == host && es[i].target == p) || (es[i].source == p && es[i].target == host))
}

/// The side-plot link `host → p` a plot card gets.
pub open spec fn plot_link(host: Seq<char>, p: Seq<char>) -> EdgeV {
    EdgeV {
        id: "e-"@ + host + "-"@ + p,
        source: host,
        target: p,
        kind: "side_plot"@,
        sh: Some("right"@),
        th: Some("left"@),
        label: Seq::empty(),
    }
}

fn has_plot_edge_exec(es: &Vec<TreeEdge>, host: &String, p: &String) -> (r: bool)
    ensures
        r == has_plot_edge(evs(es@), host@, p@),
{
    let ghost v = evs(es@);
    let mut i: usize = 0;
    while i < es.len()
        invariant
            i <= es.len(),
            v == evs(es@),
            forall|j: int| 0 <= j < i ==> !(v[j].kind == "side_plot"@
                && ((v[j].source == host@ && v[j].target == p@) || (v[j].source == p@ && v[j].target == host@))),
        decreases es.len() - i,
    {
        let e = &es[i];
        assert(v[i as int] == ev(es@[i as int]));
        if crate::text::eq_str(&chars_of(e.kind.as_str()), "side_plot")
            && ((e.source == *host && e.target == *p) || (e.source == *p && e.target == *host)) {
            return true;
        }
        i += 1;
    }
    false
}

/// Hangs plot card `pid` on the root card `root_id`: the root lists it
/// (once), and a side-plot link joins them (once, either way round).
pub fn link_plot_to_root(tree: &mut NovelTree, root_id: &str, pid: &str)
    ensures
        final(tree).novel_id == old(tree).novel_id,
        final(tree).nodes@.len() == old(tree).nodes@.len(),
        match first_node(old(tree).nodes@, root_id@) {
            Some(k) => {
                &&& same_card(old(tree).nodes@[k], final(tree).nodes@[k])
                &&& final(tree).nodes@[k].linked_character_ids == old(tree).nodes@[k].linked_character_ids
                &&& final(tree).nodes@[k].linked_knowledge_ids == old(tree).nodes@[k].linked_knowledge_ids
                &&& str_views(final(tree).nodes@[k].linked_side_plot_ids@)
                    == with_id(str_views(old(tree).nodes@[k].linked_side_plot_ids@), pid@)
                &&& forall|j: int| 0 <= j < old(tree).nodes@.len() && j != k ==> final(tree).nodes@[j] == old(tree).nodes@[j]
            },
            None => final(tree).nodes@ == old(tree).nodes@,
        },
        evs(final(tree).edges@) == (if has_plot_edge(evs(old(tree).edges@), root_id@, pid@) {
            evs(old(tree).edges@)
        } else {
            evs(old(tree).edges@).push(plot_link(root_id@, pid@))
        }),
{
    let host = String::from_str(root_id);
    let p = String::from_str(pid);
    match find_node(&tree.nodes, &host) {
        Some(k) => {
            if !contains_id(&tree.nodes[k].linked_side_plot_ids, &p) {
                let ghost ns0 = tree.nodes@;
                let mut n = tree.nodes.remove(k);
                push_id(&mut n.linked_side_plot_ids, p.clone());
                let ghost nv = n;
                tree.nodes.insert(k, n);
                assert(tree.nodes@ =~= ns0.update(k as int, nv));
            }
        },
        None => {},
    }
    if !has_plot_edge_exec(&tree.edges, &host, &p) {
        let mut id = chars_of("e-");
        append_str(&mut id, root_id);
        append_str(&mut id, "-");
        append_str(&mut id, pid);
        let e = TreeEdge {
            id: string_of(&id),
            source: host.clone(),
            target: p.clone(),
            kind: String::from_str("side_plot"),
            source_handle: Some(String::from_str("right")),
            target_handle: Some(String::from_str("left")),
            label: String::new(),
        };
        assert(ev(e) == plot_link(root_id@, pid@));
        push_edge(&mut tree.edges, e);
    }
}

/// Linking a character to a card a second time changes nothing: the card
/// lists it once and one link joins them.
pub proof fn character_link_is_idempotent(t0: NovelTree, t1: NovelTree, t2: NovelTree, host: Seq<char>, c: Seq<char>)
    requires
        char_linked(t0, t1, host, c),
        char_linked(t1, t2, host, c),
    ensures
        t2.novel_id == t1.novel_id,
        t2.nodes@.len() == t1.nodes@.len(),
        forall|j: int| 0 <= j < t1.nodes@.len() ==> {
            &&& same_card(t1.nodes@[j], #[trigger] t2.nodes@[j])
            &&& str_views(t2.nodes@[j].linked_character_ids@) == str_views(t1.nodes@[j].linked_character_ids@)
            &&& t2.nodes@[j].linked_side_plot_ids == t1.nodes@[j].linked_side_plot_ids
            &&& t2.nodes@[j].linked_knowledge_ids == t1.nodes@[j].linked_knowledge_ids
        },
        evs(t2.edges@) == evs(t1.edges@),
{
    let n0 = t0.nodes@;
    let n1 = t1.nodes@;
    crate::models::lemma_first_node_props(n0, host);
    crate::models::lemma_first_node_props(n1, host);
    match first_node(n0, host) {
        Some(k) => {
            assert(crate::models::is_first_with_id(n1, host, k)) by {
                assert forall|j: int| 0 <= j < k implies n1[j].id@ != host by {
                    assert(n1[j] == n0[j]);
                }
            }
            crate::models::lemma_first_node(n1, host, k);
            let l0 = str_views(n0[k].linked_character_ids@);
            assert(with_id(with_id(l0, c), c) == with_id(l0, c)) by {
                if !l0.contains(c) {
                    assert(l0.push(c)[l0.len() as int] == c);
                }
            }
        },
        None => {},
    }
    let e0 = evs(t0.edges@);
    if !has_char_edge(e0, host, c) {
        let e1 = e0.push(char_link(host, c));
        assert(e1[e0.len() as int] == char_link(host, c));
        assert(has_char_edge(e1, host, c));
    } else {
        let i = choose|i: int| 0 <= i < e0.len() && e0[i].kind == "character"@
            && ((e0[i].source == host && e0[i].target == c) || (e0[i].source == c && e0[i].target == host));
        assert(evs(t1.edges@)[i] == e0[i]);
    }
    assert forall|j: int| 0 <= j < t1.nodes@.len() implies {
        &&& same_card(t1.nodes@[j], #[trigger] t2.nodes@[j])
        &&& str_views(t2.nodes@[j].linked_character_ids@) == str_views(t1.nodes@[j].linked_character_ids@)
        &&& t2.nodes@[j].linked_side_plot_ids == t1.nodes@[j].linked_side_plot_ids
        &&& t2.nodes@[j].linked_knowledge_ids == t1.nodes@[j].linked_knowledge_ids
    } by {
        match first_node(n1, host) {
            Some(k) => {
                if j != k {
                    assert(t2.nodes@[j] == t1.nodes@[j]);
                }
            },
            None => {},
        }
    }
}

/// `root` or `novel`, in any ASCII case.
pub open spec fn is_root_alias(s: Seq<char>) -> bool {
    crate::text::ascii_lower_seq(s) == "root"@ || crate::text::ascii_lower_seq(s) == "novel"@
}

/// An edge end that names no card but says `root` / `novel` points at the
/// root card.
pub open spec fn fix_end(end: Seq<char>, root: Seq<char>, ns: Seq<TreeNode>) -> Seq<char> {
    if end != root && !alive(ns, end) && is_root_alias(end) { root } else { end }
}

pub open spec fn fixed_edge(e: EdgeV, root: Seq<char>, ns: Seq<TreeNode>) -> EdgeV {
    EdgeV { source: fix_end(e.source, root, ns), target: fix_end(e.target, root, ns), ..e }
}

pub open spec fn fixed_edges(es: Seq<EdgeV>, root: Seq<char>, ns: Seq<TreeNode>) -> Seq<EdgeV> {
    es.map_values(|e: EdgeV| fixed_edge(e, root, ns))
}

/// Some edge end in `es` needs pointing at the root card.
pub open spec fn some_fix(es: Seq<EdgeV>, root: Seq<char>, ns: Seq<TreeNode>) -> bool {
    exists|i: int| 0 <= i < es.len() && #[trigger] fixed_edge(es[i], root, ns) != es[i]
}

/// Some edge end of the tree needs pointing at the root card.
#[verifier::opaque]
pub open spec fn needs_repair(t: NovelTree) -> bool {
    match root_of(t.nodes@) {
        Some(root) => some_fix(evs(t.edges@), root, t.nodes@),
        None => false,
    }
}

/// The cards linked to the root, as (link kind, card), in link order.
pub open spec fn root_extras(es: Seq<EdgeV>, root: Seq<char>) -> Seq<(Seq<char>, Seq<char>)>
    decreases es.len(),
{
    if es.len() == 0 {
        Seq::empty()
    } else {
        let rest = root_extras(es.drop_last(), root);
        let e = es.last();
        if e.source == root {
            rest.push((e.kind, e.target))
        } else if e.target == root {
            rest.push((e.kind, e.source))
        } else {
            rest
        }
    }
}

/// `list` with the cards of the `kind` links added, each once.
pub open spec fn add_cards(list: Seq<Seq<char>>, extras: Seq<(Seq<char>, Seq<char>)>, kind: Seq<char>) -> Seq<Seq<char>>
    decreases extras.len(),
{
    if extras.len() == 0 {
        list
    } else {
        let l1 = add_cards(list, extras.drop_last(), kind);
        let (k, c) = extras.last();
        if k == kind && !l1.contains(c) { l1.push(c) } else { l1 }
    }
}

/// `after` is `before` repaired: every edge end fixed (see `fix_end`), and
/// the root card listing each knowledge, character and side-plot card now
/// linked to it.
#[verifier::opaque]
pub open spec fn root_repaired(before: NovelTree, after: NovelTree) -> bool {
    let ns = before.nodes@;
    let root = root_of(ns)->Some_0;
    let k = first_node(ns, root)->Some_0;
    let es = fixed_edges(evs(before.edges@), root, ns);
    let extras = root_extras(es, root);
    &&& after.novel_id == before.novel_id
    &&& evs(after.edges@) == es
    &&& after.nodes@.len() == ns.len()
    &&& same_card(ns[k], after.nodes@[k])
    &&& str_views(after.nodes@[k].linked_knowledge_ids@) == add_cards(str_views(ns[k].linked_knowledge_ids@), extras, "knowledge"@)
    &&& str_views(after.nodes@[k].linked_character_ids@) == add_cards(str_views(ns[k].linked_character_ids@), extras, "character"@)
    &&& str_views(after.nodes@[k].linked_side_plot_ids@) == add_cards(str_views(ns[k].linked_side_plot_ids@), extras, "side_plot"@)
    &&& forall|j: int| 0 <= j < ns.len() && j != k ==> after.nodes@[j] == ns[j]
}

fn alive_exec(ns: &Vec<TreeNode>, x: &String) -> (r: bool)
    ensures
        r == alive(ns@, x@),
{
    let mut i: usize = 0;
    while i < ns.len()
        invariant
            i <= ns.len(),
            forall|j: int| 0 <= j < i ==> ns@[j].id@ != x@,
        decreases ns.len() - i,
    {
        if ns[i].id == *x {
            return true;
        }
        i += 1;
    }
    false
}

fn is_root_alias_exec(s: &String) -> (r: bool)
    ensures
        r == is_root_alias(s@),
{
    let l = crate::global_chat::ascii_lowercase(&chars_of(s.as_str()));
    crate::text::eq_str(&l, "root") || crate::text::eq_str(&l, "novel")
}

fn fix_end_exec(end: String, root: &String, ns: &Vec<TreeNode>) -> (r: String)
    ensures
        r@ == fix_end(end@, root@, ns@),
{
    if end != *root && !alive_exec(ns, &end) && is_root_alias_exec(&end) { root.clone() } else { end }
}

proof fn lemma_extras_step(es: Seq<EdgeV>, root: Seq<char>, i: int)
    requires
        0 <= i < es.len(),
    ensures
        root_extras(es.subrange(0, i + 1), root) == {
            let rest = root_extras(es.subrange(0, i), root);
            let e = es[i];
            if e.source == root {
                rest.push((e.kind, e.target))
            } else if e.target == root {
                rest.push((e.kind, e.source))
            } else {
                rest
            }
        },
{
    assert(es.subrange(0, i + 1).drop_last() =~= es.subrange(0, i));
}

proof fn lemma_cards_step(list: Seq<Seq<char>>, extras: Seq<(Seq<char>, Seq<char>)>, kind: Seq<char>, i: int)
    requires
        0 <= i < extras.len(),
    ensures
        add_cards(list, extras.subrange(0, i + 1), kind) == {
            let l1 = add_cards(list, extras.subrange(0, i), kind);
            let (k, c) = extras[i];
            if k == kind && !l1.contains(c) { l1.push(c) } else { l1 }
        },
{
    assert(extras.subrange(0, i + 1).drop_last() =~= extras.subrange(0, i));
}

/// Adds the cards of the `kind` links among `extras` to `list`, each once.
fn add_cards_exec(list: &mut Vec<String>, extras: &Vec<(String, String)>, kind: &str)
    ensures
        str_views(final(list)@) == add_cards(str_views(old(list)@), pair_strs(extras@), kind@),
{
    let ghost xv = pair_strs(extras@);
    let ghost l0 = str_views(list@);
    let mut i: usize = 0;
    assert(xv.subrange(0, 0) =~= Seq::<(Seq<char>, Seq<char>)>::empty());
    while i < extras.len()
        invariant
            i <= extras.len(),
            xv == pair_strs(extras@),
            str_views(list@) == add_cards(l0, xv.subrange(0, i as int), kind@),
        decreases extras.len() - i,
    {
        proof {
            lemma_cards_step(l0, xv, kind@, i as int);
        }
        assert(xv[i as int] == (extras@[i as int].0@, extras@[i as int].1@));
        if crate::text::eq_str(&chars_of(extras[i].0.as_str()), kind) && !contains_id(list, &extras[i].1) {
            push_id(list, extras[i].1.clone());
        }
        i += 1;
    }
    assert(xv.subrange(0, extras.len() as int) =~= xv);
}

proof fn lemma_min_witness(ns: Seq<TreeNode>, p: spec_fn(TreeNode) -> bool, i: int)
    requires
        0 <= i < ns.len(),
        p(ns[i]),
    ensures
        exists|m: int| 0 <= m <= i && p(ns[m]) && forall|j: int| 0 <= j < m ==> !p(ns[j]),
    decreases i,
{
    if exists|j: int| 0 <= j < i && p(ns[j]) {
        let j = choose|j: int| 0 <= j < i && p(ns[j]);
        lemma_min_witness(ns, p, j);
    } else {
        assert(0 <= i <= i && p(ns[i]) && forall|j: int| 0 <= j < i ==> !p(ns[j]));
    }
}

pub proof fn lemma_first_where_props(ns: Seq<TreeNode>, p: spec_fn(TreeNode) -> bool)
    ensures
        match first_where(ns, p) {
            Some(r) => 0 <= r < ns.len() && p(ns[r]) && forall|j: int| 0 <= j < r ==> !p(ns[j]),
            None => forall|j: int| 0 <= j < ns.len() ==> !p(ns[j]),
        },
{
    if exists|i: int| 0 <= i < ns.len() && p(ns[i]) {
        let i = choose|i: int| 0 <= i < ns.len() && p(ns[i]);
        lemma_min_witness(ns, p, i);
    }
}

proof fn lemma_alive_kept(ns: Seq<TreeNode>, ns2: Seq<TreeNode>)
    requires
        ns2.len() == ns.len(),
        forall|j: int| 0 <= j < ns.len() ==> #[trigger] ns2[j].id == ns[j].id,
    ensures
        forall|x: Seq<char>| alive(ns2, x) == alive(ns, x),
{
    assert forall|x: Seq<char>| alive(ns2, x) == alive(ns, x) by {
        if alive(ns2, x) {
            let i = choose|i: int| 0 <= i < ns2.len() && ns2[i].id@ == x;
            assert(ns2[i].id == ns[i].id);
        }
        if alive(ns, x) {
            let i = choose|i: int| 0 <= i < ns.len() && ns[i].id@ == x;
            assert(ns2[i].id == ns[i].id);
        }
    }
}

proof fn lemma_root_kept(ns: Seq<TreeNode>, ns2: Seq<TreeNode>)
    requires
        ns2.len() == ns.len(),
        forall|j: int| 0 <= j < ns.len() ==> #[trigger] ns2[j].id == ns[j].id,
        forall|j: int| 0 <= j < ns.len() ==> #[trigger] ns2[j].kind == ns[j].kind,
    ensures
        root_of(ns2) == root_of(ns),
{
    let p = |n: TreeNode| is_novel(n);
    lemma_first_where_props(ns, p);
    lemma_first_where_props(ns2, p);
    match first_where(ns, p) {
        Some(r) => {
            assert forall|j: int| 0 <= j < r implies !p(ns2[j]) by {
                assert(ns2[j].kind == ns[j].kind);
            }
            assert(ns2[r].kind == ns[r].kind);
            lemma_first_where(ns2, p, r);
            assert(ns2[r].id == ns[r].id);
        },
        None => {
            match first_where(ns2, p) {
                Some(r2) => {
                    assert(ns2[r2].kind == ns[r2].kind);
                    assert(p(ns[r2]));
                },
                None => {},
            }
        },
    }
}

/// Whether some edge end needs pointing at the root.
fn any_end_to_fix(edges: &Vec<TreeEdge>, root_id: &String, ns: &Vec<TreeNode>) -> (r: bool)
    ensures
        r == some_fix(evs(edges@), root_id@, ns@),
{
    let ghost es0 = evs(edges@);
    let mut i: usize = 0;
    while i < edges.len()
        invariant
            i <= edges.len(),
            es0 == evs(edges@),
            forall|j: int| 0 <= j < i ==> #[trigger] fixed_edge(es0[j], root_id@, ns@) == es0[j],
        decreases edges.len() - i,
    {
        let e = &edges[i];
        assert(es0[i as int] == ev(edges@[i as int]));
        let s2 = fix_end_exec(e.source.clone(), root_id, ns);
        let t2 = fix_end_exec(e.target.clone(), root_id, ns);
        if s2 != e.source || t2 != e.target {
            assert(fixed_edge(es0[i as int], root_id@, ns@) != es0[i as int]);
            return true;
        }
        assert(fixed_edge(es0[i as int], root_id@, ns@) =~= es0[i as int]);
        i += 1;
    }
    false
}

/// Every edge with its ends fixed (see `fix_end`).
fn fix_all_edges(edges: &mut Vec<TreeEdge>, root_id: &String, ns: &Vec<TreeNode>)
    ensures
        evs(final(edges)@) == fixed_edges(evs(old(edges)@), root_id@, ns@),
{
    let ghost es0 = evs(edges@);
    let ghost want = fixed_edges(es0, root_id@, ns@);
    let mut old_edges: Vec<TreeEdge> = Vec::new();
    std::mem::swap(&mut old_edges, edges);
    let n_all = old_edges.len();
    let mut j: usize = 0;
    assert(evs(edges@) =~= want.subrange(0, 0));
    while old_edges.len() > 0
        invariant
            es0.len() == n_all,
            j + old_edges@.len() == n_all,
            evs(old_edges@) == es0.subrange(j as int, n_all as int),
            want == fixed_edges(es0, root_id@, ns@),
            evs(edges@) == want.subrange(0, j as int),
        decreases old_edges@.len(),
    {
        let ghost er = old_edges@;
        let e = old_edges.remove(0);
        assert(evs(er)[0] == ev(e));
        assert(evs(old_edges@) =~= evs(er).subrange(1, er.len() as int));
        assert(ev(e) == es0[j as int]);
        let TreeEdge { id, source, target, kind, source_handle, target_handle, label } = e;
        let e2 = TreeEdge {
            id: id,
            source: fix_end_exec(source, root_id, ns),
            target: fix_end_exec(target, root_id, ns),
            kind: kind,
            source_handle: source_handle,
            target_handle: target_handle,
            label: label,
        };
        assert(ev(e2) == want[j as int]);
        push_edge(edges, e2);
        assert(want.subrange(0, j + 1) =~= want.subrange(0, j as int).push(want[j as int]));
        j += 1;
    }
    assert(want.subrange(0, n_all as int) =~= want);
}

/// The cards linked to the root (see `root_extras`).
fn root_extras_exec(edges: &Vec<TreeEdge>, root_id: &String) -> (r: Vec<(String, String)>)
    ensures
        pair_strs(r@) == root_extras(evs(edges@), root_id@),
{
    let ghost es1 = evs(edges@);
    let mut extras: Vec<(String, String)> = Vec::new();
    let mut q: usize = 0;
    assert(pair_strs(extras@) =~= root_extras(es1.subrange(0, 0), root_id@));
    while q < edges.len()
        invariant
            q <= edges.len(),
            es1 == evs(edges@),
            pair_strs(extras@) == root_extras(es1.subrange(0, q as int), root_id@),
        decreases edges.len() - q,
    {
        proof {
            lemma_extras_step(es1, root_id@, q as int);
        }
        let e = &edges[q];
        assert(es1[q as int] == ev(edges@[q as int]));
        let ghost xb = extras@;
        if e.source == *root_id {
            extras.push((e.kind.clone(), e.target.clone()));
            assert(pair_strs(extras@)
                =~= pair_strs(xb).push((e.kind@, e.target@)));
        } else if e.target == *root_id {
            extras.push((e.kind.clone(), e.source.clone()));
            assert(pair_strs(extras@)
                =~= pair_strs(xb).push((e.kind@, e.source@)));
        }
        q += 1;
    }
    assert(es1.subrange(0, edges.len() as int) =~= es1);
    extras
}

proof fn lemma_fixed_is_stable(es: Seq<EdgeV>, root: Seq<char>, ns: Seq<TreeNode>, ns2: Seq<TreeNode>)
    requires
        alive(ns, root),
        forall|x: Seq<char>| alive(ns2, x) == alive(ns, x),
    ensures
        forall|x: int| 0 <= x < es.len() ==>
            #[trigger] fixed_edge(fixed_edges(es, root, ns)[x], root, ns2) == fixed_edges(es, root, ns)[x],
{
    assert forall|x: int| 0 <= x < es.len() implies
        #[trigger] fixed_edge(fixed_edges(es, root, ns)[x], root, ns2) == fixed_edges(es, root, ns)[x] by {
        let f = fixed_edges(es, root, ns)[x];
        assert(f == fixed_edge(es[x], root, ns));
        assert(alive(ns2, root));
        assert(fix_end(f.source, root, ns2) == f.source);
        assert(fix_end(f.target, root, ns2) == f.target);
    }
}

/// The edges fixed and the root card's lists extended (see `root_repaired`).
fn fix_and_relist(tree: &mut NovelTree, root_id: &String, Ghost(r): Ghost<int>)
    requires
        0 <= r < old(tree).nodes@.len(),
        old(tree).nodes@[r].id@ == root_id@,
    ensures
        first_node(old(tree).nodes@, root_id@) matches Some(k) && {
            &&& 0 <= k < old(tree).nodes@.len()
            &&& final(tree).novel_id == old(tree).novel_id
            &&& evs(final(tree).edges@) == fixed_edges(evs(old(tree).edges@), root_id@, old(tree).nodes@)
            &&& final(tree).nodes@.len() == old(tree).nodes@.len()
            &&& forall|x: int| 0 <= x < old(tree).nodes@.len() && x != k ==> final(tree).nodes@[x] == old(tree).nodes@[x]
            &&& same_card(old(tree).nodes@[k], final(tree).nodes@[k])
            &&& str_views(final(tree).nodes@[k].linked_knowledge_ids@) == add_cards(str_views(old(tree).nodes@[k].linked_knowledge_ids@), root_extras(evs(final(tree).edges@), root_id@), "knowledge"@)
            &&& str_views(final(tree).nodes@[k].linked_character_ids@) == add_cards(str_views(old(tree).nodes@[k].linked_character_ids@), root_extras(evs(final(tree).edges@), root_id@), "character"@)
            &&& str_views(final(tree).nodes@[k].linked_side_plot_ids@) == add_cards(str_views(old(tree).nodes@[k].linked_side_plot_ids@), root_extras(evs(final(tree).edges@), root_id@), "side_plot"@)
        },
{
    let ghost ns = tree.nodes@;
    fix_all_edges(&mut tree.edges, root_id, &tree.nodes);
    let extras = root_extras_exec(&tree.edges, root_id);
    proof {
        crate::models::lemma_first_node_props(ns, root_id@);
    }
    let k = match find_node(&tree.nodes, root_id) {
        Some(k) => k,
        None => {
            assert(ns[r].id@ == root_id@);
            assert(false);
            return;
        },
    };
    let mut n = tree.nodes.remove(k);
    let ghost n0 = n;
    add_cards_exec(&mut n.linked_knowledge_ids, &extras, "knowledge");
    add_cards_exec(&mut n.linked_character_ids, &extras, "character");
    add_cards_exec(&mut n.linked_side_plot_ids, &extras, "side_plot");
    assert(same_card(n0, n));
    let ghost nv = n;
    tree.nodes.insert(k, n);
    assert(tree.nodes@ =~= ns.update(k as int, nv));
}

/// Points edge ends that say `root` / `novel` (and name no card) at the
/// root card, and lists the root's linked cards on it; returns whether
/// anything needed repair. A tree without a root card is left as it is.
pub fn repair_root_alias_links(tree: &mut NovelTree) -> (changed: bool)
    ensures
        changed == needs_repair(*old(tree)),
        changed ==> root_repaired(*old(tree), *final(tree)),
        !changed ==> *final(tree) == *old(tree),
        !needs_repair(*final(tree)),
{
    let ghost t0 = *tree;
    let r = match find_root_index(&tree.nodes) {
        Some(r) => r,
        None => {
            assert(!needs_repair(t0)) by {
                reveal(needs_repair);
            }
            return false;
        },
    };
    let root_id = tree.nodes[r].id.clone();
    let ghost root = root_id@;
    assert(root_of(t0.nodes@) == Some(root));
    if !any_end_to_fix(&tree.edges, &root_id, &tree.nodes) {
        assert(!needs_repair(t0)) by {
            reveal(needs_repair);
        }
        return false;
    }
    assert(needs_repair(t0)) by {
        reveal(needs_repair);
    }
    fix_and_relist(tree, &root_id, Ghost(r as int));
    proof {
        let k = first_node(t0.nodes@, root)->Some_0;
        lemma_repair_result(t0, *tree, root, k, r as int);
    }
    true
}

proof fn lemma_repair_result(t0: NovelTree, t1: NovelTree, root: Seq<char>, k: int, r: int)
    requires
        root_of(t0.nodes@) == Some(root),
        first_node(t0.nodes@, root) == Some(k),
        0 <= k < t0.nodes@.len(),
        0 <= r < t0.nodes@.len(),
        t0.nodes@[r].id@ == root,
        needs_repair(t0),
        t1.novel_id == t0.novel_id,
        evs(t1.edges@) == fixed_edges(evs(t0.edges@), root, t0.nodes@),
        t1.nodes@.len() == t0.nodes@.len(),
        forall|x: int| 0 <= x < t0.nodes@.len() && x != k ==> t1.nodes@[x] == t0.nodes@[x],
        same_card(t0.nodes@[k], t1.nodes@[k]),
        str_views(t1.nodes@[k].linked_knowledge_ids@) == add_cards(str_views(t0.nodes@[k].linked_knowledge_ids@), root_extras(evs(t1.edges@), root), "knowledge"@),
        str_views(t1.nodes@[k].linked_character_ids@) == add_cards(str_views(t0.nodes@[k].linked_character_ids@), root_extras(evs(t1.edges@), root), "character"@),
        str_views(t1.nodes@[k].linked_side_plot_ids@) == add_cards(str_views(t0.nodes@[k].linked_side_plot_ids@), root_extras(evs(t1.edges@), root), "side_plot"@),
    ensures
        root_repaired(t0, t1),
        !needs_repair(t1),
{
    let ns = t0.nodes@;
    let ns2 = t1.nodes@;
    assert forall|x: int| 0 <= x < ns.len() implies #[trigger] ns2[x].id == ns[x].id by {
        if x != k {
            assert(ns2[x] == ns[x]);
        }
    }
    assert forall|x: int| 0 <= x < ns.len() implies #[trigger] ns2[x].kind == ns[x].kind by {
        if x != k {
            assert(ns2[x] == ns[x]);
        }
    }
    lemma_alive_kept(ns, ns2);
    lemma_root_kept(ns, ns2);
    assert(alive(ns, root));
    lemma_fixed_is_stable(evs(t0.edges@), root, ns, ns2);
    reveal(root_repaired);
    reveal(needs_repair);
}

/// Repairing a repaired tree changes nothing: no edge end needs pointing
/// at the root any more.
pub proof fn root_repair_is_stable(before: NovelTree, after: NovelTree)
    requires
        needs_repair(before),
        root_repaired(before, after),
    ensures
        !needs_repair(after),
{
    reveal(root_repaired);
    reveal(needs_repair);
    let ns = before.nodes@;
    let root = root_of(ns)->Some_0;
    let ns2 = after.nodes@;
    let p = |n: TreeNode| is_novel(n);
    lemma_first_where_props(ns, p);
    let r = first_where(ns, p)->Some_0;
    crate::models::lemma_first_node_props(ns, root);
    let k = first_node(ns, root)->Some_0;
    assert(alive(ns, root)) by {
        assert(ns[r].id@ == root);
    }
    assert forall|x: int| 0 <= x < ns.len() implies #[trigger] ns2[x].id == ns[x].id by {
        if x != k {
            assert(ns2[x] == ns[x]);
        }
    }
    assert forall|x: int| 0 <= x < ns.len() implies #[trigger] ns2[x].kind == ns[x].kind by {
        if x != k {
            assert(ns2[x] == ns[x]);
        }
    }
    lemma_alive_kept(ns, ns2);
    lemma_root_kept(ns, ns2);
    lemma_fixed_is_stable(evs(before.edges@), root, ns, ns2);
}

/// The per-chapter word range: the root card's when it sets either bound,
/// else the novel's; normalized either way.
pub open spec fn root_word_target_spec(tree: NovelTree, novel_min: u32, novel_max: u32) -> (u32, u32) {
    let ab: (u32, u32) = match first_where(tree.nodes@, |n: TreeNode| is_novel(n)) {
        Some(r) => (tree.nodes@[r].word_count_min, tree.nodes@[r].word_count_max),
        None => (0u32, 0u32),
    };
    if ab.0 > 0 || ab.1 > 0 {
        normalize_word_range_spec(ab.0, ab.1)
    } else {
        normalize_word_range_spec(novel_min, novel_max)
    }
}

/// See `root_word_target_spec`.
pub fn root_chapter_word_target(tree: &NovelTree, novel_min: u32, novel_max: u32) -> (r: (u32, u32))
    ensures
        r == root_word_target_spec(*tree, novel_min, novel_max),
{
    let (a, b) = match find_root_index(&tree.nodes) {
        Some(i) => (tree.nodes[i].word_count_min, tree.nodes[i].word_count_max),
        None => (0u32, 0u32),
    };
    if a > 0 || b > 0 {
        normalize_word_range(a, b)
    } else {
        normalize_word_range(novel_min, novel_max)
    }
}

/// Records a chapter's word count on the first card with that id; a tree
/// without such a card is left as it is.
pub fn set_node_word_count(tree: &mut NovelTree, node_id: &str, words: u32)
    ensures
        final(tree).novel_id == old(tree).novel_id,
        final(tree).edges@ == old(tree).edges@,
        match first_node(old(tree).nodes@, node_id@) {
            Some(k) => final(tree).nodes@ == old(tree).nodes@.update(
                k,
                TreeNode { word_count: words, ..old(tree).nodes@[k] },
            ),
            None => final(tree).nodes@ == old(tree).nodes@,
        },
{
    let id = String::from_str(node_id);
    match find_node(&tree.nodes, &id) {
        Some(k) => {
            let ghost ns0 = tree.nodes@;
            let mut n = tree.nodes.remove(k);
            n.word_count = words;
            tree.nodes.insert(k, n);
            assert(tree.nodes@ =~= ns0.update(k as int, TreeNode { word_count: words, ..ns0[k as int] }));
        },
        None => {},
    }
}

} // verus!
