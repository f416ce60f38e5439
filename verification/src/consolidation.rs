//! Applying a plot-consolidation reply to the tree: the proposed root plots
//! update existing plot cards or become new ones hung on the root, and the
//! chapters' plot cards the reply names are marked absorbed.
use vstd::prelude::*;
use crate::ids::new_uuid;
use crate::json::{get_spec, json_get, Json};
use crate::models::{find_node, first_node, is_first_with_id, str_views, NodeKind, NodePosition, NovelTree, SidePlotMeta, TreeEdge, TreeNode};
use crate::plot_consolidate::{
    absorb_fold, absorb_plots, find_plot, first_chars, first_chars_exec, meta_view, metas, plot_index,
    root_plot_item, root_plot_item_spec, same_but_meta, update_root_plot_card, RootPlotItem,
};
use crate::text::{append_str, chars_of, string_of};
use crate::tree_edit::{ev, evs, has_plot_edge, link_plot_to_root, plot_link, push_edge, push_id, same_card, with_id};

verus! {

/// `v` held to the range of `i64`.
pub open spec fn clamp_i64(v: int) -> i64 {
    if v > i64::MAX { i64::MAX } else if v < i64::MIN { i64::MIN } else { v as i64 }
}

/// Where the `count`-th root plot card is placed: right of the root card,
/// one row of 36 further down each.
pub open spec fn new_plot_pos(base: NodePosition, count: nat) -> NodePosition {
    NodePosition { x: clamp_i64(base.x + 280), y: clamp_i64(base.y + 36 * count) }
}

/// The tree after the plot card at `k` is brought up to a proposal (see
/// `update_root_plot_card`).
pub open spec fn root_plot_updated(t0: NovelTree, t1: NovelTree, k: int, label: Seq<char>, outline: Seq<char>, status: Seq<char>) -> bool {
    let n0 = t0.nodes@[k];
    let n1 = t1.nodes@[k];
    &&& 0 <= k < t0.nodes@.len()
    &&& t1.novel_id == t0.novel_id
    &&& t1.edges == t0.edges
    &&& t1.nodes@.len() == t0.nodes@.len()
    &&& forall|j: int| 0 <= j < t0.nodes@.len() && j != k ==> t1.nodes@[j] == t0.nodes@[j]
    &&& n1.label@ == (if label.len() > 0 { label } else { n0.label@ })
    &&& n1.outline@ == (if outline.len() > 0 { outline } else { n0.outline@ })
    &&& meta_view(n1) == Some((status, false))
    &&& n1.id == n0.id
    &&& n1.kind == n0.kind
    &&& n1.linked_side_plot_ids == n0.linked_side_plot_ids
    &&& n1.linked_character_ids == n0.linked_character_ids
    &&& n1.linked_knowledge_ids == n0.linked_knowledge_ids
    &&& n1.position == n0.position
}

/// The tree after plot card `pid` is hung on the root (see
/// `link_plot_to_root`).
pub open spec fn plot_hung(t0: NovelTree, t1: NovelTree, root: Seq<char>, pid: Seq<char>) -> bool {
    &&& t1.novel_id == t0.novel_id
    &&& t1.nodes@.len() == t0.nodes@.len()
    &&& match first_node(t0.nodes@, root) {
        Some(k) => {
            &&& same_card(t0.nodes@[k], t1.nodes@[k])
            &&& t1.nodes@[k].linked_character_ids == t0.nodes@[k].linked_character_ids
            &&& t1.nodes@[k].linked_knowledge_ids == t0.nodes@[k].linked_knowledge_ids
            &&& str_views(t1.nodes@[k].linked_side_plot_ids@) == with_id(str_views(t0.nodes@[k].linked_side_plot_ids@), pid)
            &&& forall|j: int| 0 <= j < t0.nodes@.len() && j != k ==> t1.nodes@[j] == t0.nodes@[j]
        },
        None => t1.nodes@ == t0.nodes@,
    }
    &&& evs(t1.edges@) == (if has_plot_edge(evs(t0.edges@), root, pid) {
        evs(t0.edges@)
    } else {
        evs(t0.edges@).push(plot_link(root, pid))
    })
}

/// The new plot card a proposal becomes.
pub open spec fn new_plot_card(n: TreeNode, pid: Seq<char>, label: Seq<char>, outline: Seq<char>, status: Seq<char>, pos: NodePosition) -> bool {
    &&& n.id@ == pid
    &&& n.kind == NodeKind::SidePlot
    &&& n.label@ == label
    &&& n.outline@ == outline
    &&& n.detailed_outline@.len() == 0
    &&& n.character is None
    &&& n.knowledge is None
    &&& meta_view(n) == Some((status, false))
    &&& n.linked_character_ids@.len() == 0
    &&& n.linked_side_plot_ids@.len() == 0
    &&& n.linked_knowledge_ids@.len() == 0
    &&& n.position == pos
    &&& n.word_count == 0 && n.word_count_min == 0 && n.word_count_max == 0 && n.chapter_count == 0
}

/// The tree after a new plot card `pid` is appended and hung on the root
/// (listed by the root's first card, joined by a side-plot link).
pub open spec fn plot_created(t0: NovelTree, t1: NovelTree, root: Seq<char>, pid: Seq<char>, label: Seq<char>, outline: Seq<char>, status: Seq<char>, pos: NodePosition) -> bool {
    let l0 = t0.nodes@.len();
    &&& t1.novel_id == t0.novel_id
    &&& t1.nodes@.len() == l0 + 1
    &&& new_plot_card(t1.nodes@[l0 as int], pid, label, outline, status, pos)
    &&& match first_node(t0.nodes@, root) {
        Some(r) => {
            &&& same_card(t0.nodes@[r], t1.nodes@[r])
            &&& t1.nodes@[r].linked_character_ids == t0.nodes@[r].linked_character_ids
            &&& t1.nodes@[r].linked_knowledge_ids == t0.nodes@[r].linked_knowledge_ids
            &&& str_views(t1.nodes@[r].linked_side_plot_ids@) == str_views(t0.nodes@[r].linked_side_plot_ids@).push(pid)
            &&& forall|j: int| 0 <= j < l0 && j != r ==> t1.nodes@[j] == t0.nodes@[j]
        },
        None => forall|j: int| 0 <= j < l0 ==> t1.nodes@[j] == t0.nodes@[j],
    }
    &&& evs(t1.edges@) == evs(t0.edges@).push(plot_link(root, pid))
}

/// The plot card a proposal's `id` names, if it is not empty.
pub open spec fn proposal_target(ns: Seq<TreeNode>, id: Seq<char>) -> Option<int> {
    if id.len() > 0 { plot_index(ns, id) } else { None }
}

/// One proposed root plot applied: `kind` is 0 when it is skipped (no label
/// and no outline), 1 when it updates the plot card its `id` names (that
/// card is then hung on the root), 2 when it becomes the new card `pid`,
/// the `count + 1`-th root plot, labelled by its label or else the first 24
/// characters of its outline.
pub open spec fn step_done(t0: NovelTree, t1: NovelTree, p: Json, root: Seq<char>, base: NodePosition, count: nat, pid: Seq<char>, kind: nat) -> bool {
    match root_plot_item_spec(p) {
        None => kind == 0 && t1 == t0,
        Some(it) => {
            match proposal_target(t0.nodes@, it.3) {
                Some(k) => kind == 1 && pid == t0.nodes@[k].id@ && exists|tm: NovelTree|
                    #[trigger] root_plot_updated(t0, tm, k, it.0, it.1, it.2) && plot_hung(tm, t1, root, pid),
                None => kind == 2 && plot_created(t0, t1, root, pid,
                    if it.0.len() > 0 { it.0 } else { first_chars(it.1, 24) }, it.1, it.2, new_plot_pos(base, count + 1)),
            }
        },
    }
}

/// How many of `kinds` are `k`.
pub open spec fn count_kind(kinds: Seq<nat>, k: nat) -> nat
    decreases kinds.len(),
{
    if kinds.len() == 0 { 0 } else { count_kind(kinds.drop_last(), k) + if kinds.last() == k { 1nat } else { 0nat } }
}

/// The trees `ts` run through the proposals `ps` one by one.
pub open spec fn steps_done(ts: Seq<NovelTree>, ps: Seq<Json>, root: Seq<char>, base: NodePosition, c0: nat, ids: Seq<Seq<char>>, kinds: Seq<nat>) -> bool {
    &&& ts.len() == ps.len() + 1
    &&& ids.len() == ps.len()
    &&& kinds.len() == ps.len()
    &&& forall|i: int| 0 <= i < ps.len() ==> #[trigger] step_done(ts[i], ts[i + 1], ps[i], root, base,
        c0 + count_kind(kinds.take(i), 2), ids[i], kinds[i])
}

/// The plot cards the root holds when the reply comes: side-plot cards
/// whose id is among `root_ids`.
pub open spec fn root_plot_count(ns: Seq<TreeNode>, root_ids: Seq<Seq<char>>) -> nat
    decreases ns.len(),
{
    if ns.len() == 0 {
        0
    } else {
        root_plot_count(ns.drop_last(), root_ids)
            + if ns.last().kind == NodeKind::SidePlot && root_ids.contains(ns.last().id@) { 1nat } else { 0nat }
    }
}

/// The absorb part of a reply done: with an `absorb_plot_ids` list the
/// named chapter plot cards are absorbed (see `absorb_fold`), `a` counting
/// the newly absorbed; without one nothing changes.
pub open spec fn absorb_done(t0: NovelTree, t1: NovelTree, reply: Json, chapter_ids: Seq<Seq<char>>, a: nat) -> bool {
    match get_spec(reply, "absorb_plot_ids"@) {
        Some(Json::Arr(xs)) => {
            &&& t1.novel_id == t0.novel_id
            &&& t1.edges == t0.edges
            &&& t1.nodes@.len() == t0.nodes@.len()
            &&& forall|i: int| 0 <= i < t0.nodes@.len() ==> #[trigger] same_but_meta(t0.nodes@[i], t1.nodes@[i])
            &&& metas(t1.nodes@) == absorb_fold(t0.nodes@, metas(t0.nodes@), xs@, chapter_ids).0
            &&& a == absorb_fold(t0.nodes@, metas(t0.nodes@), xs@, chapter_ids).1
        },
        _ => t1 == t0 && a == 0,
    }
}

/// The reply's lists fit the 32-bit counters.
pub open spec fn reply_fits(reply: Json) -> bool {
    &&& (get_spec(reply, "root_plots"@) matches Some(Json::Arr(ps)) ==> ps@.len() < u32::MAX)
    &&& (get_spec(reply, "absorb_plot_ids"@) matches Some(Json::Arr(xs)) ==> xs@.len() <= u32::MAX)
}

/// The error of a reply that changes nothing.
pub open spec fn unparsed_msg(zh: bool) -> Seq<char> {
    if zh {
        "未能解析整理结果，结构树未改动。请重试。"@
    } else {
        "Could not parse consolidation result; tree unchanged. Please retry."@
    }
}

fn unparsed(zh: bool) -> (r: String)
    ensures
        r@ == unparsed_msg(zh),
{
    if zh {
        String::from_str("未能解析整理结果，结构树未改动。请重试。")
    } else {
        String::from_str("Could not parse consolidation result; tree unchanged. Please retry.")
    }
}

fn clamp_add(a: i64, d: i64) -> (r: i64)
    requires
        d >= 0,
    ensures
        r == clamp_i64(a + d),
{
    if a <= i64::MAX - d { a + d } else { i64::MAX }
}

fn root_plot_count_exec(ns: &Vec<TreeNode>, root_ids: &Vec<String>) -> (r: usize)
    ensures
        r == root_plot_count(ns@, str_views(root_ids@)),
        r <= ns@.len(),
{
    let mut c: usize = 0;
    let mut i: usize = 0;
    while i < ns.len()
        invariant
            i <= ns@.len(),
            c <= i,
            c == root_plot_count(ns@.subrange(0, i as int), str_views(root_ids@)),
        decreases ns@.len() - i,
    {
        assert(ns@.subrange(0, i + 1).drop_last() =~= ns@.subrange(0, i as int));
        if ns[i].kind == NodeKind::SidePlot && crate::cast::contains_str_id(root_ids, &ns[i].id) {
            c += 1;
        }
        i += 1;
    }
    assert(ns@.subrange(0, ns@.len() as int) =~= ns@);
    c
}

/// Appends a new plot card and hangs it on the root's first card.
pub(crate) fn add_root_plot(tree: &mut NovelTree, root: &String, label: String, outline: String, status: String, pos: NodePosition) -> (pid: String)
    ensures
        plot_created(*old(tree), *final(tree), root@, pid@, label@, outline@, status@, pos),
        pid@.len() == 36,
{
    let pid = new_uuid();
    let ghost t0 = *tree;
    let node = TreeNode {
        id: String::from_str(pid.as_str()),
        kind: NodeKind::SidePlot,
        label,
        outline,
        detailed_outline: Vec::new(),
        character: None,
        knowledge: None,
        side_plot: Some(SidePlotMeta { status, absorbed: false }),
        linked_character_ids: Vec::new(),
        linked_side_plot_ids: Vec::new(),
        linked_knowledge_ids: Vec::new(),
        position: pos,
        word_count: 0,
        word_count_min: 0,
        word_count_max: 0,
        chapter_count: 0,
    };
    let l0 = tree.nodes.len();
    tree.nodes.push(node);
    let ghost t1 = *tree;
    proof {
        crate::models::lemma_first_node_props(t0.nodes@, root@);
        match first_node(t0.nodes@, root@) {
            Some(r) => {
                assert(is_first_with_id(t1.nodes@, root@, r));
                crate::models::lemma_first_node(t1.nodes@, root@, r);
            },
            None => {},
        }
    }
    match find_node(&tree.nodes, root) {
        Some(r) => {
            proof {
                crate::models::lemma_first_node_props(t0.nodes@, root@);
            }
            if r < l0 {
                proof {
                    crate::models::lemma_first_node_props(t1.nodes@, root@);
                    assert forall|j: int| 0 <= j < r implies t0.nodes@[j].id@ != root@ by {
                        assert(t1.nodes@[j] == t0.nodes@[j]);
                    }
                    assert(t1.nodes@[r as int] == t0.nodes@[r as int]);
                    assert(is_first_with_id(t0.nodes@, root@, r as int));
                    crate::models::lemma_first_node(t0.nodes@, root@, r as int);
                }
                let ghost ns1 = tree.nodes@;
                let mut n = tree.nodes.remove(r);
                push_id(&mut n.linked_side_plot_ids, String::from_str(pid.as_str()));
                let ghost nv = n;
                tree.nodes.insert(r, n);
                assert(tree.nodes@ =~= ns1.update(r as int, nv));
                assert(first_node(t0.nodes@, root@) == Some(r as int));
                assert(same_card(t0.nodes@[r as int], tree.nodes@[r as int]));
                assert(str_views(tree.nodes@[r as int].linked_side_plot_ids@) == str_views(t0.nodes@[r as int].linked_side_plot_ids@).push(pid@));
            } else {
                assert(first_node(t0.nodes@, root@) is None);
            }
        },
        None => {
            assert(first_node(t0.nodes@, root@) is None);
        },
    }
    let ghost t2 = *tree;
    let mut eid = chars_of("e-");
    append_str(&mut eid, root.as_str());
    append_str(&mut eid, "-");
    append_str(&mut eid, pid.as_str());
    let e = TreeEdge {
        id: string_of(&eid),
        source: String::from_str(root.as_str()),
        target: String::from_str(pid.as_str()),
        kind: String::from_str("side_plot"),
        source_handle: Some(String::from_str("right")),
        target_handle: Some(String::from_str("left")),
        label: String::new(),
    };
    assert(ev(e) == plot_link(root@, pid@));
    push_edge(&mut tree.edges, e);
    assert(tree.nodes@ == t2.nodes@);
    assert(evs(tree.edges@) == evs(t0.edges@).push(plot_link(root@, pid@)));
    assert(tree.nodes@.len() == t0.nodes@.len() + 1);
    assert(tree.nodes@[t0.nodes@.len() as int] == t1.nodes@[t0.nodes@.len() as int]);
    assert(new_plot_card(tree.nodes@[t0.nodes@.len() as int], pid@, label@, outline@, status@, pos));
    pid
}

proof fn lemma_ids_kept(n0: Seq<TreeNode>, n1: Seq<TreeNode>, root: Seq<char>, r: int)
    requires
        is_first_with_id(n0, root, r),
        n1.len() >= n0.len(),
        forall|j: int| 0 <= j < n0.len() ==> #[trigger] n1[j].id == n0[j].id,
    ensures
        first_node(n1, root) == Some(r),
{
    assert(is_first_with_id(n1, root, r));
    crate::models::lemma_first_node(n1, root, r);
}

proof fn lemma_count_kind_push(kinds: Seq<nat>, k: nat, x: nat)
    ensures
        count_kind(kinds.push(x), k) == count_kind(kinds, k) + if x == k { 1nat } else { 0nat },
{
    assert(kinds.push(x).drop_last() =~= kinds);
}

proof fn lemma_count_kind_le(kinds: Seq<nat>)
    ensures
        count_kind(kinds, 1) + count_kind(kinds, 2) <= kinds.len(),
    decreases kinds.len(),
{
    if kinds.len() > 0 {
        lemma_count_kind_le(kinds.drop_last());
    }
}

/// One proposal applied; returns the step's kind and the card it touched.
#[verifier::spinoff_prover]
#[verifier::rlimit(40)]
fn apply_step(tree: &mut NovelTree, p: &Json, root: &String, base: NodePosition, count: u64) -> (r: (u8, String))
    requires
        count < 0x2_0000_0000,
    ensures
        step_done(*old(tree), *final(tree), *p, root@, base, count as nat, r.1@, r.0 as nat),
{
    let ghost t0 = *tree;
    let item: RootPlotItem = match root_plot_item(p) {
        Some(it) => it,
        None => {
            let e = String::new();
            assert(step_done(t0, *tree, *p, root@, base, count as nat, e@, 0));
            return (0, e);
        },
    };
    let idx = if item.id.unicode_len() > 0 { find_plot(&tree.nodes, &item.id) } else { None };
    match idx {
        Some(k) => {
            let pid = String::from_str(tree.nodes[k].id.as_str());
            update_root_plot_card(tree, k, &item);
            let ghost tm = *tree;
            link_plot_to_root(tree, root.as_str(), pid.as_str());
            assert(root_plot_updated(t0, tm, k as int, item.label@, item.outline@, item.status@));
            assert(plot_hung(tm, *tree, root@, pid@));
            assert(root_plot_item_spec(*p) == Some((item.label@, item.outline@, item.status@, item.id@)));
            assert(item.id@.len() > 0);
            assert(plot_index(t0.nodes@, item.id@) == Some(k as int));
            assert(pid@ == t0.nodes@[k as int].id@);
            let ghost it = root_plot_item_spec(*p)->Some_0;
            assert(root_plot_updated(t0, tm, k as int, it.0, it.1, it.2) && plot_hung(tm, *tree, root@, pid@));
            assert(proposal_target(t0.nodes@, item.id@) == Some(k as int));
            assert(step_done(t0, *tree, *p, root@, base, count as nat, pid@, 1));
            (1, pid)
        },
        None => {
            let label = if item.label.unicode_len() > 0 {
                String::from_str(item.label.as_str())
            } else {
                string_of(&first_chars_exec(item.outline.as_str(), 24))
            };
            let y = clamp_add(base.y, 36 * ((count + 1) as i64));
            let x = clamp_add(base.x, 280);
            let pos = NodePosition { x, y };
            assert(pos == new_plot_pos(base, (count + 1) as nat));
            let pid = add_root_plot(tree, root, label, String::from_str(item.outline.as_str()), String::from_str(item.status.as_str()), pos);
            assert(root_plot_item_spec(*p) == Some((item.label@, item.outline@, item.status@, item.id@)));
            assert(proposal_target(t0.nodes@, item.id@) is None);
            assert(step_done(t0, *tree, *p, root@, base, count as nat, pid@, 2));
            (2, pid)
        },
    }
}

/// Applies a consolidation reply (the first object of the model's answer
/// with a `root_plots` list) to the tree. `root_id` names the root card,
/// `root_plot_ids` the plot cards it held and `chapter_plot_ids` the recent
/// chapters' plot cards. Returns how many cards were updated, created and
/// newly absorbed; a reply without a `root_plots` list, or one that changes
/// none of these, is an error (the caller then keeps its stored tree).
pub fn apply_consolidation(
    tree: &mut NovelTree,
    reply: &Json,
    root_id: &str,
    root_plot_ids: &Vec<String>,
    chapter_plot_ids: &Vec<String>,
    zh: bool,
) -> (r: Result<(u32, u32, u32), String>)
    requires
        first_node(old(tree).nodes@, root_id@) is Some,
        old(tree).nodes@.len() < u32::MAX,
        reply_fits(*reply),
    ensures
        match get_spec(*reply, "root_plots"@) {
            Some(Json::Arr(ps)) => exists|ts: Seq<NovelTree>, ids: Seq<Seq<char>>, kinds: Seq<nat>, a: nat|
                #[trigger] steps_done(ts, ps@, root_id@, old(tree).nodes@[first_node(old(tree).nodes@, root_id@)->Some_0].position,
                    root_plot_count(old(tree).nodes@, str_views(root_plot_ids@)), ids, kinds)
                && ts[0] == *old(tree)
                && #[trigger] absorb_done(ts.last(), *final(tree), *reply, str_views(chapter_plot_ids@), a)
                && r == (if count_kind(kinds, 1) + count_kind(kinds, 2) + a == 0 {
                    Err::<(u32, u32, u32), String>(r->Err_0)
                } else {
                    Ok::<(u32, u32, u32), String>((count_kind(kinds, 1) as u32, count_kind(kinds, 2) as u32, a as u32))
                })
                && (r is Err ==> r->Err_0@ == unparsed_msg(zh)),
            _ => r is Err && r->Err_0@ == unparsed_msg(zh) && *final(tree) == *old(tree),
        },
{
    let ps: &Vec<Json> = match json_get(reply, "root_plots") {
        Some(Json::Arr(ps)) => ps,
        _ => {
            return Err(unparsed(zh));
        },
    };
    let ghost t0 = *tree;
    let root = String::from_str(root_id);
    let ghost r0 = first_node(t0.nodes@, root_id@)->Some_0;
    let rk = match find_node(&tree.nodes, &root) {
        Some(k) => k,
        None => {
            return Err(unparsed(zh));
        },
    };
    let base = tree.nodes[rk].position;
    let c0 = root_plot_count_exec(&tree.nodes, root_plot_ids);
    proof {
        crate::models::lemma_first_node_props(t0.nodes@, root_id@);
    }
    let ghost mut ts: Seq<NovelTree> = seq![*tree];
    let ghost mut ids: Seq<Seq<char>> = Seq::empty();
    let ghost mut kinds: Seq<nat> = Seq::empty();
    let mut updated: u32 = 0;
    let mut created: u32 = 0;
    let mut i: usize = 0;
    while i < ps.len()
        invariant
            i <= ps@.len(),
            ps@.len() < u32::MAX,
            t0.nodes@.len() < u32::MAX,
            is_first_with_id(t0.nodes@, root@, r0),
            root@ == root_id@,
            rk == r0,
            base == t0.nodes@[r0].position,
            c0 == root_plot_count(t0.nodes@, str_views(root_plot_ids@)),
            c0 <= t0.nodes@.len(),
            steps_done(ts, ps@.take(i as int), root@, base, c0 as nat, ids, kinds),
            ts[0] == t0,
            ts.last() == *tree,
            updated == count_kind(kinds, 1),
            created == count_kind(kinds, 2),
            updated + created <= i,
            tree.nodes@.len() >= t0.nodes@.len(),
            forall|j: int| 0 <= j < t0.nodes@.len() ==> #[trigger] tree.nodes@[j].id == t0.nodes@[j].id,
            tree.nodes@[r0].position == base,
        decreases ps@.len() - i,
    {
        let ghost tb = *tree;
        let (kind, pid) = apply_step(tree, &ps[i], &root, base, (c0 as u64) + (created as u64));
        proof {
            let ts2 = ts.push(*tree);
            let ids2 = ids.push(pid@);
            let kinds2 = kinds.push(kind as nat);
            assert(ps@.take(i + 1) =~= ps@.take(i as int).push(ps@[i as int]));
            assert(kinds2.take(i as int) =~= kinds);
            lemma_count_kind_push(kinds, 1, kind as nat);
            lemma_count_kind_push(kinds, 2, kind as nat);
            assert forall|j: int| 0 <= j < i + 1 implies #[trigger] step_done(ts2[j], ts2[j + 1], ps@.take(i + 1)[j], root@, base,
                c0 as nat + count_kind(kinds2.take(j), 2), ids2[j], kinds2[j]) by {
                if j < i {
                    assert(kinds2.take(j) =~= kinds.take(j));
                    assert(step_done(ts[j], ts[j + 1], ps@.take(i as int)[j], root@, base, c0 as nat + count_kind(kinds.take(j), 2), ids[j], kinds[j]));
                } else {
                    assert(ts2[j] == tb);
                }
            }
            // ids of the first cards and the root's position stay
            match root_plot_item_spec(ps@[i as int]) {
                None => {},
                Some(it) => {
                    match proposal_target(tb.nodes@, it.3) {
                        Some(k) => {
                            let tm = choose|tm: NovelTree| #[trigger] root_plot_updated(tb, tm, k, it.0, it.1, it.2) && plot_hung(tm, *tree, root@, pid@);
                            lemma_ids_kept(t0.nodes@, tb.nodes@, root@, r0);
                            lemma_ids_kept(t0.nodes@, tm.nodes@, root@, r0);
                        },
                        None => {
                            lemma_ids_kept(t0.nodes@, tb.nodes@, root@, r0);
                        },
                    }
                },
            }
            ts = ts2;
            ids = ids2;
            kinds = kinds2;
        }
        if kind == 1 {
            updated = updated + 1;
        } else if kind == 2 {
            created = created + 1;
        }
        i += 1;
    }
    assert(ps@.take(ps@.len() as int) =~= ps@);
    let ghost tmid = *tree;
    let a: u32 = match json_get(reply, "absorb_plot_ids") {
        Some(Json::Arr(xs)) => absorb_plots(tree, xs, chapter_plot_ids),
        _ => 0,
    };
    proof {
        assert(absorb_done(tmid, *tree, *reply, str_views(chapter_plot_ids@), a as nat));
        assert(steps_done(ts, ps@, root_id@, t0.nodes@[r0].position, root_plot_count(t0.nodes@, str_views(root_plot_ids@)), ids, kinds));
    }
    if (updated as u64) + (created as u64) + (a as u64) == 0 {
        return Err(unparsed(zh));
    }
    Ok((updated, created, a))
}

/// A reply object that carries a `root_plots` list.
pub open spec fn has_root_plots(v: Json) -> bool {
    get_spec(v, "root_plots"@) matches Some(Json::Arr(_))
}

/// The object of the model's answer that a consolidation applies: the first
/// one that carries a `root_plots` list, if any (by its position).
pub fn first_root_plots_reply(objects: &Vec<Json>) -> (r: Option<usize>)
    ensures
        match r {
            Some(k) => k < objects@.len() && has_root_plots(objects@[k as int])
                && forall|j: int| 0 <= j < k ==> !#[trigger] has_root_plots(objects@[j]),
            None => forall|j: int| 0 <= j < objects@.len() ==> !#[trigger] has_root_plots(objects@[j]),
        },
{
    let mut i: usize = 0;
    while i < objects.len()
        invariant
            i <= objects@.len(),
            forall|j: int| 0 <= j < i ==> !#[trigger] has_root_plots(objects@[j]),
        decreases objects@.len() - i,
    {
        let hit = match json_get(&objects[i], "root_plots") {
            Some(Json::Arr(_)) => true,
            _ => false,
        };
        if hit {
            return Some(i);
        }
        i += 1;
    }
    None
}

} // verus!
