//! Decisions of the chapter-writing commands that do not depend on what a
//! model writes: which earlier chapters a refine pass reads, whether a
//! repaired chapter replaces its draft, and what a field rewrite needs.
use vstd::prelude::*;
use crate::models::{derefs, str_views, NovelTree, TreeNode};
use crate::text::{ascii_lower_seq, chars_of, eq, string_of, trim, trim_str};
use crate::tree_refs::{first_where, lemma_first_where, sort_chapters, sorted_chapter_nodes};

verus! {

/// A refine pass reads the earlier chapters' full bodies when its mode
/// (`memory` when absent) is `full`, `body` or `text`, ASCII case ignored;
/// otherwise it reads their stored memory.
pub open spec fn refine_full_body_spec(mode: Option<Seq<char>>) -> bool {
    let m = ascii_lower_seq(match mode { Some(m) => m, None => "memory"@ });
    m == "full"@ || m == "body"@ || m == "text"@
}

/// See `refine_full_body_spec`.
pub fn refine_reads_full_body(mode: Option<&str>) -> (r: bool)
    ensures
        r == refine_full_body_spec(match mode { Some(m) => Some(m@), None => None }),
{
    let raw = match mode {
        Some(m) => chars_of(m),
        None => chars_of("memory"),
    };
    let m = crate::global_chat::ascii_lowercase(&raw);
    eq(&m, &chars_of("full")) || eq(&m, &chars_of("body")) || eq(&m, &chars_of("text"))
}

/// The earlier chapters a refine pass links: up to `prev_n` chapters right
/// before the one at `idx` in reading order. Returns where they start and
/// how many there are.
pub fn refine_prev_window(idx: usize, prev_n: u32) -> (r: (usize, u32))
    ensures
        r.0 == (if idx >= prev_n { idx - prev_n } else { 0 }),
        r.1 == idx - r.0,
        r.1 <= prev_n,
{
    let start = idx.saturating_sub(prev_n as usize);
    (start, (idx - start) as u32)
}

/// A repair of missing beats replaces the draft only when it came from a
/// real model and, trimmed, is more than half as long as the trimmed draft.
pub open spec fn repair_accepted_spec(fixed: Seq<char>, draft: Seq<char>, from_mock: bool) -> bool {
    !from_mock && trim(fixed).len() > trim(draft).len() / 2
}

/// See `repair_accepted_spec`.
pub fn land_repair_accepted(fixed: &str, draft: &str, from_mock: bool) -> (r: bool)
    ensures
        r == repair_accepted_spec(fixed@, draft@, from_mock),
{
    if from_mock {
        return false;
    }
    let f = trim_str(fixed);
    let d = trim_str(draft);
    f.len() > d.len() / 2
}

/// A field rewrite needs an instruction and a field name, both trimmed and
/// not empty; the instruction is checked first.
pub fn check_rewrite_request(instruction: &str, field_label: &str) -> (r: Result<(String, String), String>)
    ensures
        trim(instruction@).len() == 0 ==> r is Err && r->Err_0@ == "请填写提示词"@,
        trim(instruction@).len() > 0 && trim(field_label@).len() == 0 ==> r is Err && r->Err_0@ == "字段名为空"@,
        trim(instruction@).len() > 0 && trim(field_label@).len() > 0 ==> r is Ok
            && r->Ok_0.0@ == trim(instruction@) && r->Ok_0.1@ == trim(field_label@),
{
    let note = trim_str(instruction);
    if note.len() == 0 {
        return Err(String::from_str("请填写提示词"));
    }
    let label = trim_str(field_label);
    if label.len() == 0 {
        return Err(String::from_str("字段名为空"));
    }
    Ok((string_of(&note), string_of(&label)))
}

/// The ids of `cs` that `sel` names, in order.
pub open spec fn picked_ids(cs: Seq<TreeNode>, sel: Seq<Seq<char>>) -> Seq<Seq<char>>
    decreases cs.len(),
{
    if cs.len() == 0 {
        Seq::empty()
    } else {
        picked_ids(cs.drop_last(), sel) + (if sel.contains(cs.last().id@) { seq![cs.last().id@] } else { Seq::empty() })
    }
}

/// The property of having id `id`.
pub open spec fn id_is(id: Seq<char>) -> spec_fn(TreeNode) -> bool {
    |x: TreeNode| x.id@ == id
}

/// The chapters whose memory a new draft of chapter `node_id` reads: those
/// before it in reading order that the writer ticked; none when `node_id`
/// is no chapter.
pub open spec fn prior_memory_spec(t: NovelTree, node_id: Seq<char>, sel: Seq<Seq<char>>) -> Seq<Seq<char>> {
    let cs = sort_chapters(t.nodes@);
    match first_where(cs, id_is(node_id)) {
        Some(k) => picked_ids(cs.take(k), sel),
        None => Seq::empty(),
    }
}

proof fn lemma_picked_ids_from(cs: Seq<TreeNode>, sel: Seq<Seq<char>>, x: Seq<char>)
    requires
        picked_ids(cs, sel).contains(x),
    ensures
        sel.contains(x),
        exists|j: int| 0 <= j < cs.len() && #[trigger] cs[j].id@ == x,
    decreases cs.len(),
{
    let pre = picked_ids(cs.drop_last(), sel);
    if pre.contains(x) {
        lemma_picked_ids_from(cs.drop_last(), sel, x);
        let j = choose|j: int| 0 <= j < cs.drop_last().len() && #[trigger] cs.drop_last()[j].id@ == x;
        assert(cs[j].id@ == x);
    } else {
        let k = choose|k: int| 0 <= k < picked_ids(cs, sel).len() && picked_ids(cs, sel)[k] == x;
        assert(cs[cs.len() - 1].id@ == x);
    }
}

/// Some chapter with id `x` comes before some chapter with id `y` in `cs`.
pub open spec fn comes_before(cs: Seq<TreeNode>, x: Seq<char>, y: Seq<char>) -> bool {
    exists|j: int, k: int| 0 <= j < k < cs.len() && #[trigger] id_at(cs, j, x) && #[trigger] id_at(cs, k, y)
}

pub open spec fn id_at(cs: Seq<TreeNode>, i: int, id: Seq<char>) -> bool {
    cs[i].id@ == id
}

proof fn lemma_least(cs: Seq<TreeNode>, p: spec_fn(TreeNode) -> bool, i: int) -> (k: int)
    requires
        0 <= i < cs.len(),
        p(cs[i]),
    ensures
        0 <= k <= i,
        p(cs[k]),
        forall|j: int| 0 <= j < k ==> !p(cs[j]),
    decreases i,
{
    if exists|j: int| 0 <= j < i && p(cs[j]) {
        let j = choose|j: int| 0 <= j < i && p(cs[j]);
        lemma_least(cs, p, j)
    } else {
        i
    }
}

proof fn lemma_picked_before(cs: Seq<TreeNode>, node_id: Seq<char>, sel: Seq<Seq<char>>, x: Seq<char>)
    requires
        (match first_where(cs, id_is(node_id)) {
            Some(k) => picked_ids(cs.take(k), sel),
            None => Seq::empty(),
        }).contains(x),
    ensures
        sel.contains(x),
        x != node_id,
        comes_before(cs, x, node_id),
{
    let p = id_is(node_id);
    assert(exists|i: int| 0 <= i < cs.len() && p(cs[i]));
    let i0 = choose|i: int| 0 <= i < cs.len() && p(cs[i]);
    let k = lemma_least(cs, p, i0);
    lemma_first_where(cs, p, k);
    lemma_picked_ids_from(cs.take(k), sel, x);
    let j = choose|j: int| 0 <= j < cs.take(k).len() && #[trigger] cs.take(k)[j].id@ == x;
    assert(cs[j].id@ == x);
    assert(!p(cs[j]));
    assert(id_at(cs, j, x) && id_at(cs, k, node_id));
}

/// The memory a chapter draft reads comes only from ticked chapters placed
/// before it, never from the chapter itself.
pub proof fn prior_memory_is_earlier(t: NovelTree, node_id: Seq<char>, sel: Seq<Seq<char>>, x: Seq<char>)
    requires
        prior_memory_spec(t, node_id, sel).contains(x),
    ensures
        sel.contains(x),
        x != node_id,
        comes_before(sort_chapters(t.nodes@), x, node_id),
{
    lemma_picked_before(sort_chapters(t.nodes@), node_id, sel, x);
}

/// See `prior_memory_spec`: `memory_node_ids` are the chapters the writer
/// ticked.
pub fn prior_memory_chapters(tree: &NovelTree, node_id: &str, memory_node_ids: &Vec<String>) -> (r: Vec<String>)
    ensures
        str_views(r@) == prior_memory_spec(*tree, node_id@, str_views(memory_node_ids@)),
{
    let cs = sorted_chapter_nodes(tree);
    let ghost cv = derefs(cs@);
    let ghost sel = str_views(memory_node_ids@);
    let ghost p = id_is(node_id@);
    let id = chars_of(node_id);
    let mut out: Vec<String> = Vec::new();
    let mut i: usize = 0;
    while i < cs.len()
        invariant
            i <= cs@.len(),
            cv == derefs(cs@),
            cv == sort_chapters(tree.nodes@),
            sel == str_views(memory_node_ids@),
            p == id_is(node_id@),
            id@ == node_id@,
            forall|j: int| 0 <= j < i ==> !p(#[trigger] cv[j]),
            str_views(out@) == picked_ids(cv.take(i as int), sel),
        decreases cs@.len() - i,
    {
        let c: &TreeNode = cs[i];
        assert(cv[i as int] == *c);
        if eq(&chars_of(c.id.as_str()), &id) {
            proof {
                lemma_first_where(cv, p, i as int);
            }
            return out;
        }
        assert(cv.take(i + 1).drop_last() =~= cv.take(i as int));
        if crate::cast::contains_str_id(memory_node_ids, &c.id) {
            out.push(String::from_str(c.id.as_str()));
            assert(str_views(out@) =~= picked_ids(cv.take(i + 1), sel));
        } else {
            assert(str_views(out@) =~= picked_ids(cv.take(i + 1), sel));
        }
        i += 1;
    }
    assert(!(exists|k: int| 0 <= k < cv.len() && p(cv[k])));
    Vec::new()
}

} // verus!
