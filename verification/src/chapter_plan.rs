//! Which chapter numbers a generation request covers, and the small texts
//! a passage-suggestion prompt is built from.
use vstd::prelude::*;
use crate::json::{obj_get, Json, JsonNumber};
use crate::commands::{chapter_number_from_label, chapter_number_spec};
use crate::models::{derefs, NovelTree, TreeNode};
use crate::tree_refs::{first_where, lemma_first_where, sort_chapters, sorted_chapter_nodes};
use crate::outline_json::{member_put, num_is, put_member};
use crate::outline_parse::nonblank;
use crate::text::{append, append_decimal, append_str, chars_of, decimal, decimal_of, join, slice, string_of, trim, trim_str};

verus! {

/// `lo..=hi` as a sequence (empty when `hi < lo`).
pub open spec fn range_seq(lo: u32, hi: u32) -> Seq<u32> {
    Seq::new(if hi >= lo { (hi - lo + 1) as nat } else { 0 }, |i: int| (lo + i) as u32)
}

fn range_vec(lo: u32, hi: u32) -> (r: Vec<u32>)
    ensures
        r@ == range_seq(lo, hi),
{
    let mut v: Vec<u32> = Vec::new();
    if hi < lo {
        assert(v@ =~= range_seq(lo, hi));
        return v;
    }
    let mut k: u32 = lo;
    while k <= hi
        invariant
            lo <= hi,
            lo <= k,
            k as int <= hi as int + 1,
            v@.len() == k - lo,
            forall|i: int| 0 <= i < v@.len() ==> v@[i] == lo + i,
        decreases hi as int + 1 - k as int,
    {
        v.push(k);
        if k == hi {
            assert(v@ =~= range_seq(lo, hi));
            return v;
        }
        k += 1;
    }
    assert(v@ =~= range_seq(lo, hi));
    v
}

/// The last chapter a root-level generation of `count` chapter cards
/// reaches: `count` kept in 1..=100, and no further than the planned
/// number of chapters when one is set.
pub open spec fn root_gen_to(planned: u32, count: u32) -> u32 {
    let to = if count < 1 { 1 } else if count > 100 { 100 } else { count };
    if planned > 0 && planned < to { planned } else { to }
}

/// The chapter numbers a root-level generation of `count` chapter cards
/// covers (`planned` is the novel's planned chapter count, 0 when unset):
/// from 1 to `root_gen_to`.
pub fn root_gen_range(planned: u32, count: u32) -> (r: (u32, u32, Vec<u32>))
    ensures
        r.0 == 1,
        r.1 == root_gen_to(planned, count),
        r.2@ == range_seq(1, r.1),
{
    let mut to = if count < 1 { 1 } else if count > 100 { 100 } else { count };
    if planned > 0 && planned < to {
        to = planned;
    }
    (1, to, range_vec(1, to))
}

pub open spec fn next_want(count: u32) -> u32 {
    if count < 1 { 1 } else if count > 12 { 12 } else { count }
}

pub open spec fn last_planned_error(zh: bool) -> Seq<char> {
    if zh { "已是计划中的最后一章，无法再生成下一章大纲。"@ } else { "This is the last planned chapter; nothing left to outline."@ }
}

/// The chapters an outline-next request after chapter `cur_n` covers: up
/// to `count` (kept in 1..=12) chapters from `cur_n + 1`, no further than
/// the planned count when one is set; an error when `cur_n` is already the
/// last planned chapter.
pub fn plan_next_range(planned: u32, cur_n: u32, count: u32, zh: bool) -> (r: Result<(u32, u32, Vec<u32>), String>)
    requires
        cur_n + 1 + next_want(count) <= u32::MAX,
    ensures
        match r {
            Ok((from, to, nums)) => !(planned > 0 && cur_n + 1 > planned)
                && from == cur_n + 1
                && to == (if planned > 0 && planned < cur_n + next_want(count) { planned as int } else { cur_n + next_want(count) })
                && nums@ == range_seq(from, to) && nums@.len() > 0,
            Err(e) => planned > 0 && cur_n + 1 > planned && e@ == last_planned_error(zh),
        },
{
    let from = cur_n + 1;
    if planned > 0 && from > planned {
        return Err(if zh {
            String::from_str("已是计划中的最后一章，无法再生成下一章大纲。")
        } else {
            String::from_str("This is the last planned chapter; nothing left to outline.")
        });
    }
    let want = if count < 1 { 1 } else if count > 12 { 12 } else { count };
    let end = from + want - 1;
    let to = if planned > 0 && planned < end { planned } else { end };
    let nums = range_vec(from, to);
    if nums.len() == 0 {
        return Err(if zh {
            String::from_str("没有可生成的下一章编号。")
        } else {
            String::from_str("No next chapter numbers to generate.")
        });
    }
    Ok((from, to, nums))
}

/// `r` is `v` with its `n` set to chapter number `n` when it is an
/// object; anything else as it was.
pub open spec fn renumbered(v: Json, n: u32, r: Json) -> bool {
    match v {
        Json::Obj(m) => r matches Json::Obj(m2) && {
            &&& obj_get(m2@, "n"@) matches Some(x) && num_is(x, n)
            &&& forall|k: Seq<char>| k != "n"@ ==> #[trigger] obj_get(m2@, k) == obj_get(m@, k)
        },
        _ => r == v,
    }
}

/// Every outline in `list` numbered `n` (a one-chapter refresh whose reply
/// kept the example's number).
pub fn coerce_outlines_to_single_num(list: Vec<Json>, n: u32) -> (r: Vec<Json>)
    ensures
        r@.len() == list@.len(),
        forall|i: int| 0 <= i < list@.len() ==> renumbered(list@[i], n, #[trigger] r@[i]),
{
    let ghost l0 = list@;
    let n_all = list.len();
    let mut rest = list;
    let mut out: Vec<Json> = Vec::new();
    let mut i: usize = 0;
    while rest.len() > 0
        invariant
            l0.len() == n_all,
            i + rest@.len() == n_all,
            rest@ == l0.subrange(i as int, n_all as int),
            out@.len() == i,
            forall|j: int| 0 <= j < i ==> renumbered(l0[j], n, #[trigger] out@[j]),
        decreases rest@.len(),
    {
        let v = rest.remove(0);
        assert(v == l0[i as int]);
        assert(rest@ =~= l0.subrange(i + 1, n_all as int));
        let w = match v {
            Json::Obj(mut m) => {
                let num = Json::Num(JsonNumber { as_u64: Some(n as u64), as_i64: Some(n as i64), text: string_of(&decimal_of(n as u64)) });
                put_member(&mut m, "n", num);
                Json::Obj(m)
            },
            other => other,
        };
        out.push(w);
        i += 1;
    }
    out
}

/// How much of the text before the cursor a suggestion prompt carries.
pub const BODY_SUGGEST_CTX_CAP: usize = 800;
/// How much of the chapter's detailed outline a suggestion prompt carries.
pub const BODY_SUGGEST_OUTLINE_CAP: usize = 4000;

/// The text before the cursor, trimmed, keeping its last 800 characters.
pub open spec fn clip_ctx_spec(s: Seq<char>) -> Seq<char> {
    let t = trim(s);
    if t.len() <= 800 { t } else { t.subrange(t.len() - 800, t.len() as int) }
}

/// See `clip_ctx_spec`.
pub fn clip_suggest_ctx(s: &str) -> (r: String)
    ensures
        r@ == clip_ctx_spec(s@),
{
    let t = trim_str(s);
    if t.len() <= BODY_SUGGEST_CTX_CAP {
        return string_of(&t);
    }
    string_of(&slice(&t, t.len() - BODY_SUGGEST_CTX_CAP, t.len()))
}

/// `1. a`, `2. b`, … for the lines.
pub open spec fn numbered(ls: Seq<Seq<char>>) -> Seq<Seq<char>> {
    Seq::new(ls.len(), |i: int| decimal((i + 1) as nat) + ". "@ + ls[i])
}

/// The detailed outline's items, non-blank ones numbered one per line,
/// cut to 4000 characters.
pub open spec fn suggest_outline_spec(items: Seq<Seq<char>>) -> Seq<char> {
    let j = join(numbered(nonblank(items)), "\n"@);
    if j.len() <= 4000 { j } else { j.subrange(0, 4000) }
}

/// See `suggest_outline_spec`.
pub fn format_body_suggest_outline(items: &[String]) -> (r: String)
    ensures
        r@ == suggest_outline_spec(items@.map_values(|s: String| s@)),
{
    let ghost iv = items@.map_values(|s: String| s@);
    let mut out: Vec<char> = Vec::new();
    let mut count: usize = 0;
    let mut i: usize = 0;
    while i < items.len()
        invariant
            i <= items.len(),
            iv == items@.map_values(|s: String| s@),
            count == nonblank(iv.subrange(0, i as int)).len(),
            count <= i,
            out@ == join(numbered(nonblank(iv.subrange(0, i as int))), "\n"@),
        decreases items.len() - i,
    {
        assert(iv.subrange(0, i + 1).drop_last() =~= iv.subrange(0, i as int));
        assert(iv.subrange(0, i + 1).last() == items@[i as int]@);
        let t = trim_str(items[i].as_str());
        if t.len() > 0 {
            let ghost nb0 = nonblank(iv.subrange(0, i as int));
            let ghost nb1 = nb0.push(t@);
            assert(numbered(nb1).drop_last() =~= numbered(nb0));
            assert(numbered(nb1).last() == decimal((count + 1) as nat) + ". "@ + t@);
            if count > 0 {
                append_str(&mut out, "\n");
            }
            append_decimal(&mut out, (count + 1) as u64);
            append_str(&mut out, ". ");
            append(&mut out, &t);
            proof {
                if count == 0 {
                    assert(numbered(nb1) =~= seq![decimal(1nat) + ". "@ + t@]);
                }
            }
            assert(out@ =~= join(numbered(nb1), "\n"@));
            count += 1;
        }
        i += 1;
    }
    assert(iv.subrange(0, items.len() as int) =~= iv);
    if out.len() <= BODY_SUGGEST_OUTLINE_CAP {
        string_of(&out)
    } else {
        string_of(&slice(&out, 0, BODY_SUGGEST_OUTLINE_CAP))
    }
}


/// Where a plan-ahead starts: the current chapter's number as its label
/// gives it, else its place in reading order counted from 1 (cut to 32
/// bits). An error when the card is not among the chapters.
pub open spec fn plan_anchor_spec(tree: NovelTree, node_id: Seq<char>) -> Result<u32, Seq<char>> {
    let chs = sort_chapters(tree.nodes@);
    match first_where(chs, |c: TreeNode| c.id@ == node_id) {
        Some(i) => Ok(match chapter_number_spec(chs[i].label@) {
            Some(n) => n,
            None => (i + 1) as u32,
        }),
        None => Err("当前节点不是章节卡"@),
    }
}

/// See `plan_anchor_spec`.
pub fn plan_anchor(tree: &NovelTree, node_id: &str) -> (r: Result<u32, String>)
    ensures
        match r {
            Ok(n) => plan_anchor_spec(*tree, node_id@) == Ok::<u32, Seq<char>>(n),
            Err(e) => plan_anchor_spec(*tree, node_id@) == Err::<u32, Seq<char>>(e@),
        },
{
    let chapters = sorted_chapter_nodes(tree);
    let ghost chs = sort_chapters(tree.nodes@);
    let ghost p = |c: TreeNode| c.id@ == node_id@;
    let id = chars_of(node_id);
    let mut i: usize = 0;
    while i < chapters.len()
        invariant
            i <= chapters@.len(),
            derefs(chapters@) == chs,
            chs == sort_chapters(tree.nodes@),
            id@ == node_id@,
            p == (|c: TreeNode| c.id@ == node_id@),
            forall|j: int| 0 <= j < i ==> !p(#[trigger] chs[j]),
        decreases chapters@.len() - i,
    {
        let c: &TreeNode = chapters[i];
        assert(chs[i as int] == *c);
        if crate::text::eq(&chars_of(c.id.as_str()), &id) {
            proof {
                lemma_first_where(chs, p, i as int);
            }
            assert(plan_anchor_spec(*tree, node_id@) == match first_where(chs, p) {
                Some(i) => Ok(match chapter_number_spec(chs[i].label@) {
                    Some(n) => n,
                    None => (i + 1) as u32,
                }),
                None => Err::<u32, Seq<char>>("当前节点不是章节卡"@),
            });
            return Ok(match chapter_number_from_label(c.label.as_str()) {
                Some(n) => n,
                None => #[verifier::truncate] ((i + 1) as u32),
            });
        }
        i += 1;
    }
    assert(!(exists|k: int| 0 <= k < chs.len() && p(chs[k])));
    assert(plan_anchor_spec(*tree, node_id@) == match first_where(chs, p) {
        Some(i) => Ok(match chapter_number_spec(chs[i].label@) {
            Some(n) => n,
            None => (i + 1) as u32,
        }),
        None => Err::<u32, Seq<char>>("当前节点不是章节卡"@),
    });
    Err(String::from_str("当前节点不是章节卡"))
}

} // verus!
