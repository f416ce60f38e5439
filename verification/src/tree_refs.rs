//! Finding nodes of the structure tree from what a user or a model writes:
//! chapters in reading order and their numbers, a node named by id, title
//! or chapter number, and the node a new knowledge card hangs on.
use vstd::prelude::*;
use std::collections::HashMap;
use crate::commands::{chapter_number_from_label, chapter_number_spec, chapter_token_spec, parse_chapter_num_token};
use crate::global_chat::ascii_lowercase;
use crate::models::{derefs, first_node, find_node, str_views, NodeKind, NovelTree, TreeNode};
use crate::text::{
    append, append_decimal, append_str, ascii_lower_seq, chars_of, decimal, eq, eq_str, join,
    join_exec, lowercase, str_lowercase, string_of, trim, trim_str, vviews,
};

verus! {

broadcast use vstd::std_specs::hash::group_hash_axioms;

/// Reading order of chapters: by canvas y, then x.
pub open spec fn chap_before(a: TreeNode, b: TreeNode) -> bool {
    a.position.y < b.position.y || (a.position.y == b.position.y && a.position.x < b.position.x)
}

/// Where a chapter goes among sorted ones: after every one it does not
/// come before (so equal positions keep their order).
pub open spec fn chap_ins_pos(sorted: Seq<TreeNode>, x: TreeNode) -> int
    decreases sorted.len(),
{
    if sorted.len() == 0 {
        0
    } else if chap_before(x, sorted[0]) {
        0
    } else {
        1 + chap_ins_pos(sorted.drop_first(), x)
    }
}

/// The chapter nodes among `ns`, stably sorted into reading order.
pub open spec fn sort_chapters(ns: Seq<TreeNode>) -> Seq<TreeNode>
    decreases ns.len(),
{
    if ns.len() == 0 {
        Seq::empty()
    } else {
        let acc = sort_chapters(ns.drop_last());
        if ns.last().kind == NodeKind::Chapter {
            acc.insert(chap_ins_pos(acc, ns.last()), ns.last())
        } else {
            acc
        }
    }
}

proof fn lemma_chap_ins_scan(sorted: Seq<TreeNode>, x: TreeNode, p: int)
    requires
        0 <= p <= sorted.len(),
        forall|j: int| 0 <= j < p ==> !chap_before(x, #[trigger] sorted[j]),
        p == sorted.len() || chap_before(x, sorted[p]),
    ensures
        chap_ins_pos(sorted, x) == p,
    decreases p,
{
    if p > 0 {
        let t = sorted.drop_first();
        assert forall|j: int| 0 <= j < p - 1 implies !chap_before(x, #[trigger] t[j]) by {
            assert(t[j] == sorted[j + 1]);
        }
        if p < sorted.len() {
            assert(t[p - 1] == sorted[p]);
        }
        lemma_chap_ins_scan(t, x, p - 1);
    }
}

proof fn lemma_sort_chapters_len(ns: Seq<TreeNode>)
    ensures
        sort_chapters(ns).len() <= ns.len(),
    decreases ns.len(),
{
    if ns.len() > 0 {
        lemma_sort_chapters_len(ns.drop_last());
        let acc = sort_chapters(ns.drop_last());
        if ns.last().kind == NodeKind::Chapter {
            lemma_chap_ins_bound(acc, ns.last());
        }
    }
}

proof fn lemma_chap_ins_bound(sorted: Seq<TreeNode>, x: TreeNode)
    ensures
        0 <= chap_ins_pos(sorted, x) <= sorted.len(),
    decreases sorted.len(),
{
    if sorted.len() > 0 {
        lemma_chap_ins_bound(sorted.drop_first(), x);
    }
}

/// The chapter nodes in reading order (by y, then x; ties keep tree order).
pub fn sorted_chapter_nodes(tree: &NovelTree) -> (r: Vec<&TreeNode>)
    ensures
        derefs(r@) == sort_chapters(tree.nodes@),
{
    let mut out: Vec<&TreeNode> = Vec::new();
    let mut i: usize = 0;
    while i < tree.nodes.len()
        invariant
            i <= tree.nodes.len(),
            derefs(out@) == sort_chapters(tree.nodes@.subrange(0, i as int)),
        decreases tree.nodes.len() - i,
    {
        let ghost pre = tree.nodes@.subrange(0, i as int);
        assert(tree.nodes@.subrange(0, i + 1).drop_last() =~= pre);
        assert(tree.nodes@.subrange(0, i + 1).last() == tree.nodes@[i as int]);
        let n = &tree.nodes[i];
        if n.kind == NodeKind::Chapter {
            let mut p: usize = 0;
            while p < out.len()
                && !(n.position.y < out[p].position.y
                    || (n.position.y == out[p].position.y && n.position.x < out[p].position.x))
                invariant
                    p <= out.len(),
                    forall|q: int| 0 <= q < p ==> !chap_before(*n, #[trigger] derefs(out@)[q]),
                decreases out.len() - p,
            {
                p += 1;
            }
            proof {
                lemma_chap_ins_scan(derefs(out@), *n, p as int);
            }
            let ghost before = out@;
            out.insert(p, n);
            assert(derefs(out@) =~= derefs(before).insert(p as int, *n));
        }
        i += 1;
    }
    assert(tree.nodes@.subrange(0, tree.nodes.len() as int) =~= tree.nodes@);
    out
}

/// Numbers taken from the chapter labels, the first chapter of each number
/// winning.
pub open spec fn labeled_nums(chs: Seq<TreeNode>) -> Map<u32, String>
    decreases chs.len(),
{
    if chs.len() == 0 {
        Map::empty()
    } else {
        let m = labeled_nums(chs.drop_last());
        match chapter_number_spec(chs.last().label@) {
            Some(k) => if m.dom().contains(k) { m } else { m.insert(k, chs.last().id) },
            None => m,
        }
    }
}

/// The first number from `next` on that is not taken (label numbers are at
/// most 500).
pub open spec fn first_free(m: Map<u32, String>, next: nat) -> nat
    decreases 501 - next,
{
    if next <= 500 && m.dom().contains(next as u32) {
        first_free(m, next + 1)
    } else {
        next
    }
}

/// Unlabeled chapters get the free numbers, in reading order from 1.
pub open spec fn fill_nums(chs: Seq<TreeNode>, m0: Map<u32, String>) -> (Map<u32, String>, nat)
    decreases chs.len(),
{
    if chs.len() == 0 {
        (m0, 1)
    } else {
        let (m, next) = fill_nums(chs.drop_last(), m0);
        if chapter_number_spec(chs.last().label@) is Some {
            (m, next)
        } else {
            let f = first_free(m, next);
            (m.insert(f as u32, chs.last().id), f + 1)
        }
    }
}

/// Chapter number → chapter id: the numbers in the labels, and for chapters
/// without one, the free numbers in reading order.
pub open spec fn chapter_nums_spec(tree: NovelTree) -> Map<u32, String> {
    let chs = sort_chapters(tree.nodes@);
    fill_nums(chs, labeled_nums(chs)).0
}

proof fn lemma_label_num_bound(label: Seq<char>)
    ensures
        chapter_number_spec(label) matches Some(k) ==> 1 <= k <= 500,
{
    reveal_with_fuel(chapter_number_spec, 1);
}

proof fn lemma_first_free(m: Map<u32, String>, next: nat)
    ensures
        first_free(m, next) >= next,
        first_free(m, next) <= if next > 501 { next } else { 501 },
        !(first_free(m, next) <= 500 && m.dom().contains(first_free(m, next) as u32)),
    decreases 501 - next,
{
    if next <= 500 && m.dom().contains(next as u32) {
        lemma_first_free(m, next + 1);
    }
}

/// Chapter number → id of the chapter it names (see `chapter_nums_spec`).
pub fn existing_chapter_nums(tree: &NovelTree) -> (r: HashMap<u32, String>)
    requires
        tree.nodes@.len() + 502 < u32::MAX,
    ensures
        r@ == chapter_nums_spec(*tree),
{
    let chapters = sorted_chapter_nodes(tree);
    let ghost chs = derefs(chapters@);
    proof {
        lemma_sort_chapters_len(tree.nodes@);
    }
    let mut map: HashMap<u32, String> = HashMap::new();
    let mut i: usize = 0;
    while i < chapters.len()
        invariant
            i <= chapters.len(),
            chs == derefs(chapters@),
            map@ == labeled_nums(chs.subrange(0, i as int)),
            forall|k: u32| map@.dom().contains(k) ==> 1 <= k <= 500,
        decreases chapters.len() - i,
    {
        assert(chs.subrange(0, i + 1).drop_last() =~= chs.subrange(0, i as int));
        assert(chs.subrange(0, i + 1).last() == *chapters@[i as int]);
        let n = chapters[i];
        proof {
            lemma_label_num_bound(n.label@);
        }
        match chapter_number_from_label(n.label.as_str()) {
            Some(num) => {
                if !map.contains_key(&num) {
                    map.insert(num, n.id.clone());
                }
            },
            None => {},
        }
        i += 1;
    }
    assert(chs.subrange(0, chapters.len() as int) =~= chs);
    let ghost m0 = map@;
    let mut next: u32 = 1;
    let mut j: usize = 0;
    while j < chapters.len()
        invariant
            j <= chapters.len(),
            chapters.len() + 502 < u32::MAX,
            chs == derefs(chapters@),
            (map@, next as nat) == fill_nums(chs.subrange(0, j as int), m0),
            1 <= next <= 501 + j,
            forall|k: u32| map@.dom().contains(k) ==> k <= 500 || k < next,
        decreases chapters.len() - j,
    {
        assert(chs.subrange(0, j + 1).drop_last() =~= chs.subrange(0, j as int));
        assert(chs.subrange(0, j + 1).last() == *chapters@[j as int]);
        let n = chapters[j];
        if chapter_number_from_label(n.label.as_str()).is_none() {
            let ghost m = map@;
            let ghost start = next as nat;
            proof {
                lemma_first_free(m, start);
            }
            while map.contains_key(&next)
                invariant
                    map@ == m,
                    start <= next <= 501 + j,
                    first_free(m, start) == first_free(m, next as nat),
                    forall|k: u32| m.dom().contains(k) ==> k <= 500 || k < start,
                decreases 501 - next,
            {
                next = next + 1;
            }
            map.insert(next, n.id.clone());
            next = next + 1;
        }
        j += 1;
    }
    assert(chs.subrange(0, chapters.len() as int) =~= chs);
    map
}

/// Index of the first node with property `p`.
pub open spec fn first_where(ns: Seq<TreeNode>, p: spec_fn(TreeNode) -> bool) -> Option<int> {
    if exists|i: int| 0 <= i < ns.len() && p(ns[i]) {
        Some(choose|i: int| 0 <= i < ns.len() && p(ns[i]) && forall|j: int| 0 <= j < i ==> !p(ns[j]))
    } else {
        None
    }
}

pub proof fn lemma_first_where(ns: Seq<TreeNode>, p: spec_fn(TreeNode) -> bool, i: int)
    requires
        0 <= i < ns.len(),
        p(ns[i]),
        forall|j: int| 0 <= j < i ==> !p(ns[j]),
    ensures
        first_where(ns, p) == Some(i),
{
    assert(exists|k: int| 0 <= k < ns.len() && p(ns[k]));
    let c = choose|k: int| 0 <= k < ns.len() && p(ns[k]) && forall|j: int| 0 <= j < k ==> !p(ns[j]);
    assert(0 <= c < ns.len() && p(ns[c]) && forall|j: int| 0 <= j < c ==> !p(ns[j]));
    if c < i {
        assert(!p(ns[c]));
    }
    if c > i {
        assert(!p(ns[i]));
    }
}

pub open spec fn is_novel(n: TreeNode) -> bool {
    n.kind == NodeKind::Novel
}

/// Index of the root (novel) node.
pub fn find_root_index(nodes: &Vec<TreeNode>) -> (r: Option<usize>)
    ensures
        match r {
            Some(i) => i < nodes.len() && first_where(nodes@, |n: TreeNode| is_novel(n)) == Some(i as int),
            None => first_where(nodes@, |n: TreeNode| is_novel(n)) is None,
        },
{
    find_root(nodes)
}

fn find_root(nodes: &Vec<TreeNode>) -> (r: Option<usize>)
    ensures
        match r {
            Some(i) => i < nodes.len() && first_where(nodes@, |n: TreeNode| is_novel(n)) == Some(i as int),
            None => first_where(nodes@, |n: TreeNode| is_novel(n)) is None,
        },
{
    let mut i: usize = 0;
    while i < nodes.len()
        invariant
            i <= nodes.len(),
            forall|j: int| 0 <= j < i ==> !is_novel(#[trigger] nodes@[j]),
        decreases nodes.len() - i,
    {
        if nodes[i].kind == NodeKind::Novel {
            proof {
                lemma_first_where(nodes@, |n: TreeNode| is_novel(n), i as int);
            }
            return Some(i);
        }
        i += 1;
    }
    assert(!(exists|k: int| 0 <= k < nodes@.len() && (|n: TreeNode| is_novel(n))(nodes@[k])));
    None
}

/// `eq_ignore_ascii_case` against a lowercase word.
pub open spec fn is_word_ci(t: Seq<char>, w: Seq<char>) -> bool {
    ascii_lower_seq(t) == w
}

/// `root` or `novel`, in any ASCII case.
pub open spec fn names_root(t: Seq<char>) -> bool {
    is_word_ci(t, "root"@) || is_word_ci(t, "novel"@)
}

fn names_root_exec(t: &Vec<char>) -> (r: bool)
    ensures
        r == names_root(t@),
{
    let l = ascii_lowercase(t);
    eq_str(&l, "root") || eq_str(&l, "novel")
}

/// Whether some node has id `t`.
pub open spec fn has_node_id(ns: Seq<TreeNode>, t: Seq<char>) -> bool {
    exists|i: int| 0 <= i < ns.len() && ns[i].id@ == t
}

/// The nodes whose trimmed label is `t`, in order.
pub open spec fn label_hits(ns: Seq<TreeNode>, t: Seq<char>) -> Seq<TreeNode>
    decreases ns.len(),
{
    if ns.len() == 0 {
        Seq::empty()
    } else {
        let rest = label_hits(ns.drop_last(), t);
        if trim(ns.last().label@) == t { rest.push(ns.last()) } else { rest }
    }
}

/// The nodes whose trimmed, lowercased label is `lower`, in order.
pub open spec fn label_hits_ci(ns: Seq<TreeNode>, lower: Seq<char>) -> Seq<TreeNode>
    decreases ns.len(),
{
    if ns.len() == 0 {
        Seq::empty()
    } else {
        let rest = label_hits_ci(ns.drop_last(), lower);
        if str_lowercase(trim(ns.last().label@)) == lower { rest.push(ns.last()) } else { rest }
    }
}

pub open spec fn ids_of(ns: Seq<TreeNode>) -> Seq<Seq<char>> {
    ns.map_values(|n: TreeNode| n.id@)
}

/// `label (id)` of a chapter.
pub open spec fn hint_item(n: TreeNode) -> Seq<char> {
    n.label@ + " ("@ + n.id@ + ")"@
}

/// The chapters a caller may name: up to 12 in reading order, and how many
/// there are when there are more.
pub open spec fn hint_spec(tree: NovelTree) -> Seq<char> {
    let chs = sort_chapters(tree.nodes@);
    let n = chs.len();
    if n == 0 {
        "树上暂无章节。"@
    } else {
        let shown = chs.take(if n > 12 { 12 } else { n as int }).map_values(|c: TreeNode| hint_item(c));
        let extra = if n > 12 { " 等共"@ + decimal(n) + "章"@ } else { Seq::empty() };
        "可用章节："@ + join(shown, "；"@) + extra
    }
}

/// The chapter number that `t` names, as a label or as a bare token.
pub open spec fn named_chapter(t: Seq<char>) -> Option<u32> {
    match chapter_number_spec(t) {
        Some(n) => Some(n),
        None => chapter_token_spec(t),
    }
}

/// The node that `spec` names: an id; the root for blank, `root` or
/// `novel`; the one node with that title (exactly, then ignoring case); a
/// chapter by number (`第N章`, `N`). A title shared by several nodes, or a
/// name that finds nothing, is an error that lists what can be used.
pub open spec fn resolve_spec(tree: NovelTree, spec: Seq<char>) -> Result<Seq<char>, Seq<char>> {
    let t = trim(spec);
    let ns = tree.nodes@;
    if has_node_id(ns, t) {
        Ok(t)
    } else if t.len() == 0 || names_root(t) {
        match first_where(ns, |n: TreeNode| is_novel(n)) {
            Some(i) => Ok(ns[i].id@),
            None => Err("找不到小说根节点"@),
        }
    } else {
        let exact = label_hits(ns, t);
        if exact.len() == 1 {
            Ok(exact[0].id@)
        } else if exact.len() > 1 {
            Err("标题「"@ + t + "」对应多个节点："@ + join(ids_of(exact), "、"@))
        } else {
            let ci = label_hits_ci(ns, str_lowercase(t));
            if ci.len() == 1 {
                Ok(ci[0].id@)
            } else {
                match named_chapter(t) {
                    Some(num) if chapter_nums_spec(tree).dom().contains(num) => Ok(chapter_nums_spec(tree)[num]@),
                    _ => Err("无法找到节点「"@ + t + "」。node_id 须为树上 id，章节也可传「第N章」或唯一标题。"@ + hint_spec(tree)),
                }
            }
        }
    }
}

/// Text naming the chapters that can be used (see `hint_spec`).
pub fn chapter_id_hint(tree: &NovelTree) -> (r: String)
    ensures
        r@ == hint_spec(*tree),
{
    let chs = sorted_chapter_nodes(tree);
    let ghost cv = derefs(chs@);
    if chs.len() == 0 {
        return String::from_str("树上暂无章节。");
    }
    let n = chs.len();
    let take = if n > 12 { 12 } else { n };
    let mut shown: Vec<Vec<char>> = Vec::new();
    let mut i: usize = 0;
    while i < take
        invariant
            i <= take <= chs.len(),
            take == (if chs.len() > 12 { 12 } else { chs.len() }),
            cv == derefs(chs@),
            vviews(shown@) == cv.take(i as int).map_values(|c: TreeNode| hint_item(c)),
        decreases take - i,
    {
        let c = chs[i];
        let mut l = chars_of(c.label.as_str());
        append_str(&mut l, " (");
        append_str(&mut l, c.id.as_str());
        append_str(&mut l, ")");
        let ghost before = vviews(shown@);
        shown.push(l);
        assert(vviews(shown@) =~= before.push(hint_item(cv[i as int])));
        i += 1;
        assert(cv.take(i as int).map_values(|c: TreeNode| hint_item(c)) =~= before.push(hint_item(cv[i - 1])));
    }
    let mut out = chars_of("可用章节：");
    let j = join_exec(&shown, "；");
    append(&mut out, &j);
    if n > 12 {
        append_str(&mut out, " 等共");
        append_decimal(&mut out, n as u64);
        append_str(&mut out, "章");
    }
    string_of(&out)
}

fn exact_hits<'a>(nodes: &'a Vec<TreeNode>, t: &Vec<char>) -> (r: Vec<&'a TreeNode>)
    ensures
        derefs(r@) == label_hits(nodes@, t@),
{
    let mut out: Vec<&TreeNode> = Vec::new();
    let mut i: usize = 0;
    while i < nodes.len()
        invariant
            i <= nodes.len(),
            derefs(out@) == label_hits(nodes@.subrange(0, i as int), t@),
        decreases nodes.len() - i,
    {
        assert(nodes@.subrange(0, i + 1).drop_last() =~= nodes@.subrange(0, i as int));
        let n = &nodes[i];
        let l = trim_str(n.label.as_str());
        let ghost before = out@;
        if eq(&l, t) {
            out.push(n);
            assert(derefs(out@) =~= derefs(before).push(*n));
        }
        i += 1;
    }
    assert(nodes@.subrange(0, nodes.len() as int) =~= nodes@);
    out
}

fn ci_hits<'a>(nodes: &'a Vec<TreeNode>, lower: &Vec<char>) -> (r: Vec<&'a TreeNode>)
    ensures
        derefs(r@) == label_hits_ci(nodes@, lower@),
{
    let mut out: Vec<&TreeNode> = Vec::new();
    let mut i: usize = 0;
    while i < nodes.len()
        invariant
            i <= nodes.len(),
            derefs(out@) == label_hits_ci(nodes@.subrange(0, i as int), lower@),
        decreases nodes.len() - i,
    {
        assert(nodes@.subrange(0, i + 1).drop_last() =~= nodes@.subrange(0, i as int));
        let n = &nodes[i];
        let l = lowercase(&trim_str(n.label.as_str()));
        let ghost before = out@;
        if eq(&l, lower) {
            out.push(n);
            assert(derefs(out@) =~= derefs(before).push(*n));
        }
        i += 1;
    }
    assert(nodes@.subrange(0, nodes.len() as int) =~= nodes@);
    out
}

fn has_id_exec(nodes: &Vec<TreeNode>, t: &String) -> (r: bool)
    ensures
        r == has_node_id(nodes@, t@),
{
    let mut i: usize = 0;
    while i < nodes.len()
        invariant
            i <= nodes.len(),
            forall|j: int| 0 <= j < i ==> nodes@[j].id@ != t@,
        decreases nodes.len() - i,
    {
        if nodes[i].id == *t {
            return true;
        }
        i += 1;
    }
    false
}

/// The id of the node that `spec` names (see `resolve_spec`).
pub fn resolve_node_ref(tree: &NovelTree, spec: &str) -> (r: Result<String, String>)
    requires
        tree.nodes@.len() + 502 < u32::MAX,
    ensures
        match r {
            Ok(id) => resolve_spec(*tree, spec@) == Ok::<Seq<char>, Seq<char>>(id@),
            Err(e) => resolve_spec(*tree, spec@) == Err::<Seq<char>, Seq<char>>(e@),
        },
{
    let tv = trim_str(spec);
    let t = string_of(&tv);
    if has_id_exec(&tree.nodes, &t) {
        return Ok(t);
    }
    if tv.len() == 0 || names_root_exec(&tv) {
        return match find_root(&tree.nodes) {
            Some(i) => Ok(tree.nodes[i].id.clone()),
            None => Err(String::from_str("找不到小说根节点")),
        };
    }
    let exact = exact_hits(&tree.nodes, &tv);
    if exact.len() == 1 {
        return Ok(exact[0].id.clone());
    }
    if exact.len() > 1 {
        let mut ids: Vec<Vec<char>> = Vec::new();
        let mut k: usize = 0;
        while k < exact.len()
            invariant
                k <= exact.len(),
                vviews(ids@) == ids_of(derefs(exact@)).subrange(0, k as int),
            decreases exact.len() - k,
        {
            push_id(&mut ids, exact[k]);
            k += 1;
            assert(vviews(ids@) =~= ids_of(derefs(exact@)).subrange(0, k as int));
        }
        assert(ids_of(derefs(exact@)).subrange(0, exact.len() as int) =~= ids_of(derefs(exact@)));
        let mut e = chars_of("标题「");
        append(&mut e, &tv);
        append_str(&mut e, "」对应多个节点：");
        let j = join_exec(&ids, "、");
        append(&mut e, &j);
        return Err(string_of(&e));
    }
    let lower = lowercase(&tv);
    let ci = ci_hits(&tree.nodes, &lower);
    if ci.len() == 1 {
        return Ok(ci[0].id.clone());
    }
    let num = match chapter_number_from_label(t.as_str()) {
        Some(n) => Some(n),
        None => parse_chapter_num_token(t.as_str()),
    };
    match num {
        Some(n) => {
            let map = existing_chapter_nums(tree);
            match map.get(&n) {
                Some(id) => {
                    return Ok(id.clone());
                },
                None => {},
            }
        },
        None => {},
    }
    let mut e = chars_of("无法找到节点「");
    append(&mut e, &tv);
    append_str(&mut e, "」。node_id 须为树上 id，章节也可传「第N章」或唯一标题。");
    let h = chapter_id_hint(tree);
    append_str(&mut e, h.as_str());
    Err(string_of(&e))
}

fn push_id(ids: &mut Vec<Vec<char>>, n: &TreeNode)
    ensures
        vviews(final(ids)@) == vviews(old(ids)@).push(n.id@),
{
    let ghost before = vviews(ids@);
    ids.push(chars_of(n.id.as_str()));
    assert(vviews(ids@) =~= before.push(n.id@));
}

/// A host node kind for side plots: chapter, novel or volume.
pub open spec fn is_plot_host(n: TreeNode) -> bool {
    n.kind == NodeKind::Chapter || n.kind == NodeKind::Novel || n.kind == NodeKind::Volume
}

/// The node that a new knowledge card is attached to, given the selected
/// node: the root when nothing (or the root) is selected; a novel, volume
/// or chapter itself; for a side plot, knowledge card or character, the
/// first node that links it (a chapter, novel or volume for a side plot),
/// else the root.
pub open spec fn attach_host_spec(tree: NovelTree, selected: Option<Seq<char>>) -> Result<Seq<char>, Seq<char>> {
    let ns = tree.nodes@;
    match first_where(ns, |n: TreeNode| is_novel(n)) {
        None => Err("找不到小说根节点"@),
        Some(ri) => {
            let root = ns[ri].id@;
            let sel = match selected { Some(s) => trim(s), None => Seq::empty() };
            if sel.len() == 0 || names_root(sel) {
                Ok(root)
            } else {
                match first_node(ns, sel) {
                    None => Err("节点不存在: "@ + sel),
                    Some(k) => {
                        let n = ns[k];
                        let found = if n.kind == NodeKind::SidePlot {
                            first_where(ns, |h: TreeNode| is_plot_host(h) && str_views(h.linked_side_plot_ids@).contains(sel))
                        } else if n.kind == NodeKind::Knowledge {
                            first_where(ns, |h: TreeNode| str_views(h.linked_knowledge_ids@).contains(sel))
                        } else if n.kind == NodeKind::Character {
                            first_where(ns, |h: TreeNode| str_views(h.linked_character_ids@).contains(sel))
                        } else {
                            Some(k)
                        };
                        match found {
                            Some(h) => Ok(ns[h].id@),
                            None => Ok(root),
                        }
                    },
                }
            }
        },
    }
}

fn links(ids: &Vec<String>, id: &String) -> (r: bool)
    ensures
        r == str_views(ids@).contains(id@),
{
    let mut i: usize = 0;
    while i < ids.len()
        invariant
            i <= ids.len(),
            forall|j: int| 0 <= j < i ==> str_views(ids@)[j] != id@,
        decreases ids.len() - i,
    {
        if ids[i] == *id {
            assert(str_views(ids@)[i as int] == id@);
            return true;
        }
        i += 1;
    }
    false
}

/// What links a node: 0 side plot (from a chapter, novel or volume),
/// 1 knowledge card, 2 character.
pub open spec fn links_as(h: TreeNode, what: u8, id: Seq<char>) -> bool {
    if what == 0 {
        is_plot_host(h) && str_views(h.linked_side_plot_ids@).contains(id)
    } else if what == 1 {
        str_views(h.linked_knowledge_ids@).contains(id)
    } else {
        str_views(h.linked_character_ids@).contains(id)
    }
}

fn first_linker(nodes: &Vec<TreeNode>, what: u8, id: &String) -> (r: Option<usize>)
    ensures
        match r {
            Some(i) => i < nodes.len() && first_where(nodes@, |h: TreeNode| links_as(h, what, id@)) == Some(i as int),
            None => first_where(nodes@, |h: TreeNode| links_as(h, what, id@)) is None,
        },
{
    let mut i: usize = 0;
    while i < nodes.len()
        invariant
            i <= nodes.len(),
            forall|j: int| 0 <= j < i ==> !links_as(#[trigger] nodes@[j], what, id@),
        decreases nodes.len() - i,
    {
        let h = &nodes[i];
        let hit = if what == 0 {
            (h.kind == NodeKind::Chapter || h.kind == NodeKind::Novel || h.kind == NodeKind::Volume)
                && links(&h.linked_side_plot_ids, id)
        } else if what == 1 {
            links(&h.linked_knowledge_ids, id)
        } else {
            links(&h.linked_character_ids, id)
        };
        if hit {
            proof {
                lemma_first_where(nodes@, |h: TreeNode| links_as(h, what, id@), i as int);
            }
            return Some(i);
        }
        i += 1;
    }
    assert(!(exists|k: int| 0 <= k < nodes@.len() && (|h: TreeNode| links_as(h, what, id@))(nodes@[k])));
    None
}

/// The id of the node that a new knowledge card hangs on (see
/// `attach_host_spec`).
pub fn knowledge_attach_host(tree: &NovelTree, selected_id: Option<&str>) -> (r: Result<String, String>)
    ensures
        match r {
            Ok(id) => attach_host_spec(*tree, match selected_id { Some(s) => Some(s@), None => None })
                == Ok::<Seq<char>, Seq<char>>(id@),
            Err(e) => attach_host_spec(*tree, match selected_id { Some(s) => Some(s@), None => None })
                == Err::<Seq<char>, Seq<char>>(e@),
        },
{
    let ghost sel_opt = match selected_id { Some(s) => Some(s@), None => None::<Seq<char>> };
    let ri = match find_root(&tree.nodes) {
        Some(i) => i,
        None => {
            return Err(String::from_str("找不到小说根节点"));
        },
    };
    let root_id = tree.nodes[ri].id.clone();
    let sel: Vec<char> = match selected_id {
        Some(s) => trim_str(s),
        None => Vec::new(),
    };
    if sel.len() == 0 || names_root_exec(&sel) {
        return Ok(root_id);
    }
    let id = string_of(&sel);
    let k = match find_node(&tree.nodes, &id) {
        Some(k) => k,
        None => {
            let mut e = chars_of("节点不存在: ");
            append(&mut e, &sel);
            return Err(string_of(&e));
        },
    };
    let n = &tree.nodes[k];
    let what: u8 = match n.kind {
        NodeKind::SidePlot => 0,
        NodeKind::Knowledge => 1,
        NodeKind::Character => 2,
        _ => {
            return Ok(n.id.clone());
        },
    };
    proof {
        assert((|h: TreeNode| links_as(h, 0u8, id@)) =~= (|h: TreeNode| is_plot_host(h) && str_views(h.linked_side_plot_ids@).contains(id@)));
        assert((|h: TreeNode| links_as(h, 1u8, id@)) =~= (|h: TreeNode| str_views(h.linked_knowledge_ids@).contains(id@)));
        assert((|h: TreeNode| links_as(h, 2u8, id@)) =~= (|h: TreeNode| str_views(h.linked_character_ids@).contains(id@)));
    }
    match first_linker(&tree.nodes, what, &id) {
        Some(h) => Ok(tree.nodes[h].id.clone()),
        None => Ok(root_id),
    }
}

/// Where a `link_to` argument points: an existing id as it is, `root`,
/// `novel` or a blank for the root card, else a unique label or a chapter
/// number (see `resolve_spec`).
pub fn resolve_link_host(tree: &NovelTree, spec: &str) -> (r: Result<String, String>)
    requires
        tree.nodes@.len() + 502 < u32::MAX,
    ensures
        match r {
            Ok(id) => resolve_spec(*tree, spec@) == Ok::<Seq<char>, Seq<char>>(id@),
            Err(e) => resolve_spec(*tree, spec@) == Err::<Seq<char>, Seq<char>>(e@),
        },
{
    resolve_node_ref(tree, spec)
}

} // verus!
