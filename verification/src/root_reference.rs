//! The root material given to the model when a chapter is written or
//! outlined: the novel's synopsis, the root card's own notes, and the
//! character cards linked to the root.
use vstd::prelude::*;
use crate::cast::{clone_ids, contains_str_id};
use crate::character_fmt::{character_full_spec, format_character_full, CHARACTER_INJECT_CAP};
use crate::kb_context::{truncate_chars, truncate_spec};
use crate::models::{first_node, find_node, str_views, NodeKind, NovelTree, TreeEdge, TreeNode};
use crate::text::{append_str, chars_of, string_of, trim, trim_str};
use crate::tree_refs::{find_root_index, first_where, is_novel};

verus! {

/// The root card's position, if the tree has one.
pub open spec fn root_pos(tree: NovelTree) -> Option<int> {
    first_where(tree.nodes@, |n: TreeNode| is_novel(n))
}

/// The far end of an edge that touches `rid`.
pub open spec fn far_end(e: TreeEdge, rid: Seq<char>) -> Seq<char> {
    if e.source@ == rid { e.target@ } else { e.source@ }
}

/// Whether an edge adds `far_end` to the root's characters: it touches the
/// root, its far end is a character card not yet listed.
pub open spec fn adds_char(nodes: Seq<TreeNode>, acc: Seq<Seq<char>>, e: TreeEdge, rid: Seq<char>) -> bool {
    &&& (e.source@ == rid || e.target@ == rid)
    &&& first_node(nodes, far_end(e, rid)) matches Some(k) && nodes[k].kind == NodeKind::Character
    &&& !acc.contains(far_end(e, rid))
}

/// The characters gathered from the edges, in edge order, after `acc`.
pub open spec fn edge_chars(nodes: Seq<TreeNode>, es: Seq<TreeEdge>, rid: Seq<char>, acc: Seq<Seq<char>>) -> Seq<Seq<char>>
    decreases es.len(),
{
    if es.len() == 0 {
        acc
    } else {
        let before = edge_chars(nodes, es.drop_last(), rid, acc);
        let e = es.last();
        if adds_char(nodes, before, e, rid) { before.push(far_end(e, rid)) } else { before }
    }
}

/// The root's characters: its linked character ids, then the character
/// cards its edges reach (each once). None without a root; the edges are
/// not read when the root's id is empty.
pub open spec fn root_char_ids(tree: NovelTree) -> Seq<Seq<char>> {
    match root_pos(tree) {
        Some(r) => {
            let root = tree.nodes@[r];
            let own = str_views(root.linked_character_ids@);
            if root.id@.len() == 0 { own } else { edge_chars(tree.nodes@, tree.edges@, root.id@, own) }
        },
        None => Seq::empty(),
    }
}

fn edge_step(nodes: &Vec<TreeNode>, e: &TreeEdge, rid: &String, ids: &mut Vec<String>)
    ensures
        str_views(final(ids)@) == (if adds_char(nodes@, str_views(old(ids)@), *e, rid@) {
            str_views(old(ids)@).push(far_end(*e, rid@))
        } else {
            str_views(old(ids)@)
        }),
{
    if e.source == *rid || e.target == *rid {
        let other = if e.source == *rid { e.target.clone() } else { e.source.clone() };
        assert(other@ == far_end(*e, rid@));
        match find_node(nodes, &other) {
            Some(k) => {
                if nodes[k].kind == NodeKind::Character && !contains_str_id(ids, &other) {
                    let ghost before = str_views(ids@);
                    ids.push(other);
                    assert(str_views(ids@) =~= before.push(far_end(*e, rid@)));
                }
            },
            None => {},
        }
    }
}

pub(crate) fn gather_edge_chars(nodes: &Vec<TreeNode>, edges: &Vec<TreeEdge>, rid: &String, ids: &mut Vec<String>)
    ensures
        str_views(final(ids)@) == edge_chars(nodes@, edges@, rid@, str_views(old(ids)@)),
{
    let ghost own = str_views(ids@);
    let mut i: usize = 0;
    while i < edges.len()
        invariant
            i <= edges@.len(),
            str_views(ids@) == edge_chars(nodes@, edges@.subrange(0, i as int), rid@, own),
        decreases edges@.len() - i,
    {
        assert(edges@.subrange(0, i + 1).drop_last() =~= edges@.subrange(0, i as int));
        assert(edges@.subrange(0, i + 1).last() == edges@[i as int]);
        edge_step(nodes, &edges[i], rid, ids);
        i += 1;
    }
    assert(edges@.subrange(0, edges@.len() as int) =~= edges@);
}

/// See `root_char_ids`.
pub fn root_character_ids(tree: &NovelTree) -> (r: Vec<String>)
    ensures
        str_views(r@) == root_char_ids(*tree),
{
    let ri = match find_root_index(&tree.nodes) {
        Some(i) => i,
        None => {
            return Vec::new();
        },
    };
    let root = &tree.nodes[ri];
    let mut ids = clone_ids(&root.linked_character_ids);
    if root.id.as_str().unicode_len() == 0 {
        return ids;
    }
    gather_edge_chars(&tree.nodes, &tree.edges, &root.id, &mut ids);
    ids
}

/// One character entry of the root reference.
pub open spec fn char_entry(nodes: Seq<TreeNode>, id: Seq<char>, name: Seq<char>, incomplete: Seq<char>) -> Seq<char> {
    match first_node(nodes, id) {
        Some(k) => match nodes[k].character {
            Some(c) => "- "@ + name + "："@ + nodes[k].label@ + "\n"@
                + truncate_spec(character_full_spec(nodes[k].label@, c), CHARACTER_INJECT_CAP as nat) + "\n"@,
            None => "- "@ + name + "："@ + nodes[k].label@ + " "@ + incomplete + "\n"@,
        },
        None => Seq::empty(),
    }
}

pub open spec fn char_entries(nodes: Seq<TreeNode>, ids: Seq<Seq<char>>, name: Seq<char>, incomplete: Seq<char>) -> Seq<char>
    decreases ids.len(),
{
    if ids.len() == 0 {
        Seq::empty()
    } else {
        char_entries(nodes, ids.drop_last(), name, incomplete) + char_entry(nodes, ids.last(), name, incomplete)
    }
}

/// The synopsis, or a placeholder when it is blank.
pub open spec fn synopsis_or_placeholder(synopsis: Seq<char>, zh: bool) -> Seq<char> {
    if trim(synopsis).len() == 0 {
        if zh { "（暂无简介）"@ } else { "(no synopsis)"@ }
    } else {
        synopsis
    }
}

/// The root card's notes, unless blank or the same as the synopsis.
pub open spec fn root_notes(root_outline: Seq<char>, synopsis: Seq<char>, zh: bool) -> Seq<char> {
    if trim(root_outline).len() == 0 || trim(root_outline) == trim(synopsis) {
        Seq::empty()
    } else if zh {
        "根节点补充说明：\n"@ + root_outline + "\n"@
    } else {
        "Root notes:\n"@ + root_outline + "\n"@
    }
}

pub open spec fn root_outline_of(tree: NovelTree) -> Seq<char> {
    match root_pos(tree) {
        Some(r) => tree.nodes@[r].outline@,
        None => Seq::empty(),
    }
}

/// The reference a chapter is written against: synopsis, root notes and
/// the root's character cards (`name` and `incomplete` are the locale's
/// words for a character's name and for a card without details).
pub open spec fn root_reference_spec(tree: NovelTree, synopsis: Seq<char>, zh: bool, name: Seq<char>, incomplete: Seq<char>) -> Seq<char> {
    let entries = char_entries(tree.nodes@, root_char_ids(tree), name, incomplete);
    let chars = if entries.len() == 0 {
        if zh { "（根节点未关联人物卡）\n"@ } else { "(no characters linked to root)\n"@ }
    } else {
        entries
    };
    let syn = synopsis_or_placeholder(synopsis, zh);
    let extra = root_notes(root_outline_of(tree), synopsis, zh);
    if zh {
        "【全书故事简介】\n"@ + syn + "\n"@ + extra + "\n【根节点关联人物卡（参考）】\n"@ + chars
    } else {
        "[Novel synopsis]\n"@ + syn + "\n"@ + extra + "\n[Root-linked character cards (reference)]\n"@ + chars
    }
}

fn root_outline_exec(tree: &NovelTree) -> (r: &str)
    ensures
        r@ == root_outline_of(*tree),
{
    proof {
        reveal_strlit("");
    }
    match find_root_index(&tree.nodes) {
        Some(i) => tree.nodes[i].outline.as_str(),
        None => "",
    }
}

fn synopsis_or_placeholder_exec(synopsis: &str, zh: bool) -> (r: &str)
    ensures
        r@ == synopsis_or_placeholder(synopsis@, zh),
{
    if trim_str(synopsis).len() == 0 {
        if zh { "（暂无简介）" } else { "(no synopsis)" }
    } else {
        synopsis
    }
}

fn root_notes_exec(root_outline: &str, synopsis: &str, zh: bool) -> (r: Vec<char>)
    ensures
        r@ == root_notes(root_outline@, synopsis@, zh),
{
    let t = trim_str(root_outline);
    if t.len() == 0 || crate::text::eq(&t, &trim_str(synopsis)) {
        return Vec::new();
    }
    let mut out = if zh { chars_of("根节点补充说明：\n") } else { chars_of("Root notes:\n") };
    append_str(&mut out, root_outline);
    append_str(&mut out, "\n");
    out
}

fn push_char_entry(chars: &mut Vec<char>, nodes: &Vec<TreeNode>, id: &String, name: &str, incomplete: &str)
    ensures
        final(chars)@ == old(chars)@ + char_entry(nodes@, id@, name@, incomplete@),
{
    let ghost c0 = chars@;
    match find_node(nodes, id) {
        Some(k) => {
            let n = &nodes[k];
            append_str(chars, "- ");
            append_str(chars, name);
            append_str(chars, "：");
            append_str(chars, n.label.as_str());
            match &n.character {
                Some(c) => {
                    append_str(chars, "\n");
                    let body = truncate_chars(format_character_full(n.label.as_str(), c).as_str(), CHARACTER_INJECT_CAP);
                    append_str(chars, body.as_str());
                    append_str(chars, "\n");
                },
                None => {
                    append_str(chars, " ");
                    append_str(chars, incomplete);
                    append_str(chars, "\n");
                },
            }
        },
        None => {
            assert(char_entry(nodes@, id@, name@, incomplete@) =~= Seq::<char>::empty());
            assert(chars@ =~= c0 + Seq::<char>::empty());
        },
    }
}

/// See `root_reference_spec`.
pub fn root_generate_reference(tree: &NovelTree, synopsis: &str, zh: bool, name: &str, incomplete: &str) -> (r: String)
    ensures
        r@ == root_reference_spec(*tree, synopsis@, zh, name@, incomplete@),
{
    let ids = root_character_ids(tree);
    let mut chars: Vec<char> = Vec::new();
    let mut i: usize = 0;
    while i < ids.len()
        invariant
            i <= ids@.len(),
            chars@ == char_entries(tree.nodes@, str_views(ids@).subrange(0, i as int), name@, incomplete@),
        decreases ids@.len() - i,
    {
        let ghost pre = str_views(ids@).subrange(0, i as int);
        assert(str_views(ids@).subrange(0, i + 1).drop_last() =~= pre);
        assert(str_views(ids@).subrange(0, i + 1).last() == ids@[i as int]@);
        push_char_entry(&mut chars, &tree.nodes, &ids[i], name, incomplete);
        i += 1;
    }
    assert(str_views(ids@).subrange(0, ids@.len() as int) =~= str_views(ids@));
    if chars.len() == 0 {
        chars = if zh { chars_of("（根节点未关联人物卡）\n") } else { chars_of("(no characters linked to root)\n") };
    }
    let syn = synopsis_or_placeholder_exec(synopsis, zh);
    let extra = root_notes_exec(root_outline_exec(tree), synopsis, zh);
    let mut out = if zh { chars_of("【全书故事简介】\n") } else { chars_of("[Novel synopsis]\n") };
    append_str(&mut out, syn);
    append_str(&mut out, "\n");
    crate::text::append(&mut out, &extra);
    append_str(&mut out, if zh { "\n【根节点关联人物卡（参考）】\n" } else { "\n[Root-linked character cards (reference)]\n" });
    crate::text::append(&mut out, &chars);
    string_of(&out)
}

/// The brief an outline is planned against: synopsis, the novel's feature
/// block (`features`, as the app formats it) and the root card's notes.
pub open spec fn root_brief_spec(tree: NovelTree, synopsis: Seq<char>, features: Seq<char>, zh: bool) -> Seq<char> {
    let syn = synopsis_or_placeholder(synopsis, zh);
    let extra = root_notes(root_outline_of(tree), synopsis, zh);
    if zh {
        "【全书故事简介】\n"@ + syn + "\n"@ + features + "\n"@ + extra
    } else {
        "[Novel synopsis]\n"@ + syn + "\n"@ + features + "\n"@ + extra
    }
}

/// See `root_brief_spec`.
pub fn root_brief_for_outline(tree: &NovelTree, synopsis: &str, features: &str, zh: bool) -> (r: String)
    ensures
        r@ == root_brief_spec(*tree, synopsis@, features@, zh),
{
    let syn = synopsis_or_placeholder_exec(synopsis, zh);
    let extra = root_notes_exec(root_outline_exec(tree), synopsis, zh);
    let mut out = if zh { chars_of("【全书故事简介】\n") } else { chars_of("[Novel synopsis]\n") };
    append_str(&mut out, syn);
    append_str(&mut out, "\n");
    append_str(&mut out, features);
    append_str(&mut out, "\n");
    crate::text::append(&mut out, &extra);
    string_of(&out)
}

} // verus!
