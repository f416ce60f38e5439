//! The characters around a card: those it lists and those linked to it,
//! and the looks of each for an image prompt.
use vstd::prelude::*;
use crate::character_fmt::{character_full_spec, format_character_full};
use crate::kb_context::{truncate_chars, truncate_spec};
use crate::models::{first_node, find_node, str_views, NodeKind, NovelTree, TreeEdge, TreeNode};
use crate::text::{append, append_str, chars_of, string_of};
use crate::tree_edit::{ev, evs, EdgeV};

verus! {

/// Some card of kind `kind` has id `x`.
pub open spec fn is_kind_id(ns: Seq<TreeNode>, x: Seq<char>, kind: NodeKind) -> bool {
    exists|i: int| 0 <= i < ns.len() && ns[i].id@ == x && ns[i].kind == kind
}

/// `acc` with the cards of kind `kind` linked to card `id` by `es` added,
/// each once, in link order.
pub open spec fn linked_cards(es: Seq<EdgeV>, ns: Seq<TreeNode>, id: Seq<char>, kind: NodeKind, acc: Seq<Seq<char>>) -> Seq<Seq<char>>
    decreases es.len(),
{
    if es.len() == 0 {
        acc
    } else {
        let prev = linked_cards(es.drop_last(), ns, id, kind, acc);
        let e = es.last();
        if e.source != id && e.target != id {
            prev
        } else {
            let other = if e.source == id { e.target } else { e.source };
            if is_kind_id(ns, other, kind) && !prev.contains(other) { prev.push(other) } else { prev }
        }
    }
}

pub(crate) fn is_kind_id_exec(ns: &Vec<TreeNode>, x: &String, kind: NodeKind) -> (r: bool)
    ensures
        r == is_kind_id(ns@, x@, kind),
{
    let mut i: usize = 0;
    while i < ns.len()
        invariant
            i <= ns.len(),
            forall|j: int| 0 <= j < i ==> !(ns@[j].id@ == x@ && ns@[j].kind == kind),
        decreases ns.len() - i,
    {
        if ns[i].id == *x && ns[i].kind == kind {
            return true;
        }
        i += 1;
    }
    false
}

pub(crate) fn contains_str_id(ids: &Vec<String>, x: &String) -> (r: bool)
    ensures
        r == str_views(ids@).contains(x@),
{
    let mut i: usize = 0;
    while i < ids.len()
        invariant
            i <= ids.len(),
            forall|j: int| 0 <= j < i ==> ids@[j]@ != x@,
        decreases ids.len() - i,
    {
        if ids[i] == *x {
            assert(str_views(ids@)[i as int] == x@);
            return true;
        }
        i += 1;
    }
    assert forall|j: int| 0 <= j < str_views(ids@).len() implies str_views(ids@)[j] != x@ by {
        assert(str_views(ids@)[j] == ids@[j]@);
    }
    false
}

/// Adds to `ids` the cards of kind `kind` linked to card `id` (see
/// `linked_cards`).
pub(crate) fn add_linked_cards(ids: &mut Vec<String>, tree: &NovelTree, id: &String, kind: NodeKind)
    ensures
        str_views(final(ids)@) == linked_cards(evs(tree.edges@), tree.nodes@, id@, kind, str_views(old(ids)@)),
{
    let ghost es = evs(tree.edges@);
    let ghost acc0 = str_views(ids@);
    let mut i: usize = 0;
    assert(es.subrange(0, 0) =~= Seq::<EdgeV>::empty());
    while i < tree.edges.len()
        invariant
            i <= tree.edges.len(),
            es == evs(tree.edges@),
            str_views(ids@) == linked_cards(es.subrange(0, i as int), tree.nodes@, id@, kind, acc0),
        decreases tree.edges.len() - i,
    {
        assert(es.subrange(0, i + 1).drop_last() =~= es.subrange(0, i as int));
        assert(es.subrange(0, i + 1).last() == ev(tree.edges@[i as int]));
        let e = &tree.edges[i];
        if e.source == *id || e.target == *id {
            let other = if e.source == *id { &e.target } else { &e.source };
            if is_kind_id_exec(&tree.nodes, other, kind) && !contains_str_id(ids, other) {
                let ghost before = str_views(ids@);
                ids.push(other.clone());
                assert(str_views(ids@) =~= before.push(other@));
            }
        }
        i += 1;
    }
    assert(es.subrange(0, tree.edges.len() as int) =~= es);
}

/// The looks line of character `x`: its label and its card (cut to 600
/// characters); nothing when no card has that id or the card has no
/// character sheet.
pub open spec fn look_of(ns: Seq<TreeNode>, x: Seq<char>) -> Seq<char> {
    match first_node(ns, x) {
        Some(k) => match ns[k].character {
            Some(c) => "- "@ + ns[k].label@ + "\n"@ + truncate_spec(character_full_spec(ns[k].label@, c), 600) + "\n"@,
            None => Seq::empty(),
        },
        None => Seq::empty(),
    }
}

pub open spec fn looks_of(ns: Seq<TreeNode>, ids: Seq<Seq<char>>) -> Seq<char>
    decreases ids.len(),
{
    if ids.len() == 0 { Seq::empty() } else { looks_of(ns, ids.drop_last()) + look_of(ns, ids.last()) }
}

/// The cast of card `node_id` for a shot prompt: the characters it lists,
/// then those linked to it, each with their looks (see `look_of`);
/// nothing when no card has that id.
pub open spec fn shot_looks_spec(tree: NovelTree, node_id: Seq<char>) -> Seq<char> {
    match first_node(tree.nodes@, node_id) {
        Some(k) => looks_of(tree.nodes@, linked_cards(evs(tree.edges@), tree.nodes@, node_id, NodeKind::Character,
            str_views(tree.nodes@[k].linked_character_ids@))),
        None => Seq::empty(),
    }
}

pub(crate) fn clone_ids(v: &Vec<String>) -> (r: Vec<String>)
    ensures
        str_views(r@) == str_views(v@),
{
    let mut out: Vec<String> = Vec::new();
    let mut i: usize = 0;
    while i < v.len()
        invariant
            i <= v.len(),
            str_views(out@) == str_views(v@).subrange(0, i as int),
        decreases v.len() - i,
    {
        let ghost before = str_views(out@);
        out.push(v[i].clone());
        assert(str_views(out@) =~= before.push(v@[i as int]@));
        assert(str_views(v@).subrange(0, i + 1) =~= str_views(v@).subrange(0, i as int).push(v@[i as int]@));
        i += 1;
    }
    assert(str_views(v@).subrange(0, v.len() as int) =~= str_views(v@));
    out
}

/// See `shot_looks_spec`.
pub fn shot_character_looks(tree: &NovelTree, node_id: &str) -> (r: String)
    ensures
        r@ == shot_looks_spec(*tree, node_id@),
{
    let id = String::from_str(node_id);
    let k = match find_node(&tree.nodes, &id) {
        Some(k) => k,
        None => {
            return String::new();
        },
    };
    let mut ids = clone_ids(&tree.nodes[k].linked_character_ids);
    add_linked_cards(&mut ids, tree, &id, NodeKind::Character);
    let ghost iv = str_views(ids@);
    let mut out: Vec<char> = Vec::new();
    let mut i: usize = 0;
    while i < ids.len()
        invariant
            i <= ids.len(),
            iv == str_views(ids@),
            out@ == looks_of(tree.nodes@, iv.subrange(0, i as int)),
        decreases ids.len() - i,
    {
        assert(iv.subrange(0, i + 1).drop_last() =~= iv.subrange(0, i as int));
        assert(iv.subrange(0, i + 1).last() == ids@[i as int]@);
        match find_node(&tree.nodes, &ids[i]) {
            Some(j) => {
                let n = &tree.nodes[j];
                match &n.character {
                    Some(c) => {
                        let body = truncate_chars(format_character_full(n.label.as_str(), c).as_str(), 600);
                        append_str(&mut out, "- ");
                        append_str(&mut out, n.label.as_str());
                        append_str(&mut out, "\n");
                        append_str(&mut out, body.as_str());
                        append_str(&mut out, "\n");
                    },
                    None => {},
                }
            },
            None => {},
        }
        i += 1;
    }
    assert(iv.subrange(0, ids.len() as int) =~= iv);
    string_of(&out)
}

} // verus!
