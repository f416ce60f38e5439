//! Small readings of cards: a plot card's status word, a library's canon
//! mode, the knowledge card of a slot, and the character a label names.
use vstd::prelude::*;
use crate::global_chat::ascii_lowercase;
use crate::models::{is_slot_card, node_is_slot_card, NodeKind, NovelTree, TreeNode};
use crate::text::{ascii_lower_seq, chars_of, contains, eq_str, has_sub, trim, trim_str, trimmed};
use crate::tree_refs::{first_where, lemma_first_where};

verus! {

/// A plot card status: `resolved`, `deferred`, or `active` for anything else.
pub open spec fn plot_status_spec(raw: Seq<char>) -> Seq<char> {
    let s = ascii_lower_seq(trim(raw));
    if s == "resolved"@ || s == "done"@ || s == "closed"@ || s == "已收束"@ || s == "收束"@ {
        "resolved"@
    } else if s == "deferred"@ || s == "paused"@ || s == "hold"@ || s == "搁置"@ {
        "deferred"@
    } else {
        "active"@
    }
}

/// See `plot_status_spec`.
pub fn normalize_plot_status(raw: &str) -> (r: String)
    ensures
        r@ == plot_status_spec(raw@),
{
    let s = ascii_lowercase(&trim_str(raw));
    if eq_str(&s, "resolved") || eq_str(&s, "done") || eq_str(&s, "closed") || eq_str(&s, "已收束") || eq_str(&s, "收束") {
        String::from_str("resolved")
    } else if eq_str(&s, "deferred") || eq_str(&s, "paused") || eq_str(&s, "hold") || eq_str(&s, "搁置") {
        String::from_str("deferred")
    } else {
        String::from_str("active")
    }
}

/// A knowledge library's canon mode: `strict` (or `locked`) is strict,
/// anything else is reference.
pub open spec fn canon_mode_spec(mode: Seq<char>) -> Seq<char> {
    let s = ascii_lower_seq(trim(mode));
    if s == "strict"@ || s == "locked"@ { "strict"@ } else { "reference"@ }
}

/// See `canon_mode_spec`.
pub fn normalize_canon_mode(mode: &str) -> (r: String)
    ensures
        r@ == canon_mode_spec(mode@),
{
    let s = ascii_lowercase(&trim_str(mode));
    if eq_str(&s, "strict") || eq_str(&s, "locked") {
        String::from_str("strict")
    } else {
        String::from_str("reference")
    }
}

/// The first knowledge card of the tree whose slot is `slot`.
pub fn knowledge_by_slot<'a>(tree: &'a NovelTree, slot: &str) -> (r: Option<&'a TreeNode>)
    ensures
        match r {
            Some(n) => first_where(tree.nodes@, |x: TreeNode| is_slot_card(x, slot@)) matches Some(i) && *n == tree.nodes@[i],
            None => first_where(tree.nodes@, |x: TreeNode| is_slot_card(x, slot@)) is None,
        },
{
    let ghost p = |x: TreeNode| is_slot_card(x, slot@);
    let mut i: usize = 0;
    while i < tree.nodes.len()
        invariant
            i <= tree.nodes.len(),
            p == (|x: TreeNode| is_slot_card(x, slot@)),
            forall|j: int| 0 <= j < i ==> !p(#[trigger] tree.nodes@[j]),
        decreases tree.nodes.len() - i,
    {
        if node_is_slot_card(&tree.nodes[i], slot) {
            proof {
                lemma_first_where(tree.nodes@, p, i as int);
            }
            return Some(&tree.nodes[i]);
        }
        i += 1;
    }
    assert(!(exists|k: int| 0 <= k < tree.nodes@.len() && p(tree.nodes@[k])));
    None
}

/// A character card whose trimmed label equals `key`, contains it, or is
/// contained in it.
pub open spec fn label_matches(n: TreeNode, key: Seq<char>) -> bool {
    let l = trim(n.label@);
    n.kind == NodeKind::Character && (l == key || has_sub(l, key) || has_sub(key, l))
}

/// The id of the first character card a label names (see
/// `label_matches`); none for a blank label.
pub open spec fn character_by_label_spec(nodes: Seq<TreeNode>, label: Seq<char>) -> Option<Seq<char>> {
    let key = trim(label);
    if key.len() == 0 {
        None
    } else {
        match first_where(nodes, |n: TreeNode| label_matches(n, key)) {
            Some(i) => Some(nodes[i].id@),
            None => None,
        }
    }
}

/// See `character_by_label_spec`.
pub fn find_character_id_by_label(tree: &NovelTree, label: &str) -> (r: Option<String>)
    ensures
        match r {
            Some(id) => character_by_label_spec(tree.nodes@, label@) == Some(id@),
            None => character_by_label_spec(tree.nodes@, label@) is None,
        },
{
    let key = trim_str(label);
    if key.len() == 0 {
        return None;
    }
    let ghost kv = key@;
    let ghost p = |n: TreeNode| label_matches(n, kv);
    let mut i: usize = 0;
    while i < tree.nodes.len()
        invariant
            i <= tree.nodes.len(),
            kv == key@,
            kv == trim(label@),
            kv.len() > 0,
            p == (|n: TreeNode| label_matches(n, kv)),
            forall|j: int| 0 <= j < i ==> !p(#[trigger] tree.nodes@[j]),
        decreases tree.nodes.len() - i,
    {
        let n = &tree.nodes[i];
        if n.kind == NodeKind::Character {
            let l = trimmed(&chars_of(n.label.as_str()));
            if crate::text::eq(&l, &key) || contains(&l, &key) || contains(&key, &l) {
                assert(p(tree.nodes@[i as int]));
                proof {
                    lemma_first_where(tree.nodes@, p, i as int);
                    assert((|n: TreeNode| label_matches(n, trim(label@))) =~= p);
                }
                return Some(n.id.clone());
            }
        }
        i += 1;
    }
    assert(!(exists|k: int| 0 <= k < tree.nodes@.len() && p(tree.nodes@[k])));
    assert((|n: TreeNode| label_matches(n, trim(label@))) =~= p);
    None
}

} // verus!
