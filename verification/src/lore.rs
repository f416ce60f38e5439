//! The canon a finished chapter is checked against: the worldview and
//! story-rules cards, each within its own budget, the whole within one.
use vstd::prelude::*;
use crate::core_laws_fmt::{inject_body_spec, knowledge_card_inject_body};
use crate::kb_context::{truncate_chars_vec, truncate_spec};
use crate::models::{is_slot_card, NovelTree, TreeNode};
use crate::text::{append, append_str, chars_of, join, join_exec, string_of, trim, trim_str, vviews};
use crate::tree_refs::first_where;

verus! {

/// The budget of the whole canon text, in characters.
pub const LORE_VERIFY_TOTAL_CAP: usize = 12000;

/// The part of one slot's card: its body cut to its cap, headed by its
/// title where it has one; nothing when the cut body has under 12
/// characters once trimmed, or when no card has the slot.
pub open spec fn lore_part(t: NovelTree, slot: Seq<char>, cap: nat) -> Seq<Seq<char>> {
    match first_where(t.nodes@, |x: TreeNode| is_slot_card(x, slot)) {
        Some(i) => {
            let n = t.nodes@[i];
            let b = truncate_spec(inject_body_spec(t, n), cap);
            if trim(b).len() < 12 {
                Seq::empty()
            } else if trim(n.label@).len() == 0 {
                seq![b]
            } else {
                seq![("【"@ + trim(n.label@) + "】\n"@) + b]
            }
        },
        None => Seq::empty(),
    }
}

/// The parts of the seven main slots, in their fixed order.
pub open spec fn lore_parts(t: NovelTree, caps: Seq<usize>) -> Seq<Seq<char>> {
    lore_part(t, "wv_core_laws"@, caps[0] as nat) + lore_part(t, "wv_spatiotemporal"@, caps[1] as nat)
        + lore_part(t, "wv_social_power"@, caps[2] as nat) + lore_part(t, "wv_existence"@, caps[3] as nat)
        + lore_part(t, "wv_info_flow"@, caps[4] as nat) + lore_part(t, "wv_history_culture"@, caps[5] as nat)
        + lore_part(t, "story_rules"@, caps[6] as nat)
}

pub open spec fn lore_canon_spec(t: NovelTree, caps: Seq<usize>) -> Seq<char> {
    truncate_spec(join(lore_parts(t, caps), "\n\n"@), LORE_VERIFY_TOTAL_CAP as nat)
}

fn lore_part_exec(tree: &NovelTree, slot: &str, cap: usize, parts: &mut Vec<Vec<char>>)
    ensures
        vviews(final(parts)@) == vviews(old(parts)@) + lore_part(*tree, slot@, cap as nat),
{
    match crate::card_meta::knowledge_by_slot(tree, slot) {
        Some(n) => {
            let body = knowledge_card_inject_body(tree, n);
            let b = truncate_chars_vec(&chars_of(body.as_str()), cap);
            if crate::text::trimmed(&b).len() < 12 {
                assert(vviews(parts@) =~= vviews(old(parts)@) + Seq::<Seq<char>>::empty());
                return;
            }
            let title = trim_str(n.label.as_str());
            if title.len() == 0 {
                parts.push(b);
            } else {
                let mut s = chars_of("【");
                append(&mut s, &title);
                append_str(&mut s, "】\n");
                append(&mut s, &b);
                parts.push(s);
            }
            assert(vviews(parts@) =~= vviews(old(parts)@) + lore_part(*tree, slot@, cap as nat));
        },
        None => {
            assert(vviews(parts@) =~= vviews(old(parts)@) + Seq::<Seq<char>>::empty());
        },
    }
}

/// The canon text of the worldview cards (core laws, space-time, social
/// power, existence, information flow, history and culture) and the story
/// rules, in that order. `caps` gives each card's own budget, in the same
/// order, as the knowledge-card rules set it.
pub fn lore_canon_text(tree: &NovelTree, caps: &[usize; 7]) -> (r: String)
    ensures
        r@ == lore_canon_spec(*tree, caps@),
{
    let mut parts: Vec<Vec<char>> = Vec::new();
    lore_part_exec(tree, "wv_core_laws", caps[0], &mut parts);
    lore_part_exec(tree, "wv_spatiotemporal", caps[1], &mut parts);
    lore_part_exec(tree, "wv_social_power", caps[2], &mut parts);
    lore_part_exec(tree, "wv_existence", caps[3], &mut parts);
    lore_part_exec(tree, "wv_info_flow", caps[4], &mut parts);
    lore_part_exec(tree, "wv_history_culture", caps[5], &mut parts);
    lore_part_exec(tree, "story_rules", caps[6], &mut parts);
    assert(vviews(parts@) =~= lore_parts(*tree, caps@));
    let joined = join_exec(&parts, "\n\n");
    string_of(&truncate_chars_vec(&joined, LORE_VERIFY_TOTAL_CAP))
}

/// A tree without knowledge cards has no canon text.
pub proof fn no_cards_no_lore(t: NovelTree, caps: Seq<usize>)
    requires
        caps.len() == 7,
        forall|i: int| 0 <= i < t.nodes@.len() ==> t.nodes@[i].kind != crate::models::NodeKind::Knowledge,
    ensures
        lore_canon_spec(t, caps) == Seq::<char>::empty(),
{
    let ns = t.nodes@;
    assert forall|slot: Seq<char>, cap: nat| #[trigger] lore_part(t, slot, cap) == Seq::<Seq<char>>::empty() by {
        let p = |x: TreeNode| is_slot_card(x, slot);
        if exists|i: int| 0 <= i < ns.len() && p(ns[i]) {
            let i = choose|i: int| 0 <= i < ns.len() && p(ns[i]);
            assert(ns[i].kind != crate::models::NodeKind::Knowledge);
        }
        assert(first_where(ns, p) is None);
    }
    assert(lore_parts(t, caps) =~= Seq::<Seq<char>>::empty());
    assert(join(Seq::<Seq<char>>::empty(), "\n\n"@) == Seq::<char>::empty());
}

} // verus!
