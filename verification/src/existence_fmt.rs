//! The foundations-of-existence card, written out in full for injection.
use vstd::prelude::*;
use crate::card_text::{card_body, finish_card, push_section, section_lines};
use crate::models::{is_slot_card, node_is_slot_card, node_slot, slot_spec, ExistencePayload, TreeNode};
use crate::text::{string_of, vviews};

verus! {

pub const EXISTENCE_SLOT: &'static str = "wv_existence";

/// Injection cap of this card.
pub const EXISTENCE_INJECT_CAP: usize = 3500;

/// The trimmed slot of a node's knowledge card ("" without one).
pub fn knowledge_slot(n: &TreeNode) -> (r: String)
    ensures
        r@ == slot_spec(*n),
{
    string_of(&node_slot(n))
}

/// Whether the node is the foundations-of-existence card.
pub fn is_existence_card(n: &TreeNode) -> (r: bool)
    ensures
        r == is_slot_card(*n, EXISTENCE_SLOT@),
{
    node_is_slot_card(n, EXISTENCE_SLOT)
}

/// Sections of the structured fields, in order.
pub open spec fn existence_lines(ex: ExistencePayload) -> Seq<Seq<char>> {
    section_lines("一句话立意"@, ex.premise@)
        + section_lines("死亡"@, ex.death@)
        + section_lines("历法"@, ex.calendar@)
        + section_lines("寿命"@, ex.lifespan@)
        + section_lines("疫病与繁衍"@, ex.disease_reproduction@)
}

/// The full text: the outline as it is for a node without a card; else the
/// structured sections, falling back to the extracted text, then to the
/// trimmed outline.
pub open spec fn existence_full_spec(n: TreeNode) -> Seq<char> {
    match n.knowledge {
        None => n.outline@,
        Some(k) => card_body(
            match k.existence { Some(ex) => existence_lines(ex), None => Seq::empty() },
            k.extracted@,
            n.outline@,
        ),
    }
}

/// The full injected text of the card (structured fields first, since the
/// extracted text may be stale or cut).
pub fn format_existence_full(n: &TreeNode) -> (r: String)
    ensures
        r@ == existence_full_spec(*n),
{
    match &n.knowledge {
        None => n.outline.clone(),
        Some(kn) => {
            let mut lines: Vec<Vec<char>> = Vec::new();
            match &kn.existence {
                Some(ex) => {
                    push_section(&mut lines, "一句话立意", ex.premise.as_str());
                    push_section(&mut lines, "死亡", ex.death.as_str());
                    push_section(&mut lines, "历法", ex.calendar.as_str());
                    push_section(&mut lines, "寿命", ex.lifespan.as_str());
                    push_section(&mut lines, "疫病与繁衍", ex.disease_reproduction.as_str());
                    assert(vviews(lines@) =~= existence_lines(*ex));
                },
                None => {
                    assert(vviews(lines@) =~= Seq::<Seq<char>>::empty());
                },
            }
            finish_card(&lines, kn.extracted.as_str(), n.outline.as_str())
        },
    }
}

} // verus!
