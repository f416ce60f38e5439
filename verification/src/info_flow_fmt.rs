//! The information-flow card, written out in full for injection.
use vstd::prelude::*;
use crate::card_text::{card_body, finish_card, push_section, section_lines};
use crate::models::{is_slot_card, node_is_slot_card, node_slot, slot_spec, InfoFlowPayload, TreeNode};
use crate::text::{string_of, vviews};

verus! {

pub const INFO_FLOW_SLOT: &'static str = "wv_info_flow";

/// Injection cap of this card.
pub const INFO_FLOW_INJECT_CAP: usize = 3500;

/// The trimmed slot of a node's knowledge card ("" without one).
pub fn knowledge_slot(n: &TreeNode) -> (r: String)
    ensures
        r@ == slot_spec(*n),
{
    string_of(&node_slot(n))
}

/// Whether the node is the information-flow card.
pub fn is_info_flow_card(n: &TreeNode) -> (r: bool)
    ensures
        r == is_slot_card(*n, INFO_FLOW_SLOT@),
{
    node_is_slot_card(n, INFO_FLOW_SLOT)
}

/// Sections of the structured fields, in order.
pub open spec fn info_flow_lines(ex: InfoFlowPayload) -> Seq<Seq<char>> {
    section_lines("一句话立意"@, ex.premise@)
        + section_lines("信息速度"@, ex.info_speed@)
        + section_lines("信息壁垒"@, ex.info_barrier@)
        + section_lines("流言与真相"@, ex.rumor_truth@)
        + section_lines("知识载体"@, ex.knowledge_carrier@)
}

/// The full text: the outline as it is for a node without a card; else the
/// structured sections, falling back to the extracted text, then to the
/// trimmed outline.
pub open spec fn info_flow_full_spec(n: TreeNode) -> Seq<char> {
    match n.knowledge {
        None => n.outline@,
        Some(k) => card_body(
            match k.info_flow { Some(ex) => info_flow_lines(ex), None => Seq::empty() },
            k.extracted@,
            n.outline@,
        ),
    }
}

/// The full injected text of the card (structured fields first, since the
/// extracted text may be stale or cut).
pub fn format_info_flow_full(n: &TreeNode) -> (r: String)
    ensures
        r@ == info_flow_full_spec(*n),
{
    match &n.knowledge {
        None => n.outline.clone(),
        Some(kn) => {
            let mut lines: Vec<Vec<char>> = Vec::new();
            match &kn.info_flow {
                Some(ex) => {
                    push_section(&mut lines, "一句话立意", ex.premise.as_str());
                    push_section(&mut lines, "信息速度", ex.info_speed.as_str());
                    push_section(&mut lines, "信息壁垒", ex.info_barrier.as_str());
                    push_section(&mut lines, "流言与真相", ex.rumor_truth.as_str());
                    push_section(&mut lines, "知识载体", ex.knowledge_carrier.as_str());
                    assert(vviews(lines@) =~= info_flow_lines(*ex));
                },
                None => {
                    assert(vviews(lines@) =~= Seq::<Seq<char>>::empty());
                },
            }
            finish_card(&lines, kn.extracted.as_str(), n.outline.as_str())
        },
    }
}

} // verus!
