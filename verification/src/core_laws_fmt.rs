//! The core-laws card written out in full for injection, with the world
//! axioms hung on it as child cards; and the injected body of any
//! knowledge card.
use vstd::prelude::*;
use crate::card_text::{card_body, finish_card, push_line, push_section, section_lines};
use crate::kb_context::KNOWLEDGE_CARD_EXTRACT_CAP;
use crate::models::{
    derefs, is_slot_card, linked_by_slot, linked_by_slot_spec, node_is_slot_card, node_slot,
    slot_spec, CoreLawsPayload, NovelTree, TreeNode, WorldAxiom,
};
use crate::text::{append, append_decimal, append_str, chars_of, decimal, string_of, trim, trimmed, trim_str, vviews};

verus! {

pub const AXIOM_SLOT: &'static str = "wv_axiom";
pub const CORE_LAWS_SLOT: &'static str = "wv_core_laws";

/// Injection cap of the core-laws card (room for the whole axiom list).
pub const CORE_LAWS_INJECT_CAP: usize = 3500;

/// The knowledge budget when the core laws are injected: `base` plus what
/// their cap exceeds an ordinary card's.
pub fn knowledge_inject_total(base: usize) -> (r: usize)
    requires
        base + (CORE_LAWS_INJECT_CAP - KNOWLEDGE_CARD_EXTRACT_CAP) <= usize::MAX,
    ensures
        r == base + (CORE_LAWS_INJECT_CAP - KNOWLEDGE_CARD_EXTRACT_CAP),
{
    base + CORE_LAWS_INJECT_CAP.saturating_sub(KNOWLEDGE_CARD_EXTRACT_CAP)
}

/// The trimmed slot of a node's knowledge card ("" without one).
pub fn knowledge_slot(n: &TreeNode) -> (r: String)
    ensures
        r@ == slot_spec(*n),
{
    string_of(&node_slot(n))
}

/// Whether the node is the core-laws card.
pub fn is_core_laws_card(n: &TreeNode) -> (r: bool)
    ensures
        r == is_slot_card(*n, CORE_LAWS_SLOT@),
{
    node_is_slot_card(n, CORE_LAWS_SLOT)
}

/// The axiom cards linked to the core-laws node `core_id`, each once, in
/// canvas order.
pub fn linked_axiom_nodes<'a>(tree: &'a NovelTree, core_id: &str) -> (r: Vec<&'a TreeNode>)
    ensures
        derefs(r@) == linked_by_slot_spec(*tree, core_id@, AXIOM_SLOT@),
{
    let id = String::from_str(core_id);
    linked_by_slot(tree, &id, AXIOM_SLOT)
}

/// An axiom with any non-blank field.
pub open spec fn axiom_has_content(a: WorldAxiom) -> bool {
    ||| trim(a.name@).len() > 0
    ||| trim(a.statement@).len() > 0
    ||| trim(a.boundary@).len() > 0
    ||| trim(a.cost@).len() > 0
    ||| trim(a.mechanism@).len() > 0
}

fn has_content(a: &WorldAxiom) -> (r: bool)
    ensures
        r == axiom_has_content(*a),
{
    trim_str(a.name.as_str()).len() > 0
        || trim_str(a.statement.as_str()).len() > 0
        || trim_str(a.boundary.as_str()).len() > 0
        || trim_str(a.cost.as_str()).len() > 0
        || trim_str(a.mechanism.as_str()).len() > 0
}

/// `label` and the trimmed value as one line; nothing for a blank value.
pub open spec fn opt_line(label: Seq<char>, v: Seq<char>) -> Seq<Seq<char>> {
    if trim(v).len() > 0 { seq![label + trim(v)] } else { Seq::empty() }
}

/// One axiom: `### name` (its number when unnamed), its non-blank fields,
/// an empty line.
pub open spec fn axiom_block(a: WorldAxiom, idx: nat) -> Seq<Seq<char>> {
    let title = if trim(a.name@).len() == 0 { decimal(idx) } else { trim(a.name@) };
    seq!["### "@ + title]
        + opt_line("- 表述："@, a.statement@)
        + opt_line("- 边界："@, a.boundary@)
        + opt_line("- 代价："@, a.cost@)
        + opt_line("- 执行机制："@, a.mechanism@)
        + seq![Seq::<char>::empty()]
}

/// The axiom blocks, numbered from 1.
pub open spec fn axiom_blocks(axs: Seq<WorldAxiom>) -> Seq<Seq<char>>
    decreases axs.len(),
{
    if axs.len() == 0 {
        Seq::empty()
    } else {
        axiom_blocks(axs.drop_last()) + axiom_block(axs.last(), axs.len())
    }
}

/// The axioms with content, in order.
pub open spec fn content_axioms(axs: Seq<WorldAxiom>) -> Seq<WorldAxiom>
    decreases axs.len(),
{
    if axs.len() == 0 {
        Seq::empty()
    } else {
        let rest = content_axioms(axs.drop_last());
        if axiom_has_content(axs.last()) { rest.push(axs.last()) } else { rest }
    }
}

/// The axioms with content that the linked axiom cards hold, in order.
pub open spec fn card_axioms(ns: Seq<TreeNode>) -> Seq<WorldAxiom>
    decreases ns.len(),
{
    if ns.len() == 0 {
        Seq::empty()
    } else {
        let rest = card_axioms(ns.drop_last());
        match ns.last().knowledge {
            Some(k) => match k.world_axiom {
                Some(a) => if axiom_has_content(a) { rest.push(a) } else { rest },
                None => rest,
            },
            None => rest,
        }
    }
}

/// The axioms shown: those of the linked cards, or, when there are none,
/// those still held inside the core-laws card.
pub open spec fn shown_axioms(linked: Seq<TreeNode>, cl: CoreLawsPayload) -> Seq<WorldAxiom> {
    let from_cards = card_axioms(linked);
    if from_cards.len() > 0 { from_cards } else { content_axioms(cl.axioms@) }
}

/// The trimmed non-blank taboos, in order.
pub open spec fn taboo_texts(ts: Seq<String>) -> Seq<Seq<char>>
    decreases ts.len(),
{
    if ts.len() == 0 {
        Seq::empty()
    } else {
        let rest = taboo_texts(ts.drop_last());
        if trim(ts.last()@).len() > 0 { rest.push(trim(ts.last()@)) } else { rest }
    }
}

/// Taboos numbered from 1.
pub open spec fn numbered(ts: Seq<Seq<char>>) -> Seq<Seq<char>>
    decreases ts.len(),
{
    if ts.len() == 0 {
        Seq::empty()
    } else {
        numbered(ts.drop_last()).push(decimal(ts.len()) + ". "@ + ts.last())
    }
}

/// The lines of the core-laws card.
pub open spec fn core_laws_lines(linked: Seq<TreeNode>, cl: CoreLawsPayload) -> Seq<Seq<char>> {
    let axs = shown_axioms(linked, cl);
    let taboos = taboo_texts(cl.taboos@);
    section_lines("一句话立意"@, cl.premise@)
        + (if axs.len() > 0 { seq!["## 世界公理"@] + axiom_blocks(axs) } else { Seq::empty() })
        + (if taboos.len() > 0 { seq!["## 禁忌红线"@] + numbered(taboos) + seq![Seq::<char>::empty()] } else { Seq::empty() })
        + section_lines("力量体系"@, cl.power_system@)
        + section_lines("力量表现"@, cl.power_expression@)
}

/// The full text of the core-laws card `core` of `tree`.
pub open spec fn core_laws_full_spec(tree: NovelTree, core: TreeNode) -> Seq<char> {
    match core.knowledge {
        None => core.outline@,
        Some(k) => card_body(
            match k.core_laws {
                Some(cl) => core_laws_lines(linked_by_slot_spec(tree, core.id@, AXIOM_SLOT@), cl),
                None => Seq::empty(),
            },
            k.extracted@,
            core.outline@,
        ),
    }
}

pub open spec fn ax_derefs(s: Seq<&WorldAxiom>) -> Seq<WorldAxiom> {
    s.map_values(|a: &WorldAxiom| *a)
}

fn push_opt(lines: &mut Vec<Vec<char>>, label: &str, v: &str)
    ensures
        vviews(final(lines)@) == vviews(old(lines)@) + opt_line(label@, v@),
{
    let t = trim_str(v);
    let ghost before = vviews(lines@);
    if t.len() > 0 {
        let mut l = chars_of(label);
        append(&mut l, &t);
        push_line(lines, l);
        assert(vviews(lines@) =~= before + opt_line(label@, v@));
    } else {
        assert(vviews(lines@) =~= before + opt_line(label@, v@));
    }
}

fn push_axiom(lines: &mut Vec<Vec<char>>, a: &WorldAxiom, idx: u64)
    ensures
        vviews(final(lines)@) == vviews(old(lines)@) + axiom_block(*a, idx as nat),
{
    let ghost before = vviews(lines@);
    let name = trim_str(a.name.as_str());
    let mut title = chars_of("### ");
    if name.len() == 0 {
        append_decimal(&mut title, idx);
    } else {
        append(&mut title, &name);
    }
    push_line(lines, title);
    push_opt(lines, "- 表述：", a.statement.as_str());
    push_opt(lines, "- 边界：", a.boundary.as_str());
    push_opt(lines, "- 代价：", a.cost.as_str());
    push_opt(lines, "- 执行机制：", a.mechanism.as_str());
    push_line(lines, Vec::new());
    assert(vviews(lines@) =~= before + axiom_block(*a, idx as nat));
}

fn axioms_of_cards<'a>(ns: &Vec<&'a TreeNode>) -> (r: Vec<&'a WorldAxiom>)
    ensures
        ax_derefs(r@) == card_axioms(derefs(ns@)),
{
    let mut out: Vec<&WorldAxiom> = Vec::new();
    let mut i: usize = 0;
    while i < ns.len()
        invariant
            i <= ns.len(),
            ax_derefs(out@) == card_axioms(derefs(ns@).subrange(0, i as int)),
        decreases ns.len() - i,
    {
        let ghost pre = derefs(ns@).subrange(0, i as int);
        assert(derefs(ns@).subrange(0, i + 1).drop_last() =~= pre);
        assert(derefs(ns@).subrange(0, i + 1).last() == *ns@[i as int]);
        let ghost before = out@;
        match &ns[i].knowledge {
            Some(k) => match &k.world_axiom {
                Some(a) => {
                    if has_content(a) {
                        out.push(a);
                        assert(ax_derefs(out@) =~= ax_derefs(before).push(*a));
                    }
                },
                None => {},
            },
            None => {},
        }
        i += 1;
    }
    assert(derefs(ns@).subrange(0, ns.len() as int) =~= derefs(ns@));
    out
}

fn axioms_with_content(axs: &Vec<WorldAxiom>) -> (r: Vec<&WorldAxiom>)
    ensures
        ax_derefs(r@) == content_axioms(axs@),
{
    let mut out: Vec<&WorldAxiom> = Vec::new();
    let mut i: usize = 0;
    while i < axs.len()
        invariant
            i <= axs.len(),
            ax_derefs(out@) == content_axioms(axs@.subrange(0, i as int)),
        decreases axs.len() - i,
    {
        assert(axs@.subrange(0, i + 1).drop_last() =~= axs@.subrange(0, i as int));
        let ghost before = out@;
        if has_content(&axs[i]) {
            out.push(&axs[i]);
            assert(ax_derefs(out@) =~= ax_derefs(before).push(axs@[i as int]));
        }
        i += 1;
    }
    assert(axs@.subrange(0, axs.len() as int) =~= axs@);
    out
}

fn push_axiom_list(lines: &mut Vec<Vec<char>>, axs: &Vec<&WorldAxiom>)
    ensures
        vviews(final(lines)@) == vviews(old(lines)@) + axiom_blocks(ax_derefs(axs@)),
{
    let ghost base = vviews(lines@);
    let mut i: usize = 0;
    while i < axs.len()
        invariant
            i <= axs.len(),
            vviews(lines@) == base + axiom_blocks(ax_derefs(axs@).subrange(0, i as int)),
        decreases axs.len() - i,
    {
        let ghost pre = ax_derefs(axs@).subrange(0, i as int);
        let ghost nxt = ax_derefs(axs@).subrange(0, i + 1);
        assert(nxt.drop_last() =~= pre);
        assert(nxt.last() == *axs@[i as int]);
        push_axiom(lines, axs[i], (i + 1) as u64);
        assert(vviews(lines@) =~= base + axiom_blocks(nxt));
        i += 1;
    }
    assert(ax_derefs(axs@).subrange(0, axs.len() as int) =~= ax_derefs(axs@));
}

fn taboo_list(ts: &Vec<String>) -> (r: Vec<Vec<char>>)
    ensures
        vviews(r@) == taboo_texts(ts@),
{
    let mut out: Vec<Vec<char>> = Vec::new();
    let mut i: usize = 0;
    while i < ts.len()
        invariant
            i <= ts.len(),
            vviews(out@) == taboo_texts(ts@.subrange(0, i as int)),
        decreases ts.len() - i,
    {
        assert(ts@.subrange(0, i + 1).drop_last() =~= ts@.subrange(0, i as int));
        let t = trim_str(ts[i].as_str());
        if t.len() > 0 {
            push_line(&mut out, t);
        }
        i += 1;
    }
    assert(ts@.subrange(0, ts.len() as int) =~= ts@);
    out
}

fn push_numbered(lines: &mut Vec<Vec<char>>, ts: &Vec<Vec<char>>)
    ensures
        vviews(final(lines)@) == vviews(old(lines)@) + numbered(vviews(ts@)),
{
    let ghost base = vviews(lines@);
    let mut i: usize = 0;
    while i < ts.len()
        invariant
            i <= ts.len(),
            vviews(lines@) == base + numbered(vviews(ts@).subrange(0, i as int)),
        decreases ts.len() - i,
    {
        let ghost nxt = vviews(ts@).subrange(0, i + 1);
        assert(nxt.drop_last() =~= vviews(ts@).subrange(0, i as int));
        let mut l: Vec<char> = Vec::new();
        append_decimal(&mut l, (i + 1) as u64);
        append_str(&mut l, ". ");
        append(&mut l, &ts[i]);
        push_line(lines, l);
        assert(vviews(lines@) =~= base + numbered(nxt));
        i += 1;
    }
    assert(vviews(ts@).subrange(0, ts.len() as int) =~= vviews(ts@));
}

fn core_lines(tree: &NovelTree, core: &TreeNode, cl: &CoreLawsPayload) -> (r: Vec<Vec<char>>)
    ensures
        vviews(r@) == core_laws_lines(linked_by_slot_spec(*tree, core.id@, AXIOM_SLOT@), *cl),
{
    let mut lines: Vec<Vec<char>> = Vec::new();
    push_section(&mut lines, "一句话立意", cl.premise.as_str());
    let linked = linked_by_slot(tree, &core.id, AXIOM_SLOT);
    let ghost ln = derefs(linked@);
    let mut axs = axioms_of_cards(&linked);
    if axs.len() == 0 {
        axs = axioms_with_content(&cl.axioms);
    }
    assert(ax_derefs(axs@) == shown_axioms(ln, *cl));
    let ghost after_premise = vviews(lines@);
    if axs.len() > 0 {
        push_line(&mut lines, chars_of("## 世界公理"));
        push_axiom_list(&mut lines, &axs);
    }
    assert(vviews(lines@) =~= after_premise + (if ax_derefs(axs@).len() > 0 { seq!["## 世界公理"@] + axiom_blocks(ax_derefs(axs@)) } else { Seq::empty() }));
    let taboos = taboo_list(&cl.taboos);
    let ghost after_axioms = vviews(lines@);
    if taboos.len() > 0 {
        push_line(&mut lines, chars_of("## 禁忌红线"));
        push_numbered(&mut lines, &taboos);
        push_line(&mut lines, Vec::new());
    }
    assert(vviews(lines@) =~= after_axioms + (if vviews(taboos@).len() > 0 { seq!["## 禁忌红线"@] + numbered(vviews(taboos@)) + seq![Seq::<char>::empty()] } else { Seq::empty() }));
    push_section(&mut lines, "力量体系", cl.power_system.as_str());
    push_section(&mut lines, "力量表现", cl.power_expression.as_str());
    assert(vviews(lines@) =~= core_laws_lines(ln, *cl));
    lines
}

/// The full injected text of the core-laws card: premise, the axioms of
/// its linked axiom cards (or, when none has content, its own axioms),
/// numbered taboos, power system and its expression; these come before the
/// extracted text, which may be stale or cut.
pub fn format_core_laws_full(tree: &NovelTree, core: &TreeNode) -> (r: String)
    ensures
        r@ == core_laws_full_spec(*tree, *core),
{
    match &core.knowledge {
        None => core.outline.clone(),
        Some(kn) => {
            let lines: Vec<Vec<char>> = match &kn.core_laws {
                Some(cl) => core_lines(tree, core, cl),
                None => Vec::new(),
            };
            finish_card(&lines, kn.extracted.as_str(), core.outline.as_str())
        },
    }
}

/// The body of any other knowledge card: its extracted text, else its
/// extraction prompt, else its outline (each trimmed).
pub open spec fn plain_card_spec(n: TreeNode) -> Seq<char> {
    let feat = match n.knowledge { Some(k) => trim(k.extracted@), None => Seq::empty() };
    let req = match n.knowledge { Some(k) => trim(k.extract_prompt@), None => Seq::empty() };
    if feat.len() > 0 { feat } else if req.len() > 0 { req } else { trim(n.outline@) }
}

/// The injected body of a knowledge card. Space-time, social-power and
/// story-rules cards (and the story-rules sub-cards) have structured
/// formatters of their own in the app whose rules this library does not
/// hold; here they are read like any other card, by their text.
pub open spec fn inject_body_spec(tree: NovelTree, n: TreeNode) -> Seq<char> {
    if is_slot_card(n, CORE_LAWS_SLOT@) {
        core_laws_full_spec(tree, n)
    } else if is_slot_card(n, crate::existence_fmt::EXISTENCE_SLOT@) {
        crate::existence_fmt::existence_full_spec(n)
    } else if is_slot_card(n, crate::info_flow_fmt::INFO_FLOW_SLOT@) {
        crate::info_flow_fmt::info_flow_full_spec(n)
    } else if is_slot_card(n, crate::history_culture_fmt::HISTORY_CULTURE_SLOT@) {
        crate::history_culture_fmt::history_culture_full_spec(tree, n)
    } else {
        plain_card_spec(n)
    }
}

/// The body of a knowledge card as injected into writing and outline
/// prompts: the structured cards (core laws, existence, information flow,
/// history and culture) in full with their child cards; any other card,
/// space-time, social-power and story-rules cards included, by its
/// extracted text, else its extraction prompt, else its outline.
pub fn knowledge_card_inject_body(tree: &NovelTree, n: &TreeNode) -> (r: String)
    ensures
        r@ == inject_body_spec(*tree, *n),
{
    if is_core_laws_card(n) {
        return format_core_laws_full(tree, n);
    }
    if crate::existence_fmt::is_existence_card(n) {
        return crate::existence_fmt::format_existence_full(n);
    }
    if crate::info_flow_fmt::is_info_flow_card(n) {
        return crate::info_flow_fmt::format_info_flow_full(n);
    }
    if crate::history_culture_fmt::is_history_culture_card(n) {
        return crate::history_culture_fmt::format_history_culture_full(tree, n);
    }
    let feat: Vec<char> = match &n.knowledge { Some(k) => trim_str(k.extracted.as_str()), None => Vec::new() };
    if feat.len() > 0 {
        return string_of(&feat);
    }
    let req: Vec<char> = match &n.knowledge { Some(k) => trim_str(k.extract_prompt.as_str()), None => Vec::new() };
    if req.len() > 0 {
        return string_of(&req);
    }
    string_of(&trim_str(n.outline.as_str()))
}

/// The axiom cards of a core-laws card: each an axiom card linked to it
/// (by its own list or by an edge), each once, in canvas order.
pub proof fn linked_axioms_once_in_order(tree: NovelTree, core_id: Seq<char>)
    ensures
        crate::models::canvas_sorted_distinct(linked_by_slot_spec(tree, core_id, AXIOM_SLOT@)),
        forall|k: int| 0 <= k < linked_by_slot_spec(tree, core_id, AXIOM_SLOT@).len() ==>
            is_slot_card(#[trigger] linked_by_slot_spec(tree, core_id, AXIOM_SLOT@)[k], AXIOM_SLOT@)
            && crate::models::linked_ids(tree, core_id).contains(linked_by_slot_spec(tree, core_id, AXIOM_SLOT@)[k].id@),
{
    crate::models::lemma_pick_linked(tree.nodes@, crate::models::linked_ids(tree, core_id), AXIOM_SLOT@);
}

/// How a knowledge card is injected: the core-laws card in full with its
/// axioms; a card of none of the structured slots by its trimmed extracted
/// text, else its trimmed extraction prompt, else its trimmed outline.
pub proof fn inject_body_by_kind(tree: NovelTree, n: TreeNode)
    ensures
        is_slot_card(n, CORE_LAWS_SLOT@) ==> inject_body_spec(tree, n) == core_laws_full_spec(tree, n),
        !is_slot_card(n, CORE_LAWS_SLOT@) && !is_slot_card(n, crate::existence_fmt::EXISTENCE_SLOT@)
            && !is_slot_card(n, crate::info_flow_fmt::INFO_FLOW_SLOT@)
            && !is_slot_card(n, crate::history_culture_fmt::HISTORY_CULTURE_SLOT@) ==> inject_body_spec(tree, n) == (match n.knowledge {
                Some(k) => if trim(k.extracted@).len() > 0 {
                    trim(k.extracted@)
                } else if trim(k.extract_prompt@).len() > 0 {
                    trim(k.extract_prompt@)
                } else {
                    trim(n.outline@)
                },
                None => trim(n.outline@),
            }),
{
}

} // verus!
