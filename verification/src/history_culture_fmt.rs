//! The history-and-culture card written out in full for injection, with its
//! religion and major-event child cards.
use vstd::prelude::*;
use crate::card_text::{card_body, finish_card, push_line, push_section, section_lines};
use crate::core_laws_fmt::opt_line;
use crate::models::{
    derefs, is_slot_card, linked_by_slot, linked_by_slot_spec, node_is_slot_card, node_slot,
    slot_spec, HistoryCulturePayload, MajorEvent, NovelTree, TreeNode, WorldReligion,
};
use crate::text::{append, append_decimal, chars_of, decimal, string_of, trim, trim_str, vviews};

verus! {

pub const HISTORY_CULTURE_SLOT: &'static str = "wv_history_culture";
pub const RELIGION_SLOT: &'static str = "wv_religion";
pub const MAJOR_EVENT_SLOT: &'static str = "wv_major_event";

/// Injection cap of this card.
pub const HISTORY_CULTURE_INJECT_CAP: usize = 3500;

/// The trimmed slot of a node's knowledge card ("" without one).
pub fn knowledge_slot(n: &TreeNode) -> (r: String)
    ensures
        r@ == slot_spec(*n),
{
    string_of(&node_slot(n))
}

/// Whether the node is the history-and-culture card.
pub fn is_history_culture_card(n: &TreeNode) -> (r: bool)
    ensures
        r == is_slot_card(*n, HISTORY_CULTURE_SLOT@),
{
    node_is_slot_card(n, HISTORY_CULTURE_SLOT)
}

pub open spec fn religion_has_content(r: WorldReligion) -> bool {
    trim(r.name@).len() > 0 || trim(r.core_belief@).len() > 0 || trim(r.followers_scope@).len() > 0
}

pub open spec fn event_has_content(e: MajorEvent) -> bool {
    trim(e.title@).len() > 0 || trim(e.event@).len() > 0 || trim(e.long_term_impact@).len() > 0
}

/// `### name` (its number when unnamed), belief and followers, empty line.
pub open spec fn religion_block(r: WorldReligion, idx: nat) -> Seq<Seq<char>> {
    let title = if trim(r.name@).len() == 0 { decimal(idx) } else { trim(r.name@) };
    seq!["### "@ + title]
        + opt_line("- 核心信念："@, r.core_belief@)
        + opt_line("- 追随者范围："@, r.followers_scope@)
        + seq![Seq::<char>::empty()]
}

/// `### title` (its number when untitled), event and impact, empty line.
pub open spec fn event_block(e: MajorEvent, idx: nat) -> Seq<Seq<char>> {
    let title = if trim(e.title@).len() == 0 { decimal(idx) } else { trim(e.title@) };
    seq!["### "@ + title]
        + opt_line("- 事件："@, e.event@)
        + opt_line("- 长期影响："@, e.long_term_impact@)
        + seq![Seq::<char>::empty()]
}

pub open spec fn religion_blocks(rs: Seq<WorldReligion>) -> Seq<Seq<char>>
    decreases rs.len(),
{
    if rs.len() == 0 { Seq::empty() } else { religion_blocks(rs.drop_last()) + religion_block(rs.last(), rs.len()) }
}

pub open spec fn event_blocks(es: Seq<MajorEvent>) -> Seq<Seq<char>>
    decreases es.len(),
{
    if es.len() == 0 { Seq::empty() } else { event_blocks(es.drop_last()) + event_block(es.last(), es.len()) }
}

/// Religions with content held by the linked religion cards.
pub open spec fn card_religions(ns: Seq<TreeNode>) -> Seq<WorldReligion>
    decreases ns.len(),
{
    if ns.len() == 0 {
        Seq::empty()
    } else {
        let rest = card_religions(ns.drop_last());
        match ns.last().knowledge {
            Some(k) => match k.world_religion {
                Some(r) => if religion_has_content(r) { rest.push(r) } else { rest },
                None => rest,
            },
            None => rest,
        }
    }
}

/// Events with content held by the linked event cards.
pub open spec fn card_events(ns: Seq<TreeNode>) -> Seq<MajorEvent>
    decreases ns.len(),
{
    if ns.len() == 0 {
        Seq::empty()
    } else {
        let rest = card_events(ns.drop_last());
        match ns.last().knowledge {
            Some(k) => match k.major_event {
                Some(e) => if event_has_content(e) { rest.push(e) } else { rest },
                None => rest,
            },
            None => rest,
        }
    }
}

pub open spec fn content_religions(rs: Seq<WorldReligion>) -> Seq<WorldReligion>
    decreases rs.len(),
{
    if rs.len() == 0 {
        Seq::empty()
    } else {
        let rest = content_religions(rs.drop_last());
        if religion_has_content(rs.last()) { rest.push(rs.last()) } else { rest }
    }
}

pub open spec fn content_events(es: Seq<MajorEvent>) -> Seq<MajorEvent>
    decreases es.len(),
{
    if es.len() == 0 {
        Seq::empty()
    } else {
        let rest = content_events(es.drop_last());
        if event_has_content(es.last()) { rest.push(es.last()) } else { rest }
    }
}

/// The lines of the card: premise, customs, economy, religions (of the
/// linked cards, else its own), daily slices, major events (likewise).
pub open spec fn history_culture_lines(tree: NovelTree, host: Seq<char>, hc: HistoryCulturePayload) -> Seq<Seq<char>> {
    let lr = card_religions(linked_by_slot_spec(tree, host, RELIGION_SLOT@));
    let rs = if lr.len() > 0 { lr } else { content_religions(hc.religions@) };
    let le = card_events(linked_by_slot_spec(tree, host, MAJOR_EVENT_SLOT@));
    let es = if le.len() > 0 { le } else { content_events(hc.major_events@) };
    section_lines("一句话立意"@, hc.premise@)
        + section_lines("风俗习惯"@, hc.customs@)
        + section_lines("经济体系"@, hc.economy@)
        + (if rs.len() > 0 { seq!["## 宗教"@] + religion_blocks(rs) } else { Seq::empty() })
        + section_lines("日常切片"@, hc.daily_slices@)
        + (if es.len() > 0 { seq!["## 重大事件"@] + event_blocks(es) } else { Seq::empty() })
}

pub open spec fn history_culture_full_spec(tree: NovelTree, host: TreeNode) -> Seq<char> {
    match host.knowledge {
        None => host.outline@,
        Some(k) => card_body(
            match k.history_culture {
                Some(hc) => history_culture_lines(tree, host.id@, hc),
                None => Seq::empty(),
            },
            k.extracted@,
            host.outline@,
        ),
    }
}

pub open spec fn rel_derefs(s: Seq<&WorldReligion>) -> Seq<WorldReligion> {
    s.map_values(|a: &WorldReligion| *a)
}

pub open spec fn ev_derefs(s: Seq<&MajorEvent>) -> Seq<MajorEvent> {
    s.map_values(|a: &MajorEvent| *a)
}

fn push_opt(lines: &mut Vec<Vec<char>>, label: &str, v: &str)
    ensures
        vviews(final(lines)@) == vviews(old(lines)@) + opt_line(label@, v@),
{
    let t = trim_str(v);
    let ghost before = vviews(lines@);
    if t.len() > 0 {
        let mut l = chars_of(label);
        append(&mut l, &t);
        push_line(lines, l);
    }
    assert(vviews(lines@) =~= before + opt_line(label@, v@));
}

fn titled(name: &str, idx: u64) -> (r: Vec<char>)
    ensures
        r@ == "### "@ + (if trim(name@).len() == 0 { decimal(idx as nat) } else { trim(name@) }),
{
    let t = trim_str(name);
    let mut l = chars_of("### ");
    if t.len() == 0 {
        append_decimal(&mut l, idx);
    } else {
        append(&mut l, &t);
    }
    l
}

fn religions_of_cards<'a>(ns: &Vec<&'a TreeNode>) -> (r: Vec<&'a WorldReligion>)
    ensures
        rel_derefs(r@) == card_religions(derefs(ns@)),
{
    let mut out: Vec<&WorldReligion> = Vec::new();
    let mut i: usize = 0;
    while i < ns.len()
        invariant
            i <= ns.len(),
            rel_derefs(out@) == card_religions(derefs(ns@).subrange(0, i as int)),
        decreases ns.len() - i,
    {
        assert(derefs(ns@).subrange(0, i + 1).drop_last() =~= derefs(ns@).subrange(0, i as int));
        assert(derefs(ns@).subrange(0, i + 1).last() == *ns@[i as int]);
        let ghost before = out@;
        match &ns[i].knowledge {
            Some(k) => match &k.world_religion {
                Some(a) => {
                    if trim_str(a.name.as_str()).len() > 0 || trim_str(a.core_belief.as_str()).len() > 0
                        || trim_str(a.followers_scope.as_str()).len() > 0 {
                        out.push(a);
                        assert(rel_derefs(out@) =~= rel_derefs(before).push(*a));
                    }
                },
                None => {},
            },
            None => {},
        }
        i += 1;
    }
    assert(derefs(ns@).subrange(0, ns.len() as int) =~= derefs(ns@));
    out
}

fn events_of_cards<'a>(ns: &Vec<&'a TreeNode>) -> (r: Vec<&'a MajorEvent>)
    ensures
        ev_derefs(r@) == card_events(derefs(ns@)),
{
    let mut out: Vec<&MajorEvent> = Vec::new();
    let mut i: usize = 0;
    while i < ns.len()
        invariant
            i <= ns.len(),
            ev_derefs(out@) == card_events(derefs(ns@).subrange(0, i as int)),
        decreases ns.len() - i,
    {
        assert(derefs(ns@).subrange(0, i + 1).drop_last() =~= derefs(ns@).subrange(0, i as int));
        assert(derefs(ns@).subrange(0, i + 1).last() == *ns@[i as int]);
        let ghost before = out@;
        match &ns[i].knowledge {
            Some(k) => match &k.major_event {
                Some(a) => {
                    if trim_str(a.title.as_str()).len() > 0 || trim_str(a.event.as_str()).len() > 0
                        || trim_str(a.long_term_impact.as_str()).len() > 0 {
                        out.push(a);
                        assert(ev_derefs(out@) =~= ev_derefs(before).push(*a));
                    }
                },
                None => {},
            },
            None => {},
        }
        i += 1;
    }
    assert(derefs(ns@).subrange(0, ns.len() as int) =~= derefs(ns@));
    out
}

fn religions_with_content(rs: &Vec<WorldReligion>) -> (r: Vec<&WorldReligion>)
    ensures
        rel_derefs(r@) == content_religions(rs@),
{
    let mut out: Vec<&WorldReligion> = Vec::new();
    let mut i: usize = 0;
    while i < rs.len()
        invariant
            i <= rs.len(),
            rel_derefs(out@) == content_religions(rs@.subrange(0, i as int)),
        decreases rs.len() - i,
    {
        assert(rs@.subrange(0, i + 1).drop_last() =~= rs@.subrange(0, i as int));
        let a = &rs[i];
        let ghost before = out@;
        if trim_str(a.name.as_str()).len() > 0 || trim_str(a.core_belief.as_str()).len() > 0
            || trim_str(a.followers_scope.as_str()).len() > 0 {
            out.push(a);
            assert(rel_derefs(out@) =~= rel_derefs(before).push(*a));
        }
        i += 1;
    }
    assert(rs@.subrange(0, rs.len() as int) =~= rs@);
    out
}

fn events_with_content(es: &Vec<MajorEvent>) -> (r: Vec<&MajorEvent>)
    ensures
        ev_derefs(r@) == content_events(es@),
{
    let mut out: Vec<&MajorEvent> = Vec::new();
    let mut i: usize = 0;
    while i < es.len()
        invariant
            i <= es.len(),
            ev_derefs(out@) == content_events(es@.subrange(0, i as int)),
        decreases es.len() - i,
    {
        assert(es@.subrange(0, i + 1).drop_last() =~= es@.subrange(0, i as int));
        let a = &es[i];
        let ghost before = out@;
        if trim_str(a.title.as_str()).len() > 0 || trim_str(a.event.as_str()).len() > 0
            || trim_str(a.long_term_impact.as_str()).len() > 0 {
            out.push(a);
            assert(ev_derefs(out@) =~= ev_derefs(before).push(*a));
        }
        i += 1;
    }
    assert(es@.subrange(0, es.len() as int) =~= es@);
    out
}

fn push_religions(lines: &mut Vec<Vec<char>>, rs: &Vec<&WorldReligion>)
    ensures
        vviews(final(lines)@) == vviews(old(lines)@) + religion_blocks(rel_derefs(rs@)),
{
    let ghost base = vviews(lines@);
    let mut i: usize = 0;
    while i < rs.len()
        invariant
            i <= rs.len(),
            vviews(lines@) == base + religion_blocks(rel_derefs(rs@).subrange(0, i as int)),
        decreases rs.len() - i,
    {
        let ghost nxt = rel_derefs(rs@).subrange(0, i + 1);
        assert(nxt.drop_last() =~= rel_derefs(rs@).subrange(0, i as int));
        assert(nxt.last() == *rs@[i as int]);
        let ghost mid = vviews(lines@);
        let r = rs[i];
        push_line(lines, titled(r.name.as_str(), (i + 1) as u64));
        push_opt(lines, "- 核心信念：", r.core_belief.as_str());
        push_opt(lines, "- 追随者范围：", r.followers_scope.as_str());
        push_line(lines, Vec::new());
        assert(vviews(lines@) =~= mid + religion_block(*r, (i + 1) as nat));
        i += 1;
    }
    assert(rel_derefs(rs@).subrange(0, rs.len() as int) =~= rel_derefs(rs@));
}

fn push_events(lines: &mut Vec<Vec<char>>, es: &Vec<&MajorEvent>)
    ensures
        vviews(final(lines)@) == vviews(old(lines)@) + event_blocks(ev_derefs(es@)),
{
    let ghost base = vviews(lines@);
    let mut i: usize = 0;
    while i < es.len()
        invariant
            i <= es.len(),
            vviews(lines@) == base + event_blocks(ev_derefs(es@).subrange(0, i as int)),
        decreases es.len() - i,
    {
        let ghost nxt = ev_derefs(es@).subrange(0, i + 1);
        assert(nxt.drop_last() =~= ev_derefs(es@).subrange(0, i as int));
        assert(nxt.last() == *es@[i as int]);
        let ghost mid = vviews(lines@);
        let e = es[i];
        push_line(lines, titled(e.title.as_str(), (i + 1) as u64));
        push_opt(lines, "- 事件：", e.event.as_str());
        push_opt(lines, "- 长期影响：", e.long_term_impact.as_str());
        push_line(lines, Vec::new());
        assert(vviews(lines@) =~= mid + event_block(*e, (i + 1) as nat));
        i += 1;
    }
    assert(ev_derefs(es@).subrange(0, es.len() as int) =~= ev_derefs(es@));
}

fn hc_lines(tree: &NovelTree, host: &TreeNode, hc: &HistoryCulturePayload) -> (r: Vec<Vec<char>>)
    ensures
        vviews(r@) == history_culture_lines(*tree, host.id@, *hc),
{
    let mut lines: Vec<Vec<char>> = Vec::new();
    push_section(&mut lines, "一句话立意", hc.premise.as_str());
    push_section(&mut lines, "风俗习惯", hc.customs.as_str());
    push_section(&mut lines, "经济体系", hc.economy.as_str());
    let lr = linked_by_slot(tree, &host.id, RELIGION_SLOT);
    let mut rs = religions_of_cards(&lr);
    if rs.len() == 0 {
        rs = religions_with_content(&hc.religions);
    }
    let ghost a1 = vviews(lines@);
    if rs.len() > 0 {
        push_line(&mut lines, chars_of("## 宗教"));
        push_religions(&mut lines, &rs);
    }
    assert(vviews(lines@) =~= a1 + (if rel_derefs(rs@).len() > 0 { seq!["## 宗教"@] + religion_blocks(rel_derefs(rs@)) } else { Seq::empty() }));
    push_section(&mut lines, "日常切片", hc.daily_slices.as_str());
    let le = linked_by_slot(tree, &host.id, MAJOR_EVENT_SLOT);
    let mut es = events_of_cards(&le);
    if es.len() == 0 {
        es = events_with_content(&hc.major_events);
    }
    let ghost a2 = vviews(lines@);
    if es.len() > 0 {
        push_line(&mut lines, chars_of("## 重大事件"));
        push_events(&mut lines, &es);
    }
    assert(vviews(lines@) =~= a2 + (if ev_derefs(es@).len() > 0 { seq!["## 重大事件"@] + event_blocks(ev_derefs(es@)) } else { Seq::empty() }));
    assert(vviews(lines@) =~= history_culture_lines(*tree, host.id@, *hc));
    lines
}

/// The full injected text of the card: its structured fields with the
/// religions and major events of its child cards (its own lists when no
/// child card has content), before the possibly stale extracted text.
pub fn format_history_culture_full(tree: &NovelTree, host: &TreeNode) -> (r: String)
    ensures
        r@ == history_culture_full_spec(*tree, *host),
{
    match &host.knowledge {
        None => host.outline.clone(),
        Some(kn) => {
            let lines: Vec<Vec<char>> = match &kn.history_culture {
                Some(hc) => hc_lines(tree, host, hc),
                None => Vec::new(),
            };
            finish_card(&lines, kn.extracted.as_str(), host.outline.as_str())
        },
    }
}

} // verus!
