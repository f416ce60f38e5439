//! The reference book that an AI rewrite of a card or field is written
//! against: title and synopsis, the novel's features, the worldview and
//! story-rules cards, the character cards, the plot cards in play and the
//! other knowledge cards, each within its own budget and the whole within
//! one.
use vstd::prelude::*;
use crate::chapter_context::injectable;
use crate::character_fmt::{character_full_spec, format_character_full};
use crate::core_laws_fmt::{inject_body_spec, knowledge_card_inject_body};
use crate::kb_context::{truncate_chars_vec, truncate_spec};
use crate::models::{first_node, is_slot_card, node_slot, slot_spec, str_views, NodeKind, NovelTree, TreeNode};
use crate::text::{append, append_str, chars_of, eq_str, is_blank, join, join_exec, starts_with, starts_with_str, string_of, trim, trim_str, vviews};
use crate::tree_refs::first_where;

verus! {

/// The budget of the whole reference book, in characters.
pub const REWRITE_REFERENCE_CAP: usize = 5000;

/// What the rules outside this library give for the reference: the
/// novel's feature block, the full text of the story-rules card, the plot
/// cards whose state lets them be injected, the knowledge cards of a
/// story-rules fan slot, and the knowledge cards that sit in the
/// write-prompt slot or that the write-prompt rules hold back.
pub struct RewriteLinks {
    pub features_block: String,
    pub story_rules_text: String,
    pub injectable_plot_ids: Vec<String>,
    pub fan_card_ids: Vec<String>,
    pub write_prompt_ids: Vec<String>,
}

pub open spec fn opt_str_view(o: Option<&str>) -> Option<Seq<char>> {
    match o {
        Some(s) => Some(s@),
        None => None,
    }
}

/// `### label` over a body cut to `cap`, or nothing for a blank body.
pub open spec fn h3_entry(label: Seq<char>, body: Seq<char>, cap: nat) -> Seq<char> {
    if trim(body).len() == 0 {
        Seq::empty()
    } else {
        "### "@ + trim(label) + "\n"@ + truncate_spec(body, cap) + "\n\n"@
    }
}

/// The entry of the first card of a worldview slot.
pub open spec fn wv_entry(t: NovelTree, slot: Seq<char>) -> Seq<char> {
    match first_where(t.nodes@, |x: TreeNode| is_slot_card(x, slot)) {
        Some(i) => h3_entry(t.nodes@[i].label@, inject_body_spec(t, t.nodes@[i]), 800),
        None => Seq::empty(),
    }
}

/// The entry of the story-rules card, written out in full by its own rules.
pub open spec fn rules_entry(t: NovelTree, l: RewriteLinks) -> Seq<char> {
    match first_where(t.nodes@, |x: TreeNode| is_slot_card(x, "story_rules"@)) {
        Some(i) => h3_entry(t.nodes@[i].label@, l.story_rules_text@, 800),
        None => Seq::empty(),
    }
}

/// The worldview cards in their fixed order, then the story rules.
pub open spec fn wv_text(t: NovelTree, l: RewriteLinks) -> Seq<char> {
    wv_entry(t, "wv_core_laws"@) + wv_entry(t, "wv_spatiotemporal"@) + wv_entry(t, "wv_social_power"@)
        + wv_entry(t, "wv_existence"@) + wv_entry(t, "wv_info_flow"@) + wv_entry(t, "wv_history_culture"@)
        + rules_entry(t, l)
}

pub open spec fn char_item(n: TreeNode, excl: Option<Seq<char>>) -> Seq<char> {
    if n.kind == NodeKind::Character && excl != Some(n.id@) {
        match n.character {
            Some(c) => {
                let body = truncate_spec(character_full_spec(n.label@, c), 400);
                if trim(body).len() == 0 {
                    Seq::empty()
                } else {
                    "### "@ + trim(n.label@) + "\n"@ + body + "\n\n"@
                }
            },
            None => Seq::empty(),
        }
    } else {
        Seq::empty()
    }
}

pub open spec fn chars_text(ns: Seq<TreeNode>, excl: Option<Seq<char>>) -> Seq<char>
    decreases ns.len(),
{
    if ns.len() == 0 { Seq::empty() } else { chars_text(ns.drop_last(), excl) + char_item(ns.last(), excl) }
}

pub open spec fn plot_item(n: TreeNode, inj: Seq<Seq<char>>) -> Seq<char> {
    if injectable(n, inj) && trim(n.outline@).len() > 0 {
        "- 「"@ + trim(n.label@) + "」\n  "@ + truncate_spec(trim(n.outline@), 240) + "\n"@
    } else {
        Seq::empty()
    }
}

pub open spec fn plots_text(ns: Seq<TreeNode>, inj: Seq<Seq<char>>) -> Seq<char>
    decreases ns.len(),
{
    if ns.len() == 0 { Seq::empty() } else { plots_text(ns.drop_last(), inj) + plot_item(ns.last(), inj) }
}

/// A knowledge card whose slot is kept for the worldview, the story rules
/// or the write prompts.
pub open spec fn reserved_card(n: TreeNode, l: RewriteLinks) -> bool {
    ||| starts_with(slot_spec(n), "wv_"@)
    ||| slot_spec(n) == "story_rules"@
    ||| str_views(l.fan_card_ids@).contains(n.id@)
    ||| str_views(l.write_prompt_ids@).contains(n.id@)
}

pub open spec fn kn_item(t: NovelTree, n: TreeNode, excl: Option<Seq<char>>, l: RewriteLinks) -> Seq<char> {
    if n.kind == NodeKind::Knowledge && excl != Some(n.id@) && !reserved_card(n, l) {
        h3_entry(n.label@, inject_body_spec(t, n), 400)
    } else {
        Seq::empty()
    }
}

pub open spec fn kn_text(t: NovelTree, ns: Seq<TreeNode>, excl: Option<Seq<char>>, l: RewriteLinks) -> Seq<char>
    decreases ns.len(),
{
    if ns.len() == 0 { Seq::empty() } else { kn_text(t, ns.drop_last(), excl, l) + kn_item(t, ns.last(), excl, l) }
}

/// A headed section, left out when its body is blank.
pub open spec fn section(header: Seq<char>, body: Seq<char>) -> Seq<Seq<char>> {
    if trim(body).len() == 0 { Seq::empty() } else { seq![header + trim(body)] }
}

pub open spec fn reference_head(title: Seq<char>, synopsis: Seq<char>, zh: bool) -> Seq<char> {
    if zh {
        "【书名】"@ + trim(title) + "\n【简介】"@ + trim(synopsis)
    } else {
        "[Title] "@ + trim(title) + "\n[Synopsis] "@ + trim(synopsis)
    }
}

pub open spec fn reference_sections(
    title: Seq<char>,
    synopsis: Seq<char>,
    t: NovelTree,
    excl_char: Option<Seq<char>>,
    excl_kn: Option<Seq<char>>,
    l: RewriteLinks,
    zh: bool,
) -> Seq<Seq<char>> {
    let feat = if trim(l.features_block@).len() == 0 { Seq::empty() } else { seq![l.features_block@] };
    seq![reference_head(title, synopsis, zh)] + feat
        + section(if zh { "【世界观与故事规则】\n"@ } else { "[Worldview & story rules]\n"@ }, wv_text(t, l))
        + section(if zh { "【人物卡】\n"@ } else { "[Characters]\n"@ }, chars_text(t.nodes@, excl_char))
        + section(if zh { "【剧情卡】\n"@ } else { "[Plot cards]\n"@ }, plots_text(t.nodes@, str_views(l.injectable_plot_ids@)))
        + section(if zh { "【其他知识卡】\n"@ } else { "[Other knowledge cards]\n"@ }, kn_text(t, t.nodes@, excl_kn, l))
}

/// The reference book: its sections joined by blank lines, cut to the
/// overall budget.
pub open spec fn rewrite_reference_spec(
    title: Seq<char>,
    synopsis: Seq<char>,
    t: NovelTree,
    excl_char: Option<Seq<char>>,
    excl_kn: Option<Seq<char>>,
    l: RewriteLinks,
    zh: bool,
) -> Seq<char> {
    truncate_spec(join(reference_sections(title, synopsis, t, excl_char, excl_kn, l, zh), "\n\n"@), REWRITE_REFERENCE_CAP as nat)
}

// ---------------------------------------------------------------------------

fn h3_entry_exec(label: &str, body: &Vec<char>, cap: usize, out: &mut Vec<char>)
    ensures
        final(out)@ == old(out)@ + h3_entry(label@, body@, cap as nat),
{
    let ghost o0 = out@;
    if is_blank(body) {
        assert(out@ =~= o0 + Seq::<char>::empty());
        return;
    }
    append_str(out, "### ");
    append(out, &trim_str(label));
    append_str(out, "\n");
    append(out, &truncate_chars_vec(body, cap));
    append_str(out, "\n\n");
}

fn wv_entry_exec(tree: &NovelTree, slot: &str, out: &mut Vec<char>)
    ensures
        final(out)@ == old(out)@ + wv_entry(*tree, slot@),
{
    let ghost o0 = out@;
    match crate::card_meta::knowledge_by_slot(tree, slot) {
        Some(n) => {
            let body = knowledge_card_inject_body(tree, n);
            h3_entry_exec(n.label.as_str(), &chars_of(body.as_str()), 800, out);
        },
        None => {
            assert(out@ =~= o0 + Seq::<char>::empty());
        },
    }
}

fn rules_entry_exec(tree: &NovelTree, l: &RewriteLinks, out: &mut Vec<char>)
    ensures
        final(out)@ == old(out)@ + rules_entry(*tree, *l),
{
    let ghost o0 = out@;
    match crate::card_meta::knowledge_by_slot(tree, "story_rules") {
        Some(n) => {
            h3_entry_exec(n.label.as_str(), &chars_of(l.story_rules_text.as_str()), 800, out);
        },
        None => {
            assert(out@ =~= o0 + Seq::<char>::empty());
        },
    }
}

fn wv_text_exec(tree: &NovelTree, l: &RewriteLinks) -> (r: Vec<char>)
    ensures
        r@ == wv_text(*tree, *l),
{
    let mut out: Vec<char> = Vec::new();
    wv_entry_exec(tree, "wv_core_laws", &mut out);
    wv_entry_exec(tree, "wv_spatiotemporal", &mut out);
    wv_entry_exec(tree, "wv_social_power", &mut out);
    wv_entry_exec(tree, "wv_existence", &mut out);
    wv_entry_exec(tree, "wv_info_flow", &mut out);
    wv_entry_exec(tree, "wv_history_culture", &mut out);
    rules_entry_exec(tree, l, &mut out);
    assert(out@ =~= wv_text(*tree, *l));
    out
}

fn is_excluded(ex: Option<&str>, id: &String) -> (r: bool)
    ensures
        r == (opt_str_view(ex) == Some(id@)),
{
    match ex {
        Some(x) => eq_str(&chars_of(id.as_str()), x),
        None => false,
    }
}

fn char_item_exec(n: &TreeNode, ex: Option<&str>, out: &mut Vec<char>)
    ensures
        final(out)@ == old(out)@ + char_item(*n, opt_str_view(ex)),
{
    let ghost o0 = out@;
    if n.kind != NodeKind::Character || is_excluded(ex, &n.id) {
        assert(out@ =~= o0 + Seq::<char>::empty());
        return;
    }
    match &n.character {
        Some(c) => {
            let full = format_character_full(n.label.as_str(), c);
            let body = truncate_chars_vec(&chars_of(full.as_str()), 400);
            if is_blank(&body) {
                assert(out@ =~= o0 + Seq::<char>::empty());
                return;
            }
            append_str(out, "### ");
            append(out, &trim_str(n.label.as_str()));
            append_str(out, "\n");
            append(out, &body);
            append_str(out, "\n\n");
        },
        None => {
            assert(out@ =~= o0 + Seq::<char>::empty());
        },
    }
}

fn plot_item_exec(n: &TreeNode, inj: &Vec<String>, out: &mut Vec<char>)
    ensures
        final(out)@ == old(out)@ + plot_item(*n, str_views(inj@)),
{
    let ghost o0 = out@;
    let ok = n.kind == NodeKind::SidePlot
        && (n.side_plot.is_none() || crate::cast::contains_str_id(inj, &n.id));
    let outline = trim_str(n.outline.as_str());
    if !ok || outline.len() == 0 {
        assert(out@ =~= o0 + Seq::<char>::empty());
        return;
    }
    append_str(out, "- 「");
    append(out, &trim_str(n.label.as_str()));
    append_str(out, "」\n  ");
    append(out, &truncate_chars_vec(&outline, 240));
    append_str(out, "\n");
}

fn reserved_exec(n: &TreeNode, l: &RewriteLinks) -> (r: bool)
    ensures
        r == reserved_card(*n, *l),
{
    let slot = node_slot(n);
    starts_with_str(&slot, "wv_")
        || eq_str(&slot, "story_rules")
        || crate::cast::contains_str_id(&l.fan_card_ids, &n.id)
        || crate::cast::contains_str_id(&l.write_prompt_ids, &n.id)
}

fn kn_item_exec(tree: &NovelTree, n: &TreeNode, ex: Option<&str>, l: &RewriteLinks, out: &mut Vec<char>)
    ensures
        final(out)@ == old(out)@ + kn_item(*tree, *n, opt_str_view(ex), *l),
{
    let ghost o0 = out@;
    if n.kind != NodeKind::Knowledge || is_excluded(ex, &n.id) || reserved_exec(n, l) {
        assert(out@ =~= o0 + Seq::<char>::empty());
        return;
    }
    let body = knowledge_card_inject_body(tree, n);
    h3_entry_exec(n.label.as_str(), &chars_of(body.as_str()), 400, out);
}

fn push_section(parts: &mut Vec<Vec<char>>, header: &str, body: &Vec<char>)
    ensures
        vviews(final(parts)@) == vviews(old(parts)@) + section(header@, body@),
{
    if is_blank(body) {
        assert(vviews(parts@) =~= vviews(old(parts)@) + Seq::<Seq<char>>::empty());
        return;
    }
    let mut s = chars_of(header);
    append(&mut s, &crate::text::trimmed(body));
    parts.push(s);
    assert(vviews(parts@) =~= vviews(old(parts)@) + section(header@, body@));
}

/// The reference book for an AI rewrite: title and synopsis, the feature
/// block, the worldview and story-rules cards (800 characters each), the
/// character cards but `exclude_character_id` (400 each), the plot cards in
/// play (their outlines, 240 each), and the knowledge cards outside the
/// reserved slots but `exclude_knowledge_id` (400 each); the sections
/// joined by blank lines and cut to 5000 characters.
#[verifier::rlimit(40)]
pub fn assemble_novel_rewrite_reference(
    title: &str,
    synopsis: &str,
    tree: &NovelTree,
    exclude_character_id: Option<&str>,
    exclude_knowledge_id: Option<&str>,
    links: &RewriteLinks,
    zh: bool,
) -> (r: String)
    ensures
        r@ == rewrite_reference_spec(title@, synopsis@, *tree, opt_str_view(exclude_character_id),
            opt_str_view(exclude_knowledge_id), *links, zh),
{
    let ghost ns = tree.nodes@;
    let ghost ec = opt_str_view(exclude_character_id);
    let ghost ek = opt_str_view(exclude_knowledge_id);
    let ghost inj = str_views(links.injectable_plot_ids@);
    let mut head: Vec<char> = Vec::new();
    append_str(&mut head, if zh { "【书名】" } else { "[Title] " });
    append(&mut head, &trim_str(title));
    append_str(&mut head, if zh { "\n【简介】" } else { "\n[Synopsis] " });
    append(&mut head, &trim_str(synopsis));
    proof {
        assert(head@ == reference_head(title@, synopsis@, zh));
    }
    let mut parts: Vec<Vec<char>> = Vec::new();
    parts.push(head);
    let feat = chars_of(links.features_block.as_str());
    if !is_blank(&feat) {
        parts.push(feat);
    }
    let wv = wv_text_exec(tree, links);
    push_section(&mut parts, if zh { "【世界观与故事规则】\n" } else { "[Worldview & story rules]\n" }, &wv);

    let mut chars: Vec<char> = Vec::new();
    let mut plots: Vec<char> = Vec::new();
    let mut kn: Vec<char> = Vec::new();
    let mut i: usize = 0;
    while i < tree.nodes.len()
        invariant
            i <= ns.len(),
            ns == tree.nodes@,
            ec == opt_str_view(exclude_character_id),
            ek == opt_str_view(exclude_knowledge_id),
            inj == str_views(links.injectable_plot_ids@),
            chars@ == chars_text(ns.subrange(0, i as int), ec),
            plots@ == plots_text(ns.subrange(0, i as int), inj),
            kn@ == kn_text(*tree, ns.subrange(0, i as int), ek, *links),
        decreases ns.len() - i,
    {
        assert(ns.subrange(0, i + 1).drop_last() =~= ns.subrange(0, i as int));
        let n = &tree.nodes[i];
        char_item_exec(n, exclude_character_id, &mut chars);
        plot_item_exec(n, &links.injectable_plot_ids, &mut plots);
        kn_item_exec(tree, n, exclude_knowledge_id, links, &mut kn);
        i += 1;
    }
    assert(ns.subrange(0, ns.len() as int) =~= ns);
    push_section(&mut parts, if zh { "【人物卡】\n" } else { "[Characters]\n" }, &chars);
    push_section(&mut parts, if zh { "【剧情卡】\n" } else { "[Plot cards]\n" }, &plots);
    push_section(&mut parts, if zh { "【其他知识卡】\n" } else { "[Other knowledge cards]\n" }, &kn);
    proof {
        assert(vviews(parts@) =~= reference_sections(title@, synopsis@, *tree, ec, ek, *links, zh));
    }
    let joined = join_exec(&parts, "\n\n");
    string_of(&truncate_chars_vec(&joined, REWRITE_REFERENCE_CAP))
}

// ---------------------------------------------------------------------------
// The rewrite request
// ---------------------------------------------------------------------------

/// The system prompt a rewrite is written under.
#[derive(Debug, Clone, Copy, PartialEq, Eq, Structural)]
pub enum RewriteSystem {
    CharacterCard,
    StoryRulesBlock,
    TextField,
}

/// The chosen card's id, trimmed, where one was given.
pub open spec fn selected_id(node_id: Option<&str>) -> Option<Seq<char>> {
    match node_id {
        Some(s) => if trim(s@).len() > 0 { Some(trim(s@)) } else { None },
        None => None,
    }
}

/// A knowledge card of the story rules or of one of their fan slots.
pub open spec fn is_rules_card(n: TreeNode, l: RewriteLinks) -> bool {
    n.kind == NodeKind::Knowledge && (slot_spec(n) == "story_rules"@ || str_views(l.fan_card_ids@).contains(n.id@))
}

/// The rewrite is about the story rules: the whole block, or a chosen card
/// that is one of the rules cards.
pub open spec fn rules_rewrite(t: NovelTree, node_id: Option<&str>, block: bool, l: RewriteLinks) -> bool {
    block || match selected_id(node_id) {
        Some(id) => match first_node(t.nodes@, id) {
            Some(k) => is_rules_card(t.nodes@[k], l),
            None => false,
        },
        None => false,
    }
}

pub open spec fn current_or_empty(current: Seq<char>, zh: bool) -> Seq<char> {
    if trim(current).len() == 0 { if zh { "（空）"@ } else { "(empty)"@ } } else { current }
}

pub open spec fn system_spec(character_whole: bool, rules_block: bool) -> RewriteSystem {
    if character_whole {
        RewriteSystem::CharacterCard
    } else if rules_block {
        RewriteSystem::StoryRulesBlock
    } else {
        RewriteSystem::TextField
    }
}

/// The user prompt: for a whole character card, the reference without that
/// card, the card and the prompt; for the story rules, the reference
/// without the chosen card and either the whole block and the prompt or the
/// field prompt; otherwise the field prompt alone.
pub open spec fn rewrite_user_spec(
    title: Seq<char>,
    synopsis: Seq<char>,
    t: NovelTree,
    node_id: Option<&str>,
    current: Seq<char>,
    note: Seq<char>,
    character_whole: bool,
    rules_block: bool,
    field_user: Seq<char>,
    l: RewriteLinks,
    zh: bool,
) -> Seq<char> {
    let cur = current_or_empty(current, zh);
    if character_whole {
        let rf = rewrite_reference_spec(title, synopsis, t, selected_id(node_id), None, l, zh);
        if zh {
            "【参考书（世界观与其他卡面；须与下列设定一致）】\n"@ + rf + "\n\n【人物卡当前内容】\n"@ + cur
                + "\n\n【提示词与 JSON 要求】\n"@ + note + "\n\n请只输出填满全部字段的 JSON 对象："@
        } else {
            "[Reference — worldview and other cards; stay consistent]\n"@ + rf + "\n\n[Current character card]\n"@ + cur
                + "\n\n[Prompt and JSON schema]\n"@ + note + "\n\nOutput only the complete JSON object:"@
        }
    } else if rules_rewrite(t, node_id, rules_block, l) {
        let rf = rewrite_reference_spec(title, synopsis, t, None, selected_id(node_id), l, zh);
        let lead = if zh { "【参考书（全书卡面；须与下列设定一致）】\n"@ } else { "[Reference — all cards; stay consistent]\n"@ };
        if rules_block {
            if zh {
                lead + rf + "\n\n【当前卡片内容】\n"@ + cur + "\n\n【提示词与 JSON 要求】\n"@ + note
                    + "\n\n请只输出填满全部字段的 JSON 对象："@
            } else {
                lead + rf + "\n\n[Current card]\n"@ + cur + "\n\n[Prompt and JSON schema]\n"@ + note
                    + "\n\nOutput only the complete JSON object:"@
            }
        } else {
            lead + rf + "\n\n"@ + field_user
        }
    } else {
        field_user
    }
}

fn selected_id_exec(node_id: Option<&str>) -> (r: Option<String>)
    ensures
        match r {
            Some(s) => selected_id(node_id) == Some(s@),
            None => selected_id(node_id) is None,
        },
{
    match node_id {
        Some(s) => {
            let t = trim_str(s);
            if t.len() > 0 { Some(string_of(&t)) } else { None }
        },
        None => None,
    }
}

fn rules_rewrite_exec(tree: &NovelTree, sel: &Option<String>, block: bool, l: &RewriteLinks) -> (r: bool)
    ensures
        forall|node_id: Option<&str>| (match *sel {
            Some(s) => selected_id(node_id) == Some(s@),
            None => selected_id(node_id) is None,
        }) ==> r == rules_rewrite(*tree, node_id, block, *l),
{
    if block {
        return true;
    }
    match sel {
        Some(id) => match crate::models::find_node(&tree.nodes, id) {
            Some(k) => {
                let n = &tree.nodes[k];
                n.kind == NodeKind::Knowledge
                    && (eq_str(&node_slot(n), "story_rules") || crate::cast::contains_str_id(&l.fan_card_ids, &n.id))
            },
            None => false,
        },
        None => false,
    }
}

/// Whether the rewrite needs the structure tree: a whole character card, the
/// whole story-rules block, or a chosen card.
pub fn rewrite_needs_tree(character_whole: bool, rules_block: bool, node_id: Option<&str>) -> (r: bool)
    ensures
        r == (character_whole || rules_block || selected_id(node_id) is Some),
{
    character_whole || rules_block || selected_id_exec(node_id).is_some()
}

/// The prompts of an AI rewrite of a field or a card. `character_whole` and
/// `rules_block` say whether the field label names a whole character card
/// or the whole story-rules block; `field_user` is the plain field prompt.
/// A blank instruction or label is refused, as `check_rewrite_request` says.
#[verifier::rlimit(40)]
pub fn rewrite_text_field_prompt(
    title: &str,
    synopsis: &str,
    tree: &NovelTree,
    instruction: &str,
    field_label: &str,
    current: &str,
    node_id: Option<&str>,
    character_whole: bool,
    rules_block: bool,
    field_user: &str,
    links: &RewriteLinks,
    zh: bool,
) -> (r: Result<(RewriteSystem, String), String>)
    ensures
        trim(instruction@).len() == 0 ==> r is Err && r->Err_0@ == "请填写提示词"@,
        trim(instruction@).len() > 0 && trim(field_label@).len() == 0 ==> r is Err && r->Err_0@ == "字段名为空"@,
        trim(instruction@).len() > 0 && trim(field_label@).len() > 0 ==> r is Ok
            && r->Ok_0.0 == system_spec(character_whole, rules_block)
            && r->Ok_0.1@ == rewrite_user_spec(title@, synopsis@, *tree, node_id, current@, trim(instruction@),
                character_whole, rules_block, field_user@, *links, zh),
{
    let (note, _label) = match crate::chapter_flow::check_rewrite_request(instruction, field_label) {
        Ok(p) => p,
        Err(e) => return Err(e),
    };
    let system = if character_whole {
        RewriteSystem::CharacterCard
    } else if rules_block {
        RewriteSystem::StoryRulesBlock
    } else {
        RewriteSystem::TextField
    };
    let sel = selected_id_exec(node_id);
    let cur: &str = if trim_str(current).len() == 0 { if zh { "（空）" } else { "(empty)" } } else { current };
    let mut out: Vec<char> = Vec::new();
    if character_whole {
        let rf = match &sel {
            Some(s) => assemble_novel_rewrite_reference(title, synopsis, tree, Some(s.as_str()), None, links, zh),
            None => assemble_novel_rewrite_reference(title, synopsis, tree, None, None, links, zh),
        };
        append_str(&mut out, if zh { "【参考书（世界观与其他卡面；须与下列设定一致）】\n" } else { "[Reference — worldview and other cards; stay consistent]\n" });
        append_str(&mut out, rf.as_str());
        append_str(&mut out, if zh { "\n\n【人物卡当前内容】\n" } else { "\n\n[Current character card]\n" });
        append_str(&mut out, cur);
        append_str(&mut out, if zh { "\n\n【提示词与 JSON 要求】\n" } else { "\n\n[Prompt and JSON schema]\n" });
        append_str(&mut out, note.as_str());
        append_str(&mut out, if zh { "\n\n请只输出填满全部字段的 JSON 对象：" } else { "\n\nOutput only the complete JSON object:" });
    } else if rules_rewrite_exec(tree, &sel, rules_block, links) {
        let rf = match &sel {
            Some(s) => assemble_novel_rewrite_reference(title, synopsis, tree, None, Some(s.as_str()), links, zh),
            None => assemble_novel_rewrite_reference(title, synopsis, tree, None, None, links, zh),
        };
        append_str(&mut out, if zh { "【参考书（全书卡面；须与下列设定一致）】\n" } else { "[Reference — all cards; stay consistent]\n" });
        append_str(&mut out, rf.as_str());
        if rules_block {
            append_str(&mut out, if zh { "\n\n【当前卡片内容】\n" } else { "\n\n[Current card]\n" });
            append_str(&mut out, cur);
            append_str(&mut out, if zh { "\n\n【提示词与 JSON 要求】\n" } else { "\n\n[Prompt and JSON schema]\n" });
            append_str(&mut out, note.as_str());
            append_str(&mut out, if zh { "\n\n请只输出填满全部字段的 JSON 对象：" } else { "\n\nOutput only the complete JSON object:" });
        } else {
            append_str(&mut out, "\n\n");
            append_str(&mut out, field_user);
        }
    } else {
        append_str(&mut out, field_user);
    }
    proof {
        assert(out@ =~= rewrite_user_spec(title@, synopsis@, *tree, node_id, current@, trim(instruction@),
            character_whole, rules_block, field_user@, *links, zh));
    }
    Ok((system, string_of(&out)))
}

/// The model's reply to a rewrite, without an outer code fence; an empty
/// reply is refused.
pub fn finish_rewrite(content: &str, zh: bool) -> (r: Result<String, String>)
    ensures
        crate::commands::strip_fence_spec(content@).len() == 0 ==> r is Err
            && r->Err_0@ == (if zh { "模型未返回有效内容"@ } else { "Model returned empty text"@ }),
        crate::commands::strip_fence_spec(content@).len() > 0 ==> r is Ok && r->Ok_0@ == crate::commands::strip_fence_spec(content@),
{
    let out = crate::commands::strip_outer_md_fence(content);
    if out.unicode_len() == 0 {
        return Err(String::from_str(if zh { "模型未返回有效内容" } else { "Model returned empty text" }));
    }
    Ok(out)
}

} // verus!
