//! A character card written out in full for injection, and the older flat
//! fields of a card brought in line with its structured ones.
use vstd::prelude::*;
use crate::card_text::{push_line, push_section, section_lines};
use crate::core_laws_fmt::opt_line;
use crate::models::{
    CharacterCard, CharacterCoreBelief, CharacterDeep, CharacterRelation, CharacterVoice,
    CharacterWorldAnchors, CharacterWorldPosition,
};
use crate::text::{
    append, append_decimal, append_str, chars_of, decimal, eq_str, join, join_exec, string_of,
    trim, trimmed, trim_str, vviews,
};

verus! {

/// Injection cap of a character card.
pub const CHARACTER_INJECT_CAP: usize = 4500;

/// Whether the text is blank.
pub open spec fn blank(s: Seq<char>) -> bool {
    trim(s).len() == 0
}

/// `a` unless it is blank, else `b`.
pub open spec fn or_else(a: Seq<char>, b: Seq<char>) -> Seq<char> {
    if blank(a) { b } else { a }
}

/// `- key：value` for a non-blank value.
pub open spec fn kv_line(k: Seq<char>, v: Seq<char>) -> Seq<Seq<char>> {
    opt_line("- "@ + k + "："@, v)
}

/// `### title`, the lines, an empty line; nothing when there are no lines.
pub open spec fn labeled(title: Seq<char>, bits: Seq<Seq<char>>) -> Seq<Seq<char>> {
    if bits.len() == 0 { Seq::empty() } else { seq!["### "@ + title] + bits + seq![Seq::<char>::empty()] }
}

/// `### title`, the trimmed text, an empty line; nothing for a blank text.
pub open spec fn h3_section(title: Seq<char>, body: Seq<char>) -> Seq<Seq<char>> {
    if blank(body) { Seq::empty() } else { seq!["### "@ + title, trim(body), Seq::<char>::empty()] }
}

pub open spec fn world_position_lines(c: CharacterCard) -> Seq<Seq<char>> {
    let wp = c.world_position;
    let social = or_else(wp.social_role@, c.role@);
    let faction = or_else(wp.faction@, c.alignment@);
    if !blank(wp.birth_class@) || !blank(faction) || !blank(social) || !blank(wp.conflict_stance@) {
        seq!["## 世界位置"@]
            + opt_line("- 出生阶层："@, wp.birth_class@)
            + opt_line("- 阵营归属："@, faction)
            + opt_line("- 社会角色："@, social)
            + opt_line("- 核心冲突立场："@, wp.conflict_stance@)
            + seq![Seq::<char>::empty()]
    } else {
        Seq::empty()
    }
}

/// The non-blank of two texts, trimmed, joined by ` — `.
pub open spec fn dash_pair(a: Seq<char>, b: Seq<char>) -> Seq<char> {
    if blank(a) { trim(b) } else if blank(b) { trim(a) } else { trim(a) + " — "@ + trim(b) }
}

pub open spec fn pair_line(label: Seq<char>, a: Seq<char>, b: Seq<char>) -> Seq<Seq<char>> {
    if blank(a) && blank(b) { Seq::empty() } else { seq![label + dash_pair(a, b)] }
}

pub open spec fn anchors_lines(wa: CharacterWorldAnchors) -> Seq<Seq<char>> {
    if !blank(wa.embodies_law@) || !blank(wa.embodies_note@) || !blank(wa.shaped_by_law@)
        || !blank(wa.shaped_by_note@) || !blank(wa.will_challenge@) {
        seq!["## 世界锚点"@]
            + pair_line("- 体现法则："@, wa.embodies_law@, wa.embodies_note@)
            + pair_line("- 受塑于："@, wa.shaped_by_law@, wa.shaped_by_note@)
            + opt_line("- 或将挑战："@, wa.will_challenge@)
            + seq![Seq::<char>::empty()]
    } else {
        Seq::empty()
    }
}

pub open spec fn relation_has_content(r: CharacterRelation) -> bool {
    !blank(r.name@) || !blank(r.relation@) || !blank(r.definition@) || !blank(r.default_attitude@)
        || !blank(r.hidden_tension@)
}

/// The relations with content, in order.
pub open spec fn shown_relations(rs: Seq<CharacterRelation>) -> Seq<CharacterRelation>
    decreases rs.len(),
{
    if rs.len() == 0 {
        Seq::empty()
    } else {
        let rest = shown_relations(rs.drop_last());
        if relation_has_content(rs.last()) { rest.push(rs.last()) } else { rest }
    }
}

pub open spec fn relation_block(r: CharacterRelation, idx: nat) -> Seq<Seq<char>> {
    let title = if blank(r.name@) { decimal(idx) } else { trim(r.name@) };
    seq!["### "@ + title]
        + opt_line("- 关系："@, r.relation@)
        + opt_line("- 对角色的定义："@, r.definition@)
        + opt_line("- 默认态度："@, r.default_attitude@)
        + opt_line("- 隐藏张力："@, r.hidden_tension@)
        + seq![Seq::<char>::empty()]
}

pub open spec fn relation_blocks(rs: Seq<CharacterRelation>) -> Seq<Seq<char>>
    decreases rs.len(),
{
    if rs.len() == 0 { Seq::empty() } else { relation_blocks(rs.drop_last()) + relation_block(rs.last(), rs.len()) }
}

pub open spec fn relations_lines(rs: Seq<CharacterRelation>) -> Seq<Seq<char>> {
    let shown = shown_relations(rs);
    if shown.len() == 0 { Seq::empty() } else { seq!["## 关系网络"@] + relation_blocks(shown) }
}

/// The author's verdict on a belief, by its stored value.
pub open spec fn verdict_spec(v: Seq<char>) -> Seq<char> {
    let t = trim(v);
    if t == "prove"@ || t == "终将证立"@ || t == "证立"@ {
        "终将证立"@
    } else if t == "disprove"@ || t == "终将证伪"@ || t == "证伪"@ {
        "终将证伪"@
    } else if t == "unresolved"@ || t == "悬而未决"@ || t == "未决"@ {
        "悬而未决"@
    } else {
        Seq::empty()
    }
}

pub open spec fn belief_lines(c: CharacterCard) -> Seq<Seq<char>> {
    let cb = c.core_belief;
    let belief = or_else(cb.belief@, c.motto@);
    let verd = verdict_spec(cb.author_verdict@);
    if !blank(belief) || verd.len() > 0 || !blank(cb.source@) {
        seq!["## 核心信念"@]
            + opt_line("- 核心信念："@, belief)
            + (if verd.len() > 0 { seq!["- 作者视角："@ + verd] } else { Seq::empty() })
            + opt_line("- 信念来源："@, cb.source@)
            + seq![Seq::<char>::empty()]
    } else {
        Seq::empty()
    }
}

pub open spec fn deep_groups(d: CharacterDeep) -> Seq<Seq<char>> {
    labeled("核心欲望"@, kv_line("表层目标"@, d.desire_surface@) + kv_line("深层渴望"@, d.desire_deep@))
        + labeled("深层恐惧"@, kv_line("恐惧"@, d.fear@) + kv_line("来源"@, d.fear_source@))
        + labeled("秘密"@, kv_line("内容"@, d.secret_content@) + kv_line("谁知道"@, d.secret_who_knows@)
            + kv_line("该知但未知道"@, d.secret_should_know@) + kv_line("暴露后果"@, d.secret_exposure@))
        + labeled("底线"@, kv_line("触线条件"@, d.line_trigger@) + kv_line("来源"@, d.line_source@)
            + kv_line("越线反应"@, d.line_reaction@))
        + labeled("关键创伤"@, kv_line("伤口"@, d.trauma_wound@) + kv_line("触发器"@, d.trauma_trigger@)
            + kv_line("应激反应"@, d.trauma_stress@) + kv_line("行为烙印"@, d.trauma_imprint@))
        + labeled("内在矛盾"@, kv_line("冲突两级"@, d.contradiction_poles@) + kv_line("来源"@, d.contradiction_source@)
            + kv_line("可能走向"@, d.contradiction_trajectory@))
        + labeled("人物弧光"@, kv_line("成长向"@, d.arc_growth@) + kv_line("堕落向"@, d.arc_fall@)
            + kv_line("关键抉择"@, d.arc_choice@))
}

/// The deep dimensions; a card with none of them shows its personality.
pub open spec fn deep_lines(c: CharacterCard) -> Seq<Seq<char>> {
    let g = deep_groups(c.deep);
    if g.len() == 0 { section_lines("性格"@, c.personality@) } else { seq!["## 深层维度"@] + g }
}

pub open spec fn catch_lines(ps: Seq<String>) -> Seq<Seq<char>>
    decreases ps.len(),
{
    if ps.len() == 0 { Seq::empty() } else { catch_lines(ps.drop_last()) + opt_line("- 口头禅："@, ps.last()@) }
}

pub open spec fn any_catchphrase(ps: Seq<String>) -> bool {
    exists|i: int| 0 <= i < ps.len() && !blank(#[trigger] ps[i]@)
}

pub open spec fn has_voice(c: CharacterCard) -> bool {
    let vo = c.voice;
    ||| !blank(or_else(vo.positioning@, c.style@))
    ||| !blank(vo.cognitive_filter@)
    ||| !blank(vo.sentence_length@)
    ||| !blank(vo.pause@)
    ||| !blank(vo.patterns@)
    ||| any_catchphrase(vo.catchphrases@)
    ||| !blank(vo.emotion_anger@)
    ||| !blank(vo.emotion_tense@)
    ||| !blank(vo.emotion_mask@)
    ||| !blank(vo.emotion_sad@)
    ||| !blank(vo.emotion_happy@)
    ||| !blank(vo.banned@)
}

/// Sentence length, pauses, patterns and catchphrases.
pub open spec fn syntax_bits(vo: CharacterVoice) -> Seq<Seq<char>> {
    opt_line("- 长短句偏好："@, vo.sentence_length@) + opt_line("- 停顿习惯："@, vo.pause@)
        + opt_line("- 常用句式："@, vo.patterns@) + catch_lines(vo.catchphrases@)
}

/// How the voice changes with each emotion.
pub open spec fn emotion_bits(vo: CharacterVoice) -> Seq<Seq<char>> {
    kv_line("愤怒时"@, vo.emotion_anger@) + kv_line("紧张时"@, vo.emotion_tense@)
        + kv_line("掩饰时"@, vo.emotion_mask@) + kv_line("伤心时"@, vo.emotion_sad@)
        + kv_line("开心时"@, vo.emotion_happy@)
}

pub open spec fn voice_lines(c: CharacterCard) -> Seq<Seq<char>> {
    let vo = c.voice;
    if has_voice(c) {
        seq!["## 角色声线"@]
            + h3_section("声音定位"@, or_else(vo.positioning@, c.style@))
            + h3_section("认知滤镜"@, vo.cognitive_filter@)
            + labeled("句法指纹"@, syntax_bits(vo))
            + labeled("情绪变化"@, emotion_bits(vo))
            + h3_section("禁用表达（不会说的话）"@, vo.banned@)
    } else {
        Seq::empty()
    }
}

/// Every line of the full character text, in order.
pub open spec fn character_lines(label: Seq<char>, c: CharacterCard) -> Seq<Seq<char>> {
    section_lines("真名"@, label)
        + section_lines("别称"@, c.aliases@)
        + section_lines("性别"@, c.gender@)
        + section_lines("年龄"@, c.age@)
        + world_position_lines(c)
        + anchors_lines(c.world_anchors)
        + relations_lines(c.relations@)
        + belief_lines(c)
        + deep_lines(c)
        + voice_lines(c)
}

/// The full character text: the lines joined and trimmed; for a card with
/// none of them, its trimmed `constraints` (the whole text of very old
/// cards).
pub open spec fn character_full_spec(label: Seq<char>, c: CharacterCard) -> Seq<char> {
    let body = trim(join(character_lines(label, c), "\n"@));
    if body.len() > 0 { body } else { trim(c.constraints@) }
}

fn blank_exec(s: &str) -> (r: bool)
    ensures
        r == blank(s@),
{
    trim_str(s).len() == 0
}

fn push_opt(lines: &mut Vec<Vec<char>>, label: &str, v: &str)
    ensures
        vviews(final(lines)@) == vviews(old(lines)@) + opt_line(label@, v@),
{
    let t = trim_str(v);
    let ghost before = vviews(lines@);
    if t.len() > 0 {
        let mut l = chars_of(label);
        append(&mut l, &t);
        push_line(lines, l);
    }
    assert(vviews(lines@) =~= before + opt_line(label@, v@));
}

fn push_kv(bits: &mut Vec<Vec<char>>, k: &str, v: &str)
    ensures
        vviews(final(bits)@) == vviews(old(bits)@) + kv_line(k@, v@),
{
    let mut label = chars_of("- ");
    append_str(&mut label, k);
    append_str(&mut label, "：");
    let t = trim_str(v);
    let ghost before = vviews(bits@);
    if t.len() > 0 {
        let mut l = label;
        append(&mut l, &t);
        push_line(bits, l);
    }
    assert(vviews(bits@) =~= before + kv_line(k@, v@));
}

fn push_all(lines: &mut Vec<Vec<char>>, more: Vec<Vec<char>>)
    ensures
        vviews(final(lines)@) == vviews(old(lines)@) + vviews(more@),
{
    let ghost base = vviews(lines@);
    let mut i: usize = 0;
    while i < more.len()
        invariant
            i <= more.len(),
            vviews(lines@) == base + vviews(more@).subrange(0, i as int),
        decreases more.len() - i,
    {
        push_line(lines, more[i].clone());
        i += 1;
        assert(vviews(lines@) =~= base + vviews(more@).subrange(0, i as int));
    }
    assert(vviews(more@).subrange(0, more.len() as int) =~= vviews(more@));
}

fn push_labeled(lines: &mut Vec<Vec<char>>, title: &str, bits: Vec<Vec<char>>)
    ensures
        vviews(final(lines)@) == vviews(old(lines)@) + labeled(title@, vviews(bits@)),
{
    let ghost before = vviews(lines@);
    if bits.len() > 0 {
        let mut h = chars_of("### ");
        append_str(&mut h, title);
        push_line(lines, h);
        push_all(lines, bits);
        push_line(lines, Vec::new());
    }
    assert(vviews(lines@) =~= before + labeled(title@, vviews(bits@)));
}

fn push_h3(lines: &mut Vec<Vec<char>>, title: &str, body: &str)
    ensures
        vviews(final(lines)@) == vviews(old(lines)@) + h3_section(title@, body@),
{
    let t = trim_str(body);
    let ghost before = vviews(lines@);
    if t.len() > 0 {
        let mut h = chars_of("### ");
        append_str(&mut h, title);
        push_line(lines, h);
        push_line(lines, t);
        push_line(lines, Vec::new());
    }
    assert(vviews(lines@) =~= before + h3_section(title@, body@));
}

/// `a` unless it is blank, else `b`.
fn pick<'a>(a: &'a String, b: &'a String) -> (r: &'a String)
    ensures
        r@ == or_else(a@, b@),
{
    if blank_exec(a.as_str()) { b } else { a }
}

fn push_world_position(lines: &mut Vec<Vec<char>>, c: &CharacterCard)
    ensures
        vviews(final(lines)@) == vviews(old(lines)@) + world_position_lines(*c),
{
    let wp = &c.world_position;
    let social = pick(&wp.social_role, &c.role);
    let faction = pick(&wp.faction, &c.alignment);
    let ghost before = vviews(lines@);
    if !blank_exec(wp.birth_class.as_str()) || !blank_exec(faction.as_str()) || !blank_exec(social.as_str())
        || !blank_exec(wp.conflict_stance.as_str()) {
        push_line(lines, chars_of("## 世界位置"));
        push_opt(lines, "- 出生阶层：", wp.birth_class.as_str());
        push_opt(lines, "- 阵营归属：", faction.as_str());
        push_opt(lines, "- 社会角色：", social.as_str());
        push_opt(lines, "- 核心冲突立场：", wp.conflict_stance.as_str());
        push_line(lines, Vec::new());
    }
    assert(vviews(lines@) =~= before + world_position_lines(*c));
}

fn push_pair(lines: &mut Vec<Vec<char>>, label: &str, a: &str, b: &str)
    ensures
        vviews(final(lines)@) == vviews(old(lines)@) + pair_line(label@, a@, b@),
{
    let ta = trim_str(a);
    let tb = trim_str(b);
    let ghost before = vviews(lines@);
    if ta.len() > 0 || tb.len() > 0 {
        let mut l = chars_of(label);
        if ta.len() == 0 {
            append(&mut l, &tb);
        } else if tb.len() == 0 {
            append(&mut l, &ta);
        } else {
            append(&mut l, &ta);
            append_str(&mut l, " — ");
            append(&mut l, &tb);
        }
        assert(l@ =~= label@ + dash_pair(a@, b@));
        push_line(lines, l);
    }
    assert(vviews(lines@) =~= before + pair_line(label@, a@, b@));
}

fn push_anchors(lines: &mut Vec<Vec<char>>, wa: &CharacterWorldAnchors)
    ensures
        vviews(final(lines)@) == vviews(old(lines)@) + anchors_lines(*wa),
{
    let ghost before = vviews(lines@);
    if !blank_exec(wa.embodies_law.as_str()) || !blank_exec(wa.embodies_note.as_str())
        || !blank_exec(wa.shaped_by_law.as_str()) || !blank_exec(wa.shaped_by_note.as_str())
        || !blank_exec(wa.will_challenge.as_str()) {
        push_line(lines, chars_of("## 世界锚点"));
        push_pair(lines, "- 体现法则：", wa.embodies_law.as_str(), wa.embodies_note.as_str());
        push_pair(lines, "- 受塑于：", wa.shaped_by_law.as_str(), wa.shaped_by_note.as_str());
        push_opt(lines, "- 或将挑战：", wa.will_challenge.as_str());
        push_line(lines, Vec::new());
    }
    assert(vviews(lines@) =~= before + anchors_lines(*wa));
}

pub open spec fn rel_derefs(s: Seq<&CharacterRelation>) -> Seq<CharacterRelation> {
    s.map_values(|a: &CharacterRelation| *a)
}

fn push_relations(lines: &mut Vec<Vec<char>>, rs: &Vec<CharacterRelation>)
    ensures
        vviews(final(lines)@) == vviews(old(lines)@) + relations_lines(rs@),
{
    let mut shown: Vec<&CharacterRelation> = Vec::new();
    let mut i: usize = 0;
    while i < rs.len()
        invariant
            i <= rs.len(),
            rel_derefs(shown@) == shown_relations(rs@.subrange(0, i as int)),
        decreases rs.len() - i,
    {
        assert(rs@.subrange(0, i + 1).drop_last() =~= rs@.subrange(0, i as int));
        let r = &rs[i];
        let ghost before = shown@;
        if !blank_exec(r.name.as_str()) || !blank_exec(r.relation.as_str()) || !blank_exec(r.definition.as_str())
            || !blank_exec(r.default_attitude.as_str()) || !blank_exec(r.hidden_tension.as_str()) {
            shown.push(r);
            assert(rel_derefs(shown@) =~= rel_derefs(before).push(*r));
        }
        i += 1;
    }
    assert(rs@.subrange(0, rs.len() as int) =~= rs@);
    let ghost base = vviews(lines@);
    if shown.len() > 0 {
        push_line(lines, chars_of("## 关系网络"));
        let ghost head = vviews(lines@);
        let mut k: usize = 0;
        while k < shown.len()
            invariant
                k <= shown.len(),
                vviews(lines@) == head + relation_blocks(rel_derefs(shown@).subrange(0, k as int)),
            decreases shown.len() - k,
        {
            let ghost nxt = rel_derefs(shown@).subrange(0, k + 1);
            assert(nxt.drop_last() =~= rel_derefs(shown@).subrange(0, k as int));
            assert(nxt.last() == *shown@[k as int]);
            let ghost mid = vviews(lines@);
            let r = shown[k];
            let name = trim_str(r.name.as_str());
            let mut title = chars_of("### ");
            if name.len() == 0 {
                append_decimal(&mut title, (k + 1) as u64);
            } else {
                append(&mut title, &name);
            }
            push_line(lines, title);
            push_opt(lines, "- 关系：", r.relation.as_str());
            push_opt(lines, "- 对角色的定义：", r.definition.as_str());
            push_opt(lines, "- 默认态度：", r.default_attitude.as_str());
            push_opt(lines, "- 隐藏张力：", r.hidden_tension.as_str());
            push_line(lines, Vec::new());
            assert(vviews(lines@) =~= mid + relation_block(*r, (k + 1) as nat));
            k += 1;
        }
        assert(rel_derefs(shown@).subrange(0, shown.len() as int) =~= rel_derefs(shown@));
    }
    assert(vviews(lines@) =~= base + relations_lines(rs@));
}

fn verdict_label(v: &str) -> (r: &'static str)
    ensures
        r@ == verdict_spec(v@),
{
    let t = trim_str(v);
    proof {
        reveal_strlit("");
    }
    if eq_str(&t, "prove") || eq_str(&t, "终将证立") || eq_str(&t, "证立") {
        "终将证立"
    } else if eq_str(&t, "disprove") || eq_str(&t, "终将证伪") || eq_str(&t, "证伪") {
        "终将证伪"
    } else if eq_str(&t, "unresolved") || eq_str(&t, "悬而未决") || eq_str(&t, "未决") {
        "悬而未决"
    } else {
        ""
    }
}

fn push_belief(lines: &mut Vec<Vec<char>>, c: &CharacterCard)
    ensures
        vviews(final(lines)@) == vviews(old(lines)@) + belief_lines(*c),
{
    let cb = &c.core_belief;
    let belief = pick(&cb.belief, &c.motto);
    let verd = verdict_label(cb.author_verdict.as_str());
    let vc = chars_of(verd);
    let ghost before = vviews(lines@);
    if !blank_exec(belief.as_str()) || vc.len() > 0 || !blank_exec(cb.source.as_str()) {
        push_line(lines, chars_of("## 核心信念"));
        push_opt(lines, "- 核心信念：", belief.as_str());
        let ghost mid = vviews(lines@);
        if vc.len() > 0 {
            let mut l = chars_of("- 作者视角：");
            append(&mut l, &vc);
            push_line(lines, l);
        }
        assert(vviews(lines@) =~= mid + (if verdict_spec(cb.author_verdict@).len() > 0 { seq!["- 作者视角："@ + verdict_spec(cb.author_verdict@)] } else { Seq::empty() }));
        push_opt(lines, "- 信念来源：", cb.source.as_str());
        push_line(lines, Vec::new());
    }
    assert(vviews(lines@) =~= before + belief_lines(*c));
}

fn deep_group_lines(d: &CharacterDeep) -> (r: Vec<Vec<char>>)
    ensures
        vviews(r@) == deep_groups(*d),
{
    let mut g: Vec<Vec<char>> = Vec::new();
    let mut b: Vec<Vec<char>> = Vec::new();
    push_kv(&mut b, "表层目标", d.desire_surface.as_str());
    push_kv(&mut b, "深层渴望", d.desire_deep.as_str());
    push_labeled(&mut g, "核心欲望", b);
    let mut b: Vec<Vec<char>> = Vec::new();
    push_kv(&mut b, "恐惧", d.fear.as_str());
    push_kv(&mut b, "来源", d.fear_source.as_str());
    push_labeled(&mut g, "深层恐惧", b);
    let mut b: Vec<Vec<char>> = Vec::new();
    push_kv(&mut b, "内容", d.secret_content.as_str());
    push_kv(&mut b, "谁知道", d.secret_who_knows.as_str());
    push_kv(&mut b, "该知但未知道", d.secret_should_know.as_str());
    push_kv(&mut b, "暴露后果", d.secret_exposure.as_str());
    push_labeled(&mut g, "秘密", b);
    let mut b: Vec<Vec<char>> = Vec::new();
    push_kv(&mut b, "触线条件", d.line_trigger.as_str());
    push_kv(&mut b, "来源", d.line_source.as_str());
    push_kv(&mut b, "越线反应", d.line_reaction.as_str());
    push_labeled(&mut g, "底线", b);
    let mut b: Vec<Vec<char>> = Vec::new();
    push_kv(&mut b, "伤口", d.trauma_wound.as_str());
    push_kv(&mut b, "触发器", d.trauma_trigger.as_str());
    push_kv(&mut b, "应激反应", d.trauma_stress.as_str());
    push_kv(&mut b, "行为烙印", d.trauma_imprint.as_str());
    push_labeled(&mut g, "关键创伤", b);
    let mut b: Vec<Vec<char>> = Vec::new();
    push_kv(&mut b, "冲突两级", d.contradiction_poles.as_str());
    push_kv(&mut b, "来源", d.contradiction_source.as_str());
    push_kv(&mut b, "可能走向", d.contradiction_trajectory.as_str());
    push_labeled(&mut g, "内在矛盾", b);
    let mut b: Vec<Vec<char>> = Vec::new();
    push_kv(&mut b, "成长向", d.arc_growth.as_str());
    push_kv(&mut b, "堕落向", d.arc_fall.as_str());
    push_kv(&mut b, "关键抉择", d.arc_choice.as_str());
    push_labeled(&mut g, "人物弧光", b);
    assert(vviews(g@) =~= deep_groups(*d));
    g
}

fn push_deep(lines: &mut Vec<Vec<char>>, c: &CharacterCard)
    ensures
        vviews(final(lines)@) == vviews(old(lines)@) + deep_lines(*c),
{
    let g = deep_group_lines(&c.deep);
    let ghost before = vviews(lines@);
    if g.len() == 0 {
        push_section(lines, "性格", c.personality.as_str());
    } else {
        push_line(lines, chars_of("## 深层维度"));
        push_all(lines, g);
    }
    assert(vviews(lines@) =~= before + deep_lines(*c));
}

fn catchphrase_lines(ps: &Vec<String>) -> (r: (Vec<Vec<char>>, bool))
    ensures
        vviews(r.0@) == catch_lines(ps@),
        r.1 == any_catchphrase(ps@),
{
    let mut out: Vec<Vec<char>> = Vec::new();
    let mut any = false;
    let mut i: usize = 0;
    while i < ps.len()
        invariant
            i <= ps.len(),
            vviews(out@) == catch_lines(ps@.subrange(0, i as int)),
            any == any_catchphrase(ps@.subrange(0, i as int)),
        decreases ps.len() - i,
    {
        let ghost pre = ps@.subrange(0, i as int);
        let ghost nxt = ps@.subrange(0, i + 1);
        assert(nxt.drop_last() =~= pre);
        push_opt(&mut out, "- 口头禅：", ps[i].as_str());
        assert(nxt[i as int] == ps@[i as int]);
        if !blank_exec(ps[i].as_str()) {
            any = true;
            assert(!blank(nxt[i as int]@));
        } else if any {
            let ghost j = choose|j: int| 0 <= j < pre.len() && !blank(#[trigger] pre[j]@);
            assert(nxt[j] == pre[j]);
        } else {
            assert forall|j: int| 0 <= j < nxt.len() implies blank(#[trigger] nxt[j]@) by {
                if j < i {
                    assert(nxt[j] == pre[j]);
                }
            }
        }
        i += 1;
    }
    assert(ps@.subrange(0, ps.len() as int) =~= ps@);
    (out, any)
}

fn voice_present(c: &CharacterCard, any_catch: bool) -> (r: bool)
    requires
        any_catch == any_catchphrase(c.voice.catchphrases@),
    ensures
        r == has_voice(*c),
{
    let vo = &c.voice;
    let positioning = pick(&vo.positioning, &c.style);
    !blank_exec(positioning.as_str()) || !blank_exec(vo.cognitive_filter.as_str())
        || !blank_exec(vo.sentence_length.as_str()) || !blank_exec(vo.pause.as_str())
        || !blank_exec(vo.patterns.as_str()) || any_catch
        || !blank_exec(vo.emotion_anger.as_str()) || !blank_exec(vo.emotion_tense.as_str())
        || !blank_exec(vo.emotion_mask.as_str()) || !blank_exec(vo.emotion_sad.as_str())
        || !blank_exec(vo.emotion_happy.as_str()) || !blank_exec(vo.banned.as_str())
}

fn syntax_lines(vo: &CharacterVoice, catches: Vec<Vec<char>>) -> (r: Vec<Vec<char>>)
    requires
        vviews(catches@) == catch_lines(vo.catchphrases@),
    ensures
        vviews(r@) == syntax_bits(*vo),
{
    let mut syn: Vec<Vec<char>> = Vec::new();
    push_opt(&mut syn, "- 长短句偏好：", vo.sentence_length.as_str());
    push_opt(&mut syn, "- 停顿习惯：", vo.pause.as_str());
    push_opt(&mut syn, "- 常用句式：", vo.patterns.as_str());
    push_all(&mut syn, catches);
    assert(vviews(syn@) =~= syntax_bits(*vo));
    syn
}

fn emotion_lines(vo: &CharacterVoice) -> (r: Vec<Vec<char>>)
    ensures
        vviews(r@) == emotion_bits(*vo),
{
    let mut emo: Vec<Vec<char>> = Vec::new();
    push_kv(&mut emo, "愤怒时", vo.emotion_anger.as_str());
    push_kv(&mut emo, "紧张时", vo.emotion_tense.as_str());
    push_kv(&mut emo, "掩饰时", vo.emotion_mask.as_str());
    push_kv(&mut emo, "伤心时", vo.emotion_sad.as_str());
    push_kv(&mut emo, "开心时", vo.emotion_happy.as_str());
    assert(vviews(emo@) =~= emotion_bits(*vo));
    emo
}

fn push_voice(lines: &mut Vec<Vec<char>>, c: &CharacterCard)
    ensures
        vviews(final(lines)@) == vviews(old(lines)@) + voice_lines(*c),
{
    let vo = &c.voice;
    let (catches, any_catch) = catchphrase_lines(&vo.catchphrases);
    let ghost before = vviews(lines@);
    if voice_present(c, any_catch) {
        let positioning = pick(&vo.positioning, &c.style);
        push_line(lines, chars_of("## 角色声线"));
        push_h3(lines, "声音定位", positioning.as_str());
        push_h3(lines, "认知滤镜", vo.cognitive_filter.as_str());
        let syn = syntax_lines(vo, catches);
        push_labeled(lines, "句法指纹", syn);
        let emo = emotion_lines(vo);
        push_labeled(lines, "情绪变化", emo);
        push_h3(lines, "禁用表达（不会说的话）", vo.banned.as_str());
    }
    assert(vviews(lines@) =~= before + voice_lines(*c));
}

fn character_line_list(label: &str, c: &CharacterCard) -> (r: Vec<Vec<char>>)
    ensures
        vviews(r@) == character_lines(label@, *c),
{
    let mut lines: Vec<Vec<char>> = Vec::new();
    push_section(&mut lines, "真名", label);
    push_section(&mut lines, "别称", c.aliases.as_str());
    push_section(&mut lines, "性别", c.gender.as_str());
    push_section(&mut lines, "年龄", c.age.as_str());
    push_world_position(&mut lines, c);
    push_anchors(&mut lines, &c.world_anchors);
    push_relations(&mut lines, &c.relations);
    push_belief(&mut lines, c);
    push_deep(&mut lines, c);
    push_voice(&mut lines, c);
    assert(vviews(lines@) =~= character_lines(label@, *c));
    lines
}

/// The full character text: the structured fields first (older cards are
/// read through their flat fields), each group left out when it is blank.
pub fn format_character_full(label: &str, c: &CharacterCard) -> (r: String)
    ensures
        r@ == character_full_spec(label@, *c),
{
    let lines = character_line_list(label, c);
    let body = trimmed(&join_exec(&lines, "\n"));
    if body.len() > 0 {
        string_of(&body)
    } else {
        string_of(&trim_str(c.constraints.as_str()))
    }
}

/// The card with its flat fields brought in line with the structured ones:
/// a set social role or faction overwrites `role` / `alignment`, and a set
/// `role` / `alignment` fills a blank social role or faction; a set belief
/// becomes the motto and a set voice positioning the style.
pub open spec fn with_flat(c: CharacterCard) -> CharacterCard {
    let wp = c.world_position;
    CharacterCard {
        role: if !blank(wp.social_role@) { wp.social_role } else { c.role },
        alignment: if !blank(wp.faction@) { wp.faction } else { c.alignment },
        motto: if !blank(c.core_belief.belief@) { c.core_belief.belief } else { c.motto },
        style: if !blank(c.voice.positioning@) { c.voice.positioning } else { c.style },
        world_position: CharacterWorldPosition {
            birth_class: wp.birth_class,
            faction: if blank(wp.faction@) && !blank(c.alignment@) { c.alignment } else { wp.faction },
            social_role: if blank(wp.social_role@) && !blank(c.role@) { c.role } else { wp.social_role },
            conflict_stance: wp.conflict_stance,
        },
        ..c
    }
}

/// `after` is `before` synced: flat fields as `with_flat` gives them, other
/// fields kept, and `constraints` holding the full text unless that is
/// empty.
pub open spec fn synced(label: Seq<char>, before: CharacterCard, after: CharacterCard) -> bool {
    let w = with_flat(before);
    let f = character_full_spec(label, w);
    &&& after.role == w.role
    &&& after.alignment == w.alignment
    &&& after.motto == w.motto
    &&& after.style == w.style
    &&& after.world_position == w.world_position
    &&& after.gender == before.gender
    &&& after.age == before.age
    &&& after.aliases == before.aliases
    &&& after.personality == before.personality
    &&& after.world_anchors == before.world_anchors
    &&& after.relations == before.relations
    &&& after.core_belief == before.core_belief
    &&& after.deep == before.deep
    &&& after.voice == before.voice
    &&& after.constraints@ == (if f.len() > 0 { f } else { before.constraints@ })
}

/// Syncing a synced card changes nothing.
pub proof fn sync_character_legacy_idempotent(label: Seq<char>, a: CharacterCard, b: CharacterCard, c: CharacterCard)
    requires
        synced(label, a, b),
        synced(label, b, c),
    ensures
        c.role == b.role,
        c.alignment == b.alignment,
        c.motto == b.motto,
        c.style == b.style,
        c.world_position == b.world_position,
        c.gender == b.gender,
        c.age == b.age,
        c.aliases == b.aliases,
        c.personality == b.personality,
        c.world_anchors == b.world_anchors,
        c.relations == b.relations,
        c.core_belief == b.core_belief,
        c.deep == b.deep,
        c.voice == b.voice,
        c.constraints@ == b.constraints@,
{
    let wa = with_flat(a);
    let wb = with_flat(b);
    assert(wb.role == b.role);
    assert(wb.alignment == b.alignment);
    assert(wb.motto == b.motto);
    assert(wb.style == b.style);
    assert(wb.world_position == b.world_position);
    assert(wb == b);
    assert(character_lines(label, b) == character_lines(label, wa));
    let body = trim(join(character_lines(label, wa), "\n"@));
    if body.len() == 0 {
        crate::text::lemma_trim_idempotent(a.constraints@);
    }
}

/// Brings the flat fields of a card in line with its structured ones and
/// stores the full text in `constraints` (unless that text is empty).
pub fn sync_character_legacy(label: &str, c: &mut CharacterCard)
    ensures
        synced(label@, *old(c), *final(c)),
{
    let ghost o = *c;
    if !blank_exec(c.world_position.social_role.as_str()) {
        c.role = c.world_position.social_role.clone();
    } else if !blank_exec(c.role.as_str()) {
        c.world_position.social_role = c.role.clone();
    }
    if !blank_exec(c.world_position.faction.as_str()) {
        c.alignment = c.world_position.faction.clone();
    } else if !blank_exec(c.alignment.as_str()) {
        c.world_position.faction = c.alignment.clone();
    }
    if !blank_exec(c.core_belief.belief.as_str()) {
        c.motto = c.core_belief.belief.clone();
    }
    if !blank_exec(c.voice.positioning.as_str()) {
        c.style = c.voice.positioning.clone();
    }
    assert(*c == with_flat(o));
    let formatted = format_character_full(label, c);
    if formatted.as_str().unicode_len() > 0 {
        c.constraints = formatted;
    }
}

/// The text of a turnaround-sheet prompt for a character: its name, then
/// its gender, age, role, style and body language where not blank.
pub open spec fn sheet_bits(name: Seq<char>, c: CharacterCard) -> Seq<Seq<char>> {
    let parts = seq![c.gender@, c.age@, c.role@, c.style@, c.voice.body_language@];
    seq![trim(name)] + crate::outline_parse::nonblank(parts)
}

pub open spec fn sheet_prompt_spec(name: Seq<char>, c: CharacterCard) -> Seq<char> {
    "character design turnaround sheet of one person, four full-body views left to right: front view, left profile, back view, right profile, same face outfit and proportions, full body head to toe, even spacing, plain light gray studio background, "@
        + join(sheet_bits(name, c), ", "@)
        + ", clean illustration, no text labels, no extra characters"@
}

/// The prompt for a character's turnaround sheet when no model writes one
/// (see `sheet_prompt_spec`).
pub fn fallback_character_sheet_prompt(name: &str, card: &CharacterCard) -> (r: String)
    ensures
        r@ == sheet_prompt_spec(name@, *card),
{
    let mut bits: Vec<Vec<char>> = Vec::new();
    bits.push(trim_str(name));
    let parts: [&str; 5] = [card.gender.as_str(), card.age.as_str(), card.role.as_str(), card.style.as_str(), card.voice.body_language.as_str()];
    let ghost pv = seq![card.gender@, card.age@, card.role@, card.style@, card.voice.body_language@];
    let mut i: usize = 0;
    while i < 5
        invariant
            i <= 5,
            parts@.len() == 5,
            pv == seq![card.gender@, card.age@, card.role@, card.style@, card.voice.body_language@],
            forall|j: int| 0 <= j < 5 ==> (#[trigger] parts@[j])@ == pv[j],
            crate::text::vviews(bits@) == seq![trim(name@)] + crate::outline_parse::nonblank(pv.subrange(0, i as int)),
        decreases 5 - i,
    {
        assert(pv.subrange(0, i + 1).drop_last() =~= pv.subrange(0, i as int));
        assert(pv.subrange(0, i + 1).last() == pv[i as int]);
        let t = trim_str(parts[i]);
        if t.len() > 0 {
            let ghost before = crate::text::vviews(bits@);
            bits.push(t);
            assert(crate::text::vviews(bits@) =~= before.push(trim(pv[i as int])));
        }
        i += 1;
    }
    assert(pv.subrange(0, 5) =~= pv);
    let mut out = chars_of("character design turnaround sheet of one person, four full-body views left to right: front view, left profile, back view, right profile, same face outfit and proportions, full body head to toe, even spacing, plain light gray studio background, ");
    append(&mut out, &crate::text::join_exec(&bits, ", "));
    append_str(&mut out, ", clean illustration, no text labels, no extra characters");
    string_of(&out)
}

} // verus!
