//! Decisions of the global chat assistant: which tool set a message gets, how
//! errors and progress are worded, and how written chapters are summarised in
//! the chat history.
use vstd::prelude::*;
use crate::text::{
    append, append_decimal, append_str, ascii_lower, ascii_lower_seq, chars_of, contains_str, decimal,
    eq, eq_str, find_char, first_index_of, has_sub, is_digit, is_ws, non_ws_count, non_ws_count_exec,
    slice, starts_with, starts_with_str, string_of, trim, trim_bounds, trim_start, trim_str, trimmed,
};

verus! {

/// Key of the chat slot shared by all messages that name no novel.
pub open spec fn global_scope() -> Seq<char> {
    "__global__"@
}

pub open spec fn scope_key_spec(novel_id: Option<Seq<char>>) -> Seq<char> {
    match novel_id {
        Some(s) if trim(s).len() > 0 => trim(s),
        _ => global_scope(),
    }
}

/// Chat slot of a novel: its trimmed id, or the global slot when none is given.
pub fn scope_key(novel_id: Option<&str>) -> (r: String)
    ensures
        r@ == scope_key_spec(match novel_id { Some(s) => Some(s@), None => None }),
{
    match novel_id {
        Some(s) => {
            let t = trim_str(s);
            if t.len() > 0 {
                return string_of(&t);
            }
        }
        None => {}
    }
    String::from_str("__global__")
}

/// `s` without any trailing `c`.
pub open spec fn trim_end_char(s: Seq<char>, c: char) -> Seq<char>
    decreases s.len(),
{
    if s.len() > 0 && s.last() == c {
        trim_end_char(s.drop_last(), c)
    } else {
        s
    }
}

pub fn trim_end_char_exec(s: &Vec<char>, c: char) -> (r: Vec<char>)
    ensures
        r@ == trim_end_char(s@, c),
{
    let mut e = s.len();
    assert(s@.subrange(0, s.len() as int) =~= s@);
    while e > 0 && s[e - 1] == c
        invariant
            e <= s.len(),
            trim_end_char(s@, c) == trim_end_char(s@.subrange(0, e as int), c),
        decreases e,
    {
        assert(s@.subrange(0, e as int).drop_last() =~= s@.subrange(0, e - 1));
        e -= 1;
    }
    assert(s@.subrange(0, s.len() as int) =~= s@);
    slice(s, 0, e)
}

/// Base URL of an OpenAI-compatible endpoint: trimmed, trailing `/` removed,
/// nothing appended.
pub fn openai_compat_base(base: &str) -> (r: String)
    ensures
        r@ == trim_end_char(trim(base@), '/'),
{
    let t = trim_str(base);
    let u = trim_end_char_exec(&t, '/');
    string_of(&u)
}

pub open spec fn task_model_spec(preferred: Seq<char>, fallback: Seq<char>) -> Seq<char> {
    if trim(preferred).len() == 0 {
        trim(fallback)
    } else {
        trim(preferred)
    }
}

/// The preferred model when one is set, else the fallback (both trimmed).
pub fn task_model(preferred: &str, fallback: &str) -> (r: String)
    ensures
        r@ == task_model_spec(preferred@, fallback@),
{
    let p = trim_str(preferred);
    if p.len() == 0 {
        let f = trim_str(fallback);
        string_of(&f)
    } else {
        string_of(&p)
    }
}

pub open spec fn is_write_chapter_spec(t: Seq<char>) -> bool {
    ||| has_sub(t, "生成第"@)
    ||| has_sub(t, "写第"@)
    ||| has_sub(t, "精修第"@)
    ||| has_sub(t, "重写第"@)
    ||| has_sub(t, "改写第"@)
    ||| has_sub(t, "生成本章"@)
    ||| has_sub(t, "写本章"@)
    ||| has_sub(t, "精修本章"@)
    ||| has_sub(t, "本章正文"@)
    ||| has_sub(t, "写这一章"@)
    ||| has_sub(t, "生成这一章"@)
}

/// The message asks for a chapter to be generated or rewritten.
pub fn is_write_chapter(text: &str) -> (r: bool)
    ensures
        r == is_write_chapter_spec(text@),
{
    let t = chars_of(text);
    contains_str(&t, "生成第") || contains_str(&t, "写第") || contains_str(&t, "精修第")
        || contains_str(&t, "重写第") || contains_str(&t, "改写第") || contains_str(&t, "生成本章")
        || contains_str(&t, "写本章") || contains_str(&t, "精修本章") || contains_str(&t, "本章正文")
        || contains_str(&t, "写这一章") || contains_str(&t, "生成这一章")
}

pub open spec fn is_write_body_spec(t: Seq<char>) -> bool {
    ||| has_sub(t, "正文"@)
    ||| has_sub(t, "写第"@)
    ||| has_sub(t, "精修第"@)
    ||| has_sub(t, "重写第"@)
    ||| has_sub(t, "改写第"@)
    ||| has_sub(t, "写本章"@)
    ||| has_sub(t, "精修本章"@)
    ||| has_sub(t, "写这一章"@)
    ||| (is_write_chapter_spec(t) && !has_sub(t, "细纲"@))
}

/// The message asks for chapter body text.
pub fn is_write_body(text: &str) -> (r: bool)
    ensures
        r == is_write_body_spec(text@),
{
    let t = chars_of(text);
    if contains_str(&t, "正文") {
        return true;
    }
    contains_str(&t, "写第") || contains_str(&t, "精修第") || contains_str(&t, "重写第")
        || contains_str(&t, "改写第") || contains_str(&t, "写本章") || contains_str(&t, "精修本章")
        || contains_str(&t, "写这一章") || (is_write_chapter(text) && !contains_str(&t, "细纲"))
}

pub open spec fn is_card_edit_spec(t: Seq<char>) -> bool {
    ||| has_sub(t, "人物卡"@)
    ||| has_sub(t, "角色卡"@)
    ||| has_sub(t, "剧情卡"@)
    ||| has_sub(t, "支线卡"@)
    ||| has_sub(t, "知识卡"@)
    ||| has_sub(t, "改人设"@)
    ||| has_sub(t, "补人设"@)
    ||| has_sub(t, "character card"@)
    ||| has_sub(t, "plot card"@)
    ||| has_sub(t, "knowledge card"@)
}

/// The message asks to edit a character, plot or knowledge card.
pub fn is_card_edit(text: &str) -> (r: bool)
    ensures
        r == is_card_edit_spec(text@),
{
    let t = chars_of(text);
    contains_str(&t, "人物卡") || contains_str(&t, "角色卡") || contains_str(&t, "剧情卡")
        || contains_str(&t, "支线卡") || contains_str(&t, "知识卡") || contains_str(&t, "改人设")
        || contains_str(&t, "补人设") || contains_str(&t, "character card")
        || contains_str(&t, "plot card") || contains_str(&t, "knowledge card")
}

pub open spec fn is_outline_gen_spec(t: Seq<char>) -> bool {
    ||| has_sub(t, "生成细纲"@)
    ||| has_sub(t, "写细纲"@)
    ||| has_sub(t, "重写细纲"@)
    ||| has_sub(t, "进化细纲"@)
    ||| has_sub(t, "本章细纲"@)
    ||| has_sub(t, "细纲"@)
    ||| has_sub(t, "detailed outline"@)
    ||| has_sub(t, "detailed_outline"@)
}

/// The message asks for a detailed outline.
pub fn is_outline_gen(text: &str) -> (r: bool)
    ensures
        r == is_outline_gen_spec(text@),
{
    let t = chars_of(text);
    contains_str(&t, "生成细纲") || contains_str(&t, "写细纲") || contains_str(&t, "重写细纲")
        || contains_str(&t, "进化细纲") || contains_str(&t, "本章细纲") || contains_str(&t, "细纲")
        || contains_str(&t, "detailed outline") || contains_str(&t, "detailed_outline")
}

pub open spec fn wants_shots_spec(t: Seq<char>) -> bool {
    ||| has_sub(t, "分镜"@)
    ||| has_sub(t, "分镜头"@)
    ||| has_sub(t, "comfy"@)
    ||| has_sub(t, "Comfy"@)
    ||| has_sub(t, "minimax"@)
    ||| has_sub(t, "MiniMax"@)
    ||| has_sub(t, "镜头提示"@)
}

/// The message is about storyboard shots.
pub fn wants_shots(text: &str) -> (r: bool)
    ensures
        r == wants_shots_spec(text@),
{
    let t = chars_of(text);
    contains_str(&t, "分镜") || contains_str(&t, "分镜头") || contains_str(&t, "comfy")
        || contains_str(&t, "Comfy") || contains_str(&t, "minimax") || contains_str(&t, "MiniMax")
        || contains_str(&t, "镜头提示")
}

pub open spec fn wants_library_spec(t: Seq<char>) -> bool {
    ||| has_sub(t, "公共库"@)
    ||| has_sub(t, "公共知识"@)
    ||| has_sub(t, "知识库"@)
    ||| has_sub(t, "导入知识"@)
}

/// The message is about the shared knowledge library.
pub fn wants_library(text: &str) -> (r: bool)
    ensures
        r == wants_library_spec(text@),
{
    let t = chars_of(text);
    contains_str(&t, "公共库") || contains_str(&t, "公共知识") || contains_str(&t, "知识库")
        || contains_str(&t, "导入知识")
}

pub open spec fn wants_worldview_gen_spec(t: Seq<char>) -> bool {
    ||| has_sub(t, "生成世界观"@)
    ||| has_sub(t, "生成故事规则"@)
    ||| has_sub(t, "补全世界观"@)
    ||| has_sub(t, "写世界观"@)
}

/// The message asks for the worldview or story rules to be generated.
pub fn wants_worldview_gen(text: &str) -> (r: bool)
    ensures
        r == wants_worldview_gen_spec(text@),
{
    let t = chars_of(text);
    contains_str(&t, "生成世界观") || contains_str(&t, "生成故事规则")
        || contains_str(&t, "补全世界观") || contains_str(&t, "写世界观")
}

/// `a` followed by the names of `b` that are not already in the result.
pub open spec fn merge_names(a: Seq<Seq<char>>, b: Seq<Seq<char>>) -> Seq<Seq<char>>
    decreases b.len(),
{
    if b.len() == 0 {
        a
    } else {
        let m = merge_names(a, b.drop_last());
        if m.contains(b.last()) {
            m
        } else {
            m.push(b.last())
        }
    }
}

/// The views of a list of names.
pub open spec fn names(v: Seq<&'static str>) -> Seq<Seq<char>> {
    v.map_values(|s: &'static str| s@)
}

/// Whether `n` is one of the names in `v`.
pub fn has_name(v: &Vec<&'static str>, n: &str) -> (r: bool)
    ensures
        r == names(v@).contains(n@),
{
    let nv = chars_of(n);
    let mut i: usize = 0;
    while i < v.len()
        invariant
            i <= v.len(),
            nv@ == n@,
            forall|j: int| 0 <= j < i ==> v@[j]@ != n@,
        decreases v.len() - i,
    {
        let vi: &str = v[i];
        assert(vi@ == v@[i as int]@);
        let x = chars_of(vi);
        if eq(&x, &nv) {
            assert(names(v@)[i as int] == n@);
            return true;
        }
        i += 1;
    }
    assert(!names(v@).contains(n@)) by {
        if names(v@).contains(n@) {
            let j = choose|j: int| 0 <= j < names(v@).len() && names(v@)[j] == n@;
            assert(v@[j]@ == n@);
        }
    }
    false
}

/// `a`, then each name of `b` that is not yet present.
pub fn merge_tool_names(a: &[&'static str], b: &[&'static str]) -> (r: Vec<&'static str>)
    ensures
        names(r@) == merge_names(names(a@), names(b@)),
{
    let mut out: Vec<&'static str> = Vec::new();
    let mut i: usize = 0;
    while i < a.len()
        invariant
            i <= a.len(),
            out@ == a@.subrange(0, i as int),
        decreases a.len() - i,
    {
        out.push(a[i]);
        i += 1;
        assert(out@ =~= a@.subrange(0, i as int));
    }
    assert(a@.subrange(0, a.len() as int) =~= a@);
    assert(names(b@.subrange(0, 0)) =~= Seq::<Seq<char>>::empty());
    assert(merge_names(names(a@), names(b@.subrange(0, 0))) == names(a@));
    let mut k: usize = 0;
    while k < b.len()
        invariant
            k <= b.len(),
            names(out@) == merge_names(names(a@), names(b@.subrange(0, k as int))),
        decreases b.len() - k,
    {
        assert(names(b@.subrange(0, k + 1)).drop_last() =~= names(b@.subrange(0, k as int)));
        assert(names(b@.subrange(0, k + 1)).last() == b@[k as int]@);
        if !has_name(&out, b[k]) {
            out.push(b[k]);
            assert(names(out@) =~= names(out@.drop_last()).push(b@[k as int]@));
        }
        k += 1;
    }
    assert(b@.subrange(0, b.len() as int) =~= b@);
    out
}

pub open spec fn tools_write() -> Seq<&'static str> {
    seq![
        "get_chapter_write_context",
        "generate_detailed_outline",
        "get_chapter_content",
        "set_chapter_content",
    ]
}

/// The four chapter-writing tools, in a fixed order.
pub fn tools_write_list() -> (r: Vec<&'static str>)
    ensures
        r@ == tools_write(),
{
    let r = vec![
        "get_chapter_write_context",
        "generate_detailed_outline",
        "get_chapter_content",
        "set_chapter_content",
    ];
    assert(r@ =~= tools_write());
    r
}

pub open spec fn tools_cards() -> Seq<&'static str> {
    seq![
        "get_selected_card",
        "get_character_card",
        "upsert_character_card",
        "upsert_plot_card",
        "upsert_knowledge_card",
        "fill_knowledge_card",
        "link_nodes",
        "unlink_nodes",
    ]
}

/// Tools for editing character, plot and knowledge cards.
pub fn tools_cards_list() -> (r: Vec<&'static str>)
    ensures
        r@ == tools_cards(),
{
    let r = vec![
        "get_selected_card",
        "get_character_card",
        "upsert_character_card",
        "upsert_plot_card",
        "upsert_knowledge_card",
        "fill_knowledge_card",
        "link_nodes",
        "unlink_nodes",
    ];
    assert(r@ =~= tools_cards());
    r
}

pub open spec fn tools_outline() -> Seq<&'static str> {
    seq![
        "get_selected_card",
        "generate_detailed_outline",
        "regenerate_detailed_outline_item",
        "update_chapter_outline",
    ]
}

/// Tools for detailed outlines.
pub fn tools_outline_list() -> (r: Vec<&'static str>)
    ensures
        r@ == tools_outline(),
{
    let r = vec![
        "get_selected_card",
        "generate_detailed_outline",
        "regenerate_detailed_outline_item",
        "update_chapter_outline",
    ];
    assert(r@ =~= tools_outline());
    r
}

pub open spec fn tools_shots() -> Seq<&'static str> {
    seq![
        "get_chapter_shots",
        "set_chapter_shots",
        "split_chapter_shots",
        "generate_shot_comfy_prompts",
        "submit_chapter_shots_comfyui",
    ]
}

pub open spec fn tools_library() -> Seq<&'static str> {
    seq![
        "list_knowledge",
        "import_knowledge",
        "search_knowledge",
        "archive_knowledge",
        "delete_knowledge",
        "list_public_knowledge_cards",
        "upsert_public_knowledge_card",
        "archive_public_knowledge_card",
        "add_public_knowledge_card",
    ]
}

pub open spec fn tools_worldview_gen() -> Seq<&'static str> {
    seq!["generate_worldview", "generate_story_rules"]
}

pub open spec fn tools_core() -> Seq<&'static str> {
    seq![
        "list_novels",
        "create_novel",
        "update_novel",
        "get_novel_info",
        "get_worldview",
        "ensure_worldview",
        "apply_worldview",
        "get_story_rules",
        "apply_story_rules",
        "get_selected_card",
        "get_tree",
        "layout_tree",
        "add_volume",
        "get_volume",
        "upsert_volume",
        "add_chapter",
        "update_chapter_outline",
        "generate_detailed_outline",
        "regenerate_detailed_outline_item",
        "delete_node",
        "get_chapter_content",
        "get_chapter_info",
        "get_chapter_write_context",
        "set_chapter_content",
        "get_chapter_memory",
        "list_chapter_memory",
        "set_chapter_memory",
        "regenerate_chapter_memory",
        "get_character_card",
        "upsert_character_card",
        "upsert_plot_card",
        "upsert_knowledge_card",
        "fill_knowledge_card",
        "link_nodes",
        "unlink_nodes",
    ]
}

/// Everyday chat tools (no shots, shared library or worldview generation).
pub fn tools_core_list() -> (r: Vec<&'static str>)
    ensures
        r@ == tools_core(),
{
    let r = vec![
        "list_novels",
        "create_novel",
        "update_novel",
        "get_novel_info",
        "get_worldview",
        "ensure_worldview",
        "apply_worldview",
        "get_story_rules",
        "apply_story_rules",
        "get_selected_card",
        "get_tree",
        "layout_tree",
        "add_volume",
        "get_volume",
        "upsert_volume",
        "add_chapter",
        "update_chapter_outline",
        "generate_detailed_outline",
        "regenerate_detailed_outline_item",
        "delete_node",
        "get_chapter_content",
        "get_chapter_info",
        "get_chapter_write_context",
        "set_chapter_content",
        "get_chapter_memory",
        "list_chapter_memory",
        "set_chapter_memory",
        "regenerate_chapter_memory",
        "get_character_card",
        "upsert_character_card",
        "upsert_plot_card",
        "upsert_knowledge_card",
        "fill_knowledge_card",
        "link_nodes",
        "unlink_nodes",
    ];
    assert(r@ =~= tools_core());
    r
}

/// Appends `b` to `a`.
pub fn extend_names(a: &mut Vec<&'static str>, b: Vec<&'static str>)
    ensures
        final(a)@ == old(a)@ + b@,
{
    let mut i: usize = 0;
    while i < b.len()
        invariant
            i <= b.len(),
            a@ == old(a)@ + b@.subrange(0, i as int),
        decreases b.len() - i,
    {
        a.push(b[i]);
        i += 1;
        assert(a@ =~= old(a)@ + b@.subrange(0, i as int));
    }
    assert(b@.subrange(0, b.len() as int) =~= b@);
}

/// The tool set and intent label chosen for a message.
pub open spec fn allowlist_spec(explicit_skill: bool, t: Seq<char>) -> (Option<Seq<Seq<char>>>, Seq<char>) {
    let cards = is_card_edit_spec(t);
    let outline = is_outline_gen_spec(t) && !is_write_body_spec(t);
    if explicit_skill {
        (None, "all"@)
    } else if outline || (cards && !is_write_body_spec(t)) {
        if cards && outline {
            (Some(merge_names(names(tools_cards()), names(tools_outline()))), "cards-outline"@)
        } else if cards {
            (Some(names(tools_cards())), "cards"@)
        } else {
            (Some(names(tools_outline())), "outline"@)
        }
    } else if is_write_chapter_spec(t) || is_write_body_spec(t) {
        (Some(names(tools_write())), "write"@)
    } else {
        let shots = wants_shots_spec(t);
        let lib = wants_library_spec(t);
        let wv = wants_worldview_gen_spec(t);
        if !shots && !lib && !wv {
            (Some(names(tools_core())), "core"@)
        } else {
            let n = tools_core() + (if shots { tools_shots() } else { seq![] })
                + (if lib { tools_library() } else { seq![] })
                + (if wv { tools_worldview_gen() } else { seq![] });
            let intent = if shots && !lib && !wv {
                "core-shots"@
            } else if !shots && lib && !wv {
                "core-lib"@
            } else if !shots && !lib && wv {
                "core-wv"@
            } else {
                "core-mix"@
            };
            (Some(names(n)), intent)
        }
    }
}

/// Which MCP tools a chat message is given (`None`: all of them) and the
/// intent label that goes into the prompt cache key.
pub fn chat_tool_allowlist(explicit_skill: bool, text: &str) -> (r: (Option<Vec<&'static str>>, &'static str))
    ensures
        (match r.0 { Some(v) => Some(names(v@)), None => None }, r.1@) == allowlist_spec(explicit_skill, text@),
{
    if explicit_skill {
        return (None, "all");
    }
    let cards = is_card_edit(text);
    let outline = is_outline_gen(text) && !is_write_body(text);
    if outline || (cards && !is_write_body(text)) {
        if cards && outline {
            let c = tools_cards_list();
            let o = tools_outline_list();
            return (Some(merge_tool_names(c.as_slice(), o.as_slice())), "cards-outline");
        } else if cards {
            return (Some(tools_cards_list()), "cards");
        } else {
            return (Some(tools_outline_list()), "outline");
        }
    }
    if is_write_chapter(text) || is_write_body(text) {
        return (Some(tools_write_list()), "write");
    }
    let shots = wants_shots(text);
    let lib = wants_library(text);
    let wv = wants_worldview_gen(text);
    if !shots && !lib && !wv {
        return (Some(tools_core_list()), "core");
    }
    let mut n = tools_core_list();
    if shots {
        let v = vec![
            "get_chapter_shots",
            "set_chapter_shots",
            "split_chapter_shots",
            "generate_shot_comfy_prompts",
            "submit_chapter_shots_comfyui",
        ];
        assert(v@ =~= tools_shots());
        extend_names(&mut n, v);
    }
    if lib {
        let v = vec![
            "list_knowledge",
            "import_knowledge",
            "search_knowledge",
            "archive_knowledge",
            "delete_knowledge",
            "list_public_knowledge_cards",
            "upsert_public_knowledge_card",
            "archive_public_knowledge_card",
            "add_public_knowledge_card",
        ];
        assert(v@ =~= tools_library());
        extend_names(&mut n, v);
    }
    if wv {
        let v = vec!["generate_worldview", "generate_story_rules"];
        assert(v@ =~= tools_worldview_gen());
        extend_names(&mut n, v);
    }
    let intent = if shots && !lib && !wv {
        "core-shots"
    } else if !shots && lib && !wv {
        "core-lib"
    } else if !shots && !lib && wv {
        "core-wv"
    } else {
        "core-mix"
    };
    proof {
        let e: Seq<&'static str> = seq![];
        let full = tools_core() + (if shots { tools_shots() } else { e })
            + (if lib { tools_library() } else { e }) + (if wv { tools_worldview_gen() } else { e });
        assert(n@ =~= full);
    }
    (Some(n), intent)
}


pub open spec fn intent_rule_spec(intent: Seq<char>) -> Seq<char> {
    if intent == "write"@ {
        RULE_WRITE@
    } else if intent == "outline"@ || intent == "cards-outline"@ {
        RULE_OUTLINE@
    } else if intent == "cards"@ {
        RULE_CARDS@
    } else {
        ""@
    }
}

pub const RULE_WRITE: &'static str = "\n本轮只开放写章工具。读一次 get_chapter_write_context，细纲空则 generate_detailed_outline，再 set_chapter_content 一次后立刻用一句话结束。禁止反复 get/set 同一章。";
pub const RULE_OUTLINE: &'static str = "\n本轮只开放细纲工具：generate_detailed_outline / regenerate_detailed_outline_item / update_chapter_outline / get_selected_card。禁止调用 get_chapter_write_context、set_chapter_content、get_chapter_content。细纲完成后用一句话结束，不要写正文。";
pub const RULE_CARDS: &'static str = "\n本轮只开放改卡工具。禁止调用 get_chapter_write_context、set_chapter_content、get_tree、get_novel_info。";

/// The system-prompt line that tells the model which tools this turn has.
pub fn intent_tool_rule(intent: &str) -> (r: &'static str)
    ensures
        r@ == intent_rule_spec(intent@),
{
    let t = chars_of(intent);
    if eq_str(&t, "write") {
        RULE_WRITE
    } else if eq_str(&t, "outline") || eq_str(&t, "cards-outline") {
        RULE_OUTLINE
    } else if eq_str(&t, "cards") {
        RULE_CARDS
    } else {
        ""
    }
}

pub const PLAN_AND_ASK: &'static str = "\
回答简洁，操作完成后用中文简要说明结果。默认直接做完，不要每次结尾问「要不要继续 / 是否继续 / 下一步吗」。\
仅当缺关键信息或有互斥路径、不选就无法下一步时才提问一次：是否题只问一句；单选列出 1. 2. 3.；多选写明「可多选」并用 1. 2. 3. 列出。\
用户答「是/否」针对上一问：同意则马上用工具落地，并连续做完其余可自主步骤；禁止重复已做过的检索/提炼，也禁止再问同一句或同义确认（含「要不要开始做任务」「是否继续下一项」）。\n\
【大需求 → 任务列表】用户一次给出多项目标、多章写作、长文多段指令，或明显需要 ≥3 个独立 MCP 动作时：\
先拆成编号任务列表（格式「1. …（待办）」；进行中/已完成改括号状态；**禁止**用 `- [ ]` 勾选行），\
再按顺序逐项执行。任务列表是执行计划，默认直接开做，不要先问用户「是否按此执行」。\
本轮能自主完成的尽量连续做完，每完成一项更新该条状态并一句说明。\
仅当某步真正缺关键参数或存在互斥路径时停下提问；人选完后继续未完成项，不要每步都问。小而单一的需求不要强行拆任务。";

pub const SYS_HEAD: &'static str = "你是 Novel Work 的全局助手。必须通过 MCP 工具读写小说、章节、知识库与卡片；不要臆造库里没有的数据。\n";
pub const SYS_MID: &'static str = "\n\
         写章用 get_chapter_write_context，遵守工具返回的 ai_guidance。node_id 可写树上 id、「第N章」、章号或唯一标题，不必先 get_tree。不要叠 get_novel_info+get_chapter_info。\
         改人物/剧情/知识卡：get_selected_card 或 get_character_card（指定 node_id）再 upsert_*，不要 get_tree/get_novel_info。\
         细纲只调 generate_detailed_outline（材料由工具组装）。公共知识库不是小说设定源。\n\
         ";
pub const SYS_UNBOUND: &'static str = "当前未绑定具体小说。需要改某本书时先 list_novels 或请用户打开工作台。";
pub const SYS_BOUND_A: &'static str = "当前绑定小说「";
pub const SYS_BOUND_B: &'static str = "」(novel_id=";
pub const SYS_BOUND_C: &'static str = ")。默认只操作这本书；用户明确要求时才换书。工作台已选中卡片时可省略 novel_id 与 node_id。";

pub open spec fn bound_line(novel_id: Seq<char>, novel_title: Seq<char>) -> Seq<char> {
    if novel_id.len() == 0 {
        SYS_UNBOUND@
    } else {
        let title = if trim(novel_title).len() == 0 { novel_id } else { trim(novel_title) };
        SYS_BOUND_A@ + title + SYS_BOUND_B@ + novel_id + SYS_BOUND_C@
    }
}

/// The assistant's system prompt for a chat bound to `novel_id` (or to no novel).
pub fn system_instruction(novel_id: &str, novel_title: &str) -> (r: String)
    ensures
        r@ == SYS_HEAD@ + bound_line(novel_id@, novel_title@) + SYS_MID@ + PLAN_AND_ASK@,
{
    let id = chars_of(novel_id);
    let mut bound: Vec<char> = Vec::new();
    if id.len() == 0 {
        append_str(&mut bound, SYS_UNBOUND);
    } else {
        let t = trim_str(novel_title);
        let title = if t.len() == 0 { id.clone() } else { t };
        append_str(&mut bound, SYS_BOUND_A);
        append(&mut bound, &title);
        append_str(&mut bound, SYS_BOUND_B);
        append(&mut bound, &id);
        append_str(&mut bound, SYS_BOUND_C);
    }
    let mut out: Vec<char> = Vec::new();
    append_str(&mut out, SYS_HEAD);
    append(&mut out, &bound);
    append_str(&mut out, SYS_MID);
    append_str(&mut out, PLAN_AND_ASK);
    string_of(&out)
}

/// Key of a tool call: its id, or its name when the id is empty.
pub fn tool_call_key(id: &str, name: &str) -> (r: String)
    ensures
        r@ == (if id@.len() == 0 { name@ } else { id@ }),
{
    let i = chars_of(id);
    if i.len() == 0 {
        let n = chars_of(name);
        string_of(&n)
    } else {
        string_of(&i)
    }
}

/// ASCII-lowercased copy.
pub fn ascii_lowercase(s: &Vec<char>) -> (r: Vec<char>)
    ensures
        r@ == ascii_lower_seq(s@),
{
    let mut r: Vec<char> = Vec::new();
    let mut i: usize = 0;
    while i < s.len()
        invariant
            i <= s.len(),
            r@ == ascii_lower_seq(s@.subrange(0, i as int)),
        decreases s.len() - i,
    {
        let c = s[i];
        let l = if 'A' <= c && c <= 'Z' { ((c as u8) + 32) as char } else { c };
        r.push(l);
        i += 1;
        assert(r@ =~= ascii_lower_seq(s@.subrange(0, i as int)));
    }
    assert(s@.subrange(0, s.len() as int) =~= s@);
    r
}

pub open spec fn unmatched_spec(m: Seq<char>) -> bool {
    let l = ascii_lower_seq(m);
    ||| has_sub(l, "insufficient tool messages"@)
    ||| has_sub(l, "tool_call_id"@)
    ||| (has_sub(l, "tool_calls"@) && has_sub(l, "must be followed"@))
}

/// The provider rejected a history whose tool calls lack tool results.
pub fn is_unmatched_tool_calls(msg: &str) -> (r: bool)
    ensures
        r == unmatched_spec(msg@),
{
    let m = ascii_lowercase(&chars_of(msg));
    contains_str(&m, "insufficient tool messages") || contains_str(&m, "tool_call_id")
        || (contains_str(&m, "tool_calls") && contains_str(&m, "must be followed"))
}

pub const ERR_TOO_MANY_TOOLS: &'static str = "模型连续调用工具次数过多，已停止。请再发一次，或把指令写得更具体。";
pub const ERR_UNDECODABLE: &'static str = "模型返回无法解析。若用的是 DeepSeek 官方 API，请确认地址含 api.deepseek.com 后重试。";

pub open spec fn friendly_err_spec(m: Seq<char>) -> Seq<char> {
    if has_sub(m, "Max iterations"@) || has_sub(m, "MaxTurnsError"@) || has_sub(m, "max turns"@) {
        ERR_TOO_MANY_TOOLS@
    } else if has_sub(m, "error decoding response body"@) {
        ERR_UNDECODABLE@
    } else {
        m
    }
}

/// A chat error as shown to the user: known provider failures are explained,
/// anything else is passed through unchanged.
pub fn friendly_chat_err(msg: String) -> (r: String)
    ensures
        r@ == friendly_err_spec(msg@),
{
    let m = chars_of(msg.as_str());
    if contains_str(&m, "Max iterations") || contains_str(&m, "MaxTurnsError") || contains_str(&m, "max turns") {
        String::from_str(ERR_TOO_MANY_TOOLS)
    } else if contains_str(&m, "error decoding response body") {
        String::from_str(ERR_UNDECODABLE)
    } else {
        msg
    }
}

/// Characters that may spell a chapter number.
pub open spec fn is_num_char(c: char) -> bool {
    is_digit(c) || "一二三四五六七八九十百千零〇两廿卅"@.contains(c)
}

pub open spec fn looks_like_num_spec(s: Seq<char>) -> bool {
    0 < s.len() <= 8 && forall|i: int| 0 <= i < s.len() ==> is_num_char(#[trigger] s[i])
}

/// One to eight digits or Chinese numeral characters.
pub fn looks_like_chapter_num(s: &Vec<char>) -> (r: bool)
    ensures
        r == looks_like_num_spec(s@),
{
    if s.len() == 0 || s.len() > 8 {
        return false;
    }
    let cn = chars_of("一二三四五六七八九十百千零〇两廿卅");
    let mut i: usize = 0;
    while i < s.len()
        invariant
            i <= s.len(),
            cn@ == "一二三四五六七八九十百千零〇两廿卅"@,
            forall|j: int| 0 <= j < i ==> is_num_char(#[trigger] s@[j]),
        decreases s.len() - i,
    {
        let c = s[i];
        if !(('0' <= c && c <= '9') || crate::text::contains_char(&cn, c)) {
            return false;
        }
        i += 1;
    }
    true
}

/// The chapter number written between the `第` at `p` and the next `章`.
pub open spec fn label_after(t: Seq<char>, p: int) -> Option<Seq<char>> {
    let tr = trim_start(t.subrange(p + 1, t.len() as int));
    match first_index_of(tr, '章') {
        Some(e) => {
            let inner = trim(tr.subrange(0, e));
            if looks_like_num_spec(inner) { Some(inner) } else { None }
        }
        None => None,
    }
}

/// The first `第…章` at or after `p` whose middle is a chapter number.
pub open spec fn num_label_from(t: Seq<char>, p: int) -> Option<Seq<char>>
    decreases t.len() - p,
{
    if p < 0 || p >= t.len() {
        None
    } else if t[p] == '第' && label_after(t, p) is Some {
        label_after(t, p)
    } else {
        num_label_from(t, p + 1)
    }
}

fn label_after_exec(t: &Vec<char>, p: usize) -> (r: Option<Vec<char>>)
    requires
        p < t.len(),
    ensures
        match r { Some(v) => label_after(t@, p as int) == Some(v@), None => label_after(t@, p as int) is None },
{
    let rest = slice(t, p + 1, t.len());
    let tr = crate::text::trimmed_start(&rest);
    assert(tr@.subrange(0, tr.len() as int) =~= tr@);
    assert(tr@ == trim_start(t@.subrange(p + 1, t.len() as int)));
    let fi = find_char(&tr, '章', 0);
    match fi {
        Some(e) => {
            assert(first_index_of(tr@, '章') == Some(e as int));
            let head = slice(&tr, 0, e);
            let inner = trimmed(&head);
            if looks_like_chapter_num(&inner) {
                Some(inner)
            } else {
                None
            }
        }
        None => {
            assert(first_index_of(tr@, '章') is None);
            None
        }
    }
}

/// The chapter number in the first `第N章` of `text`, if any.
pub fn chapter_num_label(text: &str) -> (r: Option<String>)
    ensures
        match r { Some(s) => num_label_from(text@, 0) == Some(s@), None => num_label_from(text@, 0) is None },
{
    let t = chars_of(text);
    let mut p: usize = 0;
    while p < t.len()
        invariant
            p <= t.len(),
            t@ == text@,
            num_label_from(t@, 0) == num_label_from(t@, p as int),
        decreases t.len() - p,
    {
        if t[p] == '第' {
            match label_after_exec(&t, p) {
                Some(v) => {
                    return Some(string_of(&v));
                }
                None => {}
            }
        }
        p += 1;
    }
    None
}

/// Characters of a chapter body that are not whitespace, as the `u32` the
/// original reports.
pub fn count_body_words(text: &str) -> (r: u32)
    ensures
        r == non_ws_count(text@) as u32,
{
    let n = non_ws_count_exec(&chars_of(text));
    n as u32
}

/// A history entry that already stands for a written chapter.
pub fn is_write_stub(text: &str) -> (r: bool)
    ensures
        r == starts_with(text@, "已写入"@),
{
    starts_with_str(&chars_of(text), "已写入")
}

pub open spec fn written_stub_spec(content: Seq<char>, words: nat) -> Seq<char> {
    match num_label_from(content, 0) {
        Some(n) => "已写入第"@ + n + "章，约 "@ + decimal(words) + " 字"@,
        None => "已写入本章，约 "@ + decimal(words) + " 字"@,
    }
}

/// The short line that replaces a written chapter body in the chat history.
pub fn chapter_written_stub(content: &str, words: u32) -> (r: String)
    ensures
        r@ == written_stub_spec(content@, words as nat),
{
    let mut out: Vec<char> = Vec::new();
    match chapter_num_label(content) {
        Some(n) => {
            append_str(&mut out, "已写入第");
            append(&mut out, &chars_of(n.as_str()));
            append_str(&mut out, "章，约 ");
        }
        None => {
            append_str(&mut out, "已写入本章，约 ");
        }
    }
    append_decimal(&mut out, words as u64);
    append_str(&mut out, " 字");
    string_of(&out)
}

pub open spec fn is_card_upsert_spec(n: Seq<char>) -> bool {
    ||| n == "upsert_character_card"@
    ||| n == "upsert_plot_card"@
    ||| n == "upsert_knowledge_card"@
    ||| n == "fill_knowledge_card"@
    ||| n == "generate_detailed_outline"@
    ||| n == "regenerate_detailed_outline_item"@
    ||| n == "update_chapter_outline"@
}

/// Tools whose large arguments are stubbed once they succeeded.
pub fn is_card_upsert(name: &str) -> (r: bool)
    ensures
        r == is_card_upsert_spec(name@),
{
    let n = chars_of(name);
    eq_str(&n, "upsert_character_card") || eq_str(&n, "upsert_plot_card")
        || eq_str(&n, "upsert_knowledge_card") || eq_str(&n, "fill_knowledge_card")
        || eq_str(&n, "generate_detailed_outline") || eq_str(&n, "regenerate_detailed_outline_item")
        || eq_str(&n, "update_chapter_outline")
}

pub open spec fn progress_spec(tool_name: Option<Seq<char>>, has_tool_result: bool, has_text: bool) -> Option<Seq<char>> {
    match tool_name {
        Some(n) if n.len() > 0 => Some("tool:"@ + n),
        _ => if has_tool_result {
            Some("thinking"@)
        } else if has_text {
            Some("writing"@)
        } else {
            None
        },
    }
}

/// The progress step shown while the assistant streams: a running tool first,
/// then thinking after a tool result, then writing.
pub fn next_progress_step(tool_name: Option<&str>, has_tool_result: bool, has_text: bool) -> (r: Option<String>)
    ensures
        (match r { Some(s) => Some(s@), None => None }) == progress_spec(
            match tool_name { Some(n) => Some(n@), None => None }, has_tool_result, has_text),
{
    match tool_name {
        Some(n) => {
            let nv = chars_of(n);
            if nv.len() > 0 {
                let mut out = chars_of("tool:");
                append(&mut out, &nv);
                return Some(string_of(&out));
            }
        }
        None => {}
    }
    if has_tool_result {
        Some(String::from_str("thinking"))
    } else if has_text {
        Some(String::from_str("writing"))
    } else {
        None
    }
}

/// Token usage to record: the API's sums when they are non-zero, otherwise the
/// prompt estimate and a quarter of the reply length.
pub fn usage_to_record(prompt_sum: u32, completion_sum: u32, est_prompt: u32, reply_len: usize) -> (r: (u32, u32))
    ensures
        r.0 == (if prompt_sum > 0 { prompt_sum } else { est_prompt }),
        r.1 == (if completion_sum > 0 { completion_sum } else { ((reply_len / 4) as u32) }),
{
    let prompt = if prompt_sum > 0 { prompt_sum } else { est_prompt };
    let completion = if completion_sum > 0 { completion_sum } else { (reply_len / 4) as u32 };
    (prompt, completion)
}

/// A message of the global chat as the client shows it.
#[derive(Debug)]
pub struct GlobalChatMessage {
    pub id: String,
    pub role: String,
    pub content: String,
    pub created_at: String,
}

/// What the client sends with a chat message.
#[derive(Debug)]
pub struct GlobalChatSendInput {
    pub content: String,
    pub route_name: Option<String>,
    pub path: Option<String>,
    pub novel_id: Option<String>,
    pub model: Option<String>,
}

/// A chat message as text: id, role, content, creation time.
pub type MsgView = (Seq<char>, Seq<char>, Seq<char>, Seq<char>);

impl View for GlobalChatMessage {
    type V = MsgView;

    open spec fn view(&self) -> MsgView {
        (self.id@, self.role@, self.content@, self.created_at@)
    }
}

pub open spec fn msg_views(v: Seq<GlobalChatMessage>) -> Seq<MsgView> {
    v.map_values(|m: GlobalChatMessage| m@)
}

impl GlobalChatMessage {
    /// A copy of the message.
    pub fn copy(&self) -> (r: GlobalChatMessage)
        ensures
            r@ == self@,
    {
        GlobalChatMessage {
            id: self.id.clone(),
            role: self.role.clone(),
            content: self.content.clone(),
            created_at: self.created_at.clone(),
        }
    }
}

/// The messages of one chat scope.
pub struct ChatSlot {
    pub scope: String,
    pub messages: Vec<GlobalChatMessage>,
}

/// The messages of the first slot of scope `key`; none where no slot is.
pub open spec fn slot_msgs(slots: Seq<ChatSlot>, key: Seq<char>) -> Seq<MsgView>
    decreases slots.len(),
{
    if slots.len() == 0 {
        Seq::empty()
    } else if slots[0].scope@ == key {
        msg_views(slots[0].messages@)
    } else {
        slot_msgs(slots.drop_first(), key)
    }
}

/// Index of the first slot of scope `key`.
pub open spec fn slot_index(slots: Seq<ChatSlot>, key: Seq<char>) -> Option<int>
    decreases slots.len(),
{
    if slots.len() == 0 {
        None
    } else if slots[0].scope@ == key {
        Some(0)
    } else {
        match slot_index(slots.drop_first(), key) { Some(k) => Some(k + 1), None => None }
    }
}

/// The chat history of every scope (the global one and one per novel),
/// kept apart from each other.
pub struct GlobalChatRuntime {
    slots: Vec<ChatSlot>,
}

impl View for GlobalChatRuntime {
    type V = Map<Seq<char>, Seq<MsgView>>;

    /// Each scope's messages, in order; a scope never written to has none.
    closed spec fn view(&self) -> Map<Seq<char>, Seq<MsgView>> {
        Map::new(|k: Seq<char>| true, |k: Seq<char>| slot_msgs(self.slots@, k))
    }
}

/// `chat` with `m` appended to scope `scope`.
pub open spec fn pushed(chat: Map<Seq<char>, Seq<MsgView>>, scope: Seq<char>, m: MsgView) -> Map<Seq<char>, Seq<MsgView>> {
    chat.insert(scope, chat[scope].push(m))
}

/// `chat` with the last message of `scope` dropped when it is the user's.
pub open spec fn popped_user(chat: Map<Seq<char>, Seq<MsgView>>, scope: Seq<char>) -> Map<Seq<char>, Seq<MsgView>> {
    let ms = chat[scope];
    if ms.len() > 0 && ms.last().1 == "user"@ { chat.insert(scope, ms.drop_last()) } else { chat }
}

proof fn lemma_slot_index(slots: Seq<ChatSlot>, key: Seq<char>)
    ensures
        match slot_index(slots, key) {
            Some(i) => 0 <= i < slots.len() && slots[i].scope@ == key && slot_msgs(slots, key) == msg_views(slots[i].messages@)
                && forall|j: int| 0 <= j < i ==> slots[j].scope@ != key,
            None => slot_msgs(slots, key) == Seq::<MsgView>::empty() && forall|j: int| 0 <= j < slots.len() ==> slots[j].scope@ != key,
        },
    decreases slots.len(),
{
    if slots.len() > 0 {
        lemma_slot_index(slots.drop_first(), key);
        if slots[0].scope@ != key {
            match slot_index(slots.drop_first(), key) {
                Some(i) => {
                    assert forall|j: int| 0 <= j < i + 1 implies slots[j].scope@ != key by {
                        if j > 0 {
                            assert(slots[j] == slots.drop_first()[j - 1]);
                        }
                    }
                },
                None => {
                    assert forall|j: int| 0 <= j < slots.len() implies slots[j].scope@ != key by {
                        if j > 0 {
                            assert(slots[j] == slots.drop_first()[j - 1]);
                        }
                    }
                },
            }
        }
    }
}

/// Changing slot `i`'s messages (the first slot of its scope) changes that
/// scope alone.
proof fn lemma_slot_update(slots: Seq<ChatSlot>, i: int, s2: ChatSlot)
    requires
        0 <= i < slots.len(),
        slot_index(slots, slots[i].scope@) == Some(i),
        s2.scope@ == slots[i].scope@,
    ensures
        forall|k: Seq<char>| #[trigger] slot_msgs(slots.update(i, s2), k)
            == if k == slots[i].scope@ { msg_views(s2.messages@) } else { slot_msgs(slots, k) },
    decreases slots.len(),
{
    assert forall|k: Seq<char>| #[trigger] slot_msgs(slots.update(i, s2), k)
        == if k == slots[i].scope@ { msg_views(s2.messages@) } else { slot_msgs(slots, k) } by {
        if i == 0 {
            assert(slots.update(i, s2).drop_first() =~= slots.drop_first());
        } else {
            assert(slots[0].scope@ != slots[i].scope@) by {
                lemma_slot_index(slots, slots[i].scope@);
            }
            assert(slots.update(i, s2).drop_first() =~= slots.drop_first().update(i - 1, s2));
            assert(slots.drop_first()[i - 1] == slots[i]);
            lemma_slot_index(slots, slots[i].scope@);
            lemma_slot_index(slots.drop_first(), slots[i].scope@);
            lemma_slot_update(slots.drop_first(), i - 1, s2);
            assert(slot_msgs(slots.update(i, s2).drop_first(), k) == slot_msgs(slots.drop_first().update(i - 1, s2), k));
        }
    }
}

/// A scope with no slot yet gets one at the end, changing that scope alone.
proof fn lemma_slot_push(slots: Seq<ChatSlot>, s2: ChatSlot)
    requires
        slot_index(slots, s2.scope@) is None,
    ensures
        forall|k: Seq<char>| #[trigger] slot_msgs(slots.push(s2), k)
            == if k == s2.scope@ { msg_views(s2.messages@) } else { slot_msgs(slots, k) },
    decreases slots.len(),
{
    assert forall|k: Seq<char>| #[trigger] slot_msgs(slots.push(s2), k)
        == if k == s2.scope@ { msg_views(s2.messages@) } else { slot_msgs(slots, k) } by {
        if slots.len() == 0 {
            assert(slots.push(s2)[0] == s2);
            assert(slots.push(s2).drop_first() =~= Seq::<ChatSlot>::empty());
            assert(slot_msgs(slots, k) == Seq::<MsgView>::empty());
            if k == s2.scope@ {
                assert(slot_msgs(slots.push(s2), k) == msg_views(s2.messages@));
            } else {
                assert(slot_msgs(slots.push(s2), k) == slot_msgs(Seq::<ChatSlot>::empty(), k));
            }
        } else {
            assert(slots.push(s2)[0] == slots[0]);
            assert(slots[0].scope@ != s2.scope@);
            assert(slot_index(slots.drop_first(), s2.scope@) is None);
            assert(slots.push(s2).drop_first() =~= slots.drop_first().push(s2));
            lemma_slot_push(slots.drop_first(), s2);
            assert(slot_msgs(slots.push(s2).drop_first(), k) == slot_msgs(slots.drop_first().push(s2), k));
        }
    }
}

impl GlobalChatRuntime {
    /// No messages in any scope.
    pub fn new() -> (r: Self)
        ensures
            forall|k: Seq<char>| #[trigger] r@[k] == Seq::<MsgView>::empty(),
    {
        GlobalChatRuntime { slots: Vec::new() }
    }

    fn find_slot(&self, key: &String) -> (r: Option<usize>)
        ensures
            match r {
                Some(i) => slot_index(self.slots@, key@) == Some(i as int),
                None => slot_index(self.slots@, key@) is None,
            },
    {
        let mut i: usize = 0;
        proof {
            assert(self.slots@.subrange(0, self.slots@.len() as int) =~= self.slots@);
        }
        while i < self.slots.len()
            invariant
                i <= self.slots.len(),
                slot_index(self.slots@, key@) == (match slot_index(self.slots@.subrange(i as int, self.slots@.len() as int), key@) {
                    Some(j) => Some(j + i),
                    None => None,
                }),
            decreases self.slots.len() - i,
        {
            assert(self.slots@.subrange(i as int, self.slots@.len() as int).drop_first()
                =~= self.slots@.subrange(i + 1, self.slots@.len() as int));
            if self.slots[i].scope == *key {
                return Some(i);
            }
            i += 1;
        }
        None
    }

    /// The messages of the scope `novel_id` names (see `scope_key`).
    pub fn list(&self, novel_id: Option<&str>) -> (r: Vec<GlobalChatMessage>)
        ensures
            msg_views(r@) == self@[scope_key_spec(match novel_id { Some(s) => Some(s@), None => None })],
    {
        let key = scope_key(novel_id);
        let mut out: Vec<GlobalChatMessage> = Vec::new();
        match self.find_slot(&key) {
            Some(i) => {
                proof {
                    lemma_slot_index(self.slots@, key@);
                }
                let ms = &self.slots[i].messages;
                let mut j: usize = 0;
                while j < ms.len()
                    invariant
                        j <= ms.len(),
                        msg_views(out@) == msg_views(ms@).subrange(0, j as int),
                    decreases ms.len() - j,
                {
                    let ghost before = out@;
                    let c = ms[j].copy();
                    out.push(c);
                    assert(out@ == before.push(c));
                    assert(msg_views(out@) =~= msg_views(before).push(c@));
                    assert(msg_views(out@) =~= msg_views(ms@).subrange(0, j + 1));
                    j += 1;
                }
                assert(msg_views(ms@).subrange(0, ms.len() as int) =~= msg_views(ms@));
            },
            None => {
                proof {
                    lemma_slot_index(self.slots@, key@);
                }
                assert(msg_views(out@) =~= Seq::<MsgView>::empty());
            },
        }
        out
    }

    /// Sets the messages of scope `key`, leaving every other scope as it was.
    fn set_scope(&mut self, key: String, messages: Vec<GlobalChatMessage>)
        ensures
            final(self)@ == old(self)@.insert(key@, msg_views(messages@)),
    {
        let ghost old_slots = self.slots@;
        let ghost mv = msg_views(messages@);
        let ghost kv = key@;
        match self.find_slot(&key) {
            Some(i) => {
                let s2 = ChatSlot { scope: key, messages: messages };
                proof {
                    lemma_slot_index(old_slots, kv);
                    lemma_slot_update(old_slots, i as int, s2);
                }
                self.slots.set(i, s2);
            },
            None => {
                let s2 = ChatSlot { scope: key, messages: messages };
                proof {
                    lemma_slot_push(old_slots, s2);
                }
                self.slots.push(s2);
            },
        }
        assert(self@ =~= old(self)@.insert(kv, mv));
    }

    /// Empties the scope `novel_id` names (see `scope_key`); other scopes
    /// keep their messages.
    pub fn clear(&mut self, novel_id: Option<&str>)
        ensures
            final(self)@ == old(self)@.insert(
                scope_key_spec(match novel_id { Some(s) => Some(s@), None => None }),
                Seq::<MsgView>::empty(),
            ),
    {
        let key = scope_key(novel_id);
        let empty: Vec<GlobalChatMessage> = Vec::new();
        assert(msg_views(empty@) =~= Seq::<MsgView>::empty());
        self.set_scope(key, empty);
    }

    /// The messages of scope `key`, taken out of the store.
    fn take_scope(&mut self, key: &String) -> (r: Vec<GlobalChatMessage>)
        ensures
            msg_views(r@) == old(self)@[key@],
            final(self)@ == old(self)@,
    {
        match self.find_slot(key) {
            Some(i) => {
                proof {
                    lemma_slot_index(self.slots@, key@);
                }
                let ms = &self.slots[i].messages;
                let mut out: Vec<GlobalChatMessage> = Vec::new();
                let mut j: usize = 0;
                while j < ms.len()
                    invariant
                        j <= ms.len(),
                        msg_views(out@) == msg_views(ms@).subrange(0, j as int),
                    decreases ms.len() - j,
                {
                    let ghost before = out@;
                    let c = ms[j].copy();
                    out.push(c);
                    assert(out@ == before.push(c));
                    assert(msg_views(out@) =~= msg_views(before).push(c@));
                    assert(msg_views(out@) =~= msg_views(ms@).subrange(0, j + 1));
                    j += 1;
                }
                assert(msg_views(ms@).subrange(0, ms.len() as int) =~= msg_views(ms@));
                out
            },
            None => {
                proof {
                    lemma_slot_index(self.slots@, key@);
                }
                let out: Vec<GlobalChatMessage> = Vec::new();
                assert(msg_views(out@) =~= Seq::<MsgView>::empty());
                out
            },
        }
    }
}

/// Appends a message to scope `scope` and returns it. Its id is a fresh
/// UUID; `created_at` is the time the caller stamps on it.
pub fn push_msg(runtime: &mut GlobalChatRuntime, scope: &str, role: &str, content: String, created_at: String) -> (r: GlobalChatMessage)
    ensures
        r.role@ == role@,
        r.content@ == content@,
        r.created_at@ == created_at@,
        r.id@.len() == 36,
        final(runtime)@ == pushed(old(runtime)@, scope@, r@),
{
    let msg = GlobalChatMessage {
        id: crate::ids::new_uuid(),
        role: String::from_str(role),
        content: content,
        created_at: created_at,
    };
    let key = String::from_str(scope);
    let mut ms = runtime.take_scope(&key);
    let ghost before = ms@;
    ms.push(msg.copy());
    assert(msg_views(ms@) =~= msg_views(before).push(msg@));
    runtime.set_scope(key, ms);
    msg
}

/// Drops the last message of scope `scope` when it is the user's (a turn
/// that was aborted); anything else stays.
pub fn pop_last_user(runtime: &mut GlobalChatRuntime, scope: &str)
    ensures
        final(runtime)@ == popped_user(old(runtime)@, scope@),
{
    let key = String::from_str(scope);
    let mut ms = runtime.take_scope(&key);
    let n = ms.len();
    if n > 0 && crate::text::eq_str(&chars_of(ms[n - 1].role.as_str()), "user") {
        let ghost before = ms@;
        ms.pop();
        assert(msg_views(ms@) =~= msg_views(before).drop_last());
        runtime.set_scope(key, ms);
    }
}

/// A user message pushed and then popped leaves every scope as it was.
pub proof fn pop_undoes_user_push(before: GlobalChatRuntime, scope: Seq<char>, m: MsgView)
    requires
        m.1 == "user"@,
    ensures
        popped_user(pushed(before@, scope, m), scope) == before@,
{
    let after = pushed(before@, scope, m);
    assert(after[scope].drop_last() =~= before@[scope]);
    assert(popped_user(after, scope) =~= before@);
}

/// Writing to one scope leaves every other scope as it was: pushing a
/// message shows it last in its own scope, and clearing empties only the
/// scope cleared.
pub proof fn scopes_are_isolated(before: GlobalChatRuntime, scope: Seq<char>, other: Seq<char>, m: MsgView)
    requires
        other != scope,
    ensures
        pushed(before@, scope, m)[other] == before@[other],
        pushed(before@, scope, m)[scope].last() == m,
        pushed(before@, scope, m)[scope].len() == before@[scope].len() + 1,
        before@.insert(scope, Seq::<MsgView>::empty())[other] == before@[other],
{
}

} // verus!
