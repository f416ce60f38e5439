//! The JSON replies of the worldview and story-rules chats: the assistant's
//! reply and the cards it sends back.
use vstd::prelude::*;
use crate::json::{as_str_spec, get_spec, json_get, obj_find, obj_get, Json};
use crate::llm_json::{extract_json_objects, objects_spec};
use crate::outline_json::{lemma_get_update, strs};
use crate::kb_context::{lex_lt, lex_lt_exec};
use crate::models::{derefs, NodeKind, NovelTree, TreeNode};
use crate::text::{append, append_decimal, append_str, chars_of, decimal, join, string_of, trim, trim_str, trimmed};

verus! {

/// The four story-rules cards, by their keys.
pub open spec fn story_keys() -> Seq<Seq<char>> {
    seq!["surface_setting"@, "story_engine"@, "fulfillment_system"@, "constraint_redlines"@]
}

/// Member `k` of `v` when it is an object.
pub open spec fn obj_member(v: Json, k: Seq<char>) -> Option<Json> {
    match get_spec(v, k) {
        Some(x) => if x is Obj { Some(x) } else { None },
        None => None,
    }
}

/// The cards among `keys` that `v` holds as objects, in the order of `keys`.
pub open spec fn cards_of(v: Json, keys: Seq<Seq<char>>) -> Seq<(Seq<char>, Json)>
    decreases keys.len(),
{
    if keys.len() == 0 {
        Seq::empty()
    } else {
        let rest = cards_of(v, keys.drop_last());
        match obj_member(v, keys.last()) {
            Some(x) => rest.push((keys.last(), x)),
            None => rest,
        }
    }
}

pub open spec fn kv_views(m: Seq<(String, Json)>) -> Seq<(Seq<char>, Json)> {
    m.map_values(|p: (String, Json)| (p.0@, p.1))
}

/// The story-rules cards a reply object carries: its `blocks` object, else
/// an object of the four cards it holds at the top level, else none.
pub open spec fn story_blocks_spec(v: Json, r: Option<Json>) -> bool {
    match obj_member(v, "blocks"@) {
        Some(b) => r == Some(b),
        None => {
            let cards = cards_of(v, story_keys());
            if cards.len() == 0 {
                r is None
            } else {
                r matches Some(Json::Obj(m)) && kv_views(m@) == cards
            }
        },
    }
}

/// The object carries story-rules cards.
pub open spec fn has_story_blocks(v: Json) -> bool {
    obj_member(v, "blocks"@) is Some || cards_of(v, story_keys()).len() > 0
}

proof fn lemma_story_keys_apart()
    ensures
        forall|i: int, j: int| 0 <= i < j < story_keys().len() ==> story_keys()[i] != story_keys()[j],
{
    reveal_strlit("surface_setting");
    reveal_strlit("story_engine");
    reveal_strlit("fulfillment_system");
    reveal_strlit("constraint_redlines");
    assert("surface_setting"@.len() == 15);
    assert("story_engine"@.len() == 12);
    assert("fulfillment_system"@.len() == 18);
    assert("constraint_redlines"@.len() == 19);
}

fn obj_member_exec<'a>(v: &'a Json, k: &str) -> (r: Option<&'a Json>)
    ensures
        match r {
            Some(x) => obj_member(*v, k@) == Some(*x),
            None => obj_member(*v, k@) is None,
        },
{
    match json_get(v, k) {
        Some(x) => match x {
            Json::Obj(_) => Some(x),
            _ => None,
        },
        None => None,
    }
}

/// Whether `v` carries story-rules cards (see `has_story_blocks`).
fn has_story_blocks_exec(v: &Json) -> (r: bool)
    ensures
        r == has_story_blocks(*v),
{
    if obj_member_exec(v, "blocks").is_some() {
        return true;
    }
    let ks: &[&str] = &["surface_setting", "story_engine", "fulfillment_system", "constraint_redlines"];
    let ghost kv = strs(ks@);
    assert(kv =~= story_keys());
    let mut j: usize = 0;
    while j < ks.len()
        invariant
            j <= ks.len(),
            kv == strs(ks@),
            kv == story_keys(),
            cards_of(*v, kv.subrange(0, j as int)).len() == 0,
        decreases ks.len() - j,
    {
        assert(kv.subrange(0, j + 1).drop_last() =~= kv.subrange(0, j as int));
        assert(kv.subrange(0, j + 1).last() == ks@[j as int]@);
        if obj_member_exec(v, ks[j]).is_some() {
            proof {
                lemma_cards_grow(*v, kv, j as int + 1);
            }
            return true;
        }
        j += 1;
    }
    assert(kv.subrange(0, ks.len() as int) =~= kv);
    false
}

proof fn lemma_cards_of_non_object(v: Json, keys: Seq<Seq<char>>)
    requires
        !(v is Obj),
    ensures
        cards_of(v, keys).len() == 0,
    decreases keys.len(),
{
    if keys.len() > 0 {
        lemma_cards_of_non_object(v, keys.drop_last());
    }
}

proof fn lemma_cards_grow(v: Json, keys: Seq<Seq<char>>, j: int)
    requires
        0 <= j <= keys.len(),
    ensures
        cards_of(v, keys.subrange(0, j)).len() <= cards_of(v, keys).len(),
    decreases keys.len() - j,
{
    if j < keys.len() {
        lemma_cards_grow(v, keys, j + 1);
        assert(keys.subrange(0, j + 1).drop_last() =~= keys.subrange(0, j));
    } else {
        assert(keys.subrange(0, j) =~= keys);
    }
}

/// The story-rules cards of a reply object (see `story_blocks_spec`); the
/// cards are taken out of `v`.
pub fn coerce_story_rules_blocks(v: Json) -> (r: Option<Json>)
    ensures
        story_blocks_spec(v, r),
{
    let ghost v0 = v;
    let mut m = match v {
        Json::Obj(m) => m,
        _ => {
            proof {
                lemma_cards_of_non_object(v0, story_keys());
            }
            return None;
        },
    };
    let ghost m0 = m@;
    match obj_find(&m, "blocks") {
        Some(i) => {
            if matches!(m[i].1, Json::Obj(_)) {
                let (_, b) = m.remove(i);
                return Some(b);
            }
        },
        None => {},
    }
    let ks: &[&str] = &["surface_setting", "story_engine", "fulfillment_system", "constraint_redlines"];
    let ghost kv = strs(ks@);
    assert(kv =~= story_keys());
    proof {
        lemma_story_keys_apart();
    }
    let mut out: Vec<(String, Json)> = Vec::new();
    let mut j: usize = 0;
    while j < ks.len()
        invariant
            j <= ks.len(),
            kv == strs(ks@),
            kv == story_keys(),
            v0 matches Json::Obj(mm) && mm@ == m0,
            forall|a: int, b: int| 0 <= a < b < kv.len() ==> kv[a] != kv[b],
            forall|k: Seq<char>| (forall|q: int| 0 <= q < j ==> kv[q] != k) ==> #[trigger] obj_get(m@, k) == obj_get(m0, k),
            kv_views(out@) == cards_of(v0, kv.subrange(0, j as int)),
        decreases ks.len() - j,
    {
        assert(kv.subrange(0, j + 1).drop_last() =~= kv.subrange(0, j as int));
        assert(kv.subrange(0, j + 1).last() == kv[j as int]);
        assert(kv[j as int] == ks@[j as int]@);
        assert(forall|q: int| 0 <= q < j ==> kv[q] != kv[j as int]);
        assert(obj_get(m@, kv[j as int]) == obj_get(m0, kv[j as int]));
        match obj_find(&m, ks[j]) {
            Some(i) => {
                if matches!(m[i].1, Json::Obj(_)) {
                    let ghost mb = m@;
                    let (k, x) = m.remove(i);
                    m.insert(i, (String::from_str(ks[j]), Json::Null));
                    proof {
                        assert(m@ =~= mb.update(i as int, m@[i as int]));
                        lemma_get_update(mb, i as int, kv[j as int], m@[i as int]);
                    }
                    let ghost ob = out@;
                    out.push((k, x));
                    assert(kv_views(out@) =~= kv_views(ob).push((kv[j as int], x)));
                }
            },
            None => {},
        }
        j += 1;
    }
    assert(kv.subrange(0, ks.len() as int) =~= kv);
    if out.len() == 0 {
        None
    } else {
        Some(Json::Obj(out))
    }
}

pub open spec fn reply_keys() -> Seq<Seq<char>> {
    seq!["reply"@, "message"@, "assistant"@, "说明"@, "回复"@]
}

/// The first of `keys` under which `v` has a non-blank string, trimmed.
pub open spec fn reply_in(v: Json, keys: Seq<Seq<char>>) -> Option<Seq<char>>
    decreases keys.len(),
{
    if keys.len() == 0 {
        None
    } else {
        match get_spec(v, keys[0]) {
            Some(Json::Str(s)) => if trim(s@).len() > 0 { Some(trim(s@)) } else { reply_in(v, keys.drop_first()) },
            _ => reply_in(v, keys.drop_first()),
        }
    }
}

pub open spec fn story_reply_spec(v: Json, zh: bool) -> Seq<char> {
    match reply_in(v, reply_keys()) {
        Some(t) => t,
        None => if zh { "已根据对话更新故事规则四卡。"@ } else { "Story rules four cards updated from chat."@ },
    }
}

/// The assistant's words in a story-rules reply object (see
/// `story_reply_spec`).
pub fn story_rules_reply_from_value(v: &Json, loc_is_zh: bool) -> (r: String)
    ensures
        r@ == story_reply_spec(*v, loc_is_zh),
{
    let ks: &[&str] = &["reply", "message", "assistant", "说明", "回复"];
    let ghost kv = strs(ks@);
    assert(kv =~= reply_keys());
    let mut j: usize = 0;
    assert(kv.subrange(0, kv.len() as int) =~= kv);
    while j < ks.len()
        invariant
            j <= ks.len(),
            kv == strs(ks@),
            kv == reply_keys(),
            reply_in(*v, kv) == reply_in(*v, kv.subrange(j as int, kv.len() as int)),
        decreases ks.len() - j,
    {
        assert(kv.subrange(j as int, kv.len() as int).drop_first() =~= kv.subrange(j + 1, kv.len() as int));
        assert(kv.subrange(j as int, kv.len() as int)[0] == ks@[j as int]@);
        match json_get(v, ks[j]) {
            Some(Json::Str(s)) => {
                let t = trim_str(s.as_str());
                if t.len() > 0 {
                    return string_of(&t);
                }
            },
            _ => {},
        }
        j += 1;
    }
    if loc_is_zh {
        String::from_str("已根据对话更新故事规则四卡。")
    } else {
        String::from_str("Story rules four cards updated from chat.")
    }
}

/// The first object of a reply that carries story-rules cards.
pub open spec fn first_story(objs: Seq<Json>) -> Option<Json>
    decreases objs.len(),
{
    if objs.len() == 0 {
        None
    } else if has_story_blocks(objs[0]) {
        Some(objs[0])
    } else {
        first_story(objs.drop_first())
    }
}

pub open spec fn story_parse_error(zh: bool) -> Seq<char> {
    if zh {
        "未能解析故事规则 JSON（需含 reply 与 blocks，或顶层 surface_setting / story_engine / fulfillment_system / constraint_redlines）"@
    } else {
        "Could not parse story-rules JSON (need reply+blocks or top-level four card objects)"@
    }
}

/// The reply and the cards of a story-rules chat answer: from the first
/// JSON object that carries cards (see `story_blocks_spec`).
pub fn parse_story_rules_chat_json(text: &str, loc_is_zh: bool) -> (r: Result<(String, Json), String>)
    ensures
        match r {
            Ok((reply, blocks)) => first_story(objects_spec(text@)) matches Some(v)
                && reply@ == story_reply_spec(v, loc_is_zh) && story_blocks_spec(v, Some(blocks)),
            Err(e) => first_story(objects_spec(text@)) is None && e@ == story_parse_error(loc_is_zh),
        },
{
    let objs = extract_json_objects(text);
    let ghost all = objs@;
    let n_all = objs.len();
    let mut rest = objs;
    let mut i: usize = 0;
    assert(all.subrange(0, n_all as int) =~= all);
    while rest.len() > 0
        invariant
            all.len() == n_all,
            i + rest@.len() == n_all,
            rest@ == all.subrange(i as int, n_all as int),
            all == objects_spec(text@),
            first_story(all) == first_story(all.subrange(i as int, n_all as int)),
        decreases rest@.len(),
    {
        let v = rest.remove(0);
        assert(all.subrange(i as int, n_all as int).drop_first() =~= all.subrange(i + 1, n_all as int));
        assert(rest@ =~= all.subrange(i + 1, n_all as int));
        assert(v == all.subrange(i as int, n_all as int)[0]);
        if has_story_blocks_exec(&v) {
            let reply = story_rules_reply_from_value(&v, loc_is_zh);
            let ghost vv = v;
            match coerce_story_rules_blocks(v) {
                Some(b) => {
                    return Ok((reply, b));
                },
                None => {
                    assert(false);
                },
            }
        }
        i += 1;
    }
    if loc_is_zh {
        Err(String::from_str("未能解析故事规则 JSON（需含 reply 与 blocks，或顶层 surface_setting / story_engine / fulfillment_system / constraint_redlines）"))
    } else {
        Err(String::from_str("Could not parse story-rules JSON (need reply+blocks or top-level four card objects)"))
    }
}

/// The trimmed `reply` of a worldview answer object (empty when absent).
pub open spec fn wv_reply(v: Json) -> Seq<char> {
    match get_spec(v, "reply"@) {
        Some(Json::Str(s)) => trim(s@),
        _ => Seq::empty(),
    }
}

/// A worldview answer object: a non-blank reply and a `worldview`.
pub open spec fn is_wv_answer(v: Json) -> bool {
    get_spec(v, "worldview"@) is Some && wv_reply(v).len() > 0
}

pub open spec fn first_wv(objs: Seq<Json>) -> Option<Json>
    decreases objs.len(),
{
    if objs.len() == 0 {
        None
    } else if is_wv_answer(objs[0]) {
        Some(objs[0])
    } else {
        first_wv(objs.drop_first())
    }
}

/// The reply and the worldview of a worldview chat answer: from the first
/// JSON object with a non-blank `reply` and a `worldview`.
pub fn parse_worldview_chat_json(text: &str) -> (r: Result<(String, Json), String>)
    ensures
        match r {
            Ok((reply, wv)) => first_wv(objects_spec(text@)) matches Some(v)
                && reply@ == wv_reply(v) && get_spec(v, "worldview"@) == Some(wv),
            Err(e) => first_wv(objects_spec(text@)) is None && e@ == "未能解析世界观 JSON（需含 reply 与 worldview）"@,
        },
{
    let objs = extract_json_objects(text);
    let ghost all = objs@;
    let n_all = objs.len();
    let mut rest = objs;
    let mut i: usize = 0;
    assert(all.subrange(0, n_all as int) =~= all);
    while rest.len() > 0
        invariant
            all.len() == n_all,
            i + rest@.len() == n_all,
            rest@ == all.subrange(i as int, n_all as int),
            all == objects_spec(text@),
            first_wv(all) == first_wv(all.subrange(i as int, n_all as int)),
        decreases rest@.len(),
    {
        let v = rest.remove(0);
        assert(all.subrange(i as int, n_all as int).drop_first() =~= all.subrange(i + 1, n_all as int));
        assert(rest@ =~= all.subrange(i + 1, n_all as int));
        assert(v == all.subrange(i as int, n_all as int)[0]);
        let reply = match json_get(&v, "reply") {
            Some(Json::Str(s)) => trim_str(s.as_str()),
            _ => Vec::new(),
        };
        if reply.len() > 0 {
            let ghost vv = v;
            if let Json::Obj(mut m) = v {
                match obj_find(&m, "worldview") {
                    Some(w) => {
                        let (_, wv) = m.remove(w);
                        return Ok((string_of(&reply), wv));
                    },
                    None => {},
                }
            }
        }
        i += 1;
    }
    Err(String::from_str("未能解析世界观 JSON（需含 reply 与 worldview）"))
}

/// Chapter order of the story-rules chat: by canvas y, then label, then id.
pub open spec fn rules_before(a: TreeNode, b: TreeNode) -> bool {
    ||| a.position.y < b.position.y
    ||| a.position.y == b.position.y && lex_lt(a.label@, b.label@)
    ||| a.position.y == b.position.y && a.label@ == b.label@ && lex_lt(a.id@, b.id@)
}

pub open spec fn rules_ins_pos(sorted: Seq<TreeNode>, x: TreeNode) -> int
    decreases sorted.len(),
{
    if sorted.len() == 0 {
        0
    } else if rules_before(x, sorted[0]) {
        0
    } else {
        1 + rules_ins_pos(sorted.drop_first(), x)
    }
}

/// The chapter nodes among `ns`, stably sorted by `rules_before`.
pub open spec fn rules_sorted(ns: Seq<TreeNode>) -> Seq<TreeNode>
    decreases ns.len(),
{
    if ns.len() == 0 {
        Seq::empty()
    } else {
        let acc = rules_sorted(ns.drop_last());
        if ns.last().kind == NodeKind::Chapter {
            acc.insert(rules_ins_pos(acc, ns.last()), ns.last())
        } else {
            acc
        }
    }
}

proof fn lemma_rules_ins_scan(sorted: Seq<TreeNode>, x: TreeNode, p: int)
    requires
        0 <= p <= sorted.len(),
        forall|j: int| 0 <= j < p ==> !rules_before(x, #[trigger] sorted[j]),
        p == sorted.len() || rules_before(x, sorted[p]),
    ensures
        rules_ins_pos(sorted, x) == p,
    decreases p,
{
    if p > 0 {
        let t = sorted.drop_first();
        assert forall|j: int| 0 <= j < p - 1 implies !rules_before(x, #[trigger] t[j]) by {
            assert(t[j] == sorted[j + 1]);
        }
        if p < sorted.len() {
            assert(t[p - 1] == sorted[p]);
        }
        lemma_rules_ins_scan(t, x, p - 1);
    }
}

fn rules_before_exec(a: &TreeNode, b: &TreeNode) -> (r: bool)
    ensures
        r == rules_before(*a, *b),
{
    if a.position.y < b.position.y {
        return true;
    }
    if a.position.y != b.position.y {
        return false;
    }
    let la = chars_of(a.label.as_str());
    let lb = chars_of(b.label.as_str());
    if lex_lt_exec(&la, &lb) {
        return true;
    }
    crate::text::eq(&la, &lb) && lex_lt_exec(&chars_of(a.id.as_str()), &chars_of(b.id.as_str()))
}

/// One line of the chapter list: `i. title`, with ` — outline` when the
/// outline is not blank.
pub open spec fn rules_line(i: int, n: TreeNode) -> Seq<char> {
    let head = decimal((i + 1) as nat) + ". "@ + trim(n.label@);
    if trim(n.outline@).len() == 0 { head } else { head + " — "@ + trim(n.outline@) }
}

pub open spec fn rules_lines(chs: Seq<TreeNode>) -> Seq<Seq<char>> {
    Seq::new(chs.len(), |i: int| rules_line(i, chs[i]))
}

/// The chapter list a story-rules chat is given: the chapters in order
/// (see `rules_sorted`), one numbered line each; a note when there are
/// none.
pub open spec fn rules_context_spec(ns: Seq<TreeNode>, zh: bool) -> Seq<char> {
    let chs = rules_sorted(ns);
    if chs.len() == 0 {
        if zh { "（尚无章节节点）"@ } else { "(No chapter nodes on tree)"@ }
    } else {
        join(rules_lines(chs), "\n"@)
    }
}

/// See `rules_context_spec`.
pub fn story_rules_chapter_context(tree: &NovelTree, loc_is_zh: bool) -> (r: String)
    ensures
        r@ == rules_context_spec(tree.nodes@, loc_is_zh),
{
    let mut chs: Vec<&TreeNode> = Vec::new();
    let mut i: usize = 0;
    while i < tree.nodes.len()
        invariant
            i <= tree.nodes.len(),
            derefs(chs@) == rules_sorted(tree.nodes@.subrange(0, i as int)),
            chs@.len() <= i,
        decreases tree.nodes.len() - i,
    {
        let ghost pre = tree.nodes@.subrange(0, i as int);
        assert(tree.nodes@.subrange(0, i + 1).drop_last() =~= pre);
        assert(tree.nodes@.subrange(0, i + 1).last() == tree.nodes@[i as int]);
        let n = &tree.nodes[i];
        if n.kind == NodeKind::Chapter {
            let mut p: usize = 0;
            while p < chs.len() && !rules_before_exec(n, chs[p])
                invariant
                    p <= chs.len(),
                    forall|q: int| 0 <= q < p ==> !rules_before(*n, #[trigger] derefs(chs@)[q]),
                decreases chs.len() - p,
            {
                p += 1;
            }
            proof {
                lemma_rules_ins_scan(derefs(chs@), *n, p as int);
            }
            let ghost before = chs@;
            chs.insert(p, n);
            assert(derefs(chs@) =~= derefs(before).insert(p as int, *n));
        }
        i += 1;
    }
    assert(tree.nodes@.subrange(0, tree.nodes.len() as int) =~= tree.nodes@);
    if chs.len() == 0 {
        return if loc_is_zh {
            String::from_str("（尚无章节节点）")
        } else {
            String::from_str("(No chapter nodes on tree)")
        };
    }
    let ghost cs = derefs(chs@);
    let mut out: Vec<char> = Vec::new();
    let mut k: usize = 0;
    while k < chs.len()
        invariant
            k <= chs.len(),
            cs == derefs(chs@),
            k == 0 ==> out@ == Seq::<char>::empty(),
            k > 0 ==> out@ == join(rules_lines(cs).subrange(0, k as int), "\n"@),
        decreases chs.len() - k,
    {
        let ghost ls = rules_lines(cs);
        assert(ls.subrange(0, k + 1).drop_last() =~= ls.subrange(0, k as int));
        assert(ls.subrange(0, k + 1).last() == rules_line(k as int, cs[k as int]));
        let c = chs[k];
        if k > 0 {
            append_str(&mut out, "\n");
        }
        let ghost base = out@;
        append_decimal(&mut out, (k + 1) as u64);
        append_str(&mut out, ". ");
        let title = trimmed(&chars_of(c.label.as_str()));
        append(&mut out, &title);
        let ol = trimmed(&chars_of(c.outline.as_str()));
        if ol.len() > 0 {
            append_str(&mut out, " — ");
            append(&mut out, &ol);
        }
        assert(out@ =~= base + rules_line(k as int, cs[k as int]));
        proof {
            if k == 0 {
                assert(ls.subrange(0, 1) =~= seq![ls[0]]);
            }
        }
        k += 1;
    }
    assert(rules_lines(cs).subrange(0, chs.len() as int) =~= rules_lines(cs));
    string_of(&out)
}

} // verus!
