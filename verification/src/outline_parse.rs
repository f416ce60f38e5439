//! Reading a list of outline beats (or body suggestions) out of a model
//! reply, however the model wrote it: a JSON object with a list, a list of
//! objects, a numbered map, a bare `"key": [ … ]`, a truncated list, or
//! plain numbered lines.
use vstd::prelude::*;
use crate::chapter_constraints::{strip_list_marks, strip_list_marks_exec};
use crate::json::{
    get_spec, json_get, json_parse, json_parse_string, json_text, json_to_text, obj_find, obj_get,
    parse_json, parse_json_string, Json,
};
use crate::llm_json::{
    extract_json_objects, find_matching_pair, matching_spec, normalize_llm_json_text, normalize_spec,
    objects_spec, strip_commas_spec, strip_trailing_commas,
};
use crate::text::{
    append, append_decimal, append_str, ascii_lower_seq, chars_of, decimal, eq, eq_str, has_sub,
    is_ws, is_ws_exec, join, join_exec, lines, lines_of, occurs_at, parse_u32, parse_u32_spec, slice,
    starts_with, string_of, trim, trim_start, trimmed, trimmed_start, trim_str, vviews,
};

verus! {

/// The trimmed text of a non-blank string member.
pub open spec fn str_field(m: Seq<(String, Json)>, key: Seq<char>) -> Option<Seq<char>> {
    match obj_get(m, key) {
        Some(Json::Str(s)) => if trim(s@).len() > 0 { Some(trim(s@)) } else { None },
        _ => None,
    }
}

pub open spec fn opt_seq(o: Option<Seq<char>>) -> Seq<Seq<char>> {
    match o { Some(x) => seq![x], None => Seq::empty() }
}

pub open spec fn or_opt(a: Option<Seq<char>>, b: Option<Seq<char>>) -> Option<Seq<char>> {
    if a is Some { a } else { b }
}

/// Who / does / what / result / turn (and their Chinese keys), where set.
pub open spec fn action_parts(m: Seq<(String, Json)>) -> Seq<Seq<char>> {
    opt_seq(str_field(m, "who"@)) + opt_seq(str_field(m, "does"@)) + opt_seq(str_field(m, "what"@))
        + opt_seq(str_field(m, "result"@)) + opt_seq(str_field(m, "turn"@)) + opt_seq(str_field(m, "谁"@))
        + opt_seq(str_field(m, "做"@)) + opt_seq(str_field(m, "结果"@))
}

/// The first set text among the usual beat keys.
pub open spec fn beat_field(m: Seq<(String, Json)>) -> Option<Seq<char>> {
    or_opt(str_field(m, "item"@), or_opt(str_field(m, "beat"@), or_opt(str_field(m, "text"@),
    or_opt(str_field(m, "scene"@), or_opt(str_field(m, "content"@), or_opt(str_field(m, "outline"@),
    or_opt(str_field(m, "细纲"@), or_opt(str_field(m, "内容"@), or_opt(str_field(m, "要点"@),
    or_opt(str_field(m, "what"@), or_opt(str_field(m, "desc"@), or_opt(str_field(m, "description"@),
    str_field(m, "summary"@)))))))))))))
}

/// The trimmed string members of four or more characters, in order.
pub open spec fn long_strings(m: Seq<(String, Json)>) -> Seq<Seq<char>>
    decreases m.len(),
{
    if m.len() == 0 {
        Seq::empty()
    } else {
        let rest = long_strings(m.drop_last());
        match m.last().1 {
            Json::Str(s) => if trim(s@).len() >= 4 { rest.push(trim(s@)) } else { rest },
            _ => rest,
        }
    }
}

/// One beat read from a JSON value: a non-blank string (trimmed); a number
/// as written; from an object, its action parts joined when there are two
/// or more, else its first beat key, else its one action part, else its
/// longer strings joined.
pub open spec fn beat_spec(v: Json) -> Option<Seq<char>> {
    match v {
        Json::Str(s) => if trim(s@).len() > 0 { Some(trim(s@)) } else { None },
        Json::Num(n) => Some(n.text@),
        Json::Obj(m) => {
            let parts = action_parts(m@);
            if parts.len() >= 2 {
                Some(join(parts, "；"@))
            } else if beat_field(m@) is Some {
                beat_field(m@)
            } else if parts.len() == 1 {
                Some(parts[0])
            } else if long_strings(m@).len() > 0 {
                Some(join(long_strings(m@), "；"@))
            } else {
                None
            }
        },
        _ => None,
    }
}

fn str_field_exec(m: &Vec<(String, Json)>, key: &str) -> (r: Option<Vec<char>>)
    ensures
        match r {
            Some(x) => str_field(m@, key@) == Some(x@),
            None => str_field(m@, key@) is None,
        },
{
    match obj_find(m, key) {
        Some(i) => match &m[i].1 {
            Json::Str(s) => {
                let t = trim_str(s.as_str());
                if t.len() > 0 { Some(t) } else { None }
            },
            _ => None,
        },
        None => None,
    }
}

fn push_field(parts: &mut Vec<Vec<char>>, m: &Vec<(String, Json)>, key: &str)
    ensures
        vviews(final(parts)@) == vviews(old(parts)@) + opt_seq(str_field(m@, key@)),
{
    let ghost before = vviews(parts@);
    match str_field_exec(m, key) {
        Some(x) => {
            parts.push(x);
        },
        None => {},
    }
    assert(vviews(parts@) =~= before + opt_seq(str_field(m@, key@)));
}

fn first_beat_field(m: &Vec<(String, Json)>) -> (r: Option<Vec<char>>)
    ensures
        match r {
            Some(x) => beat_field(m@) == Some(x@),
            None => beat_field(m@) is None,
        },
{
    let r = str_field_exec(m, "item");
    if r.is_some() { return r; }
    let r = str_field_exec(m, "beat");
    if r.is_some() { return r; }
    let r = str_field_exec(m, "text");
    if r.is_some() { return r; }
    let r = str_field_exec(m, "scene");
    if r.is_some() { return r; }
    let r = str_field_exec(m, "content");
    if r.is_some() { return r; }
    let r = str_field_exec(m, "outline");
    if r.is_some() { return r; }
    let r = str_field_exec(m, "细纲");
    if r.is_some() { return r; }
    let r = str_field_exec(m, "内容");
    if r.is_some() { return r; }
    let r = str_field_exec(m, "要点");
    if r.is_some() { return r; }
    let r = str_field_exec(m, "what");
    if r.is_some() { return r; }
    let r = str_field_exec(m, "desc");
    if r.is_some() { return r; }
    let r = str_field_exec(m, "description");
    if r.is_some() { return r; }
    str_field_exec(m, "summary")
}

fn long_strings_exec(m: &Vec<(String, Json)>) -> (r: Vec<Vec<char>>)
    ensures
        vviews(r@) == long_strings(m@),
{
    let mut out: Vec<Vec<char>> = Vec::new();
    let mut i: usize = 0;
    while i < m.len()
        invariant
            i <= m.len(),
            vviews(out@) == long_strings(m@.subrange(0, i as int)),
        decreases m.len() - i,
    {
        assert(m@.subrange(0, i + 1).drop_last() =~= m@.subrange(0, i as int));
        let ghost before = vviews(out@);
        match &m[i].1 {
            Json::Str(s) => {
                let t = trim_str(s.as_str());
                if t.len() >= 4 {
                    out.push(t);
                    assert(vviews(out@) =~= before.push(trim(s@)));
                }
            },
            _ => {},
        }
        i += 1;
    }
    assert(m@.subrange(0, m.len() as int) =~= m@);
    out
}

/// See `beat_spec`.
pub fn json_value_to_beat(v: &Json) -> (r: Option<String>)
    ensures
        match r {
            Some(x) => beat_spec(*v) == Some(x@),
            None => beat_spec(*v) is None,
        },
{
    match v {
        Json::Str(s) => {
            let t = trim_str(s.as_str());
            if t.len() > 0 { Some(string_of(&t)) } else { None }
        },
        Json::Num(n) => Some(n.text.clone()),
        Json::Obj(m) => {
            let mut parts: Vec<Vec<char>> = Vec::new();
            push_field(&mut parts, m, "who");
            push_field(&mut parts, m, "does");
            push_field(&mut parts, m, "what");
            push_field(&mut parts, m, "result");
            push_field(&mut parts, m, "turn");
            push_field(&mut parts, m, "谁");
            push_field(&mut parts, m, "做");
            push_field(&mut parts, m, "结果");
            assert(vviews(parts@) =~= action_parts(m@));
            if parts.len() >= 2 {
                return Some(string_of(&join_exec(&parts, "；")));
            }
            match first_beat_field(m) {
                Some(x) => {
                    return Some(string_of(&x));
                },
                None => {},
            }
            if parts.len() == 1 {
                return Some(string_of(&parts[0]));
            }
            let strs = long_strings_exec(m);
            if strs.len() > 0 { Some(string_of(&join_exec(&strs, "；"))) } else { None }
        },
        _ => None,
    }
}

/// A signed integer as decimal text.
pub open spec fn int_text(n: int) -> Seq<char> {
    if n < 0 { "-"@ + decimal((-n) as nat) } else { decimal(n as nat) }
}

fn int_text_exec(n: i64) -> (r: Vec<char>)
    ensures
        r@ == int_text(n as int),
{
    let mut r: Vec<char> = Vec::new();
    if n < 0 {
        r.push('-');
        let u: u64 = ((-(n + 1)) as u64) + 1;
        append_decimal(&mut r, u);
        assert(r@ =~= "-"@ + decimal((-n) as nat)) by {
            reveal_strlit("-");
        }
    } else {
        append_decimal(&mut r, n as u64);
    }
    r
}

/// The items of a JSON list as texts: strings trimmed, integers written
/// out, blanks and other values dropped.
pub open spec fn list_items(a: Seq<Json>) -> Seq<Seq<char>>
    decreases a.len(),
{
    if a.len() == 0 {
        Seq::empty()
    } else {
        let rest = list_items(a.drop_last());
        let item: Option<Seq<char>> = match a.last() {
            Json::Str(s) => Some(trim(s@)),
            Json::Num(n) => match n.as_i64 { Some(k) => Some(int_text(k as int)), None => None },
            _ => None,
        };
        match item {
            Some(t) => if t.len() > 0 { rest.push(t) } else { rest },
            None => rest,
        }
    }
}

/// A JSON list of strings in `s` (cleaned and without trailing commas):
/// its non-blank items, if there are any.
pub open spec fn string_array_spec(s: Seq<char>) -> Option<Seq<Seq<char>>> {
    let soft = strip_commas_spec(trim(normalize_spec(s)));
    match json_parse(soft) {
        Some(Json::Arr(a)) => if list_items(a@).len() > 0 { Some(list_items(a@)) } else { None },
        _ => None,
    }
}

fn to_strings(v: &Vec<Vec<char>>) -> (r: Vec<String>)
    ensures
        r@.map_values(|s: String| s@) == vviews(v@),
{
    let mut out: Vec<String> = Vec::new();
    let mut i: usize = 0;
    while i < v.len()
        invariant
            i <= v.len(),
            out@.map_values(|s: String| s@) == vviews(v@).subrange(0, i as int),
        decreases v.len() - i,
    {
        let x = string_of(&v[i]);
        let ghost before = out@;
        out.push(x);
        assert(out@ =~= before.push(x));
        assert(out@.map_values(|s: String| s@) =~= before.map_values(|s: String| s@).push(x@));
        i += 1;
        assert(out@.map_values(|s: String| s@) =~= vviews(v@).subrange(0, i as int));
    }
    assert(vviews(v@).subrange(0, v.len() as int) =~= vviews(v@));
    out
}

pub open spec fn sviews(v: Seq<String>) -> Seq<Seq<char>> {
    v.map_values(|s: String| s@)
}

fn list_items_exec(a: &Vec<Json>) -> (r: Vec<Vec<char>>)
    ensures
        vviews(r@) == list_items(a@),
{
    let mut out: Vec<Vec<char>> = Vec::new();
    let mut i: usize = 0;
    while i < a.len()
        invariant
            i <= a.len(),
            vviews(out@) == list_items(a@.subrange(0, i as int)),
        decreases a.len() - i,
    {
        assert(a@.subrange(0, i + 1).drop_last() =~= a@.subrange(0, i as int));
        let ghost before = vviews(out@);
        let item: Option<Vec<char>> = match &a[i] {
            Json::Str(s) => Some(trim_str(s.as_str())),
            Json::Num(n) => match n.as_i64 {
                Some(k) => Some(int_text_exec(k)),
                None => None,
            },
            _ => None,
        };
        match item {
            Some(t) => {
                if t.len() > 0 {
                    out.push(t);
                }
            },
            None => {},
        }
        assert(vviews(out@) =~= list_items(a@.subrange(0, i + 1)));
        i += 1;
    }
    assert(a@.subrange(0, a.len() as int) =~= a@);
    out
}

/// See `string_array_spec`.
pub fn parse_json_string_array(s: &str) -> (r: Option<Vec<String>>)
    ensures
        match r {
            Some(v) => string_array_spec(s@) == Some(sviews(v@)),
            None => string_array_spec(s@) is None,
        },
{
    let t = normalize_llm_json_text(s);
    let soft = strip_trailing_commas(&trimmed(&t));
    let ss = string_of(&soft);
    match parse_json(ss.as_str()) {
        Some(Json::Arr(a)) => {
            let items = list_items_exec(&a);
            if items.len() > 0 { Some(to_strings(&items)) } else { None }
        },
        _ => None,
    }
}

/// Beats of a map member list split into numbered ones (keys that read as
/// a `u32`) and the others, both in member order; members without a beat
/// are dropped.
pub open spec fn split_beats(m: Seq<(String, Json)>) -> (Seq<(nat, Seq<char>)>, Seq<Seq<char>>)
    decreases m.len(),
{
    if m.len() == 0 {
        (Seq::empty(), Seq::empty())
    } else {
        let (nb, rest) = split_beats(m.drop_last());
        match beat_spec(m.last().1) {
            None => (nb, rest),
            Some(b) => match parse_u32_spec(m.last().0@) {
                Some(n) => (nb.push((n, b)), rest),
                None => (nb, rest.push(b)),
            },
        }
    }
}

/// Where a numbered beat goes among sorted ones: after all with a number
/// not above its own.
pub open spec fn num_ins_pos(sorted: Seq<(nat, Seq<char>)>, x: (nat, Seq<char>)) -> int
    decreases sorted.len(),
{
    if sorted.len() == 0 {
        0
    } else if x.0 < sorted[0].0 {
        0
    } else {
        1 + num_ins_pos(sorted.drop_first(), x)
    }
}

/// Numbered beats stably sorted by number.
pub open spec fn sort_by_num(s: Seq<(nat, Seq<char>)>) -> Seq<(nat, Seq<char>)>
    decreases s.len(),
{
    if s.len() == 0 {
        Seq::empty()
    } else {
        let acc = sort_by_num(s.drop_last());
        acc.insert(num_ins_pos(acc, s.last()), s.last())
    }
}

/// Beats from a JSON map: the numbered ones in number order, then the
/// others; nothing when the text is not an object or holds no beat.
pub open spec fn map_beats_spec(slice: Seq<char>) -> Option<Seq<Seq<char>>> {
    match json_parse(strip_commas_spec(slice)) {
        Some(Json::Obj(m)) => {
            let (nb, rest) = split_beats(m@);
            let items = sort_by_num(nb).map_values(|p: (nat, Seq<char>)| p.1) + rest;
            if items.len() > 0 { Some(items) } else { None }
        },
        _ => None,
    }
}

proof fn lemma_num_ins_scan(sorted: Seq<(nat, Seq<char>)>, x: (nat, Seq<char>), p: int)
    requires
        0 <= p <= sorted.len(),
        forall|j: int| 0 <= j < p ==> !(x.0 < (#[trigger] sorted[j]).0),
        p == sorted.len() || x.0 < sorted[p].0,
    ensures
        num_ins_pos(sorted, x) == p,
    decreases p,
{
    if p > 0 {
        let t = sorted.drop_first();
        assert forall|j: int| 0 <= j < p - 1 implies !(x.0 < (#[trigger] t[j]).0) by {
            assert(t[j] == sorted[j + 1]);
        }
        if p < sorted.len() {
            assert(t[p - 1] == sorted[p]);
        }
        lemma_num_ins_scan(t, x, p - 1);
    }
}

pub open spec fn num_views(v: Seq<(u32, Vec<char>)>) -> Seq<(nat, Seq<char>)> {
    v.map_values(|p: (u32, Vec<char>)| (p.0 as nat, p.1@))
}

/// See `map_beats_spec`.
pub fn beats_from_json_map(slice: &Vec<char>) -> (r: Option<Vec<String>>)
    ensures
        match r {
            Some(v) => map_beats_spec(slice@) == Some(sviews(v@)),
            None => map_beats_spec(slice@) is None,
        },
{
    let soft = string_of(&strip_trailing_commas(slice));
    let m = match parse_json(soft.as_str()) {
        Some(Json::Obj(m)) => m,
        _ => {
            return None;
        },
    };
    let mut numbered: Vec<(u32, Vec<char>)> = Vec::new();
    let mut rest: Vec<Vec<char>> = Vec::new();
    let mut i: usize = 0;
    while i < m.len()
        invariant
            i <= m.len(),
            num_views(numbered@) == sort_by_num(split_beats(m@.subrange(0, i as int)).0),
            vviews(rest@) == split_beats(m@.subrange(0, i as int)).1,
        decreases m.len() - i,
    {
        assert(m@.subrange(0, i + 1).drop_last() =~= m@.subrange(0, i as int));
        let ghost nb0 = num_views(numbered@);
        let ghost r0 = vviews(rest@);
        match json_value_to_beat(&m[i].1) {
            None => {},
            Some(b) => {
                let bc = chars_of(b.as_str());
                match parse_u32(&chars_of(m[i].0.as_str())) {
                    Some(n) => {
                        let mut p: usize = 0;
                        while p < numbered.len() && !(n < numbered[p].0)
                            invariant
                                p <= numbered.len(),
                                forall|j: int| 0 <= j < p ==> !((n as nat) < (#[trigger] num_views(numbered@)[j]).0),
                            decreases numbered.len() - p,
                        {
                            p += 1;
                        }
                        proof {
                            lemma_num_ins_scan(num_views(numbered@), (n as nat, bc@), p as int);
                        }
                        let ghost before = numbered@;
                        numbered.insert(p, (n, bc));
                        assert(num_views(numbered@) =~= num_views(before).insert(p as int, (n as nat, bc@)));
                        let ghost pre = split_beats(m@.subrange(0, i as int)).0;
                        assert(split_beats(m@.subrange(0, i + 1)).0 == pre.push((n as nat, b@)));
                        assert(pre.push((n as nat, b@)).drop_last() =~= pre);
                        assert(pre.push((n as nat, b@)).last() == (n as nat, b@));
                    },
                    None => {
                        rest.push(bc);
                        assert(vviews(rest@) =~= r0.push(b@));
                    },
                }
            },
        }
        i += 1;
    }
    assert(m@.subrange(0, m.len() as int) =~= m@);
    let mut items: Vec<Vec<char>> = Vec::new();
    let mut k: usize = 0;
    while k < numbered.len()
        invariant
            k <= numbered.len(),
            vviews(items@) == num_views(numbered@).map_values(|p: (nat, Seq<char>)| p.1).subrange(0, k as int),
        decreases numbered.len() - k,
    {
        let mut c: Vec<char> = Vec::new();
        append(&mut c, &numbered[k].1);
        let ghost before = vviews(items@);
        items.push(c);
        assert(vviews(items@) =~= before.push(numbered@[k as int].1@));
        k += 1;
        assert(vviews(items@) =~= num_views(numbered@).map_values(|p: (nat, Seq<char>)| p.1).subrange(0, k as int));
    }
    assert(num_views(numbered@).map_values(|p: (nat, Seq<char>)| p.1).subrange(0, numbered.len() as int)
        =~= num_views(numbered@).map_values(|p: (nat, Seq<char>)| p.1));
    let ghost head = vviews(items@);
    let mut j: usize = 0;
    while j < rest.len()
        invariant
            j <= rest.len(),
            vviews(items@) == head + vviews(rest@).subrange(0, j as int),
        decreases rest.len() - j,
    {
        let mut c: Vec<char> = Vec::new();
        append(&mut c, &rest[j]);
        let ghost before = vviews(items@);
        items.push(c);
        assert(vviews(items@) =~= before.push(rest@[j as int]@));
        j += 1;
        assert(vviews(items@) =~= head + vviews(rest@).subrange(0, j as int));
    }
    assert(vviews(rest@).subrange(0, rest.len() as int) =~= vviews(rest@));
    if items.len() > 0 { Some(to_strings(&items)) } else { None }
}

/// Trailing commas removed.
pub open spec fn trim_end_commas(s: Seq<char>) -> Seq<char>
    decreases s.len(),
{
    if s.len() > 0 && s.last() == ',' { trim_end_commas(s.drop_last()) } else { s }
}

/// A line that is only JSON punctuation.
pub open spec fn is_bracket_line(t: Seq<char>) -> bool {
    t == "{"@ || t == "}"@ || t == "["@ || t == "]"@ || t == "},"@ || t == "],"@ || t == ","@
}

/// A beat read from one line of a reply: a JSON string literal of four or
/// more characters, or the line without list marks when that has four or
/// more; not a bare bracket line nor a line naming the list's key.
pub open spec fn line_beat_spec(l: Seq<char>) -> Option<Seq<char>> {
    let raw = trim(l);
    if raw.len() == 0 {
        None
    } else {
        let t = trim(trim_end_commas(raw));
        let lower = ascii_lower_seq(t);
        if is_bracket_line(t) {
            None
        } else if has_sub(lower, "detailed_outline"@) || has_sub(lower, "\"items\""@) || has_sub(lower, "\"细纲\""@) {
            None
        } else if starts_with(t, "\""@) {
            match json_parse_string(t) {
                Some(x) => if trim(x).len() >= 4 { Some(trim(x)) } else { None },
                None => None,
            }
        } else {
            let u = trim(strip_list_marks(t));
            if u.len() >= 4 { Some(u) } else { None }
        }
    }
}

/// See `line_beat_spec`.
pub fn outline_beat_from_line(l: &str) -> (r: Option<String>)
    ensures
        match r {
            Some(x) => line_beat_spec(l@) == Some(x@),
            None => line_beat_spec(l@) is None,
        },
{
    let raw = trim_str(l);
    if raw.len() == 0 {
        return None;
    }
    let mut e = raw.len();
    assert(raw@.subrange(0, raw.len() as int) =~= raw@);
    while e > 0 && raw[e - 1] == ','
        invariant
            e <= raw.len(),
            trim_end_commas(raw@) == trim_end_commas(raw@.subrange(0, e as int)),
        decreases e,
    {
        assert(raw@.subrange(0, e as int).drop_last() =~= raw@.subrange(0, e - 1));
        e -= 1;
    }
    let t = trimmed(&slice(&raw, 0, e));
    if eq_str(&t, "{") || eq_str(&t, "}") || eq_str(&t, "[") || eq_str(&t, "]") || eq_str(&t, "},")
        || eq_str(&t, "],") || eq_str(&t, ",") {
        return None;
    }
    let lower = crate::global_chat::ascii_lowercase(&t);
    if crate::text::contains_str(&lower, "detailed_outline") || crate::text::contains_str(&lower, "\"items\"")
        || crate::text::contains_str(&lower, "\"细纲\"") {
        return None;
    }
    if crate::text::starts_with_str(&t, "\"") {
        let ts = string_of(&t);
        return match parse_json_string(ts.as_str()) {
            Some(x) => {
                let u = trim_str(x.as_str());
                if u.len() >= 4 { Some(string_of(&u)) } else { None }
            },
            None => None,
        };
    }
    let u = trimmed(&strip_list_marks_exec(&t));
    if u.len() >= 4 { Some(string_of(&u)) } else { None }
}

/// Where the string that opened before `j` closes (backslash escapes
/// honoured).
pub open spec fn str_end(s: Seq<char>, j: int, esc: bool) -> Option<int>
    decreases s.len() - j,
{
    if j < 0 || j >= s.len() {
        None
    } else if esc {
        str_end(s, j + 1, false)
    } else if s[j] == '\\' {
        str_end(s, j + 1, true)
    } else if s[j] == '"' {
        Some(j)
    } else {
        str_end(s, j + 1, false)
    }
}

/// Whitespace and commas skipped from `i`.
pub open spec fn skip_sep(s: Seq<char>, i: int) -> int
    decreases s.len() - i,
{
    if 0 <= i < s.len() && (is_ws(s[i]) || s[i] == ',') { skip_sep(s, i + 1) } else { i }
}

/// The string item `s[k..=j]` as a beat.
pub open spec fn quoted_item(s: Seq<char>, k: int, j: int) -> Seq<Seq<char>> {
    match json_parse_string(s.subrange(k, j + 1)) {
        Some(x) => if trim(x).len() > 0 { seq![trim(x)] } else { Seq::empty() },
        None => Seq::empty(),
    }
}

/// The object item `s[k..=e]` as a beat.
pub open spec fn object_item(s: Seq<char>, k: int, e: int) -> Seq<Seq<char>> {
    match json_parse(s.subrange(k, e + 1)) {
        Some(v) => opt_seq(beat_spec(v)),
        None => Seq::empty(),
    }
}

/// The items of an array body from `i` on, read one by one so that a list
/// cut off by the model still gives its complete items: string items and
/// object items; the scan stops at `]`, at an unclosed string or object,
/// or at the end.
pub open spec fn body_scan(s: Seq<char>, i: int) -> Seq<Seq<char>>
    decreases s.len() - i,
{
    let k = skip_sep(s, i);
    if i < 0 || k < i || k >= s.len() || s[k] == ']' {
        Seq::empty()
    } else if s[k] == '"' {
        match str_end(s, k + 1, false) {
            Some(j) => if k < j < s.len() { quoted_item(s, k, j) + body_scan(s, j + 1) } else { Seq::empty() },
            None => Seq::empty(),
        }
    } else if s[k] == '{' {
        match matching_spec(s, k, '{', '}') {
            Some(e) => if k <= e < s.len() { object_item(s, k, e) + body_scan(s, e + 1) } else { Seq::empty() },
            None => Seq::empty(),
        }
    } else {
        body_scan(s, k + 1)
    }
}

/// The items of the array body `rest` (after an optional `[`).
pub open spec fn collect_spec(rest: Seq<char>) -> Seq<Seq<char>> {
    body_scan(rest, if rest.len() > 0 && rest[0] == '[' { 1 } else { 0 })
}

proof fn lemma_skip_sep(s: Seq<char>, i: int)
    ensures
        skip_sep(s, i) >= i,
        0 <= i ==> skip_sep(s, i) <= if i > s.len() { i } else { s.len() as int },
    decreases s.len() - i,
{
    if 0 <= i < s.len() && (is_ws(s[i]) || s[i] == ',') {
        lemma_skip_sep(s, i + 1);
    }
}

proof fn lemma_str_end(s: Seq<char>, j: int, esc: bool)
    ensures
        str_end(s, j, esc) matches Some(e) ==> j <= e < s.len(),
    decreases s.len() - j,
{
    if 0 <= j < s.len() {
        if esc {
            lemma_str_end(s, j + 1, false);
        } else if s[j] == '\\' {
            lemma_str_end(s, j + 1, true);
        } else if s[j] != '"' {
            lemma_str_end(s, j + 1, false);
        }
    }
}

/// See `collect_spec`.
pub fn collect_beats_from_array_body(rest: &Vec<char>) -> (r: Vec<String>)
    ensures
        sviews(r@) == collect_spec(rest@),
{
    let mut i: usize = if rest.len() > 0 && rest[0] == '[' { 1 } else { 0 };
    let mut out: Vec<Vec<char>> = Vec::new();
    let mut done = false;
    while !done
        invariant
            i <= rest.len() + 1,
            !done ==> vviews(out@) + body_scan(rest@, i as int) == collect_spec(rest@),
            done ==> vviews(out@) == collect_spec(rest@),
        decreases rest.len() + 1 - i, if done { 0int } else { 1int },
    {
        let ghost before = vviews(out@);
        let ghost i0 = i as int;
        proof {
            lemma_skip_sep(rest@, i as int);
        }
        let mut k = i;
        while k < rest.len() && (is_ws_exec(rest[k]) || rest[k] == ',')
            invariant
                i <= k,
                skip_sep(rest@, i as int) == skip_sep(rest@, k as int),
            decreases rest.len() - k,
        {
            k += 1;
        }
        if k >= rest.len() || rest[k] == ']' {
            done = true;
        } else if rest[k] == '"' {
            let mut j = k + 1;
            let mut esc = false;
            let mut closed = false;
            while j < rest.len() && !closed
                invariant
                    k < j <= rest.len(),
                    !closed ==> str_end(rest@, k + 1, false) == str_end(rest@, j as int, esc),
                    closed ==> str_end(rest@, k + 1, false) == Some(j as int) && j < rest.len(),
                decreases rest.len() - j, if closed { 0int } else { 1int },
            {
                if esc {
                    esc = false;
                    j += 1;
                } else if rest[j] == '\\' {
                    esc = true;
                    j += 1;
                } else if rest[j] == '"' {
                    closed = true;
                } else {
                    j += 1;
                }
            }
            if !closed {
                done = true;
            } else {
                let piece = string_of(&slice(rest, k, j + 1));
                match parse_json_string(piece.as_str()) {
                    Some(x) => {
                        let t = trim_str(x.as_str());
                        if t.len() > 0 {
                            out.push(t);
                        }
                    },
                    None => {},
                }
                assert(vviews(out@) =~= before + quoted_item(rest@, k as int, j as int));
                i = j + 1;
            }
        } else if rest[k] == '{' {
            match find_matching_pair(rest, k, '{', '}') {
                Some(e) => {
                    proof {
                        crate::llm_json::lemma_match_scan_bound(rest@, k as int, '{', '}', 0, false, false);
                    }
                    let piece = string_of(&slice(rest, k, e + 1));
                    match parse_json(piece.as_str()) {
                        Some(v) => match json_value_to_beat(&v) {
                            Some(b) => {
                                out.push(chars_of(b.as_str()));
                            },
                            None => {},
                        },
                        None => {},
                    }
                    assert(vviews(out@) =~= before + object_item(rest@, k as int, e as int));
                    i = e + 1;
                },
                None => {
                    done = true;
                },
            }
        } else {
            i = k + 1;
        }
        assert(!done ==> vviews(out@) + body_scan(rest@, i as int) =~= before + body_scan(rest@, i0));
        assert(done ==> vviews(out@) =~= before + body_scan(rest@, i0));
    }
    to_strings(&out)
}

/// Leading colons removed.
pub open spec fn skip_colons(s: Seq<char>) -> Seq<char>
    decreases s.len(),
{
    if s.len() > 0 && s[0] == ':' { skip_colons(s.drop_first()) } else { s }
}

/// The beats of a JSON list.
pub open spec fn list_beats(a: Seq<Json>) -> Seq<Seq<char>>
    decreases a.len(),
{
    if a.len() == 0 { Seq::empty() } else { list_beats(a.drop_last()) + opt_seq(beat_spec(a.last())) }
}

/// The list a balanced `[…]` holds: as strings, else as beats of a lenient
/// JSON list.
pub open spec fn bracket_items(slice: Seq<char>) -> Option<Seq<Seq<char>>> {
    match string_array_spec(slice) {
        Some(items) => Some(items),
        None => match json_parse(strip_commas_spec(trim(slice))) {
            Some(Json::Arr(a)) => if list_beats(a@).len() > 0 { Some(list_beats(a@)) } else { None },
            _ => None,
        },
    }
}

/// The list written after `"key"` in `s`: a balanced `{…}` map of beats;
/// or a balanced `[…]` list; or, for a list cut off or otherwise
/// unparsable, its items read one by one when there are two or more.
pub open spec fn named_for_key(s: Seq<char>, key: Seq<char>) -> Option<Seq<Seq<char>>> {
    let needle = "\""@ + key + "\""@;
    match crate::text::first_occurrence(s, needle) {
        None => None,
        Some(i) => {
            let rest = trim_start(skip_colons(trim_start(s.subrange(i + needle.len(), s.len() as int))));
            if rest.len() > 0 && rest[0] == '{' {
                match matching_spec(rest, 0, '{', '}') {
                    Some(e) => if 0 <= e < rest.len() { map_beats_spec(rest.subrange(0, e + 1)) } else { None },
                    None => None,
                }
            } else if rest.len() == 0 || rest[0] != '[' {
                None
            } else {
                let from_slice = match matching_spec(rest, 0, '[', ']') {
                    Some(e) => if 0 <= e < rest.len() { bracket_items(rest.subrange(0, e + 1)) } else { None },
                    None => None,
                };
                if from_slice is Some {
                    from_slice
                } else if collect_spec(rest).len() >= 2 {
                    Some(collect_spec(rest))
                } else {
                    None
                }
            }
        },
    }
}

/// The list under the first of `keys` that gives one, in the cleaned reply.
pub open spec fn named_from(s: Seq<char>, keys: Seq<Seq<char>>) -> Option<Seq<Seq<char>>>
    decreases keys.len(),
{
    if keys.len() == 0 {
        None
    } else {
        match named_for_key(s, keys[0]) {
            Some(items) => Some(items),
            None => named_from(s, keys.drop_first()),
        }
    }
}

pub open spec fn key_views(keys: Seq<&str>) -> Seq<Seq<char>> {
    keys.map_values(|k: &str| k@)
}

/// A named list in a reply, even without a wrapping object (see
/// `named_for_key`).
pub open spec fn named_array_spec(text: Seq<char>, keys: Seq<Seq<char>>) -> Option<Seq<Seq<char>>> {
    named_from(normalize_spec(text), keys)
}

fn list_beats_exec(a: &Vec<Json>) -> (r: Vec<Vec<char>>)
    ensures
        vviews(r@) == list_beats(a@),
{
    let mut out: Vec<Vec<char>> = Vec::new();
    let mut i: usize = 0;
    while i < a.len()
        invariant
            i <= a.len(),
            vviews(out@) == list_beats(a@.subrange(0, i as int)),
        decreases a.len() - i,
    {
        assert(a@.subrange(0, i + 1).drop_last() =~= a@.subrange(0, i as int));
        let ghost before = vviews(out@);
        match json_value_to_beat(&a[i]) {
            Some(b) => {
                out.push(chars_of(b.as_str()));
            },
            None => {},
        }
        assert(vviews(out@) =~= before + opt_seq(beat_spec(a@[i as int])));
        i += 1;
    }
    assert(a@.subrange(0, a.len() as int) =~= a@);
    out
}

fn named_for_key_exec(s: &Vec<char>, key: &str) -> (r: Option<Vec<String>>)
    ensures
        match r {
            Some(v) => named_for_key(s@, key@) == Some(sviews(v@)),
            None => named_for_key(s@, key@) is None,
        },
{
    let mut nd = chars_of("\"");
    append_str(&mut nd, key);
    append_str(&mut nd, "\"");
    let ghost needle = nd@;
    assert(needle =~= "\""@ + key@ + "\""@);
    let ns = string_of(&nd);
    assert(ns@ == nd@);
    let i = match crate::text::find_str(s, ns.as_str()) {
        Some(i) => i,
        None => {
            return None;
        },
    };
    assert(occurs_at(s@, ns@, i as int));
    assert(i + nd.len() <= s.len());
    let after = slice(s, i + nd.len(), s.len());
    let a1 = trimmed_start(&after);
    let mut c: usize = 0;
    assert(a1@.subrange(0, a1.len() as int) =~= a1@);
    while c < a1.len() && a1[c] == ':'
        invariant
            c <= a1.len(),
            skip_colons(a1@) == skip_colons(a1@.subrange(c as int, a1.len() as int)),
        decreases a1.len() - c,
    {
        assert(a1@.subrange(c as int, a1.len() as int).drop_first() =~= a1@.subrange(c + 1, a1.len() as int));
        c += 1;
    }
    let rest = trimmed_start(&slice(&a1, c, a1.len()));
    if rest.len() > 0 && rest[0] == '{' {
        return match find_matching_pair(&rest, 0, '{', '}') {
            Some(e) => {
                proof {
                    crate::llm_json::lemma_match_scan_bound(rest@, 0, '{', '}', 0, false, false);
                }
                beats_from_json_map(&slice(&rest, 0, e + 1))
            },
            None => None,
        };
    }
    if rest.len() == 0 || rest[0] != '[' {
        return None;
    }
    match find_matching_pair(&rest, 0, '[', ']') {
        Some(e) => {
            proof {
                crate::llm_json::lemma_match_scan_bound(rest@, 0, '[', ']', 0, false, false);
            }
            let sl = slice(&rest, 0, e + 1);
            let sls = string_of(&sl);
            match parse_json_string_array(sls.as_str()) {
                Some(items) => {
                    return Some(items);
                },
                None => {},
            }
            let soft = string_of(&strip_trailing_commas(&trimmed(&sl)));
            match parse_json(soft.as_str()) {
                Some(Json::Arr(a)) => {
                    let items = list_beats_exec(&a);
                    if items.len() > 0 {
                        return Some(to_strings(&items));
                    }
                },
                _ => {},
            }
        },
        None => {},
    }
    let items = collect_beats_from_array_body(&rest);
    if items.len() >= 2 { Some(items) } else { None }
}

/// See `named_array_spec`.
pub fn extract_named_string_array(text: &str, keys: &[&str]) -> (r: Option<Vec<String>>)
    ensures
        match r {
            Some(v) => named_array_spec(text@, key_views(keys@)) == Some(sviews(v@)),
            None => named_array_spec(text@, key_views(keys@)) is None,
        },
{
    let s = normalize_llm_json_text(text);
    let ghost kv = key_views(keys@);
    let mut k: usize = 0;
    assert(kv.subrange(0, kv.len() as int) =~= kv);
    while k < keys.len()
        invariant
            k <= keys.len(),
            kv == key_views(keys@),
            s@ == normalize_spec(text@),
            named_from(s@, kv) == named_from(s@, kv.subrange(k as int, kv.len() as int)),
        decreases keys.len() - k,
    {
        let ghost tail = kv.subrange(k as int, kv.len() as int);
        assert(tail.drop_first() =~= kv.subrange(k + 1, kv.len() as int));
        assert(tail[0] == keys@[k as int]@);
        let key: &str = keys[k];
        assert(key@ == tail[0]);
        match named_for_key_exec(&s, key) {
            Some(items) => {
                assert(named_from(s@, tail) == Some(sviews(items@)));
                return Some(items);
            },
            None => {},
        }
        k += 1;
    }
    None
}

/// How many suggestions for the next passage a reply must give.
pub const BODY_SUGGEST_COUNT: usize = 6;

/// The non-blank items, trimmed.
pub open spec fn nonblank(items: Seq<Seq<char>>) -> Seq<Seq<char>>
    decreases items.len(),
{
    if items.len() == 0 {
        Seq::empty()
    } else {
        let rest = nonblank(items.drop_last());
        if trim(items.last()).len() > 0 { rest.push(trim(items.last())) } else { rest }
    }
}

/// The first six non-blank items (trimmed) when there are six.
pub open spec fn six_spec(items: Seq<Seq<char>>) -> Option<Seq<Seq<char>>> {
    let nb = nonblank(items);
    if nb.len() >= 6 { Some(nb.take(6)) } else { None }
}

/// Line beats of the lines, in order.
pub open spec fn line_beats(ls: Seq<Seq<char>>) -> Seq<Seq<char>>
    decreases ls.len(),
{
    if ls.len() == 0 { Seq::empty() } else { line_beats(ls.drop_last()) + opt_seq(line_beat_spec(ls.last())) }
}

/// Six suggestions from a reply: from a `suggestions` / `items` list, else
/// from a bare list, else from its lines.
pub open spec fn suggestions_spec(raw: Seq<char>) -> Option<Seq<Seq<char>>> {
    let s = crate::commands::strip_fence_spec(raw);
    let a = match named_array_spec(s, seq!["suggestions"@, "items"@]) { Some(items) => six_spec(items), None => None };
    let b = match string_array_spec(s) { Some(items) => six_spec(items), None => None };
    if a is Some { a } else if b is Some { b } else { six_spec(line_beats(lines(s))) }
}

/// See `six_spec`.
pub fn take_six_suggestions(items: &Vec<String>) -> (r: Option<Vec<String>>)
    ensures
        match r {
            Some(v) => six_spec(sviews(items@)) == Some(sviews(v@)),
            None => six_spec(sviews(items@)) is None,
        },
{
    let mut out: Vec<Vec<char>> = Vec::new();
    let mut i: usize = 0;
    while i < items.len()
        invariant
            i <= items.len(),
            vviews(out@) == nonblank(sviews(items@).subrange(0, i as int)),
        decreases items.len() - i,
    {
        assert(sviews(items@).subrange(0, i + 1).drop_last() =~= sviews(items@).subrange(0, i as int));
        let t = trim_str(items[i].as_str());
        let ghost before = vviews(out@);
        if t.len() > 0 {
            out.push(t);
            assert(vviews(out@) =~= before.push(trim(items@[i as int]@)));
        }
        i += 1;
    }
    assert(sviews(items@).subrange(0, items.len() as int) =~= sviews(items@));
    if out.len() < 6 {
        return None;
    }
    let mut six: Vec<Vec<char>> = Vec::new();
    let mut k: usize = 0;
    while k < 6
        invariant
            k <= 6 <= out.len(),
            vviews(six@) == vviews(out@).take(k as int),
        decreases 6 - k,
    {
        let mut c: Vec<char> = Vec::new();
        append(&mut c, &out[k]);
        let ghost before = vviews(six@);
        six.push(c);
        assert(vviews(six@) =~= before.push(out@[k as int]@));
        k += 1;
        assert(vviews(six@) =~= vviews(out@).take(k as int));
    }
    Some(to_strings(&six))
}

fn line_beats_exec(s: &Vec<char>) -> (r: Vec<Vec<char>>)
    ensures
        vviews(r@) == line_beats(lines(s@)),
{
    let ls = lines_of(s);
    let ghost lv = lines(s@);
    let mut out: Vec<Vec<char>> = Vec::new();
    let mut i: usize = 0;
    while i < ls.len()
        invariant
            i <= ls.len(),
            ls@.len() == lv.len(),
            forall|j: int| 0 <= j < ls@.len() ==> (#[trigger] ls@[j])@ == lv[j],
            vviews(out@) == line_beats(lv.subrange(0, i as int)),
        decreases ls.len() - i,
    {
        assert(lv.subrange(0, i + 1).drop_last() =~= lv.subrange(0, i as int));
        let ghost before = vviews(out@);
        let ls_i = string_of(&ls[i]);
        match outline_beat_from_line(ls_i.as_str()) {
            Some(b) => {
                out.push(chars_of(b.as_str()));
            },
            None => {},
        }
        assert(vviews(out@) =~= before + opt_seq(line_beat_spec(lv[i as int])));
        i += 1;
    }
    assert(lv.subrange(0, ls.len() as int) =~= lv);
    out
}

/// The first `cap` texts (all of them when there are fewer).
fn take_first(v: &Vec<Vec<char>>, cap: usize) -> (r: Vec<Vec<char>>)
    ensures
        vviews(r@) == (if vviews(v@).len() > cap { vviews(v@).take(cap as int) } else { vviews(v@) }),
{
    let n = if v.len() > cap { cap } else { v.len() };
    let mut t: Vec<Vec<char>> = Vec::new();
    let mut k: usize = 0;
    while k < n
        invariant
            k <= n <= v.len(),
            n == (if v.len() > cap { cap } else { v.len() }),
            vviews(t@) == vviews(v@).take(k as int),
        decreases n - k,
    {
        let mut c: Vec<char> = Vec::new();
        append(&mut c, &v[k]);
        let ghost before = vviews(t@);
        t.push(c);
        assert(vviews(t@) =~= before.push(v@[k as int]@));
        k += 1;
        assert(vviews(t@) =~= vviews(v@).take(k as int));
    }
    assert(n == v.len() ==> vviews(v@).take(n as int) =~= vviews(v@));
    t
}

/// See `suggestions_spec`.
pub fn parse_body_suggestions(raw: &str) -> (r: Option<Vec<String>>)
    ensures
        match r {
            Some(v) => suggestions_spec(raw@) == Some(sviews(v@)),
            None => suggestions_spec(raw@) is None,
        },
{
    let s = crate::commands::strip_outer_md_fence(raw);
    let keys: [&str; 2] = ["suggestions", "items"];
    proof {
        assert(key_views(keys@) =~= seq!["suggestions"@, "items"@]);
    }
    match extract_named_string_array(s.as_str(), &keys) {
        Some(items) => match take_six_suggestions(&items) {
            Some(six) => {
                return Some(six);
            },
            None => {},
        },
        None => {},
    }
    match parse_json_string_array(s.as_str()) {
        Some(items) => match take_six_suggestions(&items) {
            Some(six) => {
                return Some(six);
            },
            None => {},
        },
        None => {},
    }
    let lb = line_beats_exec(&chars_of(s.as_str()));
    let lbs = to_strings(&lb);
    take_six_suggestions(&lbs)
}

/// The keys under which a reply may hold the detailed outline.
pub open spec fn outline_keys() -> Seq<Seq<char>> {
    seq!["detailed_outline"@, "细纲"@, "items"@, "beats"@, "scenes"@]
}

/// The value under the first outline key that an object has.
pub open spec fn outline_field(obj: Json) -> Option<Json> {
    let ks = outline_keys();
    if get_spec(obj, ks[0]) is Some { get_spec(obj, ks[0]) }
    else if get_spec(obj, ks[1]) is Some { get_spec(obj, ks[1]) }
    else if get_spec(obj, ks[2]) is Some { get_spec(obj, ks[2]) }
    else if get_spec(obj, ks[3]) is Some { get_spec(obj, ks[3]) }
    else { get_spec(obj, ks[4]) }
}

/// The beats of one outline field: a list's beats; a string holding a
/// list; a map's beats (read back from its JSON text).
pub open spec fn field_beats(field: Json) -> Option<Seq<Seq<char>>> {
    match field {
        Json::Arr(list) => if list_beats(list@).len() > 0 { Some(list_beats(list@)) } else { None },
        Json::Str(x) => string_array_spec(x@),
        Json::Obj(_) => map_beats_spec(json_text(field)),
        _ => None,
    }
}

/// The beats of the first object (in order) whose outline field gives some.
pub open spec fn objects_beats(objs: Seq<Json>) -> Option<Seq<Seq<char>>>
    decreases objs.len(),
{
    if objs.len() == 0 {
        None
    } else {
        let here = match outline_field(objs[0]) { Some(f) => field_beats(f), None => None };
        if here is Some { here } else { objects_beats(objs.drop_first()) }
    }
}

/// The detailed-outline beats in a reply: from its JSON objects; else a
/// named list even without a wrapping object (also after wrapping the
/// cleaned reply in braces); else a bare list; else up to 16 beat lines,
/// when there are two or more.
pub open spec fn outline_list_spec(reply: Seq<char>) -> Option<Seq<Seq<char>>> {
    let n = normalize_spec(reply);
    let from_objs = objects_beats(objects_spec(reply));
    let named = named_array_spec(reply, outline_keys());
    let wrapped = named_array_spec("{"@ + n + "}"@, outline_keys());
    let bare = string_array_spec(n);
    let lb = line_beats(lines(reply));
    let capped = if lb.len() > 16 { lb.take(16) } else { lb };
    if from_objs is Some { from_objs }
    else if named is Some { named }
    else if wrapped is Some { wrapped }
    else if bare is Some { bare }
    else if capped.len() >= 2 { Some(capped) }
    else { None }
}

fn outline_field_exec(obj: &Json) -> (r: Option<&Json>)
    ensures
        match r {
            Some(f) => outline_field(*obj) == Some(*f),
            None => outline_field(*obj) is None,
        },
{
    proof {
        reveal_strlit("detailed_outline");
    }
    let r = json_get(obj, "detailed_outline");
    if r.is_some() { return r; }
    let r = json_get(obj, "细纲");
    if r.is_some() { return r; }
    let r = json_get(obj, "items");
    if r.is_some() { return r; }
    let r = json_get(obj, "beats");
    if r.is_some() { return r; }
    json_get(obj, "scenes")
}

fn field_beats_exec(field: &Json) -> (r: Option<Vec<String>>)
    ensures
        match r {
            Some(v) => field_beats(*field) == Some(sviews(v@)),
            None => field_beats(*field) is None,
        },
{
    match field {
        Json::Arr(list) => {
            let items = list_beats_exec(list);
            if items.len() > 0 { Some(to_strings(&items)) } else { None }
        },
        Json::Str(x) => parse_json_string_array(x.as_str()),
        Json::Obj(_) => {
            let t = json_to_text(field);
            beats_from_json_map(&chars_of(t.as_str()))
        },
        _ => None,
    }
}

/// See `outline_list_spec`.
pub fn parse_detailed_outline_list(reply: &str) -> (r: Option<Vec<String>>)
    ensures
        match r {
            Some(v) => outline_list_spec(reply@) == Some(sviews(v@)),
            None => outline_list_spec(reply@) is None,
        },
{
    let objs = extract_json_objects(reply);
    let ghost ov = objs@;
    let mut k: usize = 0;
    assert(ov.subrange(0, ov.len() as int) =~= ov);
    while k < objs.len()
        invariant
            k <= objs.len(),
            ov == objs@,
            ov == objects_spec(reply@),
            objects_beats(ov) == objects_beats(ov.subrange(k as int, ov.len() as int)),
        decreases objs.len() - k,
    {
        let ghost tail = ov.subrange(k as int, ov.len() as int);
        assert(tail.drop_first() =~= ov.subrange(k + 1, ov.len() as int));
        assert(tail[0] == objs@[k as int]);
        match outline_field_exec(&objs[k]) {
            Some(f) => match field_beats_exec(f) {
                Some(items) => {
                    return Some(items);
                },
                None => {},
            },
            None => {},
        }
        k += 1;
    }
    let keys: [&str; 5] = ["detailed_outline", "细纲", "items", "beats", "scenes"];
    proof {
        assert(key_views(keys@) =~= outline_keys());
    }
    match extract_named_string_array(reply, &keys) {
        Some(items) => {
            return Some(items);
        },
        None => {},
    }
    let n = normalize_llm_json_text(reply);
    let mut w = chars_of("{");
    append(&mut w, &n);
    append_str(&mut w, "}");
    let ws = string_of(&w);
    match extract_named_string_array(ws.as_str(), &keys) {
        Some(items) => {
            return Some(items);
        },
        None => {},
    }
    let ns = string_of(&n);
    match parse_json_string_array(ns.as_str()) {
        Some(items) => {
            return Some(items);
        },
        None => {},
    }
    let lb = take_first(&line_beats_exec(&chars_of(reply)), 16);
    if lb.len() >= 2 { Some(to_strings(&lb)) } else { None }
}

/// The one beat a reply for a single outline item gives: the first of a
/// beat list; else the first non-blank `item` / `beat` / `text` / `细纲` /
/// `内容` of its objects; else its first beat line.
pub open spec fn outline_item_spec(reply: Seq<char>) -> Option<Seq<char>> {
    match outline_list_spec(reply) {
        Some(l) => if l.len() > 0 { Some(l[0]) } else { item_rest_spec(reply) },
        None => item_rest_spec(reply),
    }
}

pub open spec fn item_rest_spec(reply: Seq<char>) -> Option<Seq<char>> {
    let from_objs = objects_item(objects_spec(reply));
    if from_objs is Some { from_objs } else { first_line_beat(lines(reply)) }
}

/// The first item key set in an object.
pub open spec fn item_field(obj: Json) -> Option<Seq<char>> {
    match obj {
        Json::Obj(m) => or_opt(str_field(m@, "item"@), or_opt(str_field(m@, "beat"@), or_opt(str_field(m@, "text"@),
            or_opt(str_field(m@, "细纲"@), str_field(m@, "内容"@))))),
        _ => None,
    }
}

pub open spec fn objects_item(objs: Seq<Json>) -> Option<Seq<char>>
    decreases objs.len(),
{
    if objs.len() == 0 { None } else { or_opt(item_field(objs[0]), objects_item(objs.drop_first())) }
}

pub open spec fn first_line_beat(ls: Seq<Seq<char>>) -> Option<Seq<char>>
    decreases ls.len(),
{
    if ls.len() == 0 { None } else { or_opt(line_beat_spec(ls[0]), first_line_beat(ls.drop_first())) }
}

fn item_field_exec(obj: &Json) -> (r: Option<Vec<char>>)
    ensures
        match r {
            Some(x) => item_field(*obj) == Some(x@),
            None => item_field(*obj) is None,
        },
{
    match obj {
        Json::Obj(m) => {
            let r = str_field_exec(m, "item");
            if r.is_some() { return r; }
            let r = str_field_exec(m, "beat");
            if r.is_some() { return r; }
            let r = str_field_exec(m, "text");
            if r.is_some() { return r; }
            let r = str_field_exec(m, "细纲");
            if r.is_some() { return r; }
            str_field_exec(m, "内容")
        },
        _ => None,
    }
}

/// See `outline_item_spec`.
pub fn parse_detailed_outline_item(reply: &str) -> (r: Option<String>)
    ensures
        match r {
            Some(x) => outline_item_spec(reply@) == Some(x@),
            None => outline_item_spec(reply@) is None,
        },
{
    match parse_detailed_outline_list(reply) {
        Some(list) => {
            if list.len() > 0 {
                return Some(list[0].clone());
            }
        },
        None => {},
    }
    assert(outline_item_spec(reply@) == item_rest_spec(reply@));
    let objs = extract_json_objects(reply);
    let ghost ov = objs@;
    let mut k: usize = 0;
    assert(ov.subrange(0, ov.len() as int) =~= ov);
    while k < objs.len()
        invariant
            k <= objs.len(),
            ov == objs@,
            ov == objects_spec(reply@),
            outline_item_spec(reply@) == item_rest_spec(reply@),
            objects_item(ov) == objects_item(ov.subrange(k as int, ov.len() as int)),
        decreases objs.len() - k,
    {
        let ghost tail = ov.subrange(k as int, ov.len() as int);
        assert(tail.drop_first() =~= ov.subrange(k + 1, ov.len() as int));
        assert(tail[0] == objs@[k as int]);
        match item_field_exec(&objs[k]) {
            Some(x) => {
                return Some(string_of(&x));
            },
            None => {},
        }
        k += 1;
    }
    let rc = chars_of(reply);
    let ls = lines_of(&rc);
    let ghost lv = lines(reply@);
    let mut i: usize = 0;
    assert(lv.subrange(0, lv.len() as int) =~= lv);
    while i < ls.len()
        invariant
            i <= ls.len(),
            ls@.len() == lv.len(),
            forall|j: int| 0 <= j < ls@.len() ==> (#[trigger] ls@[j])@ == lv[j],
            first_line_beat(lv) == first_line_beat(lv.subrange(i as int, lv.len() as int)),
            lv == lines(reply@),
            objects_item(objects_spec(reply@)) is None,
            outline_item_spec(reply@) == item_rest_spec(reply@),
        decreases ls.len() - i,
    {
        let ghost tail = lv.subrange(i as int, lv.len() as int);
        assert(tail.drop_first() =~= lv.subrange(i + 1, lv.len() as int));
        let l = string_of(&ls[i]);
        match outline_beat_from_line(l.as_str()) {
            Some(b) => {
                return Some(b);
            },
            None => {},
        }
        i += 1;
    }
    None
}

} // verus!
