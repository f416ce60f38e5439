//! Chapter outline lists in model replies: the array under one of the
//! usual keys, a single outline object, or a bare array, each item brought
//! to the field names the tree reads (`label`, `outline`, `n`).
use vstd::prelude::*;
use crate::commands::{chapter_ref_spec, parse_chapter_ref};
use crate::json::{copy_json, get_spec, json_get, key_index, obj_find, obj_get, same_json, Json, JsonNumber};
use crate::llm_json::{extract_json_objects, normalize_llm_json_text, normalize_spec, objects_spec, strip_commas_spec, strip_trailing_commas};
use crate::text::{chars_of, decimal, decimal_of, join, join_exec, parse_u32, parse_u32_spec, string_of, trim, trim_str, trimmed, vviews};

verus! {

pub open spec fn strs(v: Seq<&str>) -> Seq<Seq<char>> {
    v.map_values(|k: &str| k@)
}

/// The value of the first of `keys` that `m` has.
pub open spec fn first_member(m: Seq<(String, Json)>, keys: Seq<Seq<char>>) -> Option<Json>
    decreases keys.len(),
{
    if keys.len() == 0 {
        None
    } else {
        match obj_get(m, keys[0]) {
            Some(x) => Some(x),
            None => first_member(m, keys.drop_first()),
        }
    }
}

/// Index of the member `first_member` gives.
fn find_any(m: &Vec<(String, Json)>, keys: &[&str]) -> (r: Option<usize>)
    ensures
        match r {
            Some(i) => i < m.len() && first_member(m@, strs(keys@)) == Some(m@[i as int].1),
            None => first_member(m@, strs(keys@)) is None,
        },
{
    let ghost ks = strs(keys@);
    let mut j: usize = 0;
    assert(ks.subrange(0, ks.len() as int) =~= ks);
    while j < keys.len()
        invariant
            j <= keys.len(),
            ks == strs(keys@),
            first_member(m@, ks) == first_member(m@, ks.subrange(j as int, ks.len() as int)),
        decreases keys.len() - j,
    {
        assert(ks.subrange(j as int, ks.len() as int).drop_first() =~= ks.subrange(j + 1, ks.len() as int));
        assert(ks.subrange(j as int, ks.len() as int)[0] == keys@[j as int]@);
        match obj_find(m, keys[j]) {
            Some(i) => {
                return Some(i);
            },
            None => {},
        }
        j += 1;
    }
    None
}

pub proof fn lemma_get_update(m: Seq<(String, Json)>, i: int, key: Seq<char>, x: (String, Json))
    requires
        0 <= i < m.len(),
        key_index(m, key) == Some(i),
        m[i].0@ == key,
        x.0@ == key,
    ensures
        forall|k: Seq<char>| #[trigger] obj_get(m.update(i, x), k) == if k == key { Some(x.1) } else { obj_get(m, k) },
        key_index(m.update(i, x), key) == Some(i),
    decreases m.len(),
{
    assert(m.len() > 0);
    if i > 0 {
        assert(m[0].0@ != key);
        lemma_get_update(m.drop_first(), i - 1, key, x);
        assert(m.update(i, x).drop_first() =~= m.drop_first().update(i - 1, x));
        assert(m.update(i, x)[0] == m[0]);
        assert forall|k: Seq<char>| #[trigger] obj_get(m.update(i, x), k) == if k == key { Some(x.1) } else { obj_get(m, k) } by {
            assert(obj_get(m.update(i, x).drop_first(), k) == obj_get(m.drop_first().update(i - 1, x), k));
        }
    } else {
        assert(m.update(i, x).drop_first() =~= m.drop_first());
        assert(m.update(i, x)[0] == x);
    }
}

proof fn lemma_get_push(m: Seq<(String, Json)>, x: (String, Json))
    requires
        key_index(m, x.0@) is None,
    ensures
        forall|k: Seq<char>| #[trigger] obj_get(m.push(x), k) == if k == x.0@ { Some(x.1) } else { obj_get(m, k) },
        key_index(m.push(x), x.0@) == Some(m.len() as int),
    decreases m.len(),
{
    if m.len() == 0 {
        assert(m.push(x).drop_first() =~= Seq::<(String, Json)>::empty());
        assert(m.push(x)[0] == x);
        assert forall|k: Seq<char>| #[trigger] obj_get(m.push(x), k) == if k == x.0@ { Some(x.1) } else { obj_get(m, k) } by {
            assert(obj_get(m.push(x).drop_first(), k) is None);
        }
    } else {
        assert(m[0].0@ != x.0@);
        lemma_get_push(m.drop_first(), x);
        assert(m.push(x).drop_first() =~= m.drop_first().push(x));
        assert(m.push(x)[0] == m[0]);
        assert forall|k: Seq<char>| #[trigger] obj_get(m.push(x), k) == if k == x.0@ { Some(x.1) } else { obj_get(m, k) } by {
            assert(obj_get(m.push(x).drop_first(), k) == obj_get(m.drop_first().push(x), k));
        }
    }
}

/// `m2` is `m` with member `key` set to `v`: read by name, only `key` changed.
pub open spec fn member_put(m: Seq<(String, Json)>, key: Seq<char>, v: Json, m2: Seq<(String, Json)>) -> bool {
    &&& obj_get(m2, key) == Some(v)
    &&& forall|k: Seq<char>| k != key ==> #[trigger] obj_get(m2, k) == obj_get(m, k)
}

/// Sets member `key` to `v`: in its place when there, else added last.
pub(crate) fn put_member(m: &mut Vec<(String, Json)>, key: &str, v: Json)
    ensures
        member_put(old(m)@, key@, v, final(m)@),
{
    let ghost vv = v;
    match obj_find(m, key) {
        Some(i) => {
            let x = (String::from_str(key), v);
            proof {
                lemma_get_update(m@, i as int, key@, x);
            }
            m.set(i, x);
        },
        None => {
            let x = (String::from_str(key), v);
            proof {
                lemma_get_push(m@, x);
            }
            m.push(x);
        },
    }
}

/// `s` trimmed, when something is left.
pub open spec fn trimmed_text(s: Seq<char>) -> Option<Seq<char>> {
    if trim(s).len() > 0 { Some(trim(s)) } else { None }
}

/// One line of an outline given as a list: a non-blank string, or the
/// `text` / `beat` / `content` of an object.
pub open spec fn line_of(x: Json) -> Option<Seq<char>> {
    match x {
        Json::Str(s) => trimmed_text(s@),
        Json::Obj(m) => match first_member(m@, seq!["text"@, "beat"@, "content"@]) {
            Some(Json::Str(s)) => trimmed_text(s@),
            _ => None,
        },
        _ => None,
    }
}

pub open spec fn lines_of_items(a: Seq<Json>) -> Seq<Seq<char>>
    decreases a.len(),
{
    if a.len() == 0 {
        Seq::empty()
    } else {
        let rest = lines_of_items(a.drop_last());
        match line_of(a.last()) {
            Some(l) => rest.push(l),
            None => rest,
        }
    }
}

/// An outline field as text: a non-blank string, or the lines of a list
/// joined by newlines.
pub open spec fn outline_text_spec(v: Json) -> Option<Seq<char>> {
    match v {
        Json::Str(s) => trimmed_text(s@),
        Json::Arr(a) => {
            let ls = lines_of_items(a@);
            if ls.len() == 0 { None } else { Some(join(ls, "\n"@)) }
        },
        _ => None,
    }
}

fn trimmed_exec(s: &String) -> (r: Option<Vec<char>>)
    ensures
        match r {
            Some(t) => trimmed_text(s@) == Some(t@),
            None => trimmed_text(s@) is None,
        },
{
    let t = trim_str(s.as_str());
    if t.len() > 0 { Some(t) } else { None }
}

fn line_of_exec(x: &Json) -> (r: Option<Vec<char>>)
    ensures
        match r {
            Some(t) => line_of(*x) == Some(t@),
            None => line_of(*x) is None,
        },
{
    match x {
        Json::Str(s) => trimmed_exec(s),
        Json::Obj(m) => {
            let ks: &[&str] = &["text", "beat", "content"];
            assert(strs(ks@) =~= seq!["text"@, "beat"@, "content"@]);
            match find_any(m, ks) {
                Some(i) => match &m[i].1 {
                    Json::Str(s) => trimmed_exec(s),
                    _ => None,
                },
                None => None,
            }
        },
        _ => None,
    }
}

/// An outline field as text (see `outline_text_spec`).
pub fn outline_field_to_string(v: &Json) -> (r: Option<String>)
    ensures
        match r {
            Some(t) => outline_text_spec(*v) == Some(t@),
            None => outline_text_spec(*v) is None,
        },
{
    match v {
        Json::Str(s) => match trimmed_exec(s) {
            Some(t) => Some(string_of(&t)),
            None => None,
        },
        Json::Arr(a) => {
            let mut lines: Vec<Vec<char>> = Vec::new();
            let mut i: usize = 0;
            while i < a.len()
                invariant
                    i <= a.len(),
                    vviews(lines@) == lines_of_items(a@.subrange(0, i as int)),
                decreases a.len() - i,
            {
                assert(a@.subrange(0, i + 1).drop_last() =~= a@.subrange(0, i as int));
                assert(a@.subrange(0, i + 1).last() == a@[i as int]);
                let ghost before = lines@;
                match line_of_exec(&a[i]) {
                    Some(l) => {
                        lines.push(l);
                        assert(vviews(lines@) =~= vviews(before).push(lines@.last()@));
                    },
                    None => {},
                }
                i += 1;
            }
            assert(a@.subrange(0, a.len() as int) =~= a@);
            if lines.len() == 0 {
                None
            } else {
                Some(string_of(&join_exec(&lines, "\n")))
            }
        },
        _ => None,
    }
}

/// A chapter number as a JSON value: a `u32` number, a positive integer,
/// or a string holding one (or naming a chapter, see `parse_chapter_ref`).
pub open spec fn coerce_u32_spec(v: Json) -> Option<u32> {
    match v {
        Json::Num(n) => match n.as_u64 {
            Some(x) => if x <= u32::MAX { Some(x as u32) } else { None },
            None => match n.as_i64 {
                Some(x) => if 0 < x <= u32::MAX { Some(x as u32) } else { None },
                None => None,
            },
        },
        Json::Str(s) => match parse_u32_spec(trim(s@)) {
            Some(k) => Some(k as u32),
            None => chapter_ref_spec(trim(s@)),
        },
        _ => None,
    }
}

/// A chapter number as a JSON value (see `coerce_u32_spec`).
pub fn coerce_json_u32(v: &Json) -> (r: Option<u32>)
    ensures
        r == coerce_u32_spec(*v),
{
    match v {
        Json::Num(n) => match n.as_u64 {
            Some(x) => if x <= 4294967295u64 { Some(x as u32) } else { None },
            None => match n.as_i64 {
                Some(x) => if 0 < x && x <= 4294967295i64 { Some(x as u32) } else { None },
                None => None,
            },
        },
        Json::Str(s) => {
            let t = trim_str(s.as_str());
            match parse_u32(&t) {
                Some(k) => Some(k),
                None => parse_chapter_ref(string_of(&t).as_str()),
            }
        },
        _ => None,
    }
}

/// `v` is the JSON number `n`.
pub open spec fn num_is(v: Json, n: u32) -> bool {
    v matches Json::Num(x) && x.as_u64 == Some(n as u64) && x.as_i64 == Some(n as i64) && x.text@ == decimal(n as nat)
}

fn num_json(n: u32) -> (r: Json)
    ensures
        num_is(r, n),
{
    Json::Num(JsonNumber { as_u64: Some(n as u64), as_i64: Some(n as i64), text: string_of(&decimal_of(n as u64)) })
}

/// `o` is a copy of `x`, or both are missing.
pub open spec fn opt_copy(x: Option<Json>, o: Option<Json>) -> bool {
    match x {
        Some(a) => o matches Some(b) && same_json(a, b),
        None => o is None,
    }
}

pub open spec fn outline_keys() -> Seq<Seq<char>> {
    seq!["outline"@, "大纲"@, "summary"@, "beats"@]
}

pub open spec fn number_keys() -> Seq<Seq<char>> {
    seq!["n"@, "index"@, "章号"@]
}

/// `label` after normalizing: kept, else a copy of `title` / `标题`.
pub open spec fn label_ok(m: Seq<(String, Json)>, o: Option<Json>) -> bool {
    match obj_get(m, "label"@) {
        Some(x) => o == Some(x),
        None => opt_copy(first_member(m, seq!["title"@, "标题"@]), o),
    }
}

/// `outline` after normalizing: the text of the first outline-like field
/// (`outline` / `大纲` / `summary` / `beats`); where that has no text, the
/// field itself copied in when there was no `outline`.
pub open spec fn outline_ok(m: Seq<(String, Json)>, o: Option<Json>) -> bool {
    match first_member(m, outline_keys()) {
        Some(raw) => match outline_text_spec(raw) {
            Some(s) => o matches Some(x) && x matches Json::Str(t) && t@ == s,
            None => if obj_get(m, "outline"@) is None { opt_copy(Some(raw), o) } else { o == obj_get(m, "outline"@) },
        },
        None => o == obj_get(m, "outline"@),
    }
}

/// `n` after normalizing: the first of `n` / `index` / `章号` read as a
/// chapter number, else as it was.
pub open spec fn n_ok(m: Seq<(String, Json)>, o: Option<Json>) -> bool {
    match first_member(m, number_keys()) {
        Some(x) => match coerce_u32_spec(x) {
            Some(n) => o matches Some(y) && num_is(y, n),
            None => o == obj_get(m, "n"@),
        },
        None => o == obj_get(m, "n"@),
    }
}

/// `r` is outline item `v` with its label, outline and number under the
/// names the tree reads; every other member as it was. A value that is
/// not an object stays as it is.
pub open spec fn normalized_item(v: Json, r: Json) -> bool {
    match v {
        Json::Obj(m) => r matches Json::Obj(m2) && {
            &&& label_ok(m@, obj_get(m2@, "label"@))
            &&& outline_ok(m@, obj_get(m2@, "outline"@))
            &&& n_ok(m@, obj_get(m2@, "n"@))
            &&& forall|k: Seq<char>| k != "label"@ && k != "outline"@ && k != "n"@
                ==> #[trigger] obj_get(m2@, k) == obj_get(m@, k)
        },
        _ => r == v,
    }
}

proof fn lemma_keys_apart()
    ensures
        forall|j: int| 0 <= j < outline_keys().len() ==> #[trigger] outline_keys()[j] != "label"@,
        forall|j: int| 0 <= j < number_keys().len() ==> #[trigger] number_keys()[j] != "label"@,
        forall|j: int| 0 <= j < number_keys().len() ==> #[trigger] number_keys()[j] != "outline"@,
{
    reveal_strlit("label");
    reveal_strlit("outline");
    reveal_strlit("n");
    reveal_strlit("大纲");
    reveal_strlit("summary");
    reveal_strlit("beats");
    reveal_strlit("index");
    reveal_strlit("章号");
    assert("label"@.len() == 5);
    assert("outline"@.len() == 7);
    assert("n"@.len() == 1);
    assert("大纲"@.len() == 2);
    assert("summary"@.len() == 7);
    assert("summary"@[0] != "outline"@[0]);
    assert("beats"@.len() == 5);
    assert("beats"@[0] != "label"@[0]);
    assert("index"@.len() == 5);
    assert("index"@[0] != "label"@[0]);
    assert("章号"@.len() == 2);
}

proof fn lemma_first_member_same(m: Seq<(String, Json)>, m2: Seq<(String, Json)>, keys: Seq<Seq<char>>, skip: Seq<char>)
    requires
        forall|k: Seq<char>| k != skip ==> #[trigger] obj_get(m2, k) == obj_get(m, k),
        forall|j: int| 0 <= j < keys.len() ==> keys[j] != skip,
    ensures
        first_member(m2, keys) == first_member(m, keys),
    decreases keys.len(),
{
    if keys.len() > 0 {
        assert(keys[0] != skip);
        assert(forall|j: int| 0 <= j < keys.drop_first().len() ==> keys.drop_first()[j] == keys[j + 1]);
        lemma_first_member_same(m, m2, keys.drop_first(), skip);
    }
}

/// Brings an outline item to the names the tree reads (see
/// `normalized_item`).
pub fn normalize_outline_item(v: Json) -> (r: Json)
    ensures
        normalized_item(v, r),
{
    let ghost v0 = v;
    let mut m = match v {
        Json::Obj(m) => m,
        other => {
            return other;
        },
    };
    let ghost m0 = m@;
    proof {
        lemma_keys_apart();
    }
    // label
    if obj_find(&m, "label").is_none() {
        let ks: &[&str] = &["title", "标题"];
        assert(strs(ks@) =~= seq!["title"@, "标题"@]);
        match find_any(&m, ks) {
            Some(i) => {
                let t = copy_json(&m[i].1);
                put_member(&mut m, "label", t);
            },
            None => {},
        }
    }
    let ghost m1 = m@;
    assert(label_ok(m0, obj_get(m1, "label"@)));
    assert(forall|k: Seq<char>| k != "label"@ ==> #[trigger] obj_get(m1, k) == obj_get(m0, k));
    // outline
    let oks: &[&str] = &["outline", "大纲", "summary", "beats"];
    assert(strs(oks@) =~= outline_keys());
    proof {
        lemma_first_member_same(m0, m1, outline_keys(), "label"@);
    }
    match find_any(&m, oks) {
        Some(i) => {
            match outline_field_to_string(&m[i].1) {
                Some(s) => {
                    put_member(&mut m, "outline", Json::Str(s));
                },
                None => {
                    if obj_find(&m, "outline").is_none() {
                        let c = copy_json(&m[i].1);
                        put_member(&mut m, "outline", c);
                    }
                },
            }
        },
        None => {},
    }
    let ghost m2 = m@;
    assert(outline_ok(m0, obj_get(m2, "outline"@)));
    assert(forall|k: Seq<char>| k != "outline"@ ==> #[trigger] obj_get(m2, k) == obj_get(m1, k));
    // number
    let nks: &[&str] = &["n", "index", "章号"];
    assert(strs(nks@) =~= number_keys());
    proof {
        assert(forall|k: Seq<char>| k != "label"@ && k != "outline"@ ==> #[trigger] obj_get(m2, k) == obj_get(m0, k));
        lemma_first_member_same(m0, m1, number_keys(), "label"@);
        lemma_first_member_same(m1, m2, number_keys(), "outline"@);
    }
    match find_any(&m, nks) {
        Some(i) => {
            match coerce_json_u32(&m[i].1) {
                Some(n) => {
                    put_member(&mut m, "n", num_json(n));
                },
                None => {},
            }
        },
        None => {},
    }
    let ghost m3 = m@;
    assert(n_ok(m0, obj_get(m3, "n"@)));
    let r = Json::Obj(m);
    assert(normalized_item(v0, r));
    r
}

/// A non-blank string.
pub open spec fn has_text(o: Option<Json>) -> bool {
    o matches Some(Json::Str(s)) && trim(s@).len() > 0
}

/// A normalized item worth keeping: it has an outline or a label.
pub open spec fn usable(v: Json) -> bool {
    has_text(get_spec(v, "outline"@)) || has_text(get_spec(v, "label"@))
}

pub open spec fn keep_usable(norm: Seq<Json>) -> Seq<Json>
    decreases norm.len(),
{
    if norm.len() == 0 {
        Seq::empty()
    } else {
        let rest = keep_usable(norm.drop_last());
        if usable(norm.last()) { rest.push(norm.last()) } else { rest }
    }
}

/// `r` is `list` with every item normalized, keeping those worth keeping.
pub open spec fn usable_list(list: Seq<Json>, r: Seq<Json>) -> bool {
    exists|norm: Seq<Json>| {
        &&& norm.len() == list.len()
        &&& forall|i: int| 0 <= i < list.len() ==> normalized_item(list[i], #[trigger] norm[i])
        &&& r == keep_usable(norm)
    }
}

fn has_text_exec(o: Option<&Json>) -> (r: bool)
    ensures
        r == has_text(match o { Some(x) => Some(*x), None => None }),
{
    match o {
        Some(Json::Str(s)) => trim_str(s.as_str()).len() > 0,
        _ => false,
    }
}

fn usable_exec(v: &Json) -> (r: bool)
    ensures
        r == usable(*v),
{
    has_text_exec(json_get(v, "outline")) || has_text_exec(json_get(v, "label"))
}

/// The items of `list` normalized (see `normalize_outline_item`), keeping
/// those with an outline or a label.
pub fn usable_outline_list(list: Vec<Json>) -> (r: Vec<Json>)
    ensures
        usable_list(list@, r@),
{
    let ghost l0 = list@;
    let n_all = list.len();
    let mut rest = list;
    let mut out: Vec<Json> = Vec::new();
    let ghost mut norm: Seq<Json> = Seq::empty();
    let mut i: usize = 0;
    while rest.len() > 0
        invariant
            l0.len() == n_all,
            i + rest@.len() == n_all,
            rest@ == l0.subrange(i as int, n_all as int),
            norm.len() == i,
            forall|j: int| 0 <= j < i ==> normalized_item(l0[j], #[trigger] norm[j]),
            out@ == keep_usable(norm),
        decreases rest@.len(),
    {
        let v = rest.remove(0);
        assert(v == l0[i as int]);
        assert(rest@ =~= l0.subrange(i + 1, n_all as int));
        let r = normalize_outline_item(v);
        let keep = usable_exec(&r);
        let ghost n1 = norm.push(r);
        assert(n1.drop_last() =~= norm);
        if keep {
            out.push(r);
        }
        proof {
            norm = n1;
        }
        i += 1;
    }
    assert(norm.len() == l0.len() && (forall|i: int| 0 <= i < l0.len() ==> normalized_item(l0[i], #[trigger] norm[i])) && out@ == keep_usable(norm));
    out
}

/// `label` has text once the item is normalized.
pub open spec fn label_has_text(m: Seq<(String, Json)>) -> bool {
    match obj_get(m, "label"@) {
        Some(x) => has_text(Some(x)),
        None => has_text(first_member(m, seq!["title"@, "标题"@])),
    }
}

/// `outline` has text once the item is normalized.
pub open spec fn outline_has_text(m: Seq<(String, Json)>) -> bool {
    match first_member(m, outline_keys()) {
        Some(raw) => match outline_text_spec(raw) {
            Some(s) => trim(s).len() > 0,
            None => if obj_get(m, "outline"@) is None { has_text(Some(raw)) } else { has_text(obj_get(m, "outline"@)) },
        },
        None => has_text(obj_get(m, "outline"@)),
    }
}

/// A raw item that is worth keeping once normalized.
pub open spec fn item_usable(v: Json) -> bool {
    v matches Json::Obj(m) && (outline_has_text(m@) || label_has_text(m@))
}

pub open spec fn any_usable(list: Seq<Json>) -> bool {
    exists|i: int| 0 <= i < list.len() && item_usable(#[trigger] list[i])
}

fn item_usable_exec(v: &Json) -> (r: bool)
    ensures
        r == item_usable(*v),
{
    let m = match v {
        Json::Obj(m) => m,
        _ => {
            return false;
        },
    };
    let oks: &[&str] = &["outline", "大纲", "summary", "beats"];
    assert(strs(oks@) =~= outline_keys());
    let out_text = match find_any(m, oks) {
        Some(i) => match outline_field_to_string(&m[i].1) {
            Some(s) => trim_str(s.as_str()).len() > 0,
            None => match obj_find(m, "outline") {
                None => has_text_exec(Some(&m[i].1)),
                Some(j) => has_text_exec(Some(&m[j].1)),
            },
        },
        None => match obj_find(m, "outline") {
            Some(j) => has_text_exec(Some(&m[j].1)),
            None => false,
        },
    };
    if out_text {
        return true;
    }
    match obj_find(m, "label") {
        Some(j) => has_text_exec(Some(&m[j].1)),
        None => {
            let ks: &[&str] = &["title", "标题"];
            assert(strs(ks@) =~= seq!["title"@, "标题"@]);
            match find_any(m, ks) {
                Some(i) => has_text_exec(Some(&m[i].1)),
                None => false,
            }
        },
    }
}

fn any_usable_exec(a: &Vec<Json>) -> (r: bool)
    ensures
        r == any_usable(a@),
{
    let mut i: usize = 0;
    while i < a.len()
        invariant
            i <= a.len(),
            forall|j: int| 0 <= j < i ==> !item_usable(#[trigger] a@[j]),
        decreases a.len() - i,
    {
        if item_usable_exec(&a[i]) {
            return true;
        }
        i += 1;
    }
    false
}

pub open spec fn item_keys() -> Seq<Seq<char>> {
    seq!["outline"@, "label"@, "title"@, "n"@, "index"@, "大纲"@, "标题"@]
}

/// An object with one of the fields an outline item has.
pub open spec fn looks_like_item_spec(v: Json) -> bool {
    v matches Json::Obj(m) && first_member(m@, item_keys()) is Some
}

/// See `looks_like_item_spec`.
pub fn looks_like_outline_item(v: &Json) -> (r: bool)
    ensures
        r == looks_like_item_spec(*v),
{
    match v {
        Json::Obj(m) => {
            let ks: &[&str] = &["outline", "label", "title", "n", "index", "大纲", "标题"];
            assert(strs(ks@) =~= item_keys());
            find_any(m, ks).is_some()
        },
        _ => false,
    }
}

/// The array under `key` in the first of `objs` that has one there.
pub open spec fn first_array(objs: Seq<Json>, key: Seq<char>) -> Option<Seq<Json>>
    decreases objs.len(),
{
    if objs.len() == 0 {
        None
    } else {
        match get_spec(objs[0], key) {
            Some(Json::Arr(a)) => Some(a@),
            _ => first_array(objs.drop_first(), key),
        }
    }
}

/// Member `key` of `v` when it is an array, taken out of `v`.
fn take_array(v: Json, key: &str) -> (r: Option<Vec<Json>>)
    ensures
        match r {
            Some(a) => get_spec(v, key@) == Some(Json::Arr(a)),
            None => !(get_spec(v, key@) matches Some(Json::Arr(_))),
        },
{
    match v {
        Json::Obj(mut m) => match obj_find(&m, key) {
            Some(i) => {
                let (_, x) = m.remove(i);
                match x {
                    Json::Arr(a) => Some(a),
                    _ => None,
                }
            },
            None => None,
        },
        _ => None,
    }
}

/// The array under `key` in the first JSON object of a reply that has one
/// there (see `objects_spec`).
pub fn first_json_array_field(text: &str, key: &str) -> (r: Option<Vec<Json>>)
    ensures
        match r {
            Some(a) => first_array(objects_spec(text@), key@) == Some(a@),
            None => first_array(objects_spec(text@), key@) is None,
        },
{
    let objs = extract_json_objects(text);
    let ghost all = objs@;
    let n_all = objs.len();
    let mut rest = objs;
    let mut i: usize = 0;
    assert(all.subrange(0, n_all as int) =~= all);
    while rest.len() > 0
        invariant
            all.len() == n_all,
            i + rest@.len() == n_all,
            rest@ == all.subrange(i as int, n_all as int),
            all == objects_spec(text@),
            first_array(all, key@) == first_array(all.subrange(i as int, n_all as int), key@),
        decreases rest@.len(),
    {
        let v = rest.remove(0);
        assert(all.subrange(i as int, n_all as int).drop_first() =~= all.subrange(i + 1, n_all as int));
        assert(rest@ =~= all.subrange(i + 1, n_all as int));
        assert(v == all.subrange(i as int, n_all as int)[0]);
        match take_array(v, key) {
            Some(a) => {
                return Some(a);
            },
            None => {},
        }
        i += 1;
    }
    None
}

pub open spec fn list_keys() -> Seq<Seq<char>> {
    seq!["outlines"@, "chapters"@, "章节"@, "大纲列表"@, "items"@]
}

/// The first of `keys` under which `v` has an array with an item worth
/// keeping.
pub open spec fn keyed_list(v: Json, keys: Seq<Seq<char>>) -> Option<(Seq<char>, Seq<Json>)>
    decreases keys.len(),
{
    if keys.len() == 0 {
        None
    } else {
        match get_spec(v, keys[0]) {
            Some(Json::Arr(a)) => if any_usable(a@) { Some((keys[0], a@)) } else { keyed_list(v, keys.drop_first()) },
            _ => keyed_list(v, keys.drop_first()),
        }
    }
}

/// The outline list of the first object of a reply that holds one: an
/// array under one of the list keys, or the object itself when it is a
/// single outline item.
pub open spec fn list_in_objects(objs: Seq<Json>) -> Option<Seq<Json>>
    decreases objs.len(),
{
    if objs.len() == 0 {
        None
    } else {
        let v = objs[0];
        match keyed_list(v, list_keys()) {
            Some((_, l)) => Some(l),
            None => if looks_like_item_spec(v) && get_spec(v, "outlines"@) is None && item_usable(v) {
                Some(seq![v])
            } else {
                list_in_objects(objs.drop_first())
            },
        }
    }
}

/// The reply as a bare JSON array (trailing commas tolerated).
pub open spec fn bare_list(text: Seq<char>) -> Option<Seq<Json>> {
    let t = trim(normalize_spec(text));
    if t.len() > 0 && t[0] == '[' {
        match crate::json::json_parse(strip_commas_spec(t)) {
            Some(Json::Arr(a)) => if any_usable(a@) { Some(a@) } else { None },
            _ => None,
        }
    } else {
        None
    }
}

/// Where the outline list of a reply comes from: an object holding one,
/// else the reply as a bare array, else the first `outlines` array; in
/// each case only when an item is worth keeping.
pub open spec fn outline_source(text: Seq<char>) -> Option<Seq<Json>> {
    match list_in_objects(objects_spec(text)) {
        Some(l) => Some(l),
        None => match bare_list(text) {
            Some(l) => Some(l),
            None => match first_array(objects_spec(text), "outlines"@) {
                Some(a) => if any_usable(a) { Some(a) } else { None },
                None => None,
            },
        },
    }
}

proof fn lemma_keyed_list_usable(v: Json, keys: Seq<Seq<char>>)
    ensures
        keyed_list(v, keys) matches Some((_, l)) ==> any_usable(l),
    decreases keys.len(),
{
    if keys.len() > 0 {
        lemma_keyed_list_usable(v, keys.drop_first());
    }
}

/// The key under which `v` has a usable list (see `keyed_list`).
fn keyed_list_exec(v: &Json) -> (r: Option<&'static str>)
    ensures
        match r {
            Some(k) => {
                &&& keyed_list(*v, list_keys()) matches Some((k2, l))
                &&& k2 == k@
                &&& get_spec(*v, k@) matches Some(Json::Arr(a))
                &&& a@ == l
            },
            None => keyed_list(*v, list_keys()) is None,
        },
{
    let ks: &[&'static str] = &["outlines", "chapters", "章节", "大纲列表", "items"];
    let ghost kv = strs(ks@);
    assert(kv =~= list_keys());
    let mut j: usize = 0;
    assert(kv.subrange(0, kv.len() as int) =~= kv);
    while j < ks.len()
        invariant
            j <= ks.len(),
            kv == strs(ks@),
            kv == list_keys(),
            keyed_list(*v, kv) == keyed_list(*v, kv.subrange(j as int, kv.len() as int)),
        decreases ks.len() - j,
    {
        assert(kv.subrange(j as int, kv.len() as int).drop_first() =~= kv.subrange(j + 1, kv.len() as int));
        assert(kv.subrange(j as int, kv.len() as int)[0] == ks@[j as int]@);
        match json_get(v, ks[j]) {
            Some(Json::Arr(a)) => {
                if any_usable_exec(a) {
                    return Some(ks[j]);
                }
            },
            _ => {},
        }
        j += 1;
    }
    None
}

/// The chapter outline list of a model reply (see `outline_source`), each
/// item normalized and only those with an outline or a label kept (see
/// `usable_list`). Accepts `{"outlines": [...]}` and its other key
/// names, a single outline object, a bare array, curly quotes and code
/// fences.
pub fn extract_outlines_list(text: &str) -> (r: Option<Vec<Json>>)
    ensures
        match r {
            Some(l) => outline_source(text@) matches Some(src) && usable_list(src, l@) && l@.len() > 0,
            None => outline_source(text@) is None,
        },
{
    let objs = extract_json_objects(text);
    let ghost all = objs@;
    let n_all = objs.len();
    let mut rest = objs;
    let mut i: usize = 0;
    assert(all.subrange(0, n_all as int) =~= all);
    while rest.len() > 0
        invariant
            all.len() == n_all,
            i + rest@.len() == n_all,
            rest@ == all.subrange(i as int, n_all as int),
            all == objects_spec(text@),
            list_in_objects(all) == list_in_objects(all.subrange(i as int, n_all as int)),
        decreases rest@.len(),
    {
        let v = rest.remove(0);
        assert(all.subrange(i as int, n_all as int).drop_first() =~= all.subrange(i + 1, n_all as int));
        assert(rest@ =~= all.subrange(i + 1, n_all as int));
        assert(v == all.subrange(i as int, n_all as int)[0]);
        let ghost vv0 = v;
        match keyed_list_exec(&v) {
            Some(k) => {
                let a = take_array(v, k);
                match a {
                    Some(a) => {
                        let ghost av = a@;
                        proof {
                            lemma_keyed_list_usable(vv0, list_keys());
                        }
                        let l = usable_outline_list(a);
                        proof {
                            usable_list_nonempty_iff(av, l@);
                        }
                        return Some(l);
                    },
                    None => {
                        return None;
                    },
                }
            },
            None => {},
        }
        if looks_like_outline_item(&v) && json_get(&v, "outlines").is_none() && item_usable_exec(&v) {
            let ghost vv = v;
            let mut one: Vec<Json> = Vec::new();
            one.push(v);
            assert(one@ =~= seq![vv]);
            assert(item_usable(one@[0]));
            let l = usable_outline_list(one);
            proof {
                usable_list_nonempty_iff(seq![vv], l@);
            }
            return Some(l);
        }
        i += 1;
    }
    let s = normalize_llm_json_text(text);
    let t = trimmed(&s);
    if t.len() > 0 && t[0] == '[' {
        let soft = strip_trailing_commas(&t);
        match crate::json::parse_json(string_of(&soft).as_str()) {
            Some(Json::Arr(arr)) => {
                if any_usable_exec(&arr) {
                    let ghost av = arr@;
                    let l = usable_outline_list(arr);
                    proof {
                        usable_list_nonempty_iff(av, l@);
                    }
                    return Some(l);
                }
            },
            _ => {},
        }
    }
    match first_json_array_field(text, "outlines") {
        Some(arr) => {
            if any_usable_exec(&arr) {
                let ghost av = arr@;
                let l = usable_outline_list(arr);
                proof {
                    usable_list_nonempty_iff(av, l@);
                }
                Some(l)
            } else {
                None
            }
        },
        None => None,
    }
}

/// The payload of a create request in a reply: the first `create` member,
/// or an object with a string `title` (the wrapper left out).
pub open spec fn create_in(objs: Seq<Json>) -> Option<Json>
    decreases objs.len(),
{
    if objs.len() == 0 {
        None
    } else {
        match get_spec(objs[0], "create"@) {
            Some(c) => Some(c),
            None => if crate::json::as_str_spec(match get_spec(objs[0], "title"@) { Some(t) => t, None => Json::Null }) is Some {
                Some(objs[0])
            } else {
                create_in(objs.drop_first())
            },
        }
    }
}

/// Member `key` of `v`, taken out of `v`.
fn take_member(v: Json, key: &str) -> (r: Option<Json>)
    ensures
        r == get_spec(v, key@),
{
    match v {
        Json::Obj(mut m) => match obj_find(&m, key) {
            Some(i) => {
                let (_, x) = m.remove(i);
                Some(x)
            },
            None => None,
        },
        _ => None,
    }
}

/// See `create_in`.
pub fn extract_create_json(reply: &str) -> (r: Option<Json>)
    ensures
        r == create_in(objects_spec(reply@)),
{
    let objs = extract_json_objects(reply);
    let ghost all = objs@;
    let n_all = objs.len();
    let mut rest = objs;
    let mut i: usize = 0;
    assert(all.subrange(0, n_all as int) =~= all);
    while rest.len() > 0
        invariant
            all.len() == n_all,
            i + rest@.len() == n_all,
            rest@ == all.subrange(i as int, n_all as int),
            all == objects_spec(reply@),
            create_in(all) == create_in(all.subrange(i as int, n_all as int)),
        decreases rest@.len(),
    {
        let v = rest.remove(0);
        assert(all.subrange(i as int, n_all as int).drop_first() =~= all.subrange(i + 1, n_all as int));
        assert(rest@ =~= all.subrange(i + 1, n_all as int));
        assert(v == all.subrange(i as int, n_all as int)[0]);
        if json_get(&v, "create").is_some() {
            return take_member(v, "create");
        }
        let titled = match json_get(&v, "title") {
            Some(Json::Str(_)) => true,
            _ => false,
        };
        if titled {
            return Some(v);
        }
        i += 1;
    }
    None
}

/// `v` has one of `keys`.
pub open spec fn has_any_key(v: Json, keys: Seq<Seq<char>>) -> bool {
    v matches Json::Obj(m) && first_member(m@, keys) is Some
}

pub open spec fn first_with_key(objs: Seq<Json>, keys: Seq<Seq<char>>) -> Option<Json>
    decreases objs.len(),
{
    if objs.len() == 0 {
        None
    } else if has_any_key(objs[0], keys) {
        Some(objs[0])
    } else {
        first_with_key(objs.drop_first(), keys)
    }
}

/// The first JSON object of a reply that has one of `keys`.
pub fn first_json_with_any_key(text: &str, keys: &[&str]) -> (r: Option<Json>)
    ensures
        r == first_with_key(objects_spec(text@), strs(keys@)),
{
    let objs = extract_json_objects(text);
    let ghost all = objs@;
    let n_all = objs.len();
    let mut rest = objs;
    let mut i: usize = 0;
    assert(all.subrange(0, n_all as int) =~= all);
    while rest.len() > 0
        invariant
            all.len() == n_all,
            i + rest@.len() == n_all,
            rest@ == all.subrange(i as int, n_all as int),
            all == objects_spec(text@),
            first_with_key(all, strs(keys@)) == first_with_key(all.subrange(i as int, n_all as int), strs(keys@)),
        decreases rest@.len(),
    {
        let v = rest.remove(0);
        assert(all.subrange(i as int, n_all as int).drop_first() =~= all.subrange(i + 1, n_all as int));
        assert(rest@ =~= all.subrange(i + 1, n_all as int));
        assert(v == all.subrange(i as int, n_all as int)[0]);
        let hit = match &v {
            Json::Obj(m) => find_any(m, keys).is_some(),
            _ => false,
        };
        if hit {
            return Some(v);
        }
        i += 1;
    }
    None
}

proof fn lemma_copy_has_text(a: Json, b: Json)
    requires
        same_json(a, b),
    ensures
        has_text(Some(b)) == has_text(Some(a)),
{
}

/// A normalized item is worth keeping exactly when the raw item is.
pub proof fn normalized_keeps_usable(v: Json, r: Json)
    requires
        normalized_item(v, r),
    ensures
        usable(r) == item_usable(v),
{
    match v {
        Json::Obj(m) => {
            let m2 = r->Obj_0;
            match obj_get(m@, "label"@) {
                Some(x) => {},
                None => {
                    match first_member(m@, seq!["title"@, "标题"@]) {
                        Some(t) => {
                            lemma_copy_has_text(t, obj_get(m2@, "label"@)->Some_0);
                        },
                        None => {},
                    }
                },
            }
            match first_member(m@, outline_keys()) {
                Some(raw) => match outline_text_spec(raw) {
                    Some(s) => {},
                    None => {
                        if obj_get(m@, "outline"@) is None {
                            lemma_copy_has_text(raw, obj_get(m2@, "outline"@)->Some_0);
                        }
                    },
                },
                None => {},
            }
        },
        _ => {},
    }
}

proof fn lemma_keep_usable_len(norm: Seq<Json>)
    ensures
        keep_usable(norm).len() > 0 <==> exists|i: int| 0 <= i < norm.len() && usable(#[trigger] norm[i]),
    decreases norm.len(),
{
    if norm.len() > 0 {
        lemma_keep_usable_len(norm.drop_last());
        if exists|i: int| 0 <= i < norm.len() && usable(#[trigger] norm[i]) {
            let i = choose|i: int| 0 <= i < norm.len() && usable(#[trigger] norm[i]);
            if i < norm.len() - 1 {
                assert(norm.drop_last()[i] == norm[i]);
            }
        }
        if exists|i: int| 0 <= i < norm.drop_last().len() && usable(#[trigger] norm.drop_last()[i]) {
            let i = choose|i: int| 0 <= i < norm.drop_last().len() && usable(#[trigger] norm.drop_last()[i]);
            assert(norm[i] == norm.drop_last()[i]);
        }
    }
}

/// Normalizing a list leaves something exactly when one of its raw items
/// has an outline or a label.
pub proof fn usable_list_nonempty_iff(list: Seq<Json>, r: Seq<Json>)
    requires
        usable_list(list, r),
    ensures
        r.len() > 0 <==> any_usable(list),
{
    let norm = choose|norm: Seq<Json>| {
        &&& norm.len() == list.len()
        &&& forall|i: int| 0 <= i < list.len() ==> normalized_item(list[i], #[trigger] norm[i])
        &&& r == keep_usable(norm)
    };
    lemma_keep_usable_len(norm);
    assert forall|i: int| 0 <= i < list.len() implies usable(#[trigger] norm[i]) == item_usable(list[i]) by {
        normalized_keeps_usable(list[i], norm[i]);
    }
    if any_usable(list) {
        let i = choose|i: int| 0 <= i < list.len() && item_usable(#[trigger] list[i]);
        assert(usable(norm[i]));
    }
    if r.len() > 0 {
        let i = choose|i: int| 0 <= i < norm.len() && usable(#[trigger] norm[i]);
        assert(item_usable(list[i]));
    }
}

} // verus!
