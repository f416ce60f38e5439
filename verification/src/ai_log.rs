//! Settings of the local AI interaction log: whether it is written at all,
//! and the id of the chat run that records are tagged with.
use vstd::prelude::*;
use crate::chapter_shots::str_is;
use crate::json::{Json, JsonNumber};
use crate::text::{ascii_lower_seq, chars_of, decimal, has_sub, starts_with};

verus! {

/// The log switch and the current run id. The application holds one of
/// these for the whole process.
pub struct AiLogState {
    pub on: bool,
    pub run: Option<String>,
}

impl AiLogState {
    /// Logging off, no run.
    pub fn new() -> (r: Self)
        ensures
            !r.on,
            r.run is None,
    {
        AiLogState { on: false, run: None }
    }
}

/// The state after the switch is set to `on`.
pub open spec fn with_switch(s: AiLogState, on: bool) -> AiLogState {
    AiLogState { on: on, run: s.run }
}

/// The state after the run id is set to `id`.
pub open spec fn with_run(s: AiLogState, id: Option<String>) -> AiLogState {
    AiLogState { on: s.on, run: id }
}

/// Turns logging on or off.
pub fn set_enabled(state: &mut AiLogState, on: bool)
    ensures
        *final(state) == with_switch(*old(state), on),
{
    state.on = on;
}

/// Whether logging is on.
pub fn enabled(state: &AiLogState) -> (r: bool)
    ensures
        r == state.on,
{
    state.on
}

/// Sets (or, with `None`, clears) the run id that later records carry.
pub fn set_run(state: &mut AiLogState, id: Option<String>)
    ensures
        *final(state) == with_run(*old(state), id),
{
    state.run = id;
}

/// Marks a chat run in progress; ending it clears the run id.
pub struct RunGuard;

/// Starts a run with the given id.
pub fn begin_run(state: &mut AiLogState, id: String) -> (g: RunGuard)
    ensures
        *final(state) == with_run(*old(state), Some(id)),
{
    set_run(state, Some(id));
    RunGuard
}

/// Ends the run that `guard` marks: the run id is cleared.
pub fn end_run(state: &mut AiLogState, guard: RunGuard)
    ensures
        *final(state) == with_run(*old(state), None),
{
    set_run(state, None);
}

/// The switch reads back what was set last, whatever runs began or ended
/// after it; a run id reads back as set, whatever the switch did after it;
/// a run that began and ended leaves no run id.
pub proof fn log_settings_read_back(s: AiLogState, on: bool, id: Option<String>)
    ensures
        with_switch(s, on).on == on,
        with_run(with_switch(s, on), id).on == on,
        with_run(s, id).run == id,
        with_switch(with_run(s, id), on).run == id,
        forall|x: String| (#[trigger] with_run(with_run(s, Some(x)), None)).run is None,
{
}

/// A key with its `-` and `_` left out.
pub open spec fn without_seps(k: Seq<char>) -> Seq<char>
    decreases k.len(),
{
    if k.len() == 0 {
        Seq::empty()
    } else {
        let rest = without_seps(k.drop_last());
        if k.last() == '-' || k.last() == '_' { rest } else { rest.push(k.last()) }
    }
}

/// A key whose value is a secret: one that names an API key (`apikey`
/// anywhere in it once ASCII-lowercased and stripped of `-` and `_`, as in
/// `api_key`, `x-api-key`, `API-Key`), or exactly `authorization` or
/// `token` (any ASCII case).
pub open spec fn secret_key(k: Seq<char>) -> bool {
    let l = ascii_lower_seq(k);
    has_sub(without_seps(l), "apikey"@) || l == "authorization"@ || l == "token"@
}

/// A string that is a key or a bearer token.
pub open spec fn secret_str(s: Seq<char>) -> bool {
    starts_with(s, "sk-"@) || starts_with(s, "Bearer "@)
}

/// `new` is `old` with every secret replaced by `***`: the values of secret
/// keys and the strings that look like keys or bearer tokens, at any depth.
pub open spec fn redacted(old: Json, new: Json) -> bool
    decreases old,
{
    match old {
        Json::Obj(m) => new matches Json::Obj(m2) && m2@.len() == m@.len()
            && forall|i: int| 0 <= i < m@.len() ==> (#[trigger] m2@[i]).0 == m@[i].0
                && (if secret_key(m@[i].0@) { str_is(m2@[i].1, "***"@) } else { redacted(m@[i].1, m2@[i].1) }),
        Json::Arr(a) => new matches Json::Arr(a2) && a2@.len() == a@.len()
            && forall|i: int| 0 <= i < a@.len() ==> redacted(#[trigger] a@[i], a2@[i]),
        Json::Str(s) => if secret_str(s@) { str_is(new, "***"@) } else { new == old },
        _ => new == old,
    }
}

fn without_seps_exec(k: &Vec<char>) -> (r: Vec<char>)
    ensures
        r@ == without_seps(k@),
{
    let mut out: Vec<char> = Vec::new();
    let mut i: usize = 0;
    while i < k.len()
        invariant
            i <= k@.len(),
            out@ == without_seps(k@.subrange(0, i as int)),
        decreases k@.len() - i,
    {
        assert(k@.subrange(0, i + 1).drop_last() =~= k@.subrange(0, i as int));
        let c = k[i];
        if c != '-' && c != '_' {
            out.push(c);
        }
        i += 1;
    }
    assert(k@.subrange(0, k@.len() as int) =~= k@);
    out
}

fn secret_key_exec(k: &String) -> (r: bool)
    ensures
        r == secret_key(k@),
{
    let l = crate::global_chat::ascii_lowercase(&chars_of(k.as_str()));
    crate::text::contains_str(&without_seps_exec(&l), "apikey")
        || crate::text::eq_str(&l, "authorization") || crate::text::eq_str(&l, "token")
}

fn stars() -> (r: Json)
    ensures
        str_is(r, "***"@),
{
    Json::Str(String::from_str("***"))
}

fn leaf_copy(v: &Json) -> (r: Json)
    ensures
        !(*v is Obj) && !(*v is Arr) ==> r == *v,
{
    match v {
        Json::Null => Json::Null,
        Json::Bool(b) => Json::Bool(*b),
        Json::Num(n) => Json::Num(JsonNumber { as_u64: n.as_u64, as_i64: n.as_i64, text: n.text.clone() }),
        Json::Str(s) => Json::Str(s.clone()),
        _ => Json::Null,
    }
}

fn redact_ref(v: &Json) -> (r: Json)
    ensures
        redacted(*v, r),
    decreases v,
{
    match v {
        Json::Obj(m) => {
            let mut out: Vec<(String, Json)> = Vec::new();
            let mut i: usize = 0;
            while i < m.len()
                invariant
                    *v == Json::Obj(*m),
                    i <= m.len(),
                    out@.len() == i,
                    forall|j: int| 0 <= j < i ==> (#[trigger] out@[j]).0 == m@[j].0
                        && (if secret_key(m@[j].0@) { str_is(out@[j].1, "***"@) } else { redacted(m@[j].1, out@[j].1) }),
                decreases m.len() - i,
            {
                let k = m[i].0.clone();
                if secret_key_exec(&m[i].0) {
                    out.push((k, stars()));
                } else {
                    proof {
                        vstd::std_specs::vec::axiom_vec_index_decreases(*m, i as int);
                        assert(decreases_to!(*v => (*v)->Obj_0));
                        assert(decreases_to!(m[i as int] => m[i as int].1));
                    }
                    let y = redact_ref(&m[i].1);
                    out.push((k, y));
                }
                i += 1;
            }
            Json::Obj(out)
        },
        Json::Arr(a) => {
            let mut out: Vec<Json> = Vec::new();
            let mut i: usize = 0;
            while i < a.len()
                invariant
                    *v == Json::Arr(*a),
                    i <= a.len(),
                    out@.len() == i,
                    forall|j: int| 0 <= j < i ==> redacted(#[trigger] a@[j], out@[j]),
                decreases a.len() - i,
            {
                proof {
                    vstd::std_specs::vec::axiom_vec_index_decreases(*a, i as int);
                    assert(decreases_to!(*v => (*v)->Arr_0));
                }
                let y = redact_ref(&a[i]);
                out.push(y);
                i += 1;
            }
            Json::Arr(out)
        },
        Json::Str(s) => {
            if crate::text::starts_with_str(&chars_of(s.as_str()), "sk-")
                || crate::text::starts_with_str(&chars_of(s.as_str()), "Bearer ") {
                stars()
            } else {
                Json::Str(s.clone())
            }
        },
        _ => leaf_copy(v),
    }
}

/// Replaces every secret in a log payload by `***` (see `redacted`).
pub fn redact_value(v: &mut Json)
    ensures
        redacted(*old(v), *final(v)),
{
    let r = redact_ref(v);
    *v = r;
}

/// Whether every item is a number.
pub open spec fn all_numbers(a: Seq<Json>) -> bool {
    forall|i: int| 0 <= i < a.len() ==> (#[trigger] a[i]) is Num
}

/// `{"_bytes": n}`.
pub open spec fn is_bytes_marker(v: Json, n: nat) -> bool {
    v matches Json::Obj(m) && m@.len() == 1 && m@[0].0@ == "_bytes"@
        && (m@[0].1 matches Json::Num(x) && x.as_u64 == Some(n as u64) && x.text@ == decimal(n))
}

/// `new` is `old` with every list of more than 64 numbers (binary data)
/// replaced by `{"_bytes": length}`, at any depth.
pub open spec fn shrunk(old: Json, new: Json) -> bool
    decreases old,
{
    match old {
        Json::Obj(m) => new matches Json::Obj(m2) && m2@.len() == m@.len()
            && forall|i: int| 0 <= i < m@.len() ==> (#[trigger] m2@[i]).0 == m@[i].0 && shrunk(m@[i].1, m2@[i].1),
        Json::Arr(a) => if a@.len() > 64 && all_numbers(a@) {
            is_bytes_marker(new, a@.len())
        } else {
            new matches Json::Arr(a2) && a2@.len() == a@.len()
                && forall|i: int| 0 <= i < a@.len() ==> shrunk(#[trigger] a@[i], a2@[i])
        },
        _ => new == old,
    }
}

fn bytes_marker(n: usize) -> (r: Json)
    ensures
        is_bytes_marker(r, n as nat),
{
    let x = JsonNumber {
        as_u64: Some(n as u64),
        as_i64: if (n as u64) <= 9223372036854775807u64 { Some(n as i64) } else { None },
        text: crate::text::string_of(&crate::text::decimal_of(n as u64)),
    };
    let mut m: Vec<(String, Json)> = Vec::new();
    m.push((String::from_str("_bytes"), Json::Num(x)));
    Json::Obj(m)
}

fn shrink_ref(v: &Json) -> (r: Json)
    ensures
        shrunk(*v, r),
    decreases v,
{
    match v {
        Json::Obj(m) => {
            let mut out: Vec<(String, Json)> = Vec::new();
            let mut i: usize = 0;
            while i < m.len()
                invariant
                    *v == Json::Obj(*m),
                    i <= m.len(),
                    out@.len() == i,
                    forall|j: int| 0 <= j < i ==> (#[trigger] out@[j]).0 == m@[j].0 && shrunk(m@[j].1, out@[j].1),
                decreases m.len() - i,
            {
                let k = m[i].0.clone();
                proof {
                    vstd::std_specs::vec::axiom_vec_index_decreases(*m, i as int);
                    assert(decreases_to!(*v => (*v)->Obj_0));
                    assert(decreases_to!(m[i as int] => m[i as int].1));
                }
                let y = shrink_ref(&m[i].1);
                out.push((k, y));
                i += 1;
            }
            Json::Obj(out)
        },
        Json::Arr(a) => {
            let mut nums = true;
            let mut q: usize = 0;
            while q < a.len()
                invariant
                    q <= a.len(),
                    nums == (forall|j: int| 0 <= j < q ==> (#[trigger] a@[j]) is Num),
                decreases a.len() - q,
            {
                match &a[q] {
                    Json::Num(_) => {},
                    _ => {
                        nums = false;
                    },
                }
                q += 1;
            }
            if a.len() > 64 && nums {
                return bytes_marker(a.len());
            }
            let mut out: Vec<Json> = Vec::new();
            let mut i: usize = 0;
            while i < a.len()
                invariant
                    *v == Json::Arr(*a),
                    i <= a.len(),
                    out@.len() == i,
                    forall|j: int| 0 <= j < i ==> shrunk(#[trigger] a@[j], out@[j]),
                decreases a.len() - i,
            {
                proof {
                    vstd::std_specs::vec::axiom_vec_index_decreases(*a, i as int);
                    assert(decreases_to!(*v => (*v)->Arr_0));
                }
                let y = shrink_ref(&a[i]);
                out.push(y);
                i += 1;
            }
            Json::Arr(out)
        },
        _ => leaf_copy(v),
    }
}

/// Collapses binary arrays of a log payload to their length (see
/// `shrunk`).
pub fn shrink_binaries(v: &mut Json)
    ensures
        shrunk(*old(v), *final(v)),
{
    let r = shrink_ref(v);
    *v = r;
}

} // verus!
