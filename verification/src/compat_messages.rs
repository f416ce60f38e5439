//! Gateways that need a `content` on every chat message.
use vstd::prelude::*;
use crate::chapter_shots::{member_at, member_set, set_member, str_is};
use crate::json::{obj_find, obj_get, Json};

verus! {

/// A completion model whose requests get an empty text beside tool calls
/// before they are sent.
pub struct EnsureMessageContent<M>(pub M);

/// A message without `content`, or with a null one.
pub open spec fn needs_content(mm: Seq<(String, Json)>) -> bool {
    match obj_get(mm, "content"@) {
        None => true,
        Some(Json::Null) => true,
        _ => false,
    }
}

/// `y` is message `x` with an empty `content` when it lacks one.
pub open spec fn msg_filled(x: Json, y: Json) -> bool {
    match x {
        Json::Obj(mm) => if needs_content(mm@) {
            y matches Json::Obj(mm2) && member_set(mm@, "content"@, mm2@)
                && str_is(mm2@[member_at(mm@, "content"@)].1, Seq::<char>::empty())
        } else {
            y == x
        },
        _ => y == x,
    }
}

pub open spec fn msgs_filled(a: Seq<Json>, b: Seq<Json>) -> bool {
    a.len() == b.len() && forall|i: int| 0 <= i < a.len() ==> msg_filled(#[trigger] a[i], b[i])
}

/// `new` is the request body `old` (a message list, or an object with a
/// `messages` list) with every message given an empty `content` where it
/// has none; any other body is left as it is.
pub open spec fn filled(old: Json, new: Json) -> bool {
    match old {
        Json::Arr(a) => new matches Json::Arr(a2) && msgs_filled(a@, a2@),
        Json::Obj(m) => match obj_get(m@, "messages"@) {
            Some(Json::Arr(ms)) => new matches Json::Obj(m2) && member_set(m@, "messages"@, m2@)
                && (m2@[member_at(m@, "messages"@)].1 matches Json::Arr(ms2) && msgs_filled(ms@, ms2@)),
            _ => new == old,
        },
        _ => new == old,
    }
}

fn fill_msg(x: Json) -> (y: Json)
    ensures
        msg_filled(x, y),
{
    let ghost x0 = x;
    match x {
        Json::Obj(mut mm) => {
            let found = obj_find(&mm, "content");
            let need = match found {
                Some(k) => match &mm[k].1 {
                    Json::Null => true,
                    _ => false,
                },
                None => true,
            };
            if !need {
                return Json::Obj(mm);
            }
            let ghost mm0 = mm@;
            let pv = Json::Str(String::new());
            let ghost pvg = pv;
            match found {
                Some(k) => {
                    let (key, _) = mm.remove(k);
                    mm.insert(k, (key, pv));
                },
                None => {
                    mm.push((String::from_str("content"), pv));
                },
            }
            assert(set_member(mm0, "content"@, mm@, pvg));
            assert(str_is(pvg, Seq::<char>::empty()));
            assert(needs_content(mm0));
            let y = Json::Obj(mm);
            assert(x0 matches Json::Obj(xm) && xm@ == mm0);
            assert(msg_filled(x0, y));
            y
        },
        other => other,
    }
}

fn fill_msgs(a: Vec<Json>) -> (r: Vec<Json>)
    ensures
        msgs_filled(a@, r@),
{
    let ghost a0 = a@;
    let n = a.len();
    let mut rest = a;
    let mut out: Vec<Json> = Vec::new();
    let mut i: usize = 0;
    while rest.len() > 0
        invariant
            i + rest@.len() == a0.len(),
            a0.len() == n,
            rest@ == a0.subrange(i as int, a0.len() as int),
            out@.len() == i,
            forall|j: int| 0 <= j < i ==> msg_filled(#[trigger] a0[j], out@[j]),
        decreases rest@.len(),
    {
        let x = rest.remove(0);
        assert(x == a0[i as int]);
        out.push(fill_msg(x));
        i += 1;
    }
    out
}

/// Gives every message of a request body an empty `content` where it has
/// none (see `filled`).
pub fn fill_missing_message_content(body: &mut Json)
    ensures
        filled(*old(body), *final(body)),
{
    let mut cur = Json::Null;
    std::mem::swap(&mut cur, body);
    let ghost c0 = cur;
    match cur {
        Json::Arr(a) => {
            let ghost av = a@;
            let a2 = fill_msgs(a);
            assert(msgs_filled(av, a2@));
            *body = Json::Arr(a2);
        },
        Json::Obj(mut m) => {
            let ghost m0 = m@;
            let is_list = match obj_find(&m, "messages") {
                Some(k) => match &m[k].1 {
                    Json::Arr(_) => Some(k),
                    _ => None,
                },
                None => None,
            };
            match is_list {
                Some(k) => {
                    let (key, val) = m.remove(k);
                    match val {
                        Json::Arr(ms) => {
                            let ms2 = fill_msgs(ms);
                            let ghost msv = ms2;
                            m.insert(k, (key, Json::Arr(ms2)));
                            assert(set_member(m0, "messages"@, m@, Json::Arr(msv)));
                            *body = Json::Obj(m);
                        },
                        other => {
                            m.insert(k, (key, other));
                            *body = Json::Obj(m);
                        },
                    }
                },
                None => {
                    *body = Json::Obj(m);
                },
            }
        },
        other => {
            *body = other;
        },
    }
}

} // verus!
