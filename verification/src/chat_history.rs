//! The tool calls of a chat history: which calls still wait for their
//! result, and closing them before the history goes back to the model (a
//! model refuses a history with a tool call left unanswered).
use vstd::prelude::*;

verus! {

/// Who wrote a history message.
#[derive(Debug, Clone, Copy, PartialEq, Eq, Structural)]
pub enum HistRole {
    User,
    Assistant,
    System,
}

/// One part of a history message.
pub enum HistPart {
    /// A tool call the assistant made (`id` may be empty).
    ToolCall { id: String, name: String },
    /// The result of the call keyed `call`, sent back as a user message.
    ToolResult { call: String, content: String },
    /// Plain text.
    Text { text: String },
}

/// A history message.
pub struct HistMsg {
    pub role: HistRole,
    pub parts: Vec<HistPart>,
}

/// How a call is matched with its result: its id, or its tool's name when
/// it has no id.
pub open spec fn call_key(id: Seq<char>, name: Seq<char>) -> Seq<char> {
    if id.len() == 0 { name } else { id }
}

/// The last pending call with key `k`.
pub open spec fn last_with_key(p: Seq<(Seq<char>, Seq<char>)>, k: Seq<char>) -> Option<int>
    decreases p.len(),
{
    if p.len() == 0 {
        None
    } else if p.last().0 == k {
        Some(p.len() - 1)
    } else {
        last_with_key(p.drop_last(), k)
    }
}

/// The pending calls after one part: an assistant's call is added (key and
/// tool name); a user's result closes the last pending call with its key.
pub open spec fn part_step(p: Seq<(Seq<char>, Seq<char>)>, role: HistRole, part: HistPart) -> Seq<(Seq<char>, Seq<char>)> {
    match part {
        HistPart::ToolCall { id, name } => if role == HistRole::Assistant { p.push((call_key(id@, name@), name@)) } else { p },
        HistPart::ToolResult { call, content } => if role == HistRole::User {
            match last_with_key(p, call@) {
                Some(i) => p.remove(i),
                None => p,
            }
        } else {
            p
        },
        _ => p,
    }
}

pub open spec fn parts_step(p: Seq<(Seq<char>, Seq<char>)>, role: HistRole, parts: Seq<HistPart>) -> Seq<(Seq<char>, Seq<char>)>
    decreases parts.len(),
{
    if parts.len() == 0 { p } else { part_step(parts_step(p, role, parts.drop_last()), role, parts.last()) }
}

/// The tool calls of a history still waiting for their result, in the
/// order they were made.
pub open spec fn pending_calls(msgs: Seq<HistMsg>) -> Seq<(Seq<char>, Seq<char>)>
    decreases msgs.len(),
{
    if msgs.len() == 0 {
        Seq::empty()
    } else {
        parts_step(pending_calls(msgs.drop_last()), msgs.last().role, msgs.last().parts@)
    }
}

pub open spec fn pair_views(v: Seq<(String, String)>) -> Seq<(Seq<char>, Seq<char>)> {
    v.map_values(|p: (String, String)| (p.0@, p.1@))
}

fn last_with_key_exec(p: &Vec<(String, String)>, k: &String) -> (r: Option<usize>)
    ensures
        match r {
            Some(i) => i < p@.len() && last_with_key(pair_views(p@), k@) == Some(i as int),
            None => last_with_key(pair_views(p@), k@) is None,
        },
{
    let ghost v = pair_views(p@);
    let mut i: usize = p.len();
    assert(v.subrange(0, i as int) =~= v);
    while i > 0
        invariant
            i <= p@.len(),
            v == pair_views(p@),
            last_with_key(v, k@) == last_with_key(v.subrange(0, i as int), k@),
        decreases i,
    {
        assert(v.subrange(0, i as int).drop_last() =~= v.subrange(0, i - 1));
        if p[i - 1].0 == *k {
            return Some(i - 1);
        }
        i -= 1;
    }
    None
}

fn part_step_exec(p: &mut Vec<(String, String)>, role: HistRole, part: &HistPart)
    ensures
        pair_views(final(p)@) == part_step(pair_views(old(p)@), role, *part),
{
    let ghost v = pair_views(p@);
    match part {
        HistPart::ToolCall { id, name } => {
            if role == HistRole::Assistant {
                let key = if id.unicode_len() == 0 { String::from_str(name.as_str()) } else { String::from_str(id.as_str()) };
                p.push((key, String::from_str(name.as_str())));
                assert(pair_views(p@) =~= v.push((call_key(id@, name@), name@)));
            }
        },
        HistPart::ToolResult { call, content } => {
            if role == HistRole::User {
                match last_with_key_exec(p, call) {
                    Some(i) => {
                        p.remove(i);
                        assert(pair_views(p@) =~= v.remove(i as int));
                    },
                    None => {},
                }
            }
        },
        HistPart::Text { text } => {},
    }
}

/// The tool calls of `msgs` that still wait for their result (see
/// `pending_calls`): each call's key and tool name.
pub fn dangling_tool_calls(msgs: &[HistMsg]) -> (r: Vec<(String, String)>)
    ensures
        pair_views(r@) == pending_calls(msgs@),
{
    let mut pending: Vec<(String, String)> = Vec::new();
    let mut i: usize = 0;
    while i < msgs.len()
        invariant
            i <= msgs@.len(),
            pair_views(pending@) =~= pending_calls(msgs@.subrange(0, i as int)),
        decreases msgs@.len() - i,
    {
        assert(msgs@.subrange(0, i + 1).drop_last() =~= msgs@.subrange(0, i as int));
        let m = &msgs[i];
        let ghost p0 = pair_views(pending@);
        let mut j: usize = 0;
        while j < m.parts.len()
            invariant
                j <= m.parts@.len(),
                pair_views(pending@) == parts_step(p0, m.role, m.parts@.subrange(0, j as int)),
            decreases m.parts@.len() - j,
        {
            assert(m.parts@.subrange(0, j + 1).drop_last() =~= m.parts@.subrange(0, j as int));
            part_step_exec(&mut pending, m.role, &m.parts[j]);
            j += 1;
        }
        assert(m.parts@.subrange(0, m.parts@.len() as int) =~= m.parts@);
        i += 1;
    }
    assert(msgs@.subrange(0, msgs@.len() as int) =~= msgs@);
    pending
}

/// The text of the result that closes a call the user stopped.
pub open spec fn cancelled_text() -> Seq<char> {
    "{\"error\":\"cancelled\",\"message\":\"user stopped\"}"@
}

/// The user message that answers call `key` as cancelled.
pub open spec fn is_cancel_msg(m: HistMsg, key: Seq<char>) -> bool {
    &&& m.role == HistRole::User
    &&& m.parts@.len() == 1
    &&& m.parts@[0] matches HistPart::ToolResult { call, content } && call@ == key && content@ == cancelled_text()
}

/// The answers `close_dangling_tools` adds: one cancelled result per
/// pending call, in order.
pub open spec fn cancel_msgs(added: Seq<HistMsg>, pending: Seq<(Seq<char>, Seq<char>)>) -> bool {
    &&& added.len() == pending.len()
    &&& forall|j: int| 0 <= j < pending.len() ==> #[trigger] is_cancel_msg(added[j], pending[j].0)
}

fn cancelled_tool_msg(key: &String) -> (m: HistMsg)
    ensures
        is_cancel_msg(m, key@),
{
    let mut parts: Vec<HistPart> = Vec::new();
    parts.push(HistPart::ToolResult {
        call: String::from_str(key.as_str()),
        content: String::from_str("{\"error\":\"cancelled\",\"message\":\"user stopped\"}"),
    });
    HistMsg { role: HistRole::User, parts }
}

/// Answers every pending call of the history as cancelled, appending one
/// user message per call; afterwards no call is pending (see
/// `closing_leaves_no_pending_call`).
pub fn close_dangling_tools(msgs: &mut Vec<HistMsg>)
    ensures
        final(msgs)@.len() >= old(msgs)@.len(),
        final(msgs)@.subrange(0, old(msgs)@.len() as int) == old(msgs)@,
        cancel_msgs(final(msgs)@.skip(old(msgs)@.len() as int), pending_calls(old(msgs)@)),
        pending_calls(final(msgs)@).len() == 0,
{
    let ghost m0 = msgs@;
    let d = dangling_tool_calls(msgs.as_slice());
    let ghost dv = pair_views(d@);
    let mut i: usize = 0;
    while i < d.len()
        invariant
            i <= d@.len(),
            dv == pair_views(d@),
            dv == pending_calls(m0),
            msgs@.len() == m0.len() + i,
            msgs@.subrange(0, m0.len() as int) == m0,
            cancel_msgs(msgs@.skip(m0.len() as int), dv.take(i as int)),
        decreases d@.len() - i,
    {
        let m = cancelled_tool_msg(&d[i].0);
        let ghost before = msgs@;
        msgs.push(m);
        assert(msgs@.subrange(0, m0.len() as int) =~= before.subrange(0, m0.len() as int));
        assert(msgs@.skip(m0.len() as int) =~= before.skip(m0.len() as int).push(m));
        assert forall|j: int| 0 <= j < i + 1 implies #[trigger] is_cancel_msg(msgs@.skip(m0.len() as int)[j], dv.take(i + 1)[j].0) by {
            if j < i {
                assert(is_cancel_msg(before.skip(m0.len() as int)[j], dv.take(i as int)[j].0));
            }
        }
        i += 1;
    }
    assert(dv.take(dv.len() as int) =~= dv);
    assert(msgs@ =~= m0 + msgs@.skip(m0.len() as int));
    proof {
        closing_leaves_no_pending_call(m0, msgs@.skip(m0.len() as int));
    }
}

pub open spec fn keys(p: Seq<(Seq<char>, Seq<char>)>) -> Seq<Seq<char>> {
    p.map_values(|x: (Seq<char>, Seq<char>)| x.0)
}

proof fn lemma_last_with_key(p: Seq<(Seq<char>, Seq<char>)>, k: Seq<char>)
    ensures
        match last_with_key(p, k) {
            Some(i) => 0 <= i < p.len() && p[i].0 == k,
            None => !keys(p).contains(k),
        },
    decreases p.len(),
{
    if p.len() > 0 && p.last().0 != k {
        lemma_last_with_key(p.drop_last(), k);
        if keys(p).contains(k) {
            let j = choose|j: int| 0 <= j < keys(p).len() && keys(p)[j] == k;
            assert(keys(p.drop_last())[j] == k);
        }
    }
}

proof fn lemma_closed_prefix(msgs: Seq<HistMsg>, added: Seq<HistMsg>, j: int)
    requires
        cancel_msgs(added, pending_calls(msgs)),
        0 <= j <= added.len(),
    ensures
        keys(pending_calls(msgs + added.take(j))).to_multiset() == keys(pending_calls(msgs)).skip(j).to_multiset(),
    decreases j,
{
    let d = pending_calls(msgs);
    if j == 0 {
        assert(msgs + added.take(0) =~= msgs);
        assert(keys(d).skip(0) =~= keys(d));
    } else {
        let jj = j - 1;
        lemma_closed_prefix(msgs, added, jj);
        let p = pending_calls(msgs + added.take(jj));
        let k = d[jj].0;
        assert((msgs + added.take(j)).drop_last() =~= msgs + added.take(jj));
        assert((msgs + added.take(j)).last() == added[jj]);
        assert(is_cancel_msg(added[jj], k));
        let m = added[jj];
        assert(m.parts@.drop_last() =~= Seq::<HistPart>::empty());
        assert(keys(d).skip(jj) =~= seq![k] + keys(d).skip(j));
        vstd::seq_lib::lemma_seq_union_to_multiset_commutative(seq![k], keys(d).skip(j));
        vstd::seq_lib::to_multiset_build(keys(d).skip(j), k);
        assert(keys(d).skip(j) + seq![k] =~= keys(d).skip(j).push(k));
        assert((seq![k] + keys(d).skip(j)).to_multiset() == (keys(d).skip(j) + seq![k]).to_multiset());
        assert(keys(d).skip(jj).to_multiset() == keys(d).skip(j).push(k).to_multiset());
        assert(keys(d).skip(jj).to_multiset() == keys(d).skip(j).to_multiset().insert(k));
        assert(keys(p).to_multiset().count(k) > 0);
        if !keys(p).contains(k) {
            vstd::seq_lib::to_multiset_contains(keys(p), k);
        }
        lemma_last_with_key(p, k);
        let i = last_with_key(p, k)->Some_0;
        assert(parts_step(p, HistRole::User, m.parts@.drop_last()) == p);
        assert(m.parts@.last() == m.parts@[0]);
        assert(pending_calls(msgs + added.take(j)) == parts_step(p, m.role, m.parts@));
        assert(pending_calls(msgs + added.take(j)) == p.remove(i));
        assert(keys(p.remove(i)) =~= keys(p).remove(i));
        vstd::seq_lib::to_multiset_remove(keys(p), i);
        assert(keys(d).skip(j).to_multiset() =~= keys(d).skip(j).to_multiset().insert(k).remove(k));
    }
}

/// Every pending call answered in order leaves no call pending.
pub proof fn closing_leaves_no_pending_call(msgs: Seq<HistMsg>, added: Seq<HistMsg>)
    requires
        cancel_msgs(added, pending_calls(msgs)),
    ensures
        pending_calls(msgs + added).len() == 0,
{
    let d = pending_calls(msgs);
    lemma_closed_prefix(msgs, added, added.len() as int);
    assert(added.take(added.len() as int) =~= added);
    assert(keys(d).skip(d.len() as int) =~= Seq::<Seq<char>>::empty());
    let pf = pending_calls(msgs + added);
    vstd::seq_lib::to_multiset_len(keys(pf));
    vstd::seq_lib::to_multiset_len(keys(d).skip(d.len() as int));
}

} // verus!
