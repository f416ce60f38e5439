//! Storyboard shots of a chapter and the text prompts handed to ComfyUI:
//! the prompt of a shot (written, or built from its action, camera and
//! dialogue), the joined prompt of a chained workflow, and shot numbering.
use vstd::prelude::*;
use crate::catalog::{strip_slash, strip_slash_spec};
use crate::json::{as_str_spec, as_u64_spec, get_spec, json_get, json_parse, parse_json, Json};
use crate::text::{
    append, append_decimal, append_str, chars_of, decimal, ends_with, join, join_exec, slice,
    starts_with, string_of, trim, trimmed, trim_str, vviews,
};

verus! {

/// One storyboard shot.
#[derive(Debug, Clone)]
pub struct ChapterShot {
    pub id: String,
    pub order: u32,
    pub action: String,
    pub camera: String,
    pub dialogue: String,
    pub duration_sec: u8,
    pub comfy_prompt: String,
}

/// The stored shots of one chapter.
#[derive(Debug, Clone)]
pub struct ChapterShotsFile {
    pub shots: Vec<ChapterShot>,
}

/// What a submission to ComfyUI queued.
#[derive(Debug, Clone)]
pub struct ComfySubmitResult {
    pub queued: usize,
    pub prompt_ids: Vec<String>,
    pub mode: String,
    pub url: String,
}

/// One image that a finished ComfyUI prompt produced.
#[derive(Debug, Clone)]
pub struct ComfyImageRef {
    pub filename: String,
    pub subfolder: String,
    pub typ: String,
}

/// The prompt built from a shot's own fields: its action, then a `Camera:`
/// line and a `Dialogue:` line for whichever of them is not blank.
pub open spec fn fallback_spec(action: Seq<char>, camera: Seq<char>, dialogue: Seq<char>) -> Seq<char> {
    let c = trim(camera);
    let d = trim(dialogue);
    let l1 = seq![trim(action)];
    let l2 = if c.len() > 0 { l1.push("Camera: "@ + c) } else { l1 };
    let l3 = if d.len() > 0 { l2.push("Dialogue: "@ + d) } else { l2 };
    join(l3, "\n"@)
}

/// The prompt of a shot: its written prompt (trimmed) unless that is blank.
pub open spec fn shot_prompt_spec(s: ChapterShot) -> Seq<char> {
    if trim(s.comfy_prompt@).len() == 0 {
        fallback_spec(s.action@, s.camera@, s.dialogue@)
    } else {
        trim(s.comfy_prompt@)
    }
}

/// One block of a chained prompt: the shot's duration, then its prompt.
pub open spec fn shot_block_spec(s: ChapterShot) -> Seq<char> {
    "[dur="@ + decimal(s.duration_sec as nat) + "]\n"@ + shot_prompt_spec(s)
}

pub open spec fn blocks_spec(shots: Seq<ChapterShot>) -> Seq<Seq<char>> {
    shots.map_values(|s: ChapterShot| shot_block_spec(s))
}

/// A prompt for a shot that has none written.
pub fn fallback_prompt(s: &ChapterShot) -> (r: String)
    ensures
        r@ == fallback_spec(s.action@, s.camera@, s.dialogue@),
{
    let a = trimmed(&chars_of(s.action.as_str()));
    let c = trimmed(&chars_of(s.camera.as_str()));
    let d = trimmed(&chars_of(s.dialogue.as_str()));
    let mut lines: Vec<Vec<char>> = Vec::new();
    lines.push(a);
    let ghost l1 = vviews(lines@);
    if c.len() > 0 {
        let mut l = chars_of("Camera: ");
        append(&mut l, &c);
        lines.push(l);
    }
    let ghost l2 = vviews(lines@);
    assert(l1 =~= seq![trim(s.action@)]);
    assert(l2 =~= (if trim(s.camera@).len() > 0 { l1.push("Camera: "@ + trim(s.camera@)) } else { l1 }));
    if d.len() > 0 {
        let mut l = chars_of("Dialogue: ");
        append(&mut l, &d);
        lines.push(l);
    }
    assert(vviews(lines@) =~= (if trim(s.dialogue@).len() > 0 { l2.push("Dialogue: "@ + trim(s.dialogue@)) } else { l2 }));
    string_of(&join_exec(&lines, "\n"))
}

fn shot_prompt(s: &ChapterShot) -> (r: Vec<char>)
    ensures
        r@ == shot_prompt_spec(*s),
{
    let p = trimmed(&chars_of(s.comfy_prompt.as_str()));
    if p.len() == 0 {
        chars_of(fallback_prompt(s).as_str())
    } else {
        p
    }
}

/// The prompt of a chained workflow: one `[dur=N]` block per shot, in
/// order, separated by `---` lines.
pub fn join_shot_prompts(shots: &[ChapterShot]) -> (r: String)
    ensures
        r@ == join(blocks_spec(shots@), "\n---\n"@),
{
    let mut parts: Vec<Vec<char>> = Vec::new();
    let mut i: usize = 0;
    while i < shots.len()
        invariant
            i <= shots.len(),
            vviews(parts@) == blocks_spec(shots@).subrange(0, i as int),
        decreases shots.len() - i,
    {
        let mut b = chars_of("[dur=");
        append_decimal(&mut b, shots[i].duration_sec as u64);
        append_str(&mut b, "]\n");
        let body = shot_prompt(&shots[i]);
        append(&mut b, &body);
        assert(b@ =~= shot_block_spec(shots@[i as int]));
        let ghost before = parts@;
        parts.push(b);
        assert(parts@ =~= before.push(b));
        assert(vviews(parts@) =~= vviews(before).push(b@));
        i += 1;
        assert(vviews(parts@) =~= blocks_spec(shots@).subrange(0, i as int));
    }
    assert(blocks_spec(shots@).subrange(0, shots.len() as int) =~= blocks_spec(shots@));
    string_of(&join_exec(&parts, "\n---\n"))
}

/// The ComfyUI address as the requests use it: trimmed, without trailing
/// slashes.
pub fn normalize_comfy_url(raw: &str) -> (r: String)
    ensures
        r@ == strip_slash_spec(raw@),
{
    string_of(&strip_slash(raw))
}

/// Duration of a saved shot: 8 s when unset, then kept within 5..=15 s.
pub open spec fn saved_duration(d: u8) -> u8 {
    let d = if d == 0 { 8u8 } else { d };
    if d < 5 { 5u8 } else if d > 15 { 15u8 } else { d }
}

/// Renumbers the shots 1, 2, … in their order and settles each duration
/// as it is saved; ids and texts are kept.
pub fn number_shots(shots: &mut Vec<ChapterShot>)
    requires
        old(shots).len() < u32::MAX,
    ensures
        final(shots).len() == old(shots).len(),
        forall|i: int| 0 <= i < final(shots).len() ==> {
            let n = #[trigger] final(shots)@[i];
            let o = old(shots)@[i];
            &&& n.order == i + 1
            &&& n.duration_sec == saved_duration(o.duration_sec)
            &&& n.id == o.id
            &&& n.action == o.action
            &&& n.camera == o.camera
            &&& n.dialogue == o.dialogue
            &&& n.comfy_prompt == o.comfy_prompt
        },
{
    let ghost orig = shots@;
    let mut i: usize = 0;
    while i < shots.len()
        invariant
            i <= shots.len() == orig.len() < u32::MAX,
            forall|k: int| i <= k < shots.len() ==> shots@[k] == orig[k],
            forall|k: int| 0 <= k < i ==> {
                let n = #[trigger] shots@[k];
                let o = orig[k];
                &&& n.order == k + 1
                &&& n.duration_sec == saved_duration(o.duration_sec)
                &&& n.id == o.id
                &&& n.action == o.action
                &&& n.camera == o.camera
                &&& n.dialogue == o.dialogue
                &&& n.comfy_prompt == o.comfy_prompt
            },
        decreases shots.len() - i,
    {
        let mut d = shots[i].duration_sec;
        if d == 0 {
            d = 8;
        }
        if d < 5 {
            d = 5;
        } else if d > 15 {
            d = 15;
        }
        let mut s = shots[i].clone_shot();
        s.order = (i as u32) + 1;
        s.duration_sec = d;
        shots.set(i, s);
        i += 1;
    }
}

/// `n` is shot `o` with a fresh id when `o`'s id is blank, otherwise the
/// same shot.
pub open spec fn id_filled(o: ChapterShot, n: ChapterShot) -> bool {
    &&& n.order == o.order
    &&& n.duration_sec == o.duration_sec
    &&& n.action == o.action
    &&& n.camera == o.camera
    &&& n.dialogue == o.dialogue
    &&& n.comfy_prompt == o.comfy_prompt
    &&& if crate::text::trim(o.id@).len() == 0 {
        n.id@.len() == 36 && forall|k: int| 0 <= k < n.id@.len() ==> crate::ids::is_uuid_char(#[trigger] n.id@[k])
    } else {
        n.id == o.id
    }
}

/// Gives every shot with a blank id a fresh UUID.
pub fn fill_shot_ids(shots: &mut Vec<ChapterShot>)
    ensures
        final(shots).len() == old(shots).len(),
        forall|i: int| 0 <= i < final(shots).len() ==> id_filled(old(shots)@[i], #[trigger] final(shots)@[i]),
{
    let ghost orig = shots@;
    let mut i: usize = 0;
    while i < shots.len()
        invariant
            i <= shots.len() == orig.len(),
            forall|k: int| i <= k < shots.len() ==> shots@[k] == orig[k],
            forall|k: int| 0 <= k < i ==> id_filled(orig[k], #[trigger] shots@[k]),
        decreases shots.len() - i,
    {
        if crate::text::trim_str(shots[i].id.as_str()).len() == 0 {
            let mut s = shots[i].clone_shot();
            s.id = crate::ids::new_uuid();
            shots.set(i, s);
        } else {
            assert(id_filled(orig[i as int], shots@[i as int]));
        }
        i += 1;
    }
}

/// Shots as they are saved: numbered, durations settled (see
/// `number_shots`), blank ids filled (see `fill_shot_ids`).
pub fn settle_shots(shots: &mut Vec<ChapterShot>)
    requires
        old(shots).len() < u32::MAX,
    ensures
        final(shots).len() == old(shots).len(),
        forall|i: int| 0 <= i < final(shots).len() ==> {
            let n = #[trigger] final(shots)@[i];
            let o = old(shots)@[i];
            &&& n.order == i + 1
            &&& n.duration_sec == saved_duration(o.duration_sec)
            &&& n.action == o.action
            &&& n.camera == o.camera
            &&& n.dialogue == o.dialogue
            &&& n.comfy_prompt == o.comfy_prompt
            &&& if crate::text::trim(o.id@).len() == 0 {
                n.id@.len() == 36 && forall|k: int| 0 <= k < n.id@.len() ==> crate::ids::is_uuid_char(#[trigger] n.id@[k])
            } else {
                n.id == o.id
            }
        },
{
    let ghost orig = shots@;
    number_shots(shots);
    let ghost mid = shots@;
    fill_shot_ids(shots);
    assert forall|i: int| 0 <= i < shots@.len() implies {
        let n = #[trigger] shots@[i];
        let o = orig[i];
        &&& n.order == i + 1
        &&& n.duration_sec == saved_duration(o.duration_sec)
        &&& n.action == o.action
        &&& n.camera == o.camera
        &&& n.dialogue == o.dialogue
        &&& n.comfy_prompt == o.comfy_prompt
        &&& if crate::text::trim(o.id@).len() == 0 {
            n.id@.len() == 36 && forall|k: int| 0 <= k < n.id@.len() ==> crate::ids::is_uuid_char(#[trigger] n.id@[k])
        } else {
            n.id == o.id
        }
    } by {
        assert(id_filled(mid[i], shots@[i]));
    }
}

impl ChapterShot {
    /// A field-by-field copy.
    pub fn clone_shot(&self) -> (r: Self)
        ensures
            r == *self,
    {
        ChapterShot {
            id: self.id.clone(),
            order: self.order,
            action: self.action.clone(),
            camera: self.camera.clone(),
            dialogue: self.dialogue.clone(),
            duration_sec: self.duration_sec,
            comfy_prompt: self.comfy_prompt.clone(),
        }
    }
}

/// `p` removed from the front of `s` as often as it is there.
pub open spec fn strip_prefix_rep(s: Seq<char>, p: Seq<char>) -> Seq<char>
    decreases s.len(),
{
    if p.len() > 0 && starts_with(s, p) { strip_prefix_rep(s.subrange(p.len() as int, s.len() as int), p) } else { s }
}

/// `p` removed from the end of `s` as often as it is there.
pub open spec fn strip_suffix_rep(s: Seq<char>, p: Seq<char>) -> Seq<char>
    decreases s.len(),
{
    if p.len() > 0 && ends_with(s, p) { strip_suffix_rep(s.subrange(0, s.len() - p.len()), p) } else { s }
}

/// The reply without its code-fence marks at either end.
pub open spec fn unfence_spec(text: Seq<char>) -> Seq<char> {
    trim(strip_suffix_rep(strip_prefix_rep(strip_prefix_rep(trim(text), "```json"@), "```"@), "```"@))
}

/// Where the `}` closing the `{` before `j` stands (braces counted, strings
/// not considered).
pub open spec fn brace_end(s: Seq<char>, j: int, depth: int) -> Option<int>
    decreases s.len() - j,
{
    if j < 0 || j >= s.len() {
        None
    } else if s[j] == '{' {
        brace_end(s, j + 1, depth + 1)
    } else if s[j] == '}' {
        if depth - 1 == 0 { Some(j) } else { brace_end(s, j + 1, depth - 1) }
    } else {
        brace_end(s, j + 1, depth)
    }
}

/// The JSON values of the balanced `{…}` pieces from `i` on.
pub open spec fn scan_values(s: Seq<char>, i: int) -> Seq<Json>
    decreases s.len() - i,
{
    if i < 0 || i >= s.len() {
        Seq::empty()
    } else if s[i] != '{' {
        scan_values(s, i + 1)
    } else {
        match brace_end(s, i, 0) {
            Some(e) => if i <= e < s.len() {
                (match json_parse(s.subrange(i, e + 1)) { Some(v) => seq![v], None => Seq::empty() })
                    + scan_values(s, e + 1)
            } else {
                scan_values(s, i + 1)
            },
            None => scan_values(s, i + 1),
        }
    }
}

/// The JSON in a storyboard reply: the whole (unfenced) reply when it
/// parses, else each balanced `{…}` in it that does.
pub open spec fn shot_values_spec(text: Seq<char>) -> Seq<Json> {
    let s = unfence_spec(text);
    match json_parse(s) {
        Some(v) => seq![v],
        None => scan_values(s, 0),
    }
}

/// The `shots` list of the first value that has one.
pub open spec fn first_shots(vs: Seq<Json>) -> Option<Seq<Json>>
    decreases vs.len(),
{
    if vs.len() == 0 {
        None
    } else {
        match get_spec(vs[0], "shots"@) {
            Some(Json::Arr(a)) => Some(a@),
            _ => first_shots(vs.drop_first()),
        }
    }
}

proof fn lemma_brace_end(s: Seq<char>, j: int, depth: int)
    ensures
        brace_end(s, j, depth) matches Some(e) ==> j <= e < s.len(),
    decreases s.len() - j,
{
    if 0 <= j < s.len() {
        if s[j] == '{' {
            lemma_brace_end(s, j + 1, depth + 1);
        } else if s[j] == '}' {
            lemma_brace_end(s, j + 1, depth - 1);
        } else {
            lemma_brace_end(s, j + 1, depth);
        }
    }
}

fn strip_prefix_rep_exec(s: &Vec<char>, p: &str) -> (r: Vec<char>)
    requires
        p@.len() > 0,
    ensures
        r@ == strip_prefix_rep(s@, p@),
{
    let mut a: usize = 0;
    let pv = chars_of(p);
    assert(s@.subrange(0, s.len() as int) =~= s@);
    while pv.len() <= s.len() - a && crate::text::matches_at(s, &pv, a)
        invariant
            a <= s.len(),
            pv@ == p@,
            pv.len() > 0,
            strip_prefix_rep(s@, p@) == strip_prefix_rep(s@.subrange(a as int, s.len() as int), p@),
        decreases s.len() - a,
    {
        let ghost t = s@.subrange(a as int, s.len() as int);
        assert(starts_with(t, p@)) by {
            assert(t.subrange(0, p@.len() as int) =~= s@.subrange(a as int, a + p@.len()));
        }
        assert(t.subrange(p@.len() as int, t.len() as int) =~= s@.subrange(a + pv.len(), s.len() as int));
        a = a + pv.len();
    }
    proof {
        let t = s@.subrange(a as int, s.len() as int);
        if starts_with(t, p@) {
            assert(t.subrange(0, p@.len() as int) =~= s@.subrange(a as int, a + p@.len()));
        }
    }
    slice(s, a, s.len())
}

fn strip_suffix_rep_exec(s: &Vec<char>, p: &str) -> (r: Vec<char>)
    requires
        p@.len() > 0,
    ensures
        r@ == strip_suffix_rep(s@, p@),
{
    let mut e: usize = s.len();
    let pv = chars_of(p);
    assert(s@.subrange(0, s.len() as int) =~= s@);
    while e >= pv.len() && crate::text::matches_at(s, &pv, e - pv.len())
        invariant
            e <= s.len(),
            pv@ == p@,
            pv.len() > 0,
            strip_suffix_rep(s@, p@) == strip_suffix_rep(s@.subrange(0, e as int), p@),
        decreases e,
    {
        let ghost t = s@.subrange(0, e as int);
        assert(ends_with(t, p@)) by {
            assert(t.subrange(t.len() - p@.len(), t.len() as int) =~= s@.subrange(e - pv.len(), e as int));
        }
        assert(t.subrange(0, t.len() - p@.len()) =~= s@.subrange(0, e - pv.len()));
        e = e - pv.len();
    }
    proof {
        let t = s@.subrange(0, e as int);
        if ends_with(t, p@) {
            assert(t.subrange(t.len() - p@.len(), t.len() as int) =~= s@.subrange(e - pv.len(), e as int));
        }
    }
    slice(s, 0, e)
}

/// See `shot_values_spec`.
pub fn extract_objects(text: &str) -> (r: Vec<Json>)
    ensures
        r@ == shot_values_spec(text@),
{
    proof {
        reveal_strlit("```json");
        reveal_strlit("```");
    }
    let t = trim_str(text);
    let a = strip_prefix_rep_exec(&t, "```json");
    let b = strip_prefix_rep_exec(&a, "```");
    let c = strip_suffix_rep_exec(&b, "```");
    let s = trimmed(&c);
    let ss = string_of(&s);
    let mut out: Vec<Json> = Vec::new();
    match parse_json(ss.as_str()) {
        Some(v) => {
            out.push(v);
            return out;
        },
        None => {},
    }
    let mut i: usize = 0;
    while i < s.len()
        invariant
            i <= s.len(),
            out@ + scan_values(s@, i as int) == scan_values(s@, 0),
        decreases s.len() - i,
    {
        let ghost before = out@;
        let ghost i0 = i as int;
        if s[i] != '{' {
            i += 1;
        } else {
            let mut depth: i128 = 0;
            let mut j = i;
            let mut end: Option<usize> = None;
            while j < s.len() && end.is_none()
                invariant
                    i <= j <= s.len(),
                    -(j - i) <= depth <= j - i,
                    end.is_none() ==> brace_end(s@, i as int, 0) == brace_end(s@, j as int, depth as int),
                    end matches Some(e) ==> brace_end(s@, i as int, 0) == Some(e as int),
                decreases s.len() - j, if end.is_none() { 1int } else { 0int },
            {
                if s[j] == '{' {
                    depth = depth + 1;
                    j += 1;
                } else if s[j] == '}' {
                    depth = depth - 1;
                    if depth == 0 {
                        end = Some(j);
                    } else {
                        j += 1;
                    }
                } else {
                    j += 1;
                }
            }
            proof {
                lemma_brace_end(s@, i as int, 0);
            }
            match end {
                Some(e) => {
                    let piece = string_of(&slice(&s, i, e + 1));
                    match parse_json(piece.as_str()) {
                        Some(v) => {
                            out.push(v);
                        },
                        None => {},
                    }
                    i = e + 1;
                },
                None => {
                    i += 1;
                },
            }
        }
        assert(out@ + scan_values(s@, i as int) =~= before + scan_values(s@, i0));
    }
    out
}

/// The `shots` list of the first value that has one.
pub fn first_shots_array(vs: &Vec<Json>) -> (r: Option<&Vec<Json>>)
    ensures
        match r {
            Some(a) => first_shots(vs@) == Some(a@),
            None => first_shots(vs@) is None,
        },
{
    let mut k: usize = 0;
    assert(vs@.subrange(0, vs.len() as int) =~= vs@);
    while k < vs.len()
        invariant
            k <= vs.len(),
            first_shots(vs@) == first_shots(vs@.subrange(k as int, vs.len() as int)),
        decreases vs.len() - k,
    {
        let ghost tail = vs@.subrange(k as int, vs.len() as int);
        assert(tail.drop_first() =~= vs@.subrange(k + 1, vs.len() as int));
        assert(tail[0] == vs@[k as int]);
        match json_get(&vs[k], "shots") {
            Some(Json::Arr(a)) => {
                return Some(a);
            },
            _ => {},
        }
        k += 1;
    }
    None
}

/// `x` truncated to `u32` (as `x as u32` does).
pub open spec fn trunc32(x: u64) -> u32 {
    (x % 4294967296) as u32
}

/// The shot number an item of the reply names (0 when it names none).
pub open spec fn item_order(v: Json) -> u32 {
    match get_spec(v, "order"@) {
        Some(x) => match as_u64_spec(x) { Some(n) => trunc32(n), None => 0 },
        None => 0,
    }
}

/// The trimmed prompt an item of the reply carries (`comfy_prompt`, or
/// `prompt` when that key is absent).
pub open spec fn item_prompt(v: Json) -> Seq<char> {
    let p = match get_spec(v, "comfy_prompt"@) {
        Some(x) => as_str_spec(x),
        None => match get_spec(v, "prompt"@) { Some(x) => as_str_spec(x), None => None },
    };
    match p { Some(t) => trim(t), None => Seq::empty() }
}

/// Index of the first shot numbered `o`.
pub open spec fn first_with_order(orders: Seq<u32>, o: u32) -> Option<int>
    decreases orders.len(),
{
    if orders.len() == 0 {
        None
    } else if orders[0] == o {
        Some(0)
    } else {
        match first_with_order(orders.drop_first(), o) { Some(k) => Some(k + 1), None => None }
    }
}

/// The shots' prompts after the reply's items are applied in order: each
/// non-blank prompt goes to the first shot with the item's number.
pub open spec fn apply_prompts(orders: Seq<u32>, prompts: Seq<Seq<char>>, items: Seq<Json>) -> Seq<Seq<char>>
    decreases items.len(),
{
    if items.len() == 0 {
        prompts
    } else {
        let p = apply_prompts(orders, prompts, items.drop_last());
        let t = item_prompt(items.last());
        if t.len() == 0 {
            p
        } else {
            match first_with_order(orders, item_order(items.last())) {
                Some(k) => p.update(k, t),
                None => p,
            }
        }
    }
}

pub open spec fn shot_orders(shots: Seq<ChapterShot>) -> Seq<u32> {
    shots.map_values(|s: ChapterShot| s.order)
}

pub open spec fn shot_prompts(shots: Seq<ChapterShot>) -> Seq<Seq<char>> {
    shots.map_values(|s: ChapterShot| s.comfy_prompt@)
}

pub open spec fn all_blank(ps: Seq<Seq<char>>) -> bool {
    forall|i: int| 0 <= i < ps.len() ==> trim(#[trigger] ps[i]).len() == 0
}

/// The prompts written back by a reply, or the error: the reply holds no
/// `shots` list, or no shot ends up with a prompt.
pub open spec fn prompt_reply_spec(existing: Seq<ChapterShot>, text: Seq<char>) -> Result<Seq<Seq<char>>, Seq<char>> {
    match first_shots(shot_values_spec(text)) {
        None => Err("提示词 JSON 解析失败"@),
        Some(items) => {
            let ps = apply_prompts(shot_orders(existing), shot_prompts(existing), items);
            if all_blank(ps) { Err("模型没有写回 ComfyUI 提示词"@) } else { Ok(ps) }
        },
    }
}

proof fn lemma_first_with_order(orders: Seq<u32>, o: u32, i: int)
    requires
        0 <= i < orders.len(),
        orders[i] == o,
        forall|j: int| 0 <= j < i ==> orders[j] != o,
    ensures
        first_with_order(orders, o) == Some(i),
    decreases i,
{
    if i > 0 {
        let t = orders.drop_first();
        assert forall|j: int| 0 <= j < i - 1 implies t[j] != o by {
            assert(t[j] == orders[j + 1]);
        }
        lemma_first_with_order(t, o, i - 1);
    }
}

proof fn lemma_first_with_order_none(orders: Seq<u32>, o: u32)
    requires
        forall|j: int| 0 <= j < orders.len() ==> orders[j] != o,
    ensures
        first_with_order(orders, o) is None,
    decreases orders.len(),
{
    if orders.len() > 0 {
        let t = orders.drop_first();
        assert forall|j: int| 0 <= j < t.len() implies t[j] != o by {
            assert(t[j] == orders[j + 1]);
        }
        lemma_first_with_order_none(t, o);
    }
}

fn item_prompt_exec(v: &Json) -> (r: Vec<char>)
    ensures
        r@ == item_prompt(*v),
{
    let p: Option<&Json> = match json_get(v, "comfy_prompt") {
        Some(x) => Some(x),
        None => json_get(v, "prompt"),
    };
    match p {
        Some(Json::Str(t)) => trim_str(t.as_str()),
        _ => Vec::new(),
    }
}

fn item_order_exec(v: &Json) -> (r: u32)
    ensures
        r == item_order(*v),
{
    match json_get(v, "order") {
        Some(Json::Num(n)) => match n.as_u64 {
            Some(x) => (x % 4294967296) as u32,
            None => 0,
        },
        _ => 0,
    }
}

/// A shot with another prompt.
fn with_prompt(s: &ChapterShot, p: String) -> (r: ChapterShot)
    ensures
        r.id == s.id && r.order == s.order && r.action == s.action && r.camera == s.camera,
        r.dialogue == s.dialogue && r.duration_sec == s.duration_sec,
        r.comfy_prompt == p,
{
    ChapterShot {
        id: s.id.clone(),
        order: s.order,
        action: s.action.clone(),
        camera: s.camera.clone(),
        dialogue: s.dialogue.clone(),
        duration_sec: s.duration_sec,
        comfy_prompt: p,
    }
}

/// Writes the ComfyUI prompts of a model reply back into the shots: each
/// item `{order, comfy_prompt}` of the reply's `shots` list sets the prompt
/// of the first shot with that number; shots keep everything else.
pub fn apply_prompt_reply(existing: &[ChapterShot], text: &str) -> (r: Result<Vec<ChapterShot>, String>)
    ensures
        match r {
            Ok(out) => {
                &&& prompt_reply_spec(existing@, text@) is Ok
                &&& out@.len() == existing@.len()
                &&& shot_prompts(out@) == prompt_reply_spec(existing@, text@)->Ok_0
                &&& forall|i: int| 0 <= i < out@.len() ==> {
                    let n = #[trigger] out@[i];
                    let o = existing@[i];
                    &&& n.id == o.id
                    &&& n.order == o.order
                    &&& n.action == o.action
                    &&& n.camera == o.camera
                    &&& n.dialogue == o.dialogue
                    &&& n.duration_sec == o.duration_sec
                }
            },
            Err(e) => prompt_reply_spec(existing@, text@) == Err::<Seq<Seq<char>>, Seq<char>>(e@),
        },
{
    let vals = extract_objects(text);
    let arr = match first_shots_array(&vals) {
        Some(a) => a,
        None => {
            return Err(String::from_str("提示词 JSON 解析失败"));
        },
    };
    let mut out: Vec<ChapterShot> = Vec::new();
    let mut i: usize = 0;
    while i < existing.len()
        invariant
            i <= existing.len(),
            out@.len() == i,
            forall|k: int| 0 <= k < i ==> (#[trigger] out@[k]) == existing@[k],
        decreases existing.len() - i,
    {
        out.push(existing[i].clone_shot());
        i += 1;
    }
    assert(shot_prompts(out@) =~= shot_prompts(existing@));
    assert(shot_orders(out@) =~= shot_orders(existing@));
    let ghost orders = shot_orders(existing@);
    let mut k: usize = 0;
    while k < arr.len()
        invariant
            k <= arr.len(),
            out@.len() == existing@.len(),
            orders == shot_orders(existing@),
            shot_orders(out@) == orders,
            shot_prompts(out@) == apply_prompts(orders, shot_prompts(existing@), arr@.subrange(0, k as int)),
            forall|q: int| 0 <= q < out@.len() ==> {
                let n = #[trigger] out@[q];
                let o = existing@[q];
                &&& n.id == o.id
                &&& n.order == o.order
                &&& n.action == o.action
                &&& n.camera == o.camera
                &&& n.dialogue == o.dialogue
                &&& n.duration_sec == o.duration_sec
            },
        decreases arr.len() - k,
    {
        assert(arr@.subrange(0, k + 1).drop_last() =~= arr@.subrange(0, k as int));
        assert(arr@.subrange(0, k + 1).last() == arr@[k as int]);
        let p = item_prompt_exec(&arr[k]);
        if p.len() > 0 {
            let o = item_order_exec(&arr[k]);
            let mut j: usize = 0;
            while j < out.len() && out[j].order != o
                invariant
                    j <= out.len(),
                    shot_orders(out@) == orders,
                    forall|q: int| 0 <= q < j ==> orders[q] != o,
                decreases out.len() - j,
            {
                j += 1;
            }
            if j < out.len() {
                proof {
                    lemma_first_with_order(orders, o, j as int);
                }
                let ghost before = out@;
                let ns = with_prompt(&out[j], string_of(&p));
                out.set(j, ns);
                assert(shot_prompts(out@) =~= shot_prompts(before).update(j as int, p@));
                assert(shot_orders(out@) =~= shot_orders(before));
            } else {
                proof {
                    lemma_first_with_order_none(orders, o);
                }
            }
        }
        k += 1;
    }
    assert(arr@.subrange(0, arr.len() as int) =~= arr@);
    let mut m: usize = 0;
    let mut any = false;
    while m < out.len()
        invariant
            m <= out.len(),
            any <==> exists|q: int| 0 <= q < m && trim(#[trigger] shot_prompts(out@)[q]).len() > 0,
        decreases out.len() - m,
    {
        assert(shot_prompts(out@)[m as int] == out@[m as int].comfy_prompt@);
        if trim_str(out[m].comfy_prompt.as_str()).len() > 0 {
            any = true;
        }
        m += 1;
    }
    if !any {
        return Err(String::from_str("模型没有写回 ComfyUI 提示词"));
    }
    Ok(out)
}

/// The trimmed text of a string member (empty when missing or not text).
pub open spec fn text_member(v: Json, key: Seq<char>) -> Seq<char> {
    match get_spec(v, key) {
        Some(Json::Str(t)) => trim(t@),
        _ => Seq::empty(),
    }
}

/// The action of a reply item (`action`, or `summary` when that key is
/// absent).
pub open spec fn item_action(v: Json) -> Seq<char> {
    match get_spec(v, "action"@) {
        Some(x) => match x { Json::Str(t) => trim(t@), _ => Seq::empty() },
        None => text_member(v, "summary"@),
    }
}

/// The duration of a reply item: 8 s when unset, held within 5..=15 s.
pub open spec fn item_duration(v: Json) -> u8 {
    let d: u64 = match get_spec(v, "duration_sec"@) {
        Some(x) => match as_u64_spec(x) { Some(n) => n, None => 8 },
        None => 8,
    };
    if d < 5 { 5 } else if d > 15 { 15 } else { d as u8 }
}

/// A shot read from item `i` of the reply: number `i + 1`, action, camera,
/// dialogue, duration and prompt; nothing for an item without an action.
pub open spec fn shot_item(v: Json, i: int) -> Option<(u32, Seq<char>, Seq<char>, Seq<char>, u8, Seq<char>)> {
    let a = item_action(v);
    if a.len() == 0 {
        None
    } else {
        Some((((i % 4294967296 + 1) % 4294967296) as u32, a, text_member(v, "camera"@), text_member(v, "dialogue"@),
            item_duration(v), text_member(v, "comfy_prompt"@)))
    }
}

/// The shots read from the first `n` items, in order.
pub open spec fn shot_items(arr: Seq<Json>, n: int) -> Seq<(u32, Seq<char>, Seq<char>, Seq<char>, u8, Seq<char>)>
    decreases n,
{
    if n <= 0 || n > arr.len() {
        Seq::empty()
    } else {
        let rest = shot_items(arr, n - 1);
        match shot_item(arr[n - 1], n - 1) { Some(x) => rest.push(x), None => rest }
    }
}

/// What a shot holds, apart from its id.
pub open spec fn shot_fields(s: ChapterShot) -> (u32, Seq<char>, Seq<char>, Seq<char>, u8, Seq<char>) {
    (s.order, s.action@, s.camera@, s.dialogue@, s.duration_sec, s.comfy_prompt@)
}

/// The storyboard a reply gives, or why it gives none.
pub open spec fn shots_reply_spec(text: Seq<char>) -> Result<Seq<(u32, Seq<char>, Seq<char>, Seq<char>, u8, Seq<char>)>, Seq<char>> {
    match first_shots(shot_values_spec(text)) {
        None => Err("分镜头 JSON 解析失败"@),
        Some(arr) => {
            let items = shot_items(arr, arr.len() as int);
            if items.len() == 0 { Err("模型没有返回可用分镜头"@) } else { Ok(items) }
        },
    }
}

fn text_member_exec(v: &Json, key: &str) -> (r: Vec<char>)
    ensures
        r@ == text_member(*v, key@),
{
    match json_get(v, key) {
        Some(Json::Str(t)) => trim_str(t.as_str()),
        _ => Vec::new(),
    }
}

/// The shots of a storyboard reply: one per item of its `shots` list that
/// has an action, numbered by the item's place, each with a fresh id.
pub fn parse_shots_reply(text: &str) -> (r: Result<Vec<ChapterShot>, String>)
    ensures
        match r {
            Ok(out) => {
                &&& shots_reply_spec(text@) is Ok
                &&& out@.map_values(|s: ChapterShot| shot_fields(s)) == shots_reply_spec(text@)->Ok_0
                &&& forall|k: int| 0 <= k < out@.len() ==> (#[trigger] out@[k]).id@.len() == 36
            },
            Err(e) => shots_reply_spec(text@) == Err::<Seq<(u32, Seq<char>, Seq<char>, Seq<char>, u8, Seq<char>)>, Seq<char>>(e@),
        },
{
    let vals = extract_objects(text);
    let arr = match first_shots_array(&vals) {
        Some(a) => a,
        None => {
            return Err(String::from_str("分镜头 JSON 解析失败"));
        },
    };
    let mut out: Vec<ChapterShot> = Vec::new();
    let mut i: usize = 0;
    while i < arr.len()
        invariant
            i <= arr.len(),
            out@.map_values(|s: ChapterShot| shot_fields(s)) == shot_items(arr@, i as int),
            forall|k: int| 0 <= k < out@.len() ==> (#[trigger] out@[k]).id@.len() == 36,
        decreases arr.len() - i,
    {
        let v = &arr[i];
        let action: Vec<char> = match json_get(v, "action") {
            Some(x) => match x {
                Json::Str(t) => trim_str(t.as_str()),
                _ => Vec::new(),
            },
            None => text_member_exec(v, "summary"),
        };
        if action.len() > 0 {
            let d: u64 = match json_get(v, "duration_sec") {
                Some(Json::Num(n)) => match n.as_u64 { Some(x) => x, None => 8 },
                _ => 8,
            };
            let dur: u8 = if d < 5 { 5 } else if d > 15 { 15 } else { d as u8 };
            let order: u32 = (((i as u64) % 4294967296) as u32).wrapping_add(1);
            let shot = ChapterShot {
                id: crate::ids::new_uuid(),
                order: order,
                action: string_of(&action),
                camera: string_of(&text_member_exec(v, "camera")),
                dialogue: string_of(&text_member_exec(v, "dialogue")),
                duration_sec: dur,
                comfy_prompt: string_of(&text_member_exec(v, "comfy_prompt")),
            };
            assert(shot_fields(shot) == shot_item(arr@[i as int], i as int)->Some_0);
            let ghost before = out@;
            out.push(shot);
            assert(out@ =~= before.push(shot));
            assert(out@.map_values(|s: ChapterShot| shot_fields(s)) =~= before.map_values(|s: ChapterShot| shot_fields(s)).push(shot_fields(shot)));
        }
        i += 1;
    }
    if out.len() == 0 {
        return Err(String::from_str("模型没有返回可用分镜头"));
    }
    Ok(out)
}

/// Whether a node's inputs take text (`text`, `prompt` or `prompts`).
pub open spec fn takes_text(node: Json) -> bool {
    match get_spec(node, "inputs"@) {
        Some(Json::Obj(im)) => crate::json::obj_get(im@, "text"@) is Some
            || crate::json::obj_get(im@, "prompt"@) is Some
            || crate::json::obj_get(im@, "prompts"@) is Some,
        _ => false,
    }
}

/// A node's `class_type`, ASCII-lowercased ("" when it has none).
pub open spec fn node_class(node: Json) -> Seq<char> {
    match get_spec(node, "class_type"@) {
        Some(Json::Str(c)) => crate::text::ascii_lower_seq(c@),
        _ => Seq::empty(),
    }
}

/// How well a node suits the prompt: MiniMax nodes first, then prompt
/// chains, then CLIP text encoders; nodes without text inputs do not count.
pub open spec fn node_score(node: Json) -> Option<int> {
    if !takes_text(node) {
        None
    } else {
        let c = node_class(node);
        Some(1 + (if crate::text::has_sub(c, "minimax"@) { 8int } else { 0int })
            + (if crate::text::has_sub(c, "chain"@) || crate::text::has_sub(c, "promptor"@) { 6int } else { 0int })
            + (if crate::text::has_sub(c, "cliptext"@) || crate::text::has_sub(c, "textencode"@) { 3int } else { 0int }))
    }
}

/// The best-scored node among the members: highest score, then smallest
/// id.
pub open spec fn best_node(m: Seq<(String, Json)>) -> Option<(int, Seq<char>)>
    decreases m.len(),
{
    if m.len() == 0 {
        None
    } else {
        let b = best_node(m.drop_last());
        match node_score(m.last().1) {
            None => b,
            Some(sc) => match b {
                None => Some((sc, m.last().0@)),
                Some(cur) => if sc > cur.0 || (sc == cur.0 && crate::kb_context::lex_lt(m.last().0@, cur.1)) {
                    Some((sc, m.last().0@))
                } else {
                    b
                },
            },
        }
    }
}

/// The node that takes the prompt: the hinted node when the workflow has
/// it, else the best-scored node.
pub open spec fn pick_spec(m: Seq<(String, Json)>, hint: Seq<char>) -> Option<Seq<char>> {
    let h = trim(hint);
    if h.len() > 0 && crate::json::obj_get(m, h) is Some {
        Some(h)
    } else {
        match best_node(m) { Some(b) => Some(b.1), None => None }
    }
}

fn node_score_exec(node: &Json) -> (r: Option<u64>)
    ensures
        match r {
            Some(x) => node_score(*node) == Some(x as int),
            None => node_score(*node) is None,
        },
{
    let has_text = match json_get(node, "inputs") {
        Some(Json::Obj(im)) => crate::json::obj_find(im, "text").is_some()
            || crate::json::obj_find(im, "prompt").is_some()
            || crate::json::obj_find(im, "prompts").is_some(),
        _ => false,
    };
    if !has_text {
        return None;
    }
    let c: Vec<char> = match json_get(node, "class_type") {
        Some(Json::Str(c)) => crate::global_chat::ascii_lowercase(&chars_of(c.as_str())),
        _ => Vec::new(),
    };
    let mut score: u64 = 1;
    if crate::text::contains_str(&c, "minimax") {
        score += 8;
    }
    if crate::text::contains_str(&c, "chain") || crate::text::contains_str(&c, "promptor") {
        score += 6;
    }
    if crate::text::contains_str(&c, "cliptext") || crate::text::contains_str(&c, "textencode") {
        score += 3;
    }
    Some(score)
}

/// The id of the node that takes the prompt (see `pick_spec`).
pub fn pick_prompt_node(m: &Vec<(String, Json)>, hint: &str) -> (r: Option<String>)
    ensures
        match r {
            Some(id) => pick_spec(m@, hint@) == Some(id@),
            None => pick_spec(m@, hint@) is None,
        },
{
    let h = trim_str(hint);
    if h.len() > 0 {
        let hs = string_of(&h);
        match crate::json::obj_find(m, hs.as_str()) {
            Some(_) => {
                return Some(hs);
            },
            None => {},
        }
    }
    let mut best: Option<(u64, usize)> = None;
    let mut i: usize = 0;
    while i < m.len()
        invariant
            i <= m.len(),
            match best {
                Some(b) => b.1 < i && best_node(m@.subrange(0, i as int)) == Some((b.0 as int, m@[b.1 as int].0@)),
                None => best_node(m@.subrange(0, i as int)) is None,
            },
        decreases m.len() - i,
    {
        assert(m@.subrange(0, i + 1).drop_last() =~= m@.subrange(0, i as int));
        assert(m@.subrange(0, i + 1).last() == m@[i as int]);
        match node_score_exec(&m[i].1) {
            None => {},
            Some(sc) => {
                match best {
                    None => {
                        best = Some((sc, i));
                    },
                    Some(b) => {
                        if sc > b.0 || (sc == b.0 && crate::kb_context::lex_lt_exec(&chars_of(m[i].0.as_str()), &chars_of(m[b.1].0.as_str()))) {
                            best = Some((sc, i));
                        }
                    },
                }
            },
        }
        i += 1;
    }
    assert(m@.subrange(0, m.len() as int) =~= m@);
    match best {
        Some(b) => Some(m[b.1].0.clone()),
        None => None,
    }
}

/// Whether a workflow runs the shots as one chained prompt: its prompt
/// node is a chain / shot-list node, or takes a `prompts` input.
pub open spec fn chain_spec(wf: Json, hint: Seq<char>) -> bool {
    match wf {
        Json::Obj(m) => match pick_spec(m@, hint) {
            Some(id) => match crate::json::obj_get(m@, id) {
                Some(node) => {
                    let c = node_class(node);
                    (match get_spec(node, "class_type"@) { Some(Json::Str(_)) => true, _ => false }
                        && (crate::text::has_sub(c, "chain"@) || (crate::text::has_sub(c, "shot"@) && crate::text::has_sub(c, "list"@))))
                    || (match get_spec(node, "inputs"@) { Some(inp) => get_spec(inp, "prompts"@) is Some, None => false })
                },
                None => false,
            },
            None => false,
        },
        _ => false,
    }
}

/// See `chain_spec`.
pub fn is_chain_workflow(workflow: &Json, node_hint: &str) -> (r: bool)
    ensures
        r == chain_spec(*workflow, node_hint@),
{
    let m = match workflow {
        Json::Obj(m) => m,
        _ => {
            return false;
        },
    };
    let id = match pick_prompt_node(m, node_hint) {
        Some(id) => id,
        None => {
            return false;
        },
    };
    let node = match crate::json::obj_find(m, id.as_str()) {
        Some(k) => &m[k].1,
        None => {
            return false;
        },
    };
    match json_get(node, "class_type") {
        Some(Json::Str(cls)) => {
            let c = crate::global_chat::ascii_lowercase(&chars_of(cls.as_str()));
            if crate::text::contains_str(&c, "chain")
                || (crate::text::contains_str(&c, "shot") && crate::text::contains_str(&c, "list")) {
                return true;
            }
        },
        _ => {},
    }
    match json_get(node, "inputs") {
        Some(inp) => json_get(inp, "prompts").is_some(),
        None => false,
    }
}

pub const WF_NOT_OBJECT: &'static str = "ComfyUI 工作流须为 API JSON 对象（节点 id → 节点）";
pub const WF_NO_PROMPT_NODE: &'static str = "工作流里找不到可写入提示词的节点（设 node id，或包含 text/prompt 的 MiniMax / CLIP 节点）";
pub const WF_BAD_NODE: &'static str = "提示词节点无效";
pub const WF_BAD_INPUTS: &'static str = "节点 inputs 不是对象";

/// Why a prompt cannot be put into a workflow, if it cannot.
pub open spec fn inject_error(wf: Json, hint: Seq<char>) -> Option<Seq<char>> {
    match wf {
        Json::Obj(m) => match pick_spec(m@, hint) {
            None => Some(WF_NO_PROMPT_NODE@),
            Some(id) => match crate::json::obj_get(m@, id) {
                Some(Json::Obj(nm)) => match crate::json::obj_get(nm@, "inputs"@) {
                    None => None,
                    Some(Json::Obj(_)) => None,
                    Some(_) => Some(WF_BAD_INPUTS@),
                },
                _ => Some(WF_BAD_NODE@),
            },
        },
        _ => Some(WF_NOT_OBJECT@),
    }
}

/// The input key a prompt is written to: `prompt`, `text` or `prompts`,
/// whichever the node has first in that order (`text` when none).
pub open spec fn prompt_key(im: Seq<(String, Json)>) -> Seq<char> {
    if crate::json::obj_get(im, "prompt"@) is Some { "prompt"@ }
    else if crate::json::obj_get(im, "text"@) is Some { "text"@ }
    else if crate::json::obj_get(im, "prompts"@) is Some { "prompts"@ }
    else { "text"@ }
}

/// Where member `key` is (or, when `m` has none, where a new one goes: last).
pub open spec fn member_at(m: Seq<(String, Json)>, key: Seq<char>) -> int {
    match crate::json::key_index(m, key) { Some(k) => k, None => m.len() as int }
}

/// `m2` is `m` with member `key` set (in its place, or added last), all
/// other members unchanged.
pub open spec fn member_set(m: Seq<(String, Json)>, key: Seq<char>, m2: Seq<(String, Json)>) -> bool {
    let at = member_at(m, key);
    &&& m2.len() == (if at < m.len() { m.len() } else { m.len() + 1 })
    &&& forall|j: int| 0 <= j < m.len() && j != at ==> #[trigger] m2[j] == m[j]
    &&& m2[at].0@ == key
}

/// `m2` is `m` with member `key` set to `v`.
pub open spec fn set_member(m: Seq<(String, Json)>, key: Seq<char>, m2: Seq<(String, Json)>, v: Json) -> bool {
    member_set(m, key, m2) && m2[member_at(m, key)].1 == v
}

/// The text of `v` when it is a string.
pub open spec fn str_is(v: Json, t: Seq<char>) -> bool {
    v matches Json::Str(s) && s@ == t
}

/// `r` is workflow `wf` with `prompt` written into its prompt node's inputs
/// (see `prompt_key`); the node gets an empty `inputs` object first when it
/// has none.
pub open spec fn injected(wf: Json, prompt: Seq<char>, hint: Seq<char>, r: Json) -> bool {
    &&& wf matches Json::Obj(m)
    &&& r matches Json::Obj(m2)
    &&& pick_spec(m@, hint) matches Some(id)
    &&& crate::json::obj_get(m@, id) matches Some(Json::Obj(nm))
    &&& {
        let im: Seq<(String, Json)> = match crate::json::obj_get(nm@, "inputs"@) {
            Some(Json::Obj(im)) => im@,
            _ => Seq::empty(),
        };
        exists|nm2: Vec<(String, Json)>, im2: Vec<(String, Json)>, pv: Json| {
            &&& str_is(pv, prompt)
            &&& set_member(im, prompt_key(im), im2@, pv)
            &&& set_member(nm@, "inputs"@, nm2@, Json::Obj(im2))
            &&& set_member(m@, id, m2@, Json::Obj(nm2))
        }
    }
}

/// Puts `prompt` into the prompt node of a ComfyUI API workflow (see
/// `pick_spec` and `prompt_key`).
pub fn inject_prompt(workflow: Json, prompt: &str, node_hint: &str) -> (r: Result<Json, String>)
    ensures
        match r {
            Ok(v) => inject_error(workflow, node_hint@) is None && injected(workflow, prompt@, node_hint@, v),
            Err(e) => inject_error(workflow, node_hint@) == Some(e@),
        },
{
    let ghost wf = workflow;
    let mut m = match workflow {
        Json::Obj(m) => m,
        _ => {
            return Err(String::from_str(WF_NOT_OBJECT));
        },
    };
    let ghost m0 = m@;
    let target = match pick_prompt_node(&m, node_hint) {
        Some(t) => t,
        None => {
            return Err(String::from_str(WF_NO_PROMPT_NODE));
        },
    };
    let t = match crate::json::obj_find(&m, target.as_str()) {
        Some(t) => t,
        None => {
            return Err(String::from_str(WF_BAD_NODE));
        },
    };
    let (k, node) = m.remove(t);
    let mut nm = match node {
        Json::Obj(nm) => nm,
        _ => {
            return Err(String::from_str(WF_BAD_NODE));
        },
    };
    let ghost nm0 = nm@;
    let ii = match crate::json::obj_find(&nm, "inputs") {
        Some(ii) => ii,
        None => {
            nm.push((String::from_str("inputs"), Json::Obj(Vec::new())));
            nm.len() - 1
        },
    };
    let (ik, inputs) = nm.remove(ii);
    let mut im = match inputs {
        Json::Obj(im) => im,
        _ => {
            return Err(String::from_str(WF_BAD_INPUTS));
        },
    };
    let ghost im0 = im@;
    let key: &str = if crate::json::obj_find(&im, "prompt").is_some() {
        "prompt"
    } else if crate::json::obj_find(&im, "text").is_some() {
        "text"
    } else if crate::json::obj_find(&im, "prompts").is_some() {
        "prompts"
    } else {
        "text"
    };
    let pv = Json::Str(String::from_str(prompt));
    let ghost pvg = pv;
    match crate::json::obj_find(&im, key) {
        Some(j) => {
            let _ = im.remove(j);
            im.insert(j, (String::from_str(key), pv));
        },
        None => {
            im.push((String::from_str(key), pv));
        },
    }
    assert(set_member(im0, prompt_key(im0), im@, pvg));
    let ghost imv = im;
    nm.insert(ii, (ik, Json::Obj(im)));
    assert(set_member(nm0, "inputs"@, nm@, Json::Obj(imv)));
    let ghost nmv = nm;
    m.insert(t, (k, Json::Obj(nm)));
    assert(set_member(m0, target@, m@, Json::Obj(nmv)));
    let r = Json::Obj(m);
    proof {
        let imo: Seq<(String, Json)> = match crate::json::obj_get(nm0, "inputs"@) {
            Some(Json::Obj(x)) => x@,
            _ => Seq::empty(),
        };
        assert(imo == im0);
        assert(str_is(pvg, prompt@));
        assert(str_is(pvg, prompt@) && set_member(im0, prompt_key(im0), imv@, pvg)
            && set_member(nm0, "inputs"@, nmv@, Json::Obj(imv)) && set_member(m0, target@, m@, Json::Obj(nmv)));
    }
    assert(injected(wf, prompt@, node_hint@, r));
    Ok(r)
}

proof fn lemma_first_with_order_hit(orders: Seq<u32>, o: u32)
    ensures
        first_with_order(orders, o) matches Some(k) ==> 0 <= k < orders.len() && orders[k] == o,
    decreases orders.len(),
{
    if orders.len() > 0 && orders[0] != o {
        lemma_first_with_order_hit(orders.drop_first(), o);
    }
}

/// A prompt the reply wrote: carried, non-blank, by an item naming shot
/// number `order`.
pub open spec fn written_by(items: Seq<Json>, order: u32, p: Seq<char>) -> bool {
    exists|m: int| 0 <= m < items.len() && #[trigger] item_prompt(items[m]) == p && p.len() > 0 && item_order(items[m]) == order
}

/// Applying a reply's prompts keeps the number of shots, and each shot's
/// prompt is either the one it had or a non-blank prompt of an item that
/// names that shot's number.
pub proof fn prompts_go_to_named_shots(orders: Seq<u32>, prompts: Seq<Seq<char>>, items: Seq<Json>)
    requires
        orders.len() == prompts.len(),
    ensures
        apply_prompts(orders, prompts, items).len() == prompts.len(),
        forall|i: int| 0 <= i < prompts.len() ==> #[trigger] apply_prompts(orders, prompts, items)[i] == prompts[i]
            || written_by(items, orders[i], apply_prompts(orders, prompts, items)[i]),
    decreases items.len(),
{
    if items.len() > 0 {
        let pre = items.drop_last();
        prompts_go_to_named_shots(orders, prompts, pre);
        let p = apply_prompts(orders, prompts, pre);
        let r = apply_prompts(orders, prompts, items);
        let last = items.last();
        lemma_first_with_order_hit(orders, item_order(last));
        assert forall|i: int| 0 <= i < prompts.len() implies #[trigger] r[i] == prompts[i] || written_by(items, orders[i], r[i]) by {
            if r[i] == p[i] {
                if p[i] != prompts[i] {
                    let m = choose|m: int| 0 <= m < pre.len() && #[trigger] item_prompt(pre[m]) == p[i] && p[i].len() > 0
                        && item_order(pre[m]) == orders[i];
                    assert(items[m] == pre[m]);
                }
            } else {
                assert(items[items.len() - 1] == last);
                assert(item_prompt(items[items.len() - 1]) == r[i]);
            }
        }
    }
}

} // verus!
