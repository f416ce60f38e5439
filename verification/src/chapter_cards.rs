//! Plot cards a model proposes for one chapter: each becomes a new plot card
//! hung on the chapter, and the characters it names are found by label or
//! created, then linked to the plot card and the chapter.
use vstd::prelude::*;
use crate::card_meta::{character_by_label_spec, find_character_id_by_label};
use crate::consolidation::{clamp_i64, plot_created};
use crate::ids::new_uuid;
use crate::json::{as_str_spec, get_spec, json_get, Json};
use crate::models::{blank_rest, find_node, first_node, CharacterCard, NodeKind, NodePosition, NovelTree, TreeNode};
use crate::novel_create::str_or;
use crate::plan_json::or_else;
use crate::plot_consolidate::{first_chars, first_chars_exec};
use crate::text::{string_of, trim, trim_str};
use crate::tree_edit::{char_linked, ensure_character_linked};

verus! {

/// The text of a member (or, when absent, of its fallback member) when it
/// is a string; `dflt` otherwise.
pub open spec fn text_of2(v: Json, key: Seq<char>, alt: Seq<char>, dflt: Seq<char>) -> Seq<char> {
    match or_else(get_spec(v, key), get_spec(v, alt)) {
        Some(x) => match as_str_spec(x) {
            Some(s) => s,
            None => dflt,
        },
        None => dflt,
    }
}

/// The card a new character gets from a proposal `c`: its texts, the
/// default role and alignment where it gives none, the rest empty.
pub open spec fn drafted_card(cc: CharacterCard, c: Json, def_role: Seq<char>, def_align: Seq<char>) -> bool {
    &&& cc.role@ == str_or(c, "role"@, def_role)
    &&& cc.personality@ == str_or(c, "personality"@, ""@)
    &&& cc.motto@ == str_or(c, "motto"@, ""@)
    &&& cc.gender@ == str_or(c, "gender"@, ""@)
    &&& cc.style@ == str_or(c, "style"@, ""@)
    &&& cc.alignment@ == str_or(c, "alignment"@, def_align)
    &&& cc.age@ == str_or(c, "age"@, ""@)
    &&& cc.constraints@ == str_or(c, "constraints"@, ""@)
    &&& blank_rest(cc)
}

/// The tree after a new character card `cid` is appended.
pub open spec fn char_card_added(t0: NovelTree, t1: NovelTree, cid: Seq<char>, label: Seq<char>, c: Json, def_role: Seq<char>, def_align: Seq<char>, y: i64) -> bool {
    let l0 = t0.nodes@.len();
    let n = t1.nodes@[l0 as int];
    &&& t1.novel_id == t0.novel_id
    &&& t1.edges == t0.edges
    &&& t1.nodes@.len() == l0 + 1
    &&& forall|j: int| 0 <= j < l0 ==> t1.nodes@[j] == t0.nodes@[j]
    &&& n.id@ == cid
    &&& n.kind == NodeKind::Character
    &&& n.label@ == label
    &&& n.outline@.len() == 0
    &&& n.detailed_outline@.len() == 0
    &&& n.character matches Some(cc) && drafted_card(cc, c, def_role, def_align)
    &&& n.knowledge is None
    &&& n.side_plot is None
    &&& n.linked_character_ids@.len() == 0
    &&& n.linked_side_plot_ids@.len() == 0
    &&& n.linked_knowledge_ids@.len() == 0
    &&& n.position == NodePosition { x: 40, y }
    &&& n.word_count == 0 && n.word_count_min == 0 && n.word_count_max == 0 && n.chapter_count == 0
}

/// One character a plot card names, handled: skipped when its label
/// (`label`, else `name`, trimmed) is blank; else found by label (see
/// `character_by_label_spec`) or created 120 below the lowest character
/// (`y0` before, `y1` after), then linked to the plot card and the chapter.
pub open spec fn char_done(t0: NovelTree, t1: NovelTree, c: Json, pid: Seq<char>, chapter: Seq<char>, def_role: Seq<char>, def_align: Seq<char>, y0: i64, y1: i64, cid: Seq<char>, created: bool) -> bool {
    let label = trim(text_of2(c, "label"@, "name"@, ""@));
    if label.len() == 0 {
        t1 == t0 && y1 == y0 && !created
    } else {
        match character_by_label_spec(t0.nodes@, label) {
            Some(id) => !created && y1 == y0 && cid == id && exists|tm: NovelTree|
                #[trigger] char_linked(t0, tm, pid, cid) && char_linked(tm, t1, chapter, cid),
            None => created && y1 == clamp_i64(y0 + 120) && exists|ta: NovelTree, tb: NovelTree|
                #[trigger] char_card_added(t0, ta, cid, label, c, def_role, def_align, y1)
                && #[trigger] char_linked(ta, tb, pid, cid) && char_linked(tb, t1, chapter, cid),
        }
    }
}

/// How many of `cs` are true.
pub open spec fn count_true(cs: Seq<bool>) -> nat
    decreases cs.len(),
{
    if cs.len() == 0 { 0 } else { count_true(cs.drop_last()) + if cs.last() { 1nat } else { 0nat } }
}

/// The characters of one plot card handled in turn.
pub open spec fn chars_done(ts: Seq<NovelTree>, cs: Seq<Json>, pid: Seq<char>, chapter: Seq<char>, def_role: Seq<char>, def_align: Seq<char>, ys: Seq<i64>, cids: Seq<Seq<char>>, made: Seq<bool>) -> bool {
    &&& ts.len() == cs.len() + 1
    &&& ys.len() == cs.len() + 1
    &&& cids.len() == cs.len()
    &&& made.len() == cs.len()
    &&& forall|i: int| 0 <= i < cs.len() ==> #[trigger] char_done(ts[i], ts[i + 1], cs[i], pid, chapter, def_role, def_align, ys[i], ys[i + 1], cids[i], made[i])
}

/// The characters a plot proposal lists (`characters`, else `roles`).
pub open spec fn listed_chars(p: Json) -> Seq<Json> {
    match or_else(get_spec(p, "characters"@), get_spec(p, "roles"@)) {
        Some(Json::Arr(a)) => a@,
        _ => Seq::empty(),
    }
}

/// One plot proposal handled: skipped when both its label (`label`, else
/// `title`, else `剧情`) and outline are blank; else it becomes the active
/// plot card `pid` hung on the chapter, placed right of the chapter at row
/// `count`, labelled by its label or else the first 24 characters of its
/// outline; then its characters are handled (`made` new ones).
pub open spec fn plot_done(t0: NovelTree, t1: NovelTree, p: Json, chapter: Seq<char>, cpos: NodePosition, count: nat, def_role: Seq<char>, def_align: Seq<char>, y0: i64, y1: i64, pid: Seq<char>, added: bool, made: nat) -> bool {
    let label = text_of2(p, "label"@, "title"@, "剧情"@);
    let outline = str_or(p, "outline"@, ""@);
    if trim(label).len() == 0 && trim(outline).len() == 0 {
        t1 == t0 && y1 == y0 && !added && made == 0
    } else {
        added && exists|tm: NovelTree, ts: Seq<NovelTree>, ys: Seq<i64>, cids: Seq<Seq<char>>, ms: Seq<bool>|
            #[trigger] plot_created(t0, tm, chapter, pid, shown_label(label, outline), outline, "active"@, plot_row_pos(cpos, count))
            && #[trigger] chars_done(ts, listed_chars(p), pid, chapter, def_role, def_align, ys, cids, ms)
            && ts[0] == tm && ts.last() == t1 && ys[0] == y0 && ys.last() == y1 && made == count_true(ms)
    }
}

/// A plot card's label: its own, or the head of its outline when blank.
pub open spec fn shown_label(label: Seq<char>, outline: Seq<char>) -> Seq<char> {
    if trim(label).len() == 0 { first_chars(outline, 24) } else { label }
}

/// The place of the `count`-th plot card of a chapter at `cpos`.
pub open spec fn plot_row_pos(cpos: NodePosition, count: nat) -> NodePosition {
    NodePosition { x: clamp_i64(cpos.x + 280), y: clamp_i64(cpos.y + 36 * count) }
}

/// The plot proposals handled in turn.
pub open spec fn plots_done(ts: Seq<NovelTree>, ps: Seq<Json>, chapter: Seq<char>, cpos: NodePosition, c0: nat, def_role: Seq<char>, def_align: Seq<char>, ys: Seq<i64>, pids: Seq<Seq<char>>, added: Seq<bool>, made: Seq<nat>) -> bool {
    &&& ts.len() == ps.len() + 1
    &&& ys.len() == ps.len() + 1
    &&& pids.len() == ps.len()
    &&& added.len() == ps.len()
    &&& made.len() == ps.len()
    &&& forall|i: int| 0 <= i < ps.len() ==> #[trigger] plot_done(ts[i], ts[i + 1], ps[i], chapter, cpos,
        c0 + count_true(added.take(i)), def_role, def_align, ys[i], ys[i + 1], pids[i], added[i], made[i])
}

pub open spec fn sum_nat(xs: Seq<nat>) -> nat
    decreases xs.len(),
{
    if xs.len() == 0 { 0 } else { sum_nat(xs.drop_last()) + xs.last() }
}

/// The plot cards in the tree.
pub open spec fn plot_card_count(ns: Seq<TreeNode>) -> nat
    decreases ns.len(),
{
    if ns.len() == 0 { 0 } else { plot_card_count(ns.drop_last()) + if ns.last().kind == NodeKind::SidePlot { 1nat } else { 0nat } }
}

/// The lowest character on the canvas, and never above 80.
pub open spec fn lowest_char_y(ns: Seq<TreeNode>) -> i64
    decreases ns.len(),
{
    if ns.len() == 0 {
        80
    } else {
        let m = lowest_char_y(ns.drop_last());
        if ns.last().kind == NodeKind::Character && ns.last().position.y > m { ns.last().position.y } else { m }
    }
}

/// Where the chapter is, or (280, 140) without it.
pub open spec fn chapter_pos(ns: Seq<TreeNode>, chapter: Seq<char>) -> NodePosition {
    match first_node(ns, chapter) {
        Some(k) => ns[k].position,
        None => NodePosition { x: 280, y: 140 },
    }
}

fn clamp_add(a: i64, d: i64) -> (r: i64)
    requires
        d >= 0,
    ensures
        r == clamp_i64(a + d),
{
    if a <= i64::MAX - d { a + d } else { i64::MAX }
}

fn text2_exec(v: &Json, key: &str, alt: &str, dflt: &str) -> (r: String)
    ensures
        r@ == text_of2(*v, key@, alt@, dflt@),
{
    let o = match json_get(v, key) {
        Some(x) => Some(x),
        None => json_get(v, alt),
    };
    match o {
        Some(Json::Str(s)) => String::from_str(s.as_str()),
        _ => String::from_str(dflt),
    }
}

fn str_exec(v: &Json, key: &str, dflt: &str) -> (r: String)
    ensures
        r@ == str_or(*v, key@, dflt@),
{
    match json_get(v, key) {
        Some(Json::Str(s)) => String::from_str(s.as_str()),
        _ => String::from_str(dflt),
    }
}

fn new_char(tree: &mut NovelTree, label: String, c: &Json, def_role: &str, def_align: &str, y: i64) -> (cid: String)
    ensures
        char_card_added(*old(tree), *final(tree), cid@, label@, *c, def_role@, def_align@, y),
{
    let cid = new_uuid();
    let mut cc = CharacterCard::default();
    cc.role = str_exec(c, "role", def_role);
    cc.personality = str_exec(c, "personality", "");
    cc.motto = str_exec(c, "motto", "");
    cc.gender = str_exec(c, "gender", "");
    cc.style = str_exec(c, "style", "");
    cc.alignment = str_exec(c, "alignment", def_align);
    cc.age = str_exec(c, "age", "");
    cc.constraints = str_exec(c, "constraints", "");
    tree.nodes.push(TreeNode {
        id: String::from_str(cid.as_str()),
        kind: NodeKind::Character,
        label,
        outline: String::new(),
        detailed_outline: Vec::new(),
        character: Some(cc),
        knowledge: None,
        side_plot: None,
        linked_character_ids: Vec::new(),
        linked_side_plot_ids: Vec::new(),
        linked_knowledge_ids: Vec::new(),
        position: NodePosition { x: 40, y },
        word_count: 0,
        word_count_min: 0,
        word_count_max: 0,
        chapter_count: 0,
    });
    cid
}

/// One character of a plot card handled (see `char_done`).
#[verifier::spinoff_prover]
fn char_step(tree: &mut NovelTree, c: &Json, pid: &str, chapter: &str, def_role: &str, def_align: &str, y: &mut i64) -> (r: (String, bool))
    ensures
        char_done(*old(tree), *final(tree), *c, pid@, chapter@, def_role@, def_align@, *old(y), *final(y), r.0@, r.1),
        final(tree).nodes@.len() == old(tree).nodes@.len() + if r.1 { 1nat } else { 0nat },
{
    let ghost t0 = *tree;
    let label = trim_str(text2_exec(c, "label", "name", "").as_str());
    if label.len() == 0 {
        let e = String::new();
        return (e, false);
    }
    let ls = string_of(&label);
    match find_character_id_by_label(tree, ls.as_str()) {
        Some(id) => {
            proof {
                crate::text::lemma_trim_idempotent(label@);
            }
            assert(character_by_label_spec(t0.nodes@, label@) == Some(id@)) by {
                crate::text::lemma_trim_idempotent(label@);
            }
            ensure_character_linked(tree, pid, id.as_str());
            let ghost tm = *tree;
            ensure_character_linked(tree, chapter, id.as_str());
            assert(char_linked(t0, tm, pid@, id@) && char_linked(tm, *tree, chapter@, id@));
            (id, false)
        },
        None => {
            assert(character_by_label_spec(t0.nodes@, label@) is None) by {
                crate::text::lemma_trim_idempotent(label@);
            }
            *y = clamp_add(*y, 120);
            let cid = new_char(tree, string_of(&label), c, def_role, def_align, *y);
            let ghost ta = *tree;
            ensure_character_linked(tree, pid, cid.as_str());
            let ghost tb = *tree;
            ensure_character_linked(tree, chapter, cid.as_str());
            assert(char_card_added(t0, ta, cid@, label@, *c, def_role@, def_align@, *y)
                && char_linked(ta, tb, pid@, cid@) && char_linked(tb, *tree, chapter@, cid@));
            (cid, true)
        },
    }
}

proof fn lemma_count_true_push(cs: Seq<bool>, x: bool)
    ensures
        count_true(cs.push(x)) == count_true(cs) + if x { 1nat } else { 0nat },
{
    assert(cs.push(x).drop_last() =~= cs);
}

proof fn lemma_count_true_le(cs: Seq<bool>)
    ensures
        count_true(cs) <= cs.len(),
    decreases cs.len(),
{
    if cs.len() > 0 {
        lemma_count_true_le(cs.drop_last());
    }
}

/// The characters of one plot card handled in turn; returns how many were
/// created.
fn plot_chars(tree: &mut NovelTree, cs: &Vec<Json>, pid: &str, chapter: &str, def_role: &str, def_align: &str, y: &mut i64)
    -> (r: (usize, Ghost<(Seq<NovelTree>, Seq<i64>, Seq<Seq<char>>, Seq<bool>)>))
    ensures
        chars_done(r.1@.0, cs@, pid@, chapter@, def_role@, def_align@, r.1@.1, r.1@.2, r.1@.3),
        r.1@.0[0] == *old(tree),
        r.1@.0.last() == *final(tree),
        r.1@.1[0] == *old(y),
        r.1@.1.last() == *final(y),
        r.0 == count_true(r.1@.3),
        final(tree).nodes@.len() == old(tree).nodes@.len() + r.0,
{
    let ghost mut ts: Seq<NovelTree> = seq![*tree];
    let ghost mut ys: Seq<i64> = seq![*y];
    let ghost mut cids: Seq<Seq<char>> = Seq::empty();
    let ghost mut ms: Seq<bool> = Seq::empty();
    let ghost l0 = tree.nodes@.len();
    let mut made: usize = 0;
    let mut i: usize = 0;
    while i < cs.len()
        invariant
            i <= cs@.len(),
            chars_done(ts, cs@.take(i as int), pid@, chapter@, def_role@, def_align@, ys, cids, ms),
            ts[0] == *old(tree),
            ys[0] == *old(y),
            ts.last() == *tree,
            ys.last() == *y,
            made == count_true(ms),
            tree.nodes@.len() == l0 + made,
            l0 == old(tree).nodes@.len(),
        decreases cs@.len() - i,
    {
        let ghost tb = *tree;
        let ghost yb = *y;
        let (cid, created) = char_step(tree, &cs[i], pid, chapter, def_role, def_align, y);
        proof {
            let ts2 = ts.push(*tree);
            let ys2 = ys.push(*y);
            let cids2 = cids.push(cid@);
            let ms2 = ms.push(created);
            assert(cs@.take(i + 1) =~= cs@.take(i as int).push(cs@[i as int]));
            assert forall|j: int| 0 <= j < i + 1 implies #[trigger] char_done(ts2[j], ts2[j + 1], cs@.take(i + 1)[j], pid@, chapter@, def_role@, def_align@, ys2[j], ys2[j + 1], cids2[j], ms2[j]) by {
                if j < i {
                    assert(char_done(ts[j], ts[j + 1], cs@.take(i as int)[j], pid@, chapter@, def_role@, def_align@, ys[j], ys[j + 1], cids[j], ms[j]));
                }
            }
            lemma_count_true_push(ms, created);
            ts = ts2;
            ys = ys2;
            cids = cids2;
            ms = ms2;
        }
        let cur_len = tree.nodes.len();
        if created {
            made = made + 1;
        }
        i += 1;
    }
    assert(cs@.take(cs@.len() as int) =~= cs@);
    (made, Ghost((ts, ys, cids, ms)))
}

/// One plot proposal handled (see `plot_done`); returns the new card's id,
/// whether one was added and how many characters were created.
#[verifier::spinoff_prover]
#[verifier::rlimit(40)]
fn plot_step(tree: &mut NovelTree, p: &Json, chapter: &String, cpos: NodePosition, count: u64, def_role: &str, def_align: &str, y: &mut i64) -> (r: (String, bool, usize))
    requires
        count < 0x2_0000_0000,
    ensures
        plot_done(*old(tree), *final(tree), *p, chapter@, cpos, count as nat, def_role@, def_align@, *old(y), *final(y), r.0@, r.1, r.2 as nat),
        final(tree).nodes@.len() == old(tree).nodes@.len() + (if r.1 { 1nat } else { 0nat }) + r.2,
{
    let ghost t0 = *tree;
    let label = text2_exec(p, "label", "title", "剧情");
    let outline = str_exec(p, "outline", "");
    let ghost lv = label@;
    let ghost ov = outline@;
    if trim_str(label.as_str()).len() == 0 && trim_str(outline.as_str()).len() == 0 {
        return (String::new(), false, 0);
    }
    let shown = if trim_str(label.as_str()).len() == 0 {
        string_of(&first_chars_exec(outline.as_str(), 24))
    } else {
        label
    };
    let pos = NodePosition { x: clamp_add(cpos.x, 280), y: clamp_add(cpos.y, 36 * (count as i64)) };
    let pid = crate::consolidation::add_root_plot(tree, chapter, shown, outline, String::from_str("active"), pos);
    let ghost tm = *tree;
    let empty: Vec<Json> = Vec::new();
    let chars: &Vec<Json> = match json_get(p, "characters") {
        Some(x) => match x {
            Json::Arr(a) => a,
            _ => &empty,
        },
        None => match json_get(p, "roles") {
            Some(Json::Arr(a)) => a,
            _ => &empty,
        },
    };
    assert(chars@ == listed_chars(*p));
    let ghost y0 = *old(y);
    let (made, gw) = plot_chars(tree, chars, pid.as_str(), chapter.as_str(), def_role, def_align, y);
    proof {
        let w = gw@;
        assert(plot_created(t0, tm, chapter@, pid@, shown_label(lv, ov), ov, "active"@, plot_row_pos(cpos, count as nat)));
        assert(chars_done(w.0, listed_chars(*p), pid@, chapter@, def_role@, def_align@, w.1, w.2, w.3));
    }
    (pid, true, made)
}

/// Appends the plot cards a model proposed for a chapter (see `plot_done`),
/// the first placed at the row after the plot cards already there, and
/// their characters (see `char_done`); returns how many plot cards and how
/// many character cards were added.
pub fn apply_plots_and_characters_for_chapter(tree: &mut NovelTree, chapter_id: &str, plots: &Vec<Json>, def_role: &str, def_align: &str) -> (r: (usize, usize))
    requires
        old(tree).nodes@.len() < u32::MAX,
        plots@.len() < u32::MAX,
    ensures
        exists|ts: Seq<NovelTree>, ys: Seq<i64>, pids: Seq<Seq<char>>, added: Seq<bool>, made: Seq<nat>|
            #[trigger] plots_done(ts, plots@, chapter_id@, chapter_pos(old(tree).nodes@, chapter_id@),
                plot_card_count(old(tree).nodes@), def_role@, def_align@, ys, pids, added, made)
            && ts[0] == *old(tree) && ts.last() == *final(tree)
            && ys[0] == lowest_char_y(old(tree).nodes@)
            && r.0 == count_true(added) && r.1 == sum_nat(made),
{
    let ghost t0 = *tree;
    let chapter = String::from_str(chapter_id);
    let cpos = match find_node(&tree.nodes, &chapter) {
        Some(k) => tree.nodes[k].position,
        None => NodePosition { x: 280, y: 140 },
    };
    let mut count: u64 = 0;
    let mut y: i64 = 80;
    let mut i: usize = 0;
    while i < tree.nodes.len()
        invariant
            i <= tree.nodes@.len(),
            *tree == t0,
            count == plot_card_count(t0.nodes@.take(i as int)),
            count <= i,
            y == lowest_char_y(t0.nodes@.take(i as int)),
        decreases tree.nodes@.len() - i,
    {
        assert(t0.nodes@.take(i + 1).drop_last() =~= t0.nodes@.take(i as int));
        if tree.nodes[i].kind == NodeKind::SidePlot {
            count = count + 1;
        }
        if tree.nodes[i].kind == NodeKind::Character && tree.nodes[i].position.y > y {
            y = tree.nodes[i].position.y;
        }
        i += 1;
    }
    assert(t0.nodes@.take(t0.nodes@.len() as int) =~= t0.nodes@);
    let ghost c0 = count as nat;
    assert(c0 <= t0.nodes@.len());
    let ghost mut ts: Seq<NovelTree> = seq![*tree];
    let ghost mut ys: Seq<i64> = seq![y];
    let ghost mut pids: Seq<Seq<char>> = Seq::empty();
    let ghost mut added: Seq<bool> = Seq::empty();
    let ghost mut made: Seq<nat> = Seq::empty();
    let mut n_plots: usize = 0;
    let mut n_chars: usize = 0;
    let mut j: usize = 0;
    while j < plots.len()
        invariant
            j <= plots@.len(),
            plots@.len() < u32::MAX,
            c0 < u32::MAX,
            count as nat == c0,
            plots_done(ts, plots@.take(j as int), chapter_id@, chapter_pos(t0.nodes@, chapter_id@), c0, def_role@, def_align@, ys, pids, added, made),
            ts[0] == t0,
            ts.last() == *tree,
            ys.last() == y,
            ys[0] == lowest_char_y(t0.nodes@),
            chapter@ == chapter_id@,
            cpos == chapter_pos(t0.nodes@, chapter_id@),
            n_plots == count_true(added),
            n_plots <= j,
            n_chars == sum_nat(made),
            tree.nodes@.len() == t0.nodes@.len() + n_plots + n_chars,
        decreases plots@.len() - j,
    {
        proof {
            lemma_count_true_le(added);
        }
        let (pid, a, m) = plot_step(tree, &plots[j], &chapter, cpos, count + n_plots as u64, def_role, def_align, &mut y);
        proof {
            let ts2 = ts.push(*tree);
            let ys2 = ys.push(y);
            let pids2 = pids.push(pid@);
            let added2 = added.push(a);
            let made2 = made.push(m as nat);
            assert(plots@.take(j + 1) =~= plots@.take(j as int).push(plots@[j as int]));
            assert(added2.take(j as int) =~= added);
            assert forall|k: int| 0 <= k < j + 1 implies #[trigger] plot_done(ts2[k], ts2[k + 1], plots@.take(j + 1)[k], chapter_id@,
                chapter_pos(t0.nodes@, chapter_id@), c0 + count_true(added2.take(k)), def_role@, def_align@, ys2[k], ys2[k + 1], pids2[k], added2[k], made2[k]) by {
                if k < j {
                    assert(added2.take(k) =~= added.take(k));
                    assert(plot_done(ts[k], ts[k + 1], plots@.take(j as int)[k], chapter_id@, chapter_pos(t0.nodes@, chapter_id@),
                        c0 + count_true(added.take(k)), def_role@, def_align@, ys[k], ys[k + 1], pids[k], added[k], made[k]));
                }
            }
            lemma_count_true_push(added, a);
            assert(made2.drop_last() =~= made);
            ts = ts2;
            ys = ys2;
            pids = pids2;
            added = added2;
            made = made2;
        }
        if a {
            n_plots = n_plots + 1;
        }
        let cur_len = tree.nodes.len();
        n_chars = n_chars + m;
        j += 1;
    }
    assert(plots@.take(plots@.len() as int) =~= plots@);
    (n_plots, n_chars)
}

} // verus!
