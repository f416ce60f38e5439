//! What a chapter must land before it is accepted: its outline beats, its
//! plot cards and its focus characters.
use vstd::prelude::*;
use crate::cast::{clone_ids, contains_str_id};
use crate::chapter_constraints::{outline_beats, outline_beats_spec, sviews, LandBeat};
use crate::models::{find_node, first_node, str_views, NovelTree, TreeNode};
use crate::plot_consolidate::{add_all, add_unique, first_chars, first_chars_exec};
use crate::root_reference::{edge_chars, gather_edge_chars};
use crate::text::{append, append_decimal, append_str, chars_of, decimal, string_of, trim, trim_str, trimmed};

verus! {

/// A beat as plain text: kind, title, text.
pub open spec fn land_views(bs: Seq<LandBeat>) -> Seq<(Seq<char>, Seq<char>, Seq<char>)> {
    bs.map_values(|b: LandBeat| (b.kind@, b.title@, b.text@))
}

pub open spec fn pair_views(v: Seq<(String, String)>) -> Seq<(Seq<char>, Seq<char>)> {
    v.map_values(|p: (String, String)| (p.0@, p.1@))
}

/// The detailed-outline items that count as beats: trimmed, at least four
/// characters, the first twelve.
pub open spec fn detailed_items(items: Seq<Seq<char>>) -> Seq<Seq<char>>
    decreases items.len(),
{
    if items.len() == 0 {
        Seq::empty()
    } else {
        let rest = detailed_items(items.drop_last());
        let t = trim(items.last());
        if t.len() >= 4 && rest.len() < 12 { rest.push(t) } else { rest }
    }
}

/// Outline beats titled `prefix` and their number from 1.
pub open spec fn numbered(ts: Seq<Seq<char>>, prefix: Seq<char>) -> Seq<(Seq<char>, Seq<char>, Seq<char>)> {
    Seq::new(ts.len(), |i: int| ("outline"@, prefix + decimal((i + 1) as nat), ts[i]))
}

/// The outline beats: the detailed outline's items when it has any, else
/// the beats of the chapter's outline (see `outline_beats_spec`).
pub open spec fn outline_part(ns: Seq<TreeNode>, node_id: Seq<char>) -> Seq<(Seq<char>, Seq<char>, Seq<char>)> {
    let d = match first_node(ns, node_id) {
        Some(k) => detailed_items(sviews(ns[k].detailed_outline@)),
        None => Seq::empty(),
    };
    let outline = match first_node(ns, node_id) {
        Some(k) => ns[k].outline@,
        None => Seq::empty(),
    };
    if d.len() > 0 { numbered(d, "细纲§"@) } else { numbered(outline_beats_spec(outline), "§"@) }
}

/// A plot card's beat text: its outline and the first 400 characters of
/// its chapter text, joined by a newline when both are there.
pub open spec fn plot_text(outline: Seq<char>, body: Seq<char>) -> Seq<char> {
    let snip = first_chars(body, 400);
    if trim(outline).len() == 0 {
        snip
    } else if trim(snip).len() == 0 {
        outline
    } else {
        outline + "\n"@ + snip
    }
}

/// The plot beats, and the focus characters grown by each plot card's
/// characters.
pub open spec fn plots_fold(ns: Seq<TreeNode>, plots: Seq<(Seq<char>, Seq<char>)>, focus: Seq<Seq<char>>) -> (Seq<Seq<char>>, Seq<(Seq<char>, Seq<char>, Seq<char>)>)
    decreases plots.len(),
{
    if plots.len() == 0 {
        (focus, Seq::empty())
    } else {
        let prev = plots_fold(ns, plots.drop_last(), focus);
        let pl = plots.last();
        match first_node(ns, pl.0) {
            Some(k) => {
                let p = ns[k];
                let f2 = add_all(prev.0, str_views(p.linked_character_ids@));
                let text = plot_text(p.outline@, pl.1);
                (f2, if trim(text).len() >= 4 { prev.1.push(("plot"@, p.label@, first_chars(text, 280))) } else { prev.1 })
            },
            None => prev,
        }
    }
}

/// A character's beat hint: its role and personality.
pub open spec fn char_hint(n: TreeNode) -> Seq<char> {
    match n.character {
        Some(c) => c.role@ + "｜"@ + c.personality@,
        None => Seq::empty(),
    }
}

pub open spec fn char_beats(ns: Seq<TreeNode>, ids: Seq<Seq<char>>) -> Seq<(Seq<char>, Seq<char>, Seq<char>)>
    decreases ids.len(),
{
    if ids.len() == 0 {
        Seq::empty()
    } else {
        let rest = char_beats(ns, ids.drop_last());
        match first_node(ns, ids.last()) {
            Some(k) => rest.push(("character"@, ns[k].label@, first_chars(char_hint(ns[k]), 80))),
            None => rest,
        }
    }
}

/// Everything a chapter must land: its outline beats; the beats of its
/// plot cards (`plots`: each card's id and chapter text, in the order the
/// chapter takes them); then its focus characters: the ones it lists, the
/// character cards joined to it by a link, and those its plot cards list.
pub open spec fn land_beats_spec(tree: NovelTree, node_id: Seq<char>, plots: Seq<(Seq<char>, Seq<char>)>) -> Seq<(Seq<char>, Seq<char>, Seq<char>)> {
    let ns = tree.nodes@;
    let own = match first_node(ns, node_id) {
        Some(k) => str_views(ns[k].linked_character_ids@),
        None => Seq::empty(),
    };
    let focus = edge_chars(ns, tree.edges@, node_id, own);
    let pf = plots_fold(ns, plots, focus);
    outline_part(ns, node_id) + pf.1 + char_beats(ns, pf.0)
}

fn push_beat(beats: &mut Vec<LandBeat>, kind: &'static str, title: String, text: String)
    ensures
        land_views(final(beats)@) == land_views(old(beats)@).push((kind@, title@, text@)),
{
    let ghost b0 = land_views(beats@);
    beats.push(LandBeat { kind, title, text });
    assert(land_views(beats@) =~= b0.push((kind@, title@, text@)));
}

fn outline_beats_of(tree: &NovelTree, node_id: &String, beats: &mut Vec<LandBeat>)
    ensures
        land_views(final(beats)@) == land_views(old(beats)@) + outline_part(tree.nodes@, node_id@),
{
    let ghost b0 = land_views(beats@);
    let k = find_node(&tree.nodes, node_id);
    let mut items: Vec<Vec<char>> = Vec::new();
    let mut outline: Vec<char> = Vec::new();
    match k {
        Some(k) => {
            let d = &tree.nodes[k].detailed_outline;
            let mut i: usize = 0;
            while i < d.len()
                invariant
                    i <= d@.len(),
                    crate::text::vviews(items@) == detailed_items(sviews(d@.subrange(0, i as int))),
                decreases d@.len() - i,
            {
                assert(sviews(d@.subrange(0, i + 1)).drop_last() =~= sviews(d@.subrange(0, i as int)));
                let t = trim_str(d[i].as_str());
                if t.len() >= 4 && items.len() < 12 {
                    let ghost before = crate::text::vviews(items@);
                    items.push(t);
                    assert(crate::text::vviews(items@) =~= before.push(trim(d@[i as int]@)));
                }
                i += 1;
            }
            assert(d@.subrange(0, d@.len() as int) =~= d@);
            outline = chars_of(tree.nodes[k].outline.as_str());
        },
        None => {},
    }
    let ghost dv = crate::text::vviews(items@);
    if items.len() > 0 {
        let mut i: usize = 0;
        while i < items.len()
            invariant
                i <= items@.len(),
                dv == crate::text::vviews(items@),
                land_views(beats@) =~= b0 + numbered(dv, "细纲§"@).take(i as int),
            decreases items@.len() - i,
        {
            let mut title = chars_of("细纲§");
            append_decimal(&mut title, (i + 1) as u64);
            push_beat(beats, "outline", string_of(&title), string_of(&items[i]));
            assert(numbered(dv, "细纲§"@).take(i + 1) =~= numbered(dv, "细纲§"@).take(i as int).push(numbered(dv, "细纲§"@)[i as int]));
            i += 1;
        }
        assert(numbered(dv, "细纲§"@).take(items@.len() as int) =~= numbered(dv, "细纲§"@));
    } else {
        let os = outline_beats(string_of(&outline).as_str());
        let ghost ov = sviews(os@);
        let mut i: usize = 0;
        while i < os.len()
            invariant
                i <= os@.len(),
                ov == sviews(os@),
                land_views(beats@) =~= b0 + numbered(ov, "§"@).take(i as int),
            decreases os@.len() - i,
        {
            let mut title = chars_of("§");
            append_decimal(&mut title, (i + 1) as u64);
            push_beat(beats, "outline", string_of(&title), String::from_str(os[i].as_str()));
            assert(numbered(ov, "§"@).take(i + 1) =~= numbered(ov, "§"@).take(i as int).push(numbered(ov, "§"@)[i as int]));
            i += 1;
        }
        assert(numbered(ov, "§"@).take(os@.len() as int) =~= numbered(ov, "§"@));
    }
}

pub(crate) fn add_ids(focus: &mut Vec<String>, xs: &Vec<String>)
    ensures
        str_views(final(focus)@) == add_all(str_views(old(focus)@), str_views(xs@)),
{
    let ghost f0 = str_views(focus@);
    let mut i: usize = 0;
    while i < xs.len()
        invariant
            i <= xs@.len(),
            str_views(focus@) == add_all(f0, str_views(xs@.subrange(0, i as int))),
        decreases xs@.len() - i,
    {
        assert(str_views(xs@.subrange(0, i + 1)).drop_last() =~= str_views(xs@.subrange(0, i as int)));
        if !contains_str_id(focus, &xs[i]) {
            let ghost before = str_views(focus@);
            focus.push(String::from_str(xs[i].as_str()));
            assert(str_views(focus@) =~= before.push(xs@[i as int]@));
        }
        i += 1;
    }
    assert(xs@.subrange(0, xs@.len() as int) =~= xs@);
}

fn plot_text_exec(outline: &str, body: &str) -> (r: Vec<char>)
    ensures
        r@ == plot_text(outline@, body@),
{
    let snip = first_chars_exec(body, 400);
    if trim_str(outline).len() == 0 {
        snip
    } else if trimmed(&snip).len() == 0 {
        chars_of(outline)
    } else {
        let mut t = chars_of(outline);
        append_str(&mut t, "\n");
        append(&mut t, &snip);
        t
    }
}

fn plot_step(tree: &NovelTree, pid: &String, body: &String, focus: &mut Vec<String>, beats: &mut Vec<LandBeat>)
    ensures
        match first_node(tree.nodes@, pid@) {
            Some(k) => {
                let p = tree.nodes@[k];
                let text = plot_text(p.outline@, body@);
                &&& str_views(final(focus)@) == add_all(str_views(old(focus)@), str_views(p.linked_character_ids@))
                &&& land_views(final(beats)@) == (if trim(text).len() >= 4 {
                    land_views(old(beats)@).push(("plot"@, p.label@, first_chars(text, 280)))
                } else {
                    land_views(old(beats)@)
                })
            },
            None => final(focus)@ == old(focus)@ && final(beats)@ == old(beats)@,
        },
{
    match find_node(&tree.nodes, pid) {
        Some(k) => {
            let p = &tree.nodes[k];
            add_ids(focus, &p.linked_character_ids);
            let text = plot_text_exec(p.outline.as_str(), body.as_str());
            if trimmed(&text).len() >= 4 {
                let t = first_chars_exec(string_of(&text).as_str(), 280);
                push_beat(beats, "plot", String::from_str(p.label.as_str()), string_of(&t));
            }
        },
        None => {},
    }
}

fn char_text_exec(n: &TreeNode) -> (r: Vec<char>)
    ensures
        r@ == first_chars(char_hint(*n), 80),
{
    let mut h: Vec<char> = Vec::new();
    match &n.character {
        Some(c) => {
            h = chars_of(c.role.as_str());
            append_str(&mut h, "｜");
            append_str(&mut h, c.personality.as_str());
        },
        None => {},
    }
    first_chars_exec(string_of(&h).as_str(), 80)
}

/// See `land_beats_spec`. `plots` are the chapter's plot cards that may be
/// injected (its own, then those it inherits from the root and its
/// volume), each with the text of its chapter file.
pub fn collect_land_beats(tree: &NovelTree, node_id: &str, plots: &Vec<(String, String)>) -> (r: Vec<LandBeat>)
    ensures
        land_views(r@) == land_beats_spec(*tree, node_id@, pair_views(plots@)),
{
    let id = String::from_str(node_id);
    let mut beats: Vec<LandBeat> = Vec::new();
    outline_beats_of(tree, &id, &mut beats);
    let ghost ob = land_views(beats@);
    assert(ob =~= outline_part(tree.nodes@, node_id@));
    let mut focus: Vec<String> = match find_node(&tree.nodes, &id) {
        Some(k) => clone_ids(&tree.nodes[k].linked_character_ids),
        None => Vec::new(),
    };
    let ghost own = match first_node(tree.nodes@, node_id@) {
        Some(k) => str_views(tree.nodes@[k].linked_character_ids@),
        None => Seq::<Seq<char>>::empty(),
    };
    assert(str_views(focus@) =~= own);
    gather_edge_chars(&tree.nodes, &tree.edges, &id, &mut focus);
    let ghost f0 = str_views(focus@);
    assert(f0 == edge_chars(tree.nodes@, tree.edges@, node_id@, own));
    let ghost pv = pair_views(plots@);
    let mut i: usize = 0;
    while i < plots.len()
        invariant
            i <= plots@.len(),
            pv == pair_views(plots@),
            id@ == node_id@,
            str_views(focus@) == plots_fold(tree.nodes@, pv.take(i as int), f0).0,
            land_views(beats@) == ob + plots_fold(tree.nodes@, pv.take(i as int), f0).1,
        decreases plots@.len() - i,
    {
        assert(pv.take(i + 1).drop_last() =~= pv.take(i as int));
        assert(pv.take(i + 1).last() == (plots@[i as int].0@, plots@[i as int].1@));
        let ghost bb = land_views(beats@);
        plot_step(tree, &plots[i].0, &plots[i].1, &mut focus, &mut beats);
        proof {
            let prev = plots_fold(tree.nodes@, pv.take(i as int), f0);
            match first_node(tree.nodes@, plots@[i as int].0@) {
                Some(k) => {
                    let text = plot_text(tree.nodes@[k].outline@, plots@[i as int].1@);
                    if trim(text).len() >= 4 {
                        assert(land_views(beats@) =~= ob + prev.1.push(("plot"@, tree.nodes@[k].label@, first_chars(text, 280))));
                    }
                },
                None => {},
            }
        }
        i += 1;
    }
    assert(pv.take(plots@.len() as int) =~= pv);
    let ghost pb = land_views(beats@);
    let ghost fv = str_views(focus@);
    let mut j: usize = 0;
    while j < focus.len()
        invariant
            j <= focus@.len(),
            fv == str_views(focus@),
            land_views(beats@) == pb + char_beats(tree.nodes@, fv.take(j as int)),
        decreases focus@.len() - j,
    {
        assert(fv.take(j + 1).drop_last() =~= fv.take(j as int));
        match find_node(&tree.nodes, &focus[j]) {
            Some(k) => {
                let ghost bb = land_views(beats@);
                let t = char_text_exec(&tree.nodes[k]);
                push_beat(&mut beats, "character", String::from_str(tree.nodes[k].label.as_str()), string_of(&t));
                assert(land_views(beats@) =~= pb + char_beats(tree.nodes@, fv.take(j + 1)));
            },
            None => {},
        }
        j += 1;
    }
    assert(fv.take(focus@.len() as int) =~= fv);
    proof {
        let pf = plots_fold(tree.nodes@, pv, f0);
        assert(pb == ob + pf.1);
        assert(fv == pf.0);
        assert(land_views(beats@) =~= outline_part(tree.nodes@, node_id@) + pf.1 + char_beats(tree.nodes@, pf.0));
    }
    beats
}

/// Where a beat kind stands in a chapter's list of beats.
pub open spec fn kind_rank(k: Seq<char>) -> int {
    if k == "outline"@ { 0 } else if k == "plot"@ { 1 } else { 2 }
}

proof fn lemma_plot_beats_kind(ns: Seq<TreeNode>, plots: Seq<(Seq<char>, Seq<char>)>, focus: Seq<Seq<char>>)
    ensures
        forall|i: int| 0 <= i < plots_fold(ns, plots, focus).1.len() ==> (#[trigger] plots_fold(ns, plots, focus).1[i]).0 == "plot"@,
    decreases plots.len(),
{
    if plots.len() > 0 {
        lemma_plot_beats_kind(ns, plots.drop_last(), focus);
        let prev = plots_fold(ns, plots.drop_last(), focus).1;
        assert forall|i: int| 0 <= i < plots_fold(ns, plots, focus).1.len() implies (#[trigger] plots_fold(ns, plots, focus).1[i]).0 == "plot"@ by {
            if i < prev.len() {
                assert(plots_fold(ns, plots, focus).1[i] == prev[i]);
            }
        }
    }
}

proof fn lemma_char_beats_kind(ns: Seq<TreeNode>, ids: Seq<Seq<char>>)
    ensures
        forall|i: int| 0 <= i < char_beats(ns, ids).len() ==> (#[trigger] char_beats(ns, ids)[i]).0 == "character"@,
    decreases ids.len(),
{
    if ids.len() > 0 {
        lemma_char_beats_kind(ns, ids.drop_last());
        let prev = char_beats(ns, ids.drop_last());
        assert forall|i: int| 0 <= i < char_beats(ns, ids).len() implies (#[trigger] char_beats(ns, ids)[i]).0 == "character"@ by {
            if i < prev.len() {
                assert(char_beats(ns, ids)[i] == prev[i]);
            }
        }
    }
}

/// A chapter's beats come in a fixed order: its outline beats, then its
/// plot cards' beats, then its characters' beats.
pub proof fn land_beats_in_kind_order(tree: NovelTree, node_id: Seq<char>, plots: Seq<(Seq<char>, Seq<char>)>)
    ensures
        forall|i: int, j: int| 0 <= i < j < land_beats_spec(tree, node_id, plots).len()
            ==> kind_rank((#[trigger] land_beats_spec(tree, node_id, plots)[i]).0)
                <= kind_rank((#[trigger] land_beats_spec(tree, node_id, plots)[j]).0),
{
    reveal_strlit("outline");
    reveal_strlit("plot");
    reveal_strlit("character");
    assert("outline"@.len() == 7 && "plot"@.len() == 4 && "character"@.len() == 9);
    assert("plot"@ != "outline"@ && "character"@ != "outline"@ && "character"@ != "plot"@);
    let ns = tree.nodes@;
    let own = match first_node(ns, node_id) {
        Some(k) => str_views(ns[k].linked_character_ids@),
        None => Seq::empty(),
    };
    let focus = edge_chars(ns, tree.edges@, node_id, own);
    let pf = plots_fold(ns, plots, focus);
    let a = outline_part(ns, node_id);
    let b = pf.1;
    let c = char_beats(ns, pf.0);
    lemma_plot_beats_kind(ns, plots, focus);
    lemma_char_beats_kind(ns, pf.0);
    let r = land_beats_spec(tree, node_id, plots);
    assert(r == a + b + c);
    assert forall|i: int| 0 <= i < r.len() implies kind_rank((#[trigger] r[i]).0)
        == (if i < a.len() { 0int } else if i < a.len() + b.len() { 1int } else { 2int }) by {
        if i < a.len() {
            assert(r[i] == a[i]);
            let d = match first_node(ns, node_id) {
                Some(k) => detailed_items(sviews(ns[k].detailed_outline@)),
                None => Seq::empty(),
            };
            let ol = match first_node(ns, node_id) {
                Some(k) => ns[k].outline@,
                None => Seq::empty(),
            };
            if d.len() > 0 {
                assert(a == numbered(d, "细纲§"@));
                assert(a[i].0 == "outline"@);
            } else {
                assert(a == numbered(outline_beats_spec(ol), "§"@));
                assert(a[i].0 == "outline"@);
            }
            assert(kind_rank(r[i].0) == 0);
        } else if i < a.len() + b.len() {
            assert(r[i] == b[i - a.len()]);
            assert(b[i - a.len()].0 == "plot"@);
            assert(kind_rank(r[i].0) == 1);
        } else {
            assert(r[i] == c[i - a.len() - b.len()]);
            assert(c[i - a.len() - b.len()].0 == "character"@);
            assert(kind_rank(r[i].0) == 2);
        }
    }
}

} // verus!
