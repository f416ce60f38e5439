//! The tree a new novel starts with: the root card and the characters the
//! creation plan names, each linked to the root.
use vstd::prelude::*;
use crate::chapter_cards::drafted_card;
use crate::json::{json_get, Json};
use crate::models::{str_views, CharacterCard, NodeKind, NodePosition, NovelTree, TreeEdge, TreeNode};
use crate::novel_create::str_or;
use crate::text::{append_decimal, chars_of, decimal, string_of};
use crate::tree_edit::{char_link, ev, evs, push_edge, push_id};

verus! {

/// The id of the `i`-th planned character (from 0): `char-1`, `char-2`, ….
pub open spec fn char_id(i: nat) -> Seq<char> {
    "char-"@ + decimal(i + 1)
}

/// The root card of a new tree.
pub open spec fn initial_root(n: TreeNode, title: Seq<char>, synopsis: Seq<char>, wmin: u32, wmax: u32, cc: u32, k: nat) -> bool {
    &&& n.id@ == "root"@
    &&& n.kind == NodeKind::Novel
    &&& n.label@ == title
    &&& n.outline@ == synopsis
    &&& n.detailed_outline@.len() == 0
    &&& n.character is None && n.knowledge is None && n.side_plot is None
    &&& str_views(n.linked_character_ids@) == Seq::new(k, |i: int| char_id(i as nat))
    &&& n.linked_side_plot_ids@.len() == 0
    &&& n.linked_knowledge_ids@.len() == 0
    &&& n.position == NodePosition { x: 280, y: 0 }
    &&& n.word_count == 0
    &&& n.word_count_min == wmin && n.word_count_max == wmax && n.chapter_count == cc
}

/// The card of the `i`-th planned character `c`.
pub open spec fn initial_char(n: TreeNode, c: Json, i: nat) -> bool {
    &&& n.id@ == char_id(i)
    &&& n.kind == NodeKind::Character
    &&& n.label@ == str_or(c, "label"@, "新角色"@)
    &&& n.outline@.len() == 0
    &&& n.detailed_outline@.len() == 0
    &&& n.character matches Some(x) && drafted_card(x, c, "配角"@, "中立"@)
    &&& n.knowledge is None && n.side_plot is None
    &&& n.linked_character_ids@.len() == 0
    &&& n.linked_side_plot_ids@.len() == 0
    &&& n.linked_knowledge_ids@.len() == 0
    &&& n.position == NodePosition { x: 40, y: (100 + 140 * i) as i64 }
    &&& n.word_count == 0 && n.word_count_min == 0 && n.word_count_max == 0 && n.chapter_count == 0
}

/// A new novel's tree: its root card (title as label, synopsis as outline,
/// the word and chapter targets), then one card per planned character in
/// plan order, each listed by the root and joined to it by a character
/// link. No chapters are made.
pub open spec fn initial_tree_spec(t: NovelTree, novel_id: Seq<char>, title: Seq<char>, synopsis: Seq<char>, wmin: u32, wmax: u32, cc: u32, chars: Seq<Json>) -> bool {
    &&& t.novel_id@ == novel_id
    &&& t.nodes@.len() == chars.len() + 1
    &&& initial_root(t.nodes@[0], title, synopsis, wmin, wmax, cc, chars.len())
    &&& forall|i: int| 0 <= i < chars.len() ==> #[trigger] initial_char(t.nodes@[i + 1], chars[i], i as nat)
    &&& evs(t.edges@) == Seq::new(chars.len(), |i: int| char_link("root"@, char_id(i as nat)))
}

fn str_exec(v: &Json, key: &str, dflt: &str) -> (r: String)
    ensures
        r@ == str_or(*v, key@, dflt@),
{
    match json_get(v, key) {
        Some(Json::Str(s)) => String::from_str(s.as_str()),
        _ => String::from_str(dflt),
    }
}

fn char_card(c: &Json, i: usize) -> (n: TreeNode)
    requires
        i < u32::MAX,
    ensures
        initial_char(n, *c, i as nat),
{
    let mut cc = CharacterCard::default();
    cc.role = str_exec(c, "role", "配角");
    cc.personality = str_exec(c, "personality", "");
    cc.motto = str_exec(c, "motto", "");
    cc.gender = str_exec(c, "gender", "");
    cc.style = str_exec(c, "style", "");
    cc.alignment = str_exec(c, "alignment", "中立");
    cc.age = str_exec(c, "age", "");
    cc.constraints = str_exec(c, "constraints", "");
    let mut id = chars_of("char-");
    append_decimal(&mut id, (i + 1) as u64);
    TreeNode {
        id: string_of(&id),
        kind: NodeKind::Character,
        label: str_exec(c, "label", "新角色"),
        outline: String::new(),
        detailed_outline: Vec::new(),
        character: Some(cc),
        knowledge: None,
        side_plot: None,
        linked_character_ids: Vec::new(),
        linked_side_plot_ids: Vec::new(),
        linked_knowledge_ids: Vec::new(),
        position: NodePosition { x: 40, y: 100 + 140 * (i as i64) },
        word_count: 0,
        word_count_min: 0,
        word_count_max: 0,
        chapter_count: 0,
    }
}

/// See `initial_tree_spec`.
pub fn build_initial_tree(
    novel_id: &str,
    title: &str,
    synopsis: &str,
    word_count_min: u32,
    word_count_max: u32,
    chapter_count: u32,
    characters: Option<&[Json]>,
) -> (t: NovelTree)
    requires
        match characters { Some(cs) => cs@.len() < u32::MAX, None => true },
    ensures
        initial_tree_spec(t, novel_id@, title@, synopsis@, word_count_min, word_count_max, chapter_count,
            match characters { Some(cs) => cs@, None => Seq::empty() }),
{
    let empty: Vec<Json> = Vec::new();
    let cs: &[Json] = match characters {
        Some(cs) => cs,
        None => empty.as_slice(),
    };
    let ghost cv = match characters { Some(cs) => cs@, None => Seq::<Json>::empty() };
    assert(cs@ == cv);
    let mut root_links: Vec<String> = Vec::new();
    let mut nodes: Vec<TreeNode> = Vec::new();
    let mut edges: Vec<TreeEdge> = Vec::new();
    let mut i: usize = 0;
    while i < cs.len()
        invariant
            i <= cs@.len(),
            cs@ == cv,
            cs@.len() < u32::MAX,
            nodes@.len() == i,
            str_views(root_links@) =~= Seq::new(i as nat, |k: int| char_id(k as nat)),
            forall|k: int| 0 <= k < i ==> #[trigger] initial_char(nodes@[k], cs@[k], k as nat),
            evs(edges@) =~= Seq::new(i as nat, |k: int| char_link("root"@, char_id(k as nat))),
        decreases cs@.len() - i,
    {
        let n = char_card(&cs[i], i);
        let cid = String::from_str(n.id.as_str());
        let mut eid = chars_of("e-root-");
        crate::text::append_str(&mut eid, cid.as_str());
        let e = TreeEdge {
            id: string_of(&eid),
            source: String::from_str("root"),
            target: String::from_str(cid.as_str()),
            kind: String::from_str("character"),
            source_handle: Some(String::from_str("left")),
            target_handle: Some(String::from_str("right")),
            label: String::new(),
        };
        proof {
            reveal_strlit("e-root-");
            reveal_strlit("e-");
            reveal_strlit("root");
            reveal_strlit("-");
            assert(eid@ =~= "e-"@ + "root"@ + "-"@ + char_id(i as nat));
        }
        assert(ev(e) == char_link("root"@, char_id(i as nat)));
        push_edge(&mut edges, e);
        push_id(&mut root_links, cid);
        nodes.push(n);
        i += 1;
    }
    let root = TreeNode {
        id: String::from_str("root"),
        kind: NodeKind::Novel,
        label: String::from_str(title),
        outline: String::from_str(synopsis),
        detailed_outline: Vec::new(),
        character: None,
        knowledge: None,
        side_plot: None,
        linked_character_ids: root_links,
        linked_side_plot_ids: Vec::new(),
        linked_knowledge_ids: Vec::new(),
        position: NodePosition { x: 280, y: 0 },
        word_count: 0,
        word_count_min: word_count_min,
        word_count_max: word_count_max,
        chapter_count: chapter_count,
    };
    let ghost cards = nodes@;
    nodes.insert(0, root);
    assert forall|k: int| 0 <= k < cv.len() implies #[trigger] initial_char(nodes@[k + 1], cv[k], k as nat) by {
        assert(nodes@[k + 1] == cards[k]);
    }
    NovelTree { novel_id: String::from_str(novel_id), nodes, edges }
}

} // verus!
