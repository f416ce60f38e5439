//! The structure tree of a novel, as far as the card formatters read it:
//! nodes with their kind, texts, knowledge payload and links, and the edges
//! between them.
//!
//! A node's position on the canvas is held as two integer keys whose order
//! is the order of its coordinates; nodes linked to a host are listed in
//! that order.
use vstd::prelude::*;
use crate::text::{chars_of, eq, trim, trimmed};
use crate::kb_context::{lex_lt, lex_lt_exec};

verus! {

/// Kind of a tree node.
#[derive(Debug, Clone, Copy, PartialEq, Eq, Structural)]
pub enum NodeKind {
    Novel,
    Volume,
    Chapter,
    Character,
    SidePlot,
    Knowledge,
}

/// Canvas position of a node, as order keys of its coordinates.
#[derive(Debug, Clone, Copy, PartialEq, Eq, Structural)]
pub struct NodePosition {
    pub x: i64,
    pub y: i64,
}

/// One axiom of the world's core laws.
pub struct WorldAxiom {
    pub name: String,
    pub statement: String,
    pub boundary: String,
    pub cost: String,
    pub mechanism: String,
}

/// Core laws of the world.
pub struct CoreLawsPayload {
    pub premise: String,
    pub axioms: Vec<WorldAxiom>,
    pub taboos: Vec<String>,
    pub power_system: String,
    pub power_expression: String,
}

/// Foundations of existence: death, time, life span, disease.
pub struct ExistencePayload {
    pub premise: String,
    pub death: String,
    pub calendar: String,
    pub lifespan: String,
    pub disease_reproduction: String,
}

/// How information travels in the world.
pub struct InfoFlowPayload {
    pub premise: String,
    pub info_speed: String,
    pub info_barrier: String,
    pub rumor_truth: String,
    pub knowledge_carrier: String,
}

/// A religion of the world.
pub struct WorldReligion {
    pub name: String,
    pub core_belief: String,
    pub followers_scope: String,
}

/// A major event of the world's history.
pub struct MajorEvent {
    pub title: String,
    pub event: String,
    pub long_term_impact: String,
}

/// History and culture of the world.
pub struct HistoryCulturePayload {
    pub premise: String,
    pub customs: String,
    pub economy: String,
    pub religions: Vec<WorldReligion>,
    pub daily_slices: String,
    pub major_events: Vec<MajorEvent>,
}

/// What a knowledge card holds.
pub struct KnowledgeCardPayload {
    pub book_ids: Vec<String>,
    pub extract_prompt: String,
    pub extracted: String,
    pub from_canon: bool,
    pub slot: String,
    pub core_laws: Option<CoreLawsPayload>,
    pub world_axiom: Option<WorldAxiom>,
    pub existence: Option<ExistencePayload>,
    pub info_flow: Option<InfoFlowPayload>,
    pub history_culture: Option<HistoryCulturePayload>,
    pub world_religion: Option<WorldReligion>,
    pub major_event: Option<MajorEvent>,
}

/// Where a side plot stands: its status word and whether a root plot has
/// absorbed it.
pub struct SidePlotMeta {
    pub status: String,
    pub absorbed: bool,
}

/// A node of the structure tree.
pub struct TreeNode {
    pub id: String,
    pub kind: NodeKind,
    pub label: String,
    pub outline: String,
    pub detailed_outline: Vec<String>,
    pub character: Option<CharacterCard>,
    pub knowledge: Option<KnowledgeCardPayload>,
    pub side_plot: Option<SidePlotMeta>,
    pub linked_character_ids: Vec<String>,
    pub linked_side_plot_ids: Vec<String>,
    pub linked_knowledge_ids: Vec<String>,
    pub position: NodePosition,
    pub word_count: u32,
    pub word_count_min: u32,
    pub word_count_max: u32,
    pub chapter_count: u32,
}

/// A link between two nodes.
pub struct TreeEdge {
    pub id: String,
    pub source: String,
    pub target: String,
    pub kind: String,
    pub source_handle: Option<String>,
    pub target_handle: Option<String>,
    pub label: String,
}

/// The structure tree of one novel.
pub struct NovelTree {
    pub novel_id: String,
    pub nodes: Vec<TreeNode>,
    pub edges: Vec<TreeEdge>,
}

/// Where a character stands in the world.
pub struct CharacterWorldPosition {
    pub birth_class: String,
    pub faction: String,
    pub social_role: String,
    pub conflict_stance: String,
}

/// Which laws of the world a character embodies, is shaped by, challenges.
pub struct CharacterWorldAnchors {
    pub embodies_law: String,
    pub embodies_note: String,
    pub shaped_by_law: String,
    pub shaped_by_note: String,
    pub will_challenge: String,
}

/// One relation of a character.
pub struct CharacterRelation {
    pub name: String,
    pub relation: String,
    pub definition: String,
    pub default_attitude: String,
    pub hidden_tension: String,
}

/// A character's core belief and the author's verdict on it.
pub struct CharacterCoreBelief {
    pub belief: String,
    pub author_verdict: String,
    pub source: String,
}

/// The deeper dimensions of a character.
pub struct CharacterDeep {
    pub desire_surface: String,
    pub desire_deep: String,
    pub fear: String,
    pub fear_source: String,
    pub secret_content: String,
    pub secret_who_knows: String,
    pub secret_should_know: String,
    pub secret_exposure: String,
    pub line_trigger: String,
    pub line_source: String,
    pub line_reaction: String,
    pub trauma_wound: String,
    pub trauma_trigger: String,
    pub trauma_stress: String,
    pub trauma_imprint: String,
    pub contradiction_poles: String,
    pub contradiction_source: String,
    pub contradiction_trajectory: String,
    pub arc_growth: String,
    pub arc_fall: String,
    pub arc_choice: String,
}

/// How a character speaks.
pub struct CharacterVoice {
    pub positioning: String,
    pub cognitive_filter: String,
    pub sentence_length: String,
    pub pause: String,
    pub patterns: String,
    pub catchphrases: Vec<String>,
    pub emotion_anger: String,
    pub emotion_tense: String,
    pub emotion_mask: String,
    pub emotion_sad: String,
    pub emotion_happy: String,
    pub banned: String,
    pub body_language: String,
}

/// A character card: the structured fields, and the older flat fields
/// (`role`, `alignment`, `motto`, `style`, `personality`, `constraints`)
/// that cards written before them still carry.
pub struct CharacterCard {
    pub gender: String,
    pub age: String,
    pub aliases: String,
    pub role: String,
    pub alignment: String,
    pub motto: String,
    pub personality: String,
    pub style: String,
    pub constraints: String,
    pub world_position: CharacterWorldPosition,
    pub world_anchors: CharacterWorldAnchors,
    pub relations: Vec<CharacterRelation>,
    pub core_belief: CharacterCoreBelief,
    pub deep: CharacterDeep,
    pub voice: CharacterVoice,
}

impl Default for KnowledgeCardPayload {
    /// A payload with no books, texts, slot or structured parts.
    fn default() -> (r: Self)
        ensures
            r.book_ids@.len() == 0 && r.extract_prompt@.len() == 0 && r.extracted@.len() == 0,
            !r.from_canon && r.slot@.len() == 0,
            r.core_laws is None && r.world_axiom is None && r.existence is None,
            r.info_flow is None && r.history_culture is None && r.world_religion is None,
            r.major_event is None,
    {
        KnowledgeCardPayload {
            book_ids: Vec::new(),
            extract_prompt: String::new(),
            extracted: String::new(),
            from_canon: false,
            slot: String::new(),
            core_laws: None,
            world_axiom: None,
            existence: None,
            info_flow: None,
            history_culture: None,
            world_religion: None,
            major_event: None,
        }
    }
}

/// A card with every text empty and no relations or catchphrases.
pub open spec fn blank_card(r: CharacterCard) -> bool {
    &&& r.gender@.len() == 0 && r.age@.len() == 0
    &&& r.role@.len() == 0 && r.alignment@.len() == 0 && r.motto@.len() == 0
    &&& r.personality@.len() == 0 && r.style@.len() == 0 && r.constraints@.len() == 0
    &&& blank_rest(r)
}

/// Every part of a card but its eight flat texts (gender, age, role,
/// alignment, motto, personality, style, constraints) is empty.
pub open spec fn blank_rest(r: CharacterCard) -> bool {
    &&& r.aliases@.len() == 0
    &&& r.world_position.birth_class@.len() == 0 && r.world_position.faction@.len() == 0
    &&& r.world_position.social_role@.len() == 0 && r.world_position.conflict_stance@.len() == 0
    &&& r.world_anchors.embodies_law@.len() == 0 && r.world_anchors.embodies_note@.len() == 0
    &&& r.world_anchors.shaped_by_law@.len() == 0 && r.world_anchors.shaped_by_note@.len() == 0
    &&& r.world_anchors.will_challenge@.len() == 0
    &&& r.relations@.len() == 0
    &&& r.core_belief.belief@.len() == 0 && r.core_belief.author_verdict@.len() == 0
    &&& r.core_belief.source@.len() == 0
    &&& r.deep.desire_surface@.len() == 0 && r.deep.desire_deep@.len() == 0
    &&& r.deep.fear@.len() == 0 && r.deep.fear_source@.len() == 0
    &&& r.deep.secret_content@.len() == 0 && r.deep.secret_who_knows@.len() == 0
    &&& r.deep.secret_should_know@.len() == 0 && r.deep.secret_exposure@.len() == 0
    &&& r.deep.line_trigger@.len() == 0 && r.deep.line_source@.len() == 0
    &&& r.deep.line_reaction@.len() == 0 && r.deep.trauma_wound@.len() == 0
    &&& r.deep.trauma_trigger@.len() == 0 && r.deep.trauma_stress@.len() == 0
    &&& r.deep.trauma_imprint@.len() == 0 && r.deep.contradiction_poles@.len() == 0
    &&& r.deep.contradiction_source@.len() == 0 && r.deep.contradiction_trajectory@.len() == 0
    &&& r.deep.arc_growth@.len() == 0 && r.deep.arc_fall@.len() == 0 && r.deep.arc_choice@.len() == 0
    &&& r.voice.positioning@.len() == 0 && r.voice.cognitive_filter@.len() == 0
    &&& r.voice.sentence_length@.len() == 0 && r.voice.pause@.len() == 0
    &&& r.voice.patterns@.len() == 0 && r.voice.catchphrases@.len() == 0
    &&& r.voice.emotion_anger@.len() == 0 && r.voice.emotion_tense@.len() == 0
    &&& r.voice.emotion_mask@.len() == 0 && r.voice.emotion_sad@.len() == 0
    &&& r.voice.emotion_happy@.len() == 0 && r.voice.banned@.len() == 0
    &&& r.voice.body_language@.len() == 0
}

impl Default for CharacterCard {
    /// A card with every text empty and no relations or catchphrases.
    fn default() -> (r: Self)
        ensures
            blank_card(r),
    {
        CharacterCard {
            gender: String::new(),
            age: String::new(),
            aliases: String::new(),
            role: String::new(),
            alignment: String::new(),
            motto: String::new(),
            personality: String::new(),
            style: String::new(),
            constraints: String::new(),
            world_position: CharacterWorldPosition {
                birth_class: String::new(),
                faction: String::new(),
                social_role: String::new(),
                conflict_stance: String::new(),
            },
            world_anchors: CharacterWorldAnchors {
                embodies_law: String::new(),
                embodies_note: String::new(),
                shaped_by_law: String::new(),
                shaped_by_note: String::new(),
                will_challenge: String::new(),
            },
            relations: Vec::new(),
            core_belief: CharacterCoreBelief {
                belief: String::new(),
                author_verdict: String::new(),
                source: String::new(),
            },
            deep: CharacterDeep {
                desire_surface: String::new(),
                desire_deep: String::new(),
                fear: String::new(),
                fear_source: String::new(),
                secret_content: String::new(),
                secret_who_knows: String::new(),
                secret_should_know: String::new(),
                secret_exposure: String::new(),
                line_trigger: String::new(),
                line_source: String::new(),
                line_reaction: String::new(),
                trauma_wound: String::new(),
                trauma_trigger: String::new(),
                trauma_stress: String::new(),
                trauma_imprint: String::new(),
                contradiction_poles: String::new(),
                contradiction_source: String::new(),
                contradiction_trajectory: String::new(),
                arc_growth: String::new(),
                arc_fall: String::new(),
                arc_choice: String::new(),
            },
            voice: CharacterVoice {
                positioning: String::new(),
                cognitive_filter: String::new(),
                sentence_length: String::new(),
                pause: String::new(),
                patterns: String::new(),
                catchphrases: Vec::new(),
                emotion_anger: String::new(),
                emotion_tense: String::new(),
                emotion_mask: String::new(),
                emotion_sad: String::new(),
                emotion_happy: String::new(),
                banned: String::new(),
                body_language: String::new(),
            },
        }
    }
}

/// The trimmed slot of a knowledge card; empty for a node without one.
pub open spec fn slot_spec(n: TreeNode) -> Seq<char> {
    match n.knowledge {
        Some(k) => trim(k.slot@),
        None => Seq::empty(),
    }
}

/// A knowledge node whose slot is `slot`.
pub open spec fn is_slot_card(n: TreeNode, slot: Seq<char>) -> bool {
    n.kind == NodeKind::Knowledge && slot_spec(n) == slot
}

/// The trimmed slot of a node's knowledge card ("" without one).
pub fn node_slot(n: &TreeNode) -> (r: Vec<char>)
    ensures
        r@ == slot_spec(*n),
{
    match &n.knowledge {
        Some(k) => trimmed(&chars_of(k.slot.as_str())),
        None => Vec::new(),
    }
}

/// Whether `n` is a knowledge card of the given slot.
pub fn node_is_slot_card(n: &TreeNode, slot: &str) -> (r: bool)
    ensures
        r == is_slot_card(*n, slot@),
{
    match n.kind {
        NodeKind::Knowledge => {
            let s = node_slot(n);
            crate::text::eq_str(&s, slot)
        },
        _ => false,
    }
}

/// Whether `nodes[i]` is the first node with this id.
pub open spec fn is_first_with_id(nodes: Seq<TreeNode>, id: Seq<char>, i: int) -> bool {
    &&& 0 <= i < nodes.len()
    &&& nodes[i].id@ == id
    &&& forall|j: int| 0 <= j < i ==> nodes[j].id@ != id
}

/// Index of the first node with this id.
pub open spec fn first_node(nodes: Seq<TreeNode>, id: Seq<char>) -> Option<int> {
    if exists|i: int| 0 <= i < nodes.len() && nodes[i].id@ == id {
        Some(choose|i: int| is_first_with_id(nodes, id, i))
    } else {
        None
    }
}

proof fn lemma_first_id_witness(nodes: Seq<TreeNode>, id: Seq<char>, i: int)
    requires
        0 <= i < nodes.len(),
        nodes[i].id@ == id,
    ensures
        exists|m: int| is_first_with_id(nodes, id, m),
    decreases i,
{
    if exists|j: int| 0 <= j < i && nodes[j].id@ == id {
        let j = choose|j: int| 0 <= j < i && nodes[j].id@ == id;
        lemma_first_id_witness(nodes, id, j);
    } else {
        assert(is_first_with_id(nodes, id, i));
    }
}

/// What `first_node` gives: the first node with the id, or none has it.
pub proof fn lemma_first_node_props(nodes: Seq<TreeNode>, id: Seq<char>)
    ensures
        match first_node(nodes, id) {
            Some(k) => is_first_with_id(nodes, id, k),
            None => forall|j: int| 0 <= j < nodes.len() ==> nodes[j].id@ != id,
        },
{
    if exists|i: int| 0 <= i < nodes.len() && nodes[i].id@ == id {
        let i = choose|i: int| 0 <= i < nodes.len() && nodes[i].id@ == id;
        lemma_first_id_witness(nodes, id, i);
    }
}

pub proof fn lemma_first_node(nodes: Seq<TreeNode>, id: Seq<char>, i: int)
    requires
        is_first_with_id(nodes, id, i),
    ensures
        first_node(nodes, id) == Some(i),
{
    assert(exists|k: int| 0 <= k < nodes.len() && nodes[k].id@ == id);
    let c = choose|k: int| is_first_with_id(nodes, id, k);
    assert(is_first_with_id(nodes, id, c));
    if c < i {
        assert(nodes[c].id@ != id);
    }
    if c > i {
        assert(nodes[i].id@ != id);
    }
}

/// Index of the first node with id `id`.
pub fn find_node(nodes: &Vec<TreeNode>, id: &String) -> (r: Option<usize>)
    ensures
        match r {
            Some(i) => i < nodes.len() && first_node(nodes@, id@) == Some(i as int),
            None => first_node(nodes@, id@) is None,
        },
{
    let mut i: usize = 0;
    while i < nodes.len()
        invariant
            i <= nodes.len(),
            forall|j: int| 0 <= j < i ==> nodes@[j].id@ != id@,
        decreases nodes.len() - i,
    {
        if nodes[i].id == *id {
            proof {
                lemma_first_node(nodes@, id@, i as int);
            }
            return Some(i);
        }
        i += 1;
    }
    None
}

/// The node at the other end of `e` from `host`, for a knowledge edge.
pub open spec fn knowledge_other(e: TreeEdge, host: Seq<char>) -> Option<Seq<char>> {
    if e.kind@ != "knowledge"@ {
        None
    } else if e.source@ == host {
        Some(e.target@)
    } else if e.target@ == host {
        Some(e.source@)
    } else {
        None
    }
}

/// Ids reached from the edges, in edge order.
pub open spec fn edge_ids(edges: Seq<TreeEdge>, host: Seq<char>) -> Seq<Seq<char>>
    decreases edges.len(),
{
    if edges.len() == 0 {
        Seq::empty()
    } else {
        let rest = edge_ids(edges.drop_last(), host);
        match knowledge_other(edges.last(), host) {
            Some(o) => rest.push(o),
            None => rest,
        }
    }
}

pub open spec fn str_views(v: Seq<String>) -> Seq<Seq<char>> {
    v.map_values(|s: String| s@)
}

/// Ids linked to `host`: its own linked knowledge ids (of the first node
/// with its id), then the far ends of its knowledge edges.
pub open spec fn linked_ids(tree: NovelTree, host: Seq<char>) -> Seq<Seq<char>> {
    let own = match first_node(tree.nodes@, host) {
        Some(h) => str_views(tree.nodes@[h].linked_knowledge_ids@),
        None => Seq::empty(),
    };
    own + edge_ids(tree.edges@, host)
}

/// Canvas order: by x, then y, then id.
pub open spec fn node_before(a: TreeNode, b: TreeNode) -> bool {
    ||| a.position.x < b.position.x
    ||| (a.position.x == b.position.x && a.position.y < b.position.y)
    ||| (a.position.x == b.position.x && a.position.y == b.position.y && lex_lt(a.id@, b.id@))
}

/// Where `x` goes in `sorted`: before the first node it comes before.
pub open spec fn node_ins_pos(sorted: Seq<TreeNode>, x: TreeNode) -> int
    decreases sorted.len(),
{
    if sorted.len() == 0 {
        0
    } else if node_before(x, sorted[0]) {
        0
    } else {
        1 + node_ins_pos(sorted.drop_first(), x)
    }
}

/// The nodes that a list of references points at.
pub open spec fn derefs(s: Seq<&TreeNode>) -> Seq<TreeNode> {
    s.map_values(|n: &TreeNode| *n)
}

pub open spec fn has_id(s: Seq<TreeNode>, id: Seq<char>) -> bool {
    exists|i: int| 0 <= i < s.len() && s[i].id@ == id
}

/// The distinct linked cards of `slot`, in canvas order (`ids` taken in
/// order, each looked up by its first node).
pub open spec fn pick_linked(nodes: Seq<TreeNode>, ids: Seq<Seq<char>>, slot: Seq<char>) -> Seq<TreeNode>
    decreases ids.len(),
{
    if ids.len() == 0 {
        Seq::empty()
    } else {
        let acc = pick_linked(nodes, ids.drop_last(), slot);
        match first_node(nodes, ids.last()) {
            Some(i) => if is_slot_card(nodes[i], slot) && !has_id(acc, ids.last()) {
                acc.insert(node_ins_pos(acc, nodes[i]), nodes[i])
            } else {
                acc
            },
            None => acc,
        }
    }
}

/// The knowledge cards of `slot` linked to `host`, in canvas order.
pub open spec fn linked_by_slot_spec(tree: NovelTree, host: Seq<char>, slot: Seq<char>) -> Seq<TreeNode> {
    pick_linked(tree.nodes@, linked_ids(tree, host), slot)
}

proof fn lemma_ins_pos_bound(sorted: Seq<TreeNode>, x: TreeNode)
    ensures
        0 <= node_ins_pos(sorted, x) <= sorted.len(),
    decreases sorted.len(),
{
    if sorted.len() > 0 {
        lemma_ins_pos_bound(sorted.drop_first(), x);
    }
}

proof fn lemma_ins_pos_scan(sorted: Seq<TreeNode>, x: TreeNode, p: int)
    requires
        0 <= p <= sorted.len(),
        forall|j: int| 0 <= j < p ==> !node_before(x, #[trigger] sorted[j]),
        p == sorted.len() || node_before(x, sorted[p]),
    ensures
        node_ins_pos(sorted, x) == p,
    decreases p,
{
    if p > 0 {
        assert(!node_before(x, sorted[0]));
        let t = sorted.drop_first();
        assert forall|j: int| 0 <= j < p - 1 implies !node_before(x, #[trigger] t[j]) by {
            assert(t[j] == sorted[j + 1]);
        }
        if p < sorted.len() {
            assert(t[p - 1] == sorted[p]);
        }
        lemma_ins_pos_scan(t, x, p - 1);
    }
}

fn before_exec(a: &TreeNode, b: &TreeNode) -> (r: bool)
    ensures
        r == node_before(*a, *b),
{
    if a.position.x < b.position.x {
        true
    } else if a.position.x == b.position.x && a.position.y < b.position.y {
        true
    } else if a.position.x == b.position.x && a.position.y == b.position.y {
        lex_lt_exec(&chars_of(a.id.as_str()), &chars_of(b.id.as_str()))
    } else {
        false
    }
}

/// Ids linked to the node `host_id`, in the order of `linked_ids`.
fn collect_linked_ids(tree: &NovelTree, host_id: &String) -> (r: Vec<String>)
    ensures
        str_views(r@) == linked_ids(*tree, host_id@),
{
    let mut out: Vec<String> = Vec::new();
    match find_node(&tree.nodes, host_id) {
        Some(h) => {
            out = tree.nodes[h].linked_knowledge_ids.clone();
        },
        None => {},
    }
    let ghost own = str_views(out@);
    let mut i: usize = 0;
    while i < tree.edges.len()
        invariant
            i <= tree.edges.len(),
            str_views(out@) == own + edge_ids(tree.edges@.subrange(0, i as int), host_id@),
        decreases tree.edges.len() - i,
    {
        let e = &tree.edges[i];
        let ghost pre = tree.edges@.subrange(0, i as int);
        assert(tree.edges@.subrange(0, i + 1).drop_last() =~= pre);
        assert(tree.edges@.subrange(0, i + 1).last() == *e);
        let is_k = crate::text::eq_str(&chars_of(e.kind.as_str()), "knowledge");
        let ghost before = out@;
        if is_k {
            if e.source == *host_id {
                let t = e.target.clone();
                out.push(t);
                assert(str_views(out@) =~= str_views(before).push(e.target@));
            } else if e.target == *host_id {
                let t = e.source.clone();
                out.push(t);
                assert(str_views(out@) =~= str_views(before).push(e.source@));
            }
        }
        i += 1;
    }
    assert(tree.edges@.subrange(0, tree.edges.len() as int) =~= tree.edges@);
    out
}

/// The knowledge cards of `slot` linked to the node `host_id` (by its
/// linked ids or by knowledge edges), each once, in canvas order.
pub fn linked_by_slot<'a>(tree: &'a NovelTree, host_id: &String, slot: &str) -> (r: Vec<&'a TreeNode>)
    ensures
        derefs(r@) == linked_by_slot_spec(*tree, host_id@, slot@),
{
    let ids = collect_linked_ids(tree, host_id);
    let ghost iv = str_views(ids@);
    let mut out: Vec<&TreeNode> = Vec::new();
    let mut k: usize = 0;
    while k < ids.len()
        invariant
            k <= ids.len(),
            iv == str_views(ids@),
            derefs(out@) == pick_linked(tree.nodes@, iv.subrange(0, k as int), slot@),
        decreases ids.len() - k,
    {
        let ghost pre = iv.subrange(0, k as int);
        assert(iv.subrange(0, k + 1).drop_last() =~= pre);
        assert(iv.subrange(0, k + 1).last() == ids@[k as int]@);
        match find_node(&tree.nodes, &ids[k]) {
            Some(i) => {
                let n = &tree.nodes[i];
                if node_is_slot_card(n, slot) {
                    let mut dup = false;
                    let mut j: usize = 0;
                    while j < out.len()
                        invariant
                            j <= out.len(),
                            k < ids.len(),
                            !dup ==> forall|q: int| 0 <= q < j ==> derefs(out@)[q].id@ != ids@[k as int]@,
                            dup ==> has_id(derefs(out@), ids@[k as int]@),
                        decreases out.len() - j,
                    {
                        if out[j].id == ids[k] {
                            assert(derefs(out@)[j as int].id@ == ids@[k as int]@);
                            dup = true;
                        }
                        j += 1;
                    }
                    if !dup {
                        let mut p: usize = 0;
                        while p < out.len() && !before_exec(n, out[p])
                            invariant
                                p <= out.len(),
                                forall|q: int| 0 <= q < p ==> !node_before(*n, #[trigger] derefs(out@)[q]),
                            decreases out.len() - p,
                        {
                            p += 1;
                        }
                        proof {
                            lemma_ins_pos_scan(derefs(out@), *n, p as int);
                        }
                        let ghost before = out@;
                        out.insert(p, n);
                        assert(derefs(out@) =~= derefs(before).insert(p as int, *n));
                    }
                }
            },
            None => {},
        }
        k += 1;
    }
    assert(iv.subrange(0, ids.len() as int) =~= iv);
    out
}

proof fn lemma_node_before_order(a: TreeNode, b: TreeNode, c: TreeNode)
    ensures
        !node_before(a, a),
        node_before(a, b) ==> !node_before(b, a),
        node_before(a, b) && node_before(b, c) ==> node_before(a, c),
{
    crate::kb_context::lemma_lex_irrefl(a.id@);
    if node_before(a, b) && node_before(b, a) {
        crate::kb_context::lemma_lex_trans(a.id@, b.id@, a.id@);
    }
    if node_before(a, b) && node_before(b, c) && a.position == b.position && b.position == c.position {
        crate::kb_context::lemma_lex_trans(a.id@, b.id@, c.id@);
    }
}

proof fn lemma_node_ins_props(o: Seq<TreeNode>, x: TreeNode)
    ensures
        0 <= node_ins_pos(o, x) <= o.len(),
        forall|j: int| 0 <= j < node_ins_pos(o, x) ==> !node_before(x, #[trigger] o[j]),
        node_ins_pos(o, x) < o.len() ==> node_before(x, o[node_ins_pos(o, x)]),
    decreases o.len(),
{
    if o.len() > 0 && !node_before(x, o[0]) {
        let t = o.drop_first();
        lemma_node_ins_props(t, x);
        assert forall|j: int| 0 <= j < node_ins_pos(o, x) implies !node_before(x, #[trigger] o[j]) by {
            if j > 0 {
                assert(o[j] == t[j - 1]);
            }
        }
        if node_ins_pos(o, x) < o.len() {
            assert(o[node_ins_pos(o, x)] == t[node_ins_pos(t, x)]);
        }
    }
}

/// Nodes in canvas order, no two with one id.
pub open spec fn canvas_sorted_distinct(s: Seq<TreeNode>) -> bool {
    &&& forall|i: int, j: int| 0 <= i < j < s.len() ==> !node_before(#[trigger] s[j], #[trigger] s[i])
    &&& forall|i: int, j: int| 0 <= i < j < s.len() ==> (#[trigger] s[i]).id@ != (#[trigger] s[j]).id@
}

pub proof fn lemma_pick_linked(nodes: Seq<TreeNode>, ids: Seq<Seq<char>>, slot: Seq<char>)
    ensures
        canvas_sorted_distinct(pick_linked(nodes, ids, slot)),
        forall|k: int| 0 <= k < pick_linked(nodes, ids, slot).len() ==>
            is_slot_card(#[trigger] pick_linked(nodes, ids, slot)[k], slot)
            && ids.contains(pick_linked(nodes, ids, slot)[k].id@)
            && first_node(nodes, pick_linked(nodes, ids, slot)[k].id@) is Some,
    decreases ids.len(),
{
    if ids.len() > 0 {
        lemma_pick_linked(nodes, ids.drop_last(), slot);
        let acc = pick_linked(nodes, ids.drop_last(), slot);
        assert forall|k: int| 0 <= k < acc.len() implies ids.contains((#[trigger] acc[k]).id@) by {
            let m = choose|m: int| 0 <= m < ids.drop_last().len() && ids.drop_last()[m] == acc[k].id@;
            assert(ids[m] == acc[k].id@);
        }
        match first_node(nodes, ids.last()) {
            Some(i) => {
                if is_slot_card(nodes[i], slot) && !has_id(acc, ids.last()) {
                    lemma_first_node_props(nodes, ids.last());
                    let x = nodes[i];
                    lemma_node_ins_props(acc, x);
                    let p = node_ins_pos(acc, x);
                    let r = acc.insert(p, x);
                    assert(x.id@ == ids.last());
                    assert forall|a: int, b: int| 0 <= a < b < r.len() implies !node_before(#[trigger] r[b], #[trigger] r[a]) by {
                        if b < p {
                            assert(r[a] == acc[a] && r[b] == acc[b]);
                        } else if b == p {
                            assert(r[a] == acc[a] && r[b] == x);
                        } else if a < p {
                            assert(r[a] == acc[a] && r[b] == acc[b - 1]);
                        } else if a == p {
                            assert(r[a] == x && r[b] == acc[b - 1]);
                            lemma_node_before_order(acc[b - 1], x, acc[p]);
                            lemma_node_before_order(x, acc[p], acc[b - 1]);
                        } else {
                            assert(r[a] == acc[a - 1] && r[b] == acc[b - 1]);
                        }
                    }
                    assert forall|a: int, b: int| 0 <= a < b < r.len() implies (#[trigger] r[a]).id@ != (#[trigger] r[b]).id@ by {
                        if b < p {
                            assert(r[a] == acc[a] && r[b] == acc[b]);
                        } else if b == p {
                            assert(r[a] == acc[a] && r[b] == x);
                        } else if a < p {
                            assert(r[a] == acc[a] && r[b] == acc[b - 1]);
                        } else if a == p {
                            assert(r[a] == x && r[b] == acc[b - 1]);
                        } else {
                            assert(r[a] == acc[a - 1] && r[b] == acc[b - 1]);
                        }
                    }
                    assert forall|k: int| 0 <= k < r.len() implies
                        is_slot_card(#[trigger] r[k], slot) && ids.contains(r[k].id@) && first_node(nodes, r[k].id@) is Some by {
                        if k < p {
                            assert(r[k] == acc[k]);
                        } else if k > p {
                            assert(r[k] == acc[k - 1]);
                        } else {
                            assert(ids[ids.len() - 1] == x.id@);
                        }
                    }
                }
            },
            None => {},
        }
    }
}

} // verus!
