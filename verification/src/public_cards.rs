//! Public knowledge cards: cards kept outside any one novel and copied into
//! a novel's tree on request.
use vstd::prelude::*;
use crate::chapter_memory::head;
use crate::ids::{is_uuid_char, new_uuid};
use crate::models::{first_node, find_node, str_views, KnowledgeCardPayload, NodeKind, NodePosition, NovelTree, TreeEdge, TreeNode};
use crate::text::{append_str, chars_of, slice, string_of};
use crate::tree_edit::{contains_id, ev, evs, push_edge, push_id, same_card, EdgeV};
use crate::tree_refs::{attach_host_spec, first_where, is_novel, is_plot_host, knowledge_attach_host};
use crate::tree_edit::lemma_first_where_props;
use crate::text::trim;

verus! {

/// A knowledge card shared by all novels.
pub struct PublicKnowledgeCard {
    pub id: String,
    pub title: String,
    pub book_ids: Vec<String>,
    pub extract_prompt: String,
    pub extracted: String,
    pub created_at: String,
    pub updated_at: String,
    pub archived: bool,
}

/// The knowledge payload a public card gives its copy: its books, prompt
/// and text, no slot, not from the canon, no structured parts.
pub open spec fn copied_payload(k: KnowledgeCardPayload, card: PublicKnowledgeCard) -> bool {
    &&& k.book_ids == card.book_ids
    &&& k.extract_prompt == card.extract_prompt
    &&& k.extracted == card.extracted
    &&& !k.from_canon
    &&& k.slot@.len() == 0
    &&& k.core_laws is None
    &&& k.world_axiom is None
    &&& k.existence is None
    &&& k.info_flow is None
    &&& k.history_culture is None
    &&& k.world_religion is None
    &&& k.major_event is None
}

/// The card a public card becomes: a knowledge card with id `kid`, the
/// public card's title as label, the first 200 characters of its text as
/// outline, placed below the `kn` knowledge cards already in the tree.
pub open spec fn copied_node(n: TreeNode, card: PublicKnowledgeCard, kid: Seq<char>, kn: nat) -> bool {
    &&& n.id@ == kid
    &&& n.kind == NodeKind::Knowledge
    &&& n.label == card.title
    &&& n.outline@ == head(card.extracted@, 200)
    &&& n.detailed_outline@.len() == 0
    &&& n.character is None
    &&& n.side_plot is None
    &&& n.knowledge matches Some(k) && copied_payload(k, card)
    &&& n.linked_character_ids@.len() == 0
    &&& n.linked_side_plot_ids@.len() == 0
    &&& n.linked_knowledge_ids@.len() == 0
    &&& n.position == NodePosition { x: 40, y: (80 + 140 * kn) as i64 }
    &&& n.word_count == 0
    &&& n.word_count_min == 0
    &&& n.word_count_max == 0
    &&& n.chapter_count == 0
}

/// A fresh knowledge id: `kb-` and a random UUID.
pub open spec fn is_kb_id(kid: Seq<char>) -> bool {
    &&& kid.len() == 39
    &&& kid.subrange(0, 3) == "kb-"@
    &&& forall|i: int| 3 <= i < 39 ==> is_uuid_char(#[trigger] kid[i])
}

pub open spec fn knowledge_count(ns: Seq<TreeNode>) -> nat
    decreases ns.len(),
{
    if ns.len() == 0 {
        0
    } else {
        knowledge_count(ns.drop_last()) + if ns.last().kind == NodeKind::Knowledge { 1nat } else { 0nat }
    }
}

proof fn lemma_knowledge_count_le(ns: Seq<TreeNode>)
    ensures
        knowledge_count(ns) <= ns.len(),
    decreases ns.len(),
{
    if ns.len() > 0 {
        lemma_knowledge_count_le(ns.drop_last());
    }
}

/// A knowledge link between `a` and `b`, either way.
pub open spec fn has_kn_edge(es: Seq<EdgeV>, a: Seq<char>, b: Seq<char>) -> bool {
    exists|i: int| 0 <= i < es.len()
        && ((es[i].source == a && es[i].target == b) || (es[i].source == b && es[i].target == a))
}

/// The knowledge link `host → k`.
pub open spec fn kn_link(host: Seq<char>, k: Seq<char>) -> EdgeV {
    EdgeV {
        id: "e-"@ + host + "-"@ + k,
        source: host,
        target: k,
        kind: "knowledge"@,
        sh: Some("left"@),
        th: Some("right"@),
        label: Seq::empty(),
    }
}

/// The host card after the copy is linked to it.
pub open spec fn host_linked(h: TreeNode, h2: TreeNode, kid: Seq<char>) -> bool {
    &&& same_card(h, h2)
    &&& str_views(h2.linked_character_ids@) == str_views(h.linked_character_ids@)
    &&& str_views(h2.linked_side_plot_ids@) == str_views(h.linked_side_plot_ids@)
    &&& str_views(h2.linked_knowledge_ids@) == (if str_views(h.linked_knowledge_ids@).contains(kid) {
        str_views(h.linked_knowledge_ids@)
    } else {
        str_views(h.linked_knowledge_ids@).push(kid)
    })
}

/// The tree after a public card is copied in as `kid` under `host`: the
/// copy is appended to the cards, the host (its first card) links it, and a
/// knowledge edge joins them unless one already does.
pub open spec fn card_added(t0: NovelTree, t: NovelTree, card: PublicKnowledgeCard, host: Seq<char>, kid: Seq<char>) -> bool {
    let n0 = t0.nodes@;
    let n = t.nodes@;
    &&& t.novel_id == t0.novel_id
    &&& n.len() == n0.len() + 1
    &&& copied_node(n[n0.len() as int], card, kid, knowledge_count(n0))
    &&& match first_node(n0, host) {
        Some(h) => host_linked(n0[h], n[h], kid) && forall|j: int| 0 <= j < n0.len() && j != h ==> n[j] == n0[j],
        None => forall|j: int| 0 <= j < n0.len() ==> n[j] == n0[j],
    }
    &&& evs(t.edges@) == (if has_kn_edge(evs(t0.edges@), host, kid) {
        evs(t0.edges@)
    } else {
        evs(t0.edges@).push(kn_link(host, kid))
    })
}

fn knowledge_count_exec(ns: &Vec<TreeNode>) -> (r: usize)
    ensures
        r == knowledge_count(ns@),
{
    let mut c: usize = 0;
    let mut i: usize = 0;
    while i < ns.len()
        invariant
            i <= ns@.len(),
            c == knowledge_count(ns@.subrange(0, i as int)),
            c <= i,
        decreases ns@.len() - i,
    {
        assert(ns@.subrange(0, i + 1).drop_last() =~= ns@.subrange(0, i as int));
        if ns[i].kind == NodeKind::Knowledge {
            c += 1;
        }
        i += 1;
    }
    assert(ns@.subrange(0, ns@.len() as int) =~= ns@);
    c
}

fn has_kn_edge_exec(es: &Vec<TreeEdge>, a: &String, b: &String) -> (r: bool)
    ensures
        r == has_kn_edge(evs(es@), a@, b@),
{
    let ghost v = evs(es@);
    let mut i: usize = 0;
    while i < es.len()
        invariant
            i <= es@.len(),
            v == evs(es@),
            forall|j: int| 0 <= j < i ==> !((v[j].source == a@ && v[j].target == b@) || (v[j].source == b@ && v[j].target == a@)),
        decreases es@.len() - i,
    {
        let e = &es[i];
        assert(v[i as int] == ev(*e));
        if (e.source == *a && e.target == *b) || (e.source == *b && e.target == *a) {
            return true;
        }
        i += 1;
    }
    false
}

fn copy_node(card: PublicKnowledgeCard, kid: &String, kn: usize) -> (n: TreeNode)
    requires
        kn <= u32::MAX,
    ensures
        copied_node(n, card, kid@, kn as nat),
{
    let ex = chars_of(card.extracted.as_str());
    let cut: usize = if ex.len() < 200 { ex.len() } else { 200 };
    let outline = slice(&ex, 0, cut);
    assert(outline@ =~= head(card.extracted@, 200));
    let ghost c0 = card;
    let payload = KnowledgeCardPayload {
        book_ids: card.book_ids,
        extract_prompt: card.extract_prompt,
        extracted: card.extracted,
        from_canon: false,
        slot: String::new(),
        core_laws: None,
        world_axiom: None,
        existence: None,
        info_flow: None,
        history_culture: None,
        world_religion: None,
        major_event: None,
    };
    let y: i64 = 80 + 140 * (kn as i64);
    TreeNode {
        id: String::from_str(kid.as_str()),
        kind: NodeKind::Knowledge,
        label: card.title,
        outline: string_of(&outline),
        detailed_outline: Vec::new(),
        character: None,
        knowledge: Some(payload),
        side_plot: None,
        linked_character_ids: Vec::new(),
        linked_side_plot_ids: Vec::new(),
        linked_knowledge_ids: Vec::new(),
        position: NodePosition { x: 40, y },
        word_count: 0,
        word_count_min: 0,
        word_count_max: 0,
        chapter_count: 0,
    }
}

fn link_host(nodes: &mut Vec<TreeNode>, host: &String, kid: &String)
    ensures
        final(nodes)@.len() == old(nodes)@.len(),
        match first_node(old(nodes)@, host@) {
            Some(h) => host_linked(old(nodes)@[h], final(nodes)@[h], kid@)
                && forall|j: int| 0 <= j < old(nodes)@.len() && j != h ==> final(nodes)@[j] == old(nodes)@[j],
            None => final(nodes)@ == old(nodes)@,
        },
{
    match find_node(nodes, host) {
        Some(h) => {
            let ghost ns0 = nodes@;
            let mut n = nodes.remove(h);
            let ghost n0 = n;
            if !contains_id(&n.linked_knowledge_ids, kid) {
                push_id(&mut n.linked_knowledge_ids, String::from_str(kid.as_str()));
            }
            assert(host_linked(n0, n, kid@));
            nodes.insert(h, n);
            assert forall|j: int| 0 <= j < ns0.len() && j != h implies nodes@[j] == ns0[j] by {
                if j < h {
                    assert(nodes@[j] == ns0[j]);
                } else {
                    assert(nodes@[j] == ns0[j]);
                }
            }
        },
        None => {},
    }
}

/// The host a new knowledge card gets is a card of the tree.
proof fn lemma_host_is_a_card(tree: NovelTree, sel: Option<Seq<char>>)
    ensures
        attach_host_spec(tree, sel) matches Ok(h) ==> first_node(tree.nodes@, h) is Some,
{
    let ns = tree.nodes@;
    let s = match sel { Some(s) => trim(s), None => Seq::empty() };
    lemma_first_where_props(ns, |n: TreeNode| is_novel(n));
    lemma_first_where_props(ns, |h: TreeNode| is_plot_host(h) && str_views(h.linked_side_plot_ids@).contains(s));
    lemma_first_where_props(ns, |h: TreeNode| str_views(h.linked_knowledge_ids@).contains(s));
    lemma_first_where_props(ns, |h: TreeNode| str_views(h.linked_character_ids@).contains(s));
    crate::models::lemma_first_node_props(ns, s);
    match attach_host_spec(tree, sel) {
        Ok(h) => {
            crate::models::lemma_first_node_props(ns, h);
        },
        Err(_) => {},
    }
}

fn insert_copy(tree: NovelTree, card: PublicKnowledgeCard, host_id: &String, kid: &String) -> (t: NovelTree)
    requires
        tree.nodes@.len() < u32::MAX,
        first_node(tree.nodes@, host_id@) is Some,
    ensures
        card_added(tree, t, card, host_id@, kid@),
{
    let kn = knowledge_count_exec(&tree.nodes);
    proof {
        lemma_knowledge_count_le(tree.nodes@);
    }
    let ghost c0 = card;
    let mut t = tree;
    let node = copy_node(card, kid, kn);
    let ghost n0 = t.nodes@;
    t.nodes.push(node);
    proof {
        crate::models::lemma_first_node_props(n0, host_id@);
        crate::models::lemma_first_node_props(t.nodes@, host_id@);
        match first_node(n0, host_id@) {
            Some(h) => {
                assert(t.nodes@[h] == n0[h]);
                assert(forall|j: int| 0 <= j < h ==> t.nodes@[j] == n0[j]);
                crate::models::lemma_first_node(t.nodes@, host_id@, h);
            },
            None => {},
        }
    }
    let ghost n1 = t.nodes@;
    link_host(&mut t.nodes, host_id, kid);
    proof {
        assert(t.nodes@[n0.len() as int] == n1[n0.len() as int]);
    }
    if !has_kn_edge_exec(&t.edges, host_id, kid) {
        let mut eid = chars_of("e-");
        append_str(&mut eid, host_id.as_str());
        append_str(&mut eid, "-");
        append_str(&mut eid, kid.as_str());
        let e = TreeEdge {
            id: string_of(&eid),
            source: String::from_str(host_id.as_str()),
            target: String::from_str(kid.as_str()),
            kind: String::from_str("knowledge"),
            source_handle: Some(String::from_str("left")),
            target_handle: Some(String::from_str("right")),
            label: String::new(),
        };
        assert(ev(e) == kn_link(host_id@, kid@));
        push_edge(&mut t.edges, e);
    }
    t
}

/// Copies a public card into a novel's tree under the card that
/// `host_spec` selects (see `attach_host_spec`), as a new knowledge card
/// with a fresh `kb-` id. `card` is the stored public card, if any.
/// Errors: no such card; an archived card; no host (the host's error).
pub fn add_public_knowledge_card_inner(
    tree: NovelTree,
    card: Option<PublicKnowledgeCard>,
    host_spec: Option<&str>,
) -> (r: Result<(NovelTree, String), String>)
    requires
        tree.nodes@.len() < u32::MAX,
    ensures
        match card {
            None => r is Err && r->Err_0@ == "公共知识卡不存在"@,
            Some(c) => if c.archived {
                r is Err && r->Err_0@ == "该公共知识卡已归档"@
            } else {
                match attach_host_spec(tree, match host_spec { Some(s) => Some(s@), None => None }) {
                    Err(e) => r is Err && r->Err_0@ == e,
                    Ok(host) => r is Ok && is_kb_id(r->Ok_0.1@) && card_added(tree, r->Ok_0.0, c, host, r->Ok_0.1@),
                }
            },
        },
{
    let card = match card {
        Some(c) => c,
        None => {
            return Err(String::from_str("公共知识卡不存在"));
        },
    };
    if card.archived {
        return Err(String::from_str("该公共知识卡已归档"));
    }
    let host_id = match knowledge_attach_host(&tree, host_spec) {
        Ok(h) => h,
        Err(e) => {
            return Err(e);
        },
    };
    let mut kv = chars_of("kb-");
    let u = new_uuid();
    append_str(&mut kv, u.as_str());
    proof {
        reveal_strlit("kb-");
        assert(kv@.subrange(0, 3) =~= "kb-"@);
        assert forall|i: int| 3 <= i < 39 implies is_uuid_char(#[trigger] kv@[i]) by {
            assert(kv@[i] == u@[i - 3]);
        }
    }
    let kid = string_of(&kv);
    proof {
        lemma_host_is_a_card(tree, match host_spec { Some(s) => Some(s@), None => None });
    }
    let t = insert_copy(tree, card, &host_id, &kid);
    Ok((t, kid))
}

/// Saves a public card: a new one gets a random id and `now` as creation
/// time; an `existing` card keeps its id, creation time and archive flag.
/// The title is trimmed and must not be empty.
pub fn upsert_public_knowledge_card_inner(
    existing: Option<PublicKnowledgeCard>,
    title: String,
    book_ids: Vec<String>,
    extract_prompt: String,
    extracted: String,
    now: String,
) -> (r: Result<PublicKnowledgeCard, String>)
    ensures
        crate::text::trim(title@).len() == 0 ==> r is Err && r->Err_0@ == "标题不能为空"@,
        crate::text::trim(title@).len() > 0 ==> r is Ok && {
            let c = r->Ok_0;
            &&& c.title@ == crate::text::trim(title@)
            &&& c.book_ids == book_ids
            &&& c.extract_prompt == extract_prompt
            &&& c.extracted == extracted
            &&& c.updated_at == now
            &&& match existing {
                Some(e) => c.id == e.id && c.created_at == e.created_at && c.archived == e.archived,
                None => c.id@.len() == 36 && c.created_at@ == now@ && !c.archived,
            }
        },
{
    let t = crate::text::trim_str(title.as_str());
    if t.len() == 0 {
        return Err(String::from_str("标题不能为空"));
    }
    let (id, created_at, archived) = match existing {
        Some(e) => (e.id, e.created_at, e.archived),
        None => (new_uuid(), String::from_str(now.as_str()), false),
    };
    Ok(PublicKnowledgeCard {
        id,
        title: string_of(&t),
        book_ids,
        extract_prompt,
        extracted,
        created_at,
        updated_at: now,
        archived,
    })
}

/// The books a knowledge card is filled from: `book_ids` when given, else
/// the card's own. Errors: no card with that id (the first one counts),
/// not a knowledge card, no book.
pub open spec fn fill_books_spec(tree: NovelTree, node_id: Seq<char>, book_ids: Option<Seq<Seq<char>>>) -> Result<Seq<Seq<char>>, Seq<char>> {
    match first_node(tree.nodes@, node_id) {
        None => Err("节点不存在"@),
        Some(i) => {
            let n = tree.nodes@[i];
            if n.kind != NodeKind::Knowledge {
                Err("不是知识卡"@)
            } else {
                let own = match n.knowledge { Some(k) => str_views(k.book_ids@), None => Seq::empty() };
                let books = match book_ids { Some(b) => b, None => own };
                if books.len() == 0 { Err("请先选择至少一个知识库"@) } else { Ok(books) }
            }
        },
    }
}

pub open spec fn opt_views(b: Option<Vec<String>>) -> Option<Seq<Seq<char>>> {
    match b {
        Some(v) => Some(str_views(v@)),
        None => None,
    }
}

/// See `fill_books_spec`; the app reads the corpus of these books.
pub fn knowledge_fill_books(tree: &NovelTree, node_id: &str, book_ids: &Option<Vec<String>>) -> (r: Result<Vec<String>, String>)
    ensures
        match r {
            Ok(b) => fill_books_spec(*tree, node_id@, opt_views(*book_ids)) == Ok::<Seq<Seq<char>>, Seq<char>>(str_views(b@)),
            Err(e) => fill_books_spec(*tree, node_id@, opt_views(*book_ids)) == Err::<Seq<Seq<char>>, Seq<char>>(e@),
        },
{
    let id = String::from_str(node_id);
    let i = match find_node(&tree.nodes, &id) {
        Some(i) => i,
        None => {
            return Err(String::from_str("节点不存在"));
        },
    };
    let n = &tree.nodes[i];
    if n.kind != NodeKind::Knowledge {
        return Err(String::from_str("不是知识卡"));
    }
    let books = match book_ids {
        Some(b) => crate::cast::clone_ids(b),
        None => match &n.knowledge {
            Some(k) => crate::cast::clone_ids(&k.book_ids),
            None => Vec::new(),
        },
    };
    if books.len() == 0 {
        return Err(String::from_str("请先选择至少一个知识库"));
    }
    Ok(books)
}

/// Fills a knowledge card with the text of its books (`corpus`, read by
/// the app for the books of `knowledge_fill_books`): the card keeps its
/// payload (a blank one when it had none) with those books and that text,
/// and shows the first 200 characters as its outline. A blank corpus is
/// an error, as are the errors of `fill_books_spec`.
pub fn fill_knowledge_card_inner(tree: NovelTree, node_id: &str, book_ids: Option<Vec<String>>, corpus: String) -> (r: Result<NovelTree, String>)
    ensures
        match fill_books_spec(tree, node_id@, opt_views(book_ids)) {
            Err(e) => r is Err && r->Err_0@ == e,
            Ok(books) => if crate::text::trim(corpus@).len() == 0 {
                r is Err && r->Err_0@ == "所选知识库没有可导入的分段（可先在知识库页重建索引）"@
            } else {
                r is Ok && {
                    let t = r->Ok_0;
                    let i = first_node(tree.nodes@, node_id@)->Some_0;
                    let n0 = tree.nodes@[i];
                    let n = t.nodes@[i];
                    &&& t.novel_id == tree.novel_id
                    &&& t.edges == tree.edges
                    &&& t.nodes@.len() == tree.nodes@.len()
                    &&& forall|j: int| 0 <= j < tree.nodes@.len() && j != i ==> t.nodes@[j] == tree.nodes@[j]
                    &&& n == (TreeNode { outline: n.outline, knowledge: n.knowledge, ..n0 })
                    &&& n.outline@ == head(corpus@, 200)
                    &&& n.knowledge matches Some(k) && {
                        &&& str_views(k.book_ids@) == books
                        &&& k.extracted == corpus
                        &&& match n0.knowledge {
                            Some(k0) => k == (KnowledgeCardPayload { book_ids: k.book_ids, extracted: k.extracted, ..k0 }),
                            None => k.extract_prompt@.len() == 0 && k.slot@.len() == 0 && !k.from_canon,
                        }
                    }
                }
            },
        },
{
    let books = match knowledge_fill_books(&tree, node_id, &book_ids) {
        Ok(b) => b,
        Err(e) => {
            return Err(e);
        },
    };
    if crate::text::trim_str(corpus.as_str()).len() == 0 {
        return Err(String::from_str("所选知识库没有可导入的分段（可先在知识库页重建索引）"));
    }
    let id = String::from_str(node_id);
    let i = match find_node(&tree.nodes, &id) {
        Some(i) => i,
        None => {
            return Err(String::from_str("节点不存在"));
        },
    };
    let mut t = tree;
    let ghost ns0 = t.nodes@;
    let mut n = t.nodes.remove(i);
    let ghost n0 = n;
    let cv = chars_of(corpus.as_str());
    let cut: usize = if cv.len() < 200 { cv.len() } else { 200 };
    let head_v = slice(&cv, 0, cut);
    assert(head_v@ =~= head(corpus@, 200));
    let mut payload = match n.knowledge {
        Some(k) => k,
        None => KnowledgeCardPayload::default(),
    };
    payload.book_ids = books;
    payload.extracted = corpus;
    n.outline = string_of(&head_v);
    n.knowledge = Some(payload);
    t.nodes.insert(i, n);
    assert forall|j: int| 0 <= j < ns0.len() && j != i implies t.nodes@[j] == ns0[j] by {
        if j < i {
            assert(t.nodes@[j] == ns0[j]);
        } else {
            assert(t.nodes@[j] == ns0[j]);
        }
    }
    Ok(t)
}

} // verus!
