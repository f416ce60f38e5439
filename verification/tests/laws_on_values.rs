use novel_work::chapter_constraints::{format_contract, outline_beats, LandBeat};
use novel_work::chapter_memory::{rank_memory, retrieve_memory};
use novel_work::kb_context::{format_knowledge_cards_capped_var, rerank_knowledge_candidates, retrieve_knowledge_from_rows};

fn rows(v: &[(&str, &str)]) -> Vec<(String, String)> {
    v.iter().map(|(a, b)| (a.to_string(), b.to_string())).collect()
}

#[test]
fn ranking_keeps_matching_rows_best_first() {
    let r = rows(&[("c1", "无关内容"), ("c2", "玉佩 出现"), ("c3", "玉佩 玉佩 玉佩 古剑"), ("c4", "古剑")]);
    let out = rank_memory(&r, "玉佩 古剑", 10);
    assert_eq!(out, rows(&[("c3", "玉佩 玉佩 玉佩 古剑"), ("c2", "玉佩 出现"), ("c4", "古剑")]));
    assert_eq!(rank_memory(&r, "玉佩 古剑", 1), rows(&[("c3", "玉佩 玉佩 玉佩 古剑")]));
    assert!(rank_memory(&r, "玉佩", 0).is_empty());
    assert!(rank_memory(&r, "", 5).is_empty());
}

#[test]
fn retrieval_keeps_allowed_chapters_and_limit() {
    let hits = rows(&[("c1", "甲"), ("c2", "乙"), ("c1", "甲"), ("c3", "丙")]);
    let allowed = vec!["c1".to_string(), "c3".to_string()];
    let out = retrieve_memory(&hits, &[], "问", 5, Some(&allowed));
    assert_eq!(out, rows(&[("c1", "甲"), ("c3", "丙")]));
    assert!(retrieve_memory(&hits, &[], "问", 0, None).is_empty());
    assert!(retrieve_memory(&hits, &[], "  ", 3, None).is_empty());
    assert_eq!(retrieve_memory(&hits, &[], "问", 1, None).len(), 1);
}

#[test]
fn lone_outline_beat_is_its_head() {
    let long: String = std::iter::repeat('字').take(300).collect();
    let b = outline_beats(&format!("  {}  ", long));
    assert_eq!(b.len(), 1);
    assert_eq!(b[0].chars().count(), 200);
    assert!(outline_beats("   ").is_empty());
    let many: String = (1..=14).map(|i| format!("{}. 第{}个情节要点\n", i, i)).collect();
    assert_eq!(outline_beats(&many).len(), 10);
}

#[test]
fn a_new_beat_adds_one_contract_line() {
    let a = LandBeat { kind: "plot", title: "伏笔".into(), text: "玉佩".into() };
    let b = LandBeat { kind: "character", title: "林".into(), text: "出场".into() };
    let one = format_contract(true, &[a.clone()]);
    let two = format_contract(true, &[a, b]);
    assert_eq!(two, format!("{}2. [人物] 林 — 出场\n", one));
}

#[test]
fn reranked_candidates_sorted_by_score_then_id() {
    let c = |id: &str, body: &str| (id.to_string(), String::new(), body.to_string());
    let cands = vec![c("b", "无关"), c("a", "无关"), c("z", "玉佩"), c("y", "玉佩")];
    let r = rerank_knowledge_candidates("玉佩", &cands);
    let ids: Vec<&str> = r.iter().map(|x| x.0.as_str()).collect();
    assert_eq!(ids, vec!["y", "z", "a", "b"]);
    assert!(r[0].1 >= r[1].1 && r[1].1 >= r[2].1 && r[2].1 >= r[3].1);
}

#[test]
fn knowledge_passages_come_from_rows() {
    let rws = vec![
        ("s1".to_string(), "书一".to_string(), "玉佩的来历很长很长".to_string()),
        ("s2".to_string(), "书二".to_string(), "古剑".to_string()),
    ];
    assert!(retrieve_knowledge_from_rows(&rws, "玉佩", 0, 4, None).is_empty());
    let r = retrieve_knowledge_from_rows(&rws, "玉佩", 1, 4, None);
    assert_eq!(r, vec![("s1".to_string(), "书一".to_string(), "玉佩的来…".to_string())]);
}

#[test]
fn capped_cards_stop_at_first_that_overruns() {
    let c = |l: &str, b: &str| (l.to_string(), b.to_string(), 100usize);
    let cards = vec![c("甲", "一二三"), c("空", "  "), c("乙", "四五六七八九十"), c("丙", "短")];
    let r = format_knowledge_cards_capped_var(&cards, 14, true);
    assert_eq!(r, "- 「甲」\n一二三");
    let all = format_knowledge_cards_capped_var(&cards, 100, true);
    assert_eq!(all, "- 「甲」\n一二三\n- 「乙」\n四五六七八九十\n- 「丙」\n短");
}

#[test]
fn knowledge_passages_have_distinct_ids() {
    let r3 = |id: &str, c: &str| (id.to_string(), "书".to_string(), c.to_string());
    let rws = vec![r3("a", "玉佩 古剑"), r3("b", "玉佩"), r3("c", "古剑 玉佩 城"), r3("d", "无关")];
    let bonus = vec![("a".to_string(), 5usize), ("b".to_string(), 3usize)];
    let r = retrieve_knowledge_from_rows(&rws, "玉佩 古剑", 3, 100, Some(&bonus));
    assert!(r.len() <= 3);
    for i in 0..r.len() {
        for j in i + 1..r.len() {
            assert_ne!(r[i].0, r[j].0);
        }
        assert!(rws.iter().any(|x| x.0 == r[i].0 && x.2 == r[i].2));
    }
}
