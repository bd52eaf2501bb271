use aidms_core::fusion::fuse;
use aidms_core::search::{escape_html, highlight_in_escaped, make_snippet, merge_ranked, plan_from_cut, plan_search, vector_ranked, SearchMode};
use aidms_core::tokenize::{cut_search, Tokenizer};

fn chars(s: &str) -> Vec<char> {
    s.chars().collect()
}

#[test]
fn merge_keeps_first_place_and_order() {
    let r = merge_ranked(&vec![3, 1], &vec![1, 4, 3], &vec![5, 4]);
    assert_eq!(r, vec![3, 1, 4, 5]);
}

#[test]
fn vector_ranking_by_nearest_chunk() {
    // chunks 10, 11 belong to document 1; 12 to 2; 13 unknown
    let pairs = vec![(10, 1), (11, 1), (12, 2)];
    let r = vector_ranked(&vec![11, 12, 13, 10], &pairs);
    assert_eq!(r, vec![1, 2]);
}

#[test]
fn fusion_orders_by_reciprocal_rank() {
    let fts = vec![1, 2, 3];
    let vec = vec![3, 4];
    let r = fuse(&fts, &vec, &None, 10);
    let ids: Vec<i64> = r.iter().map(|h| h.doc_id).collect();
    assert_eq!(ids.len(), 4);
    assert_eq!(&ids[..2], &[3, 1]);
    let mut tail = ids[2..].to_vec();
    tail.sort();
    assert_eq!(tail, vec![2, 4]);
    let top = r[0];
    assert_eq!((top.fts_rank, top.vec_rank), (3, 1));
    assert_eq!(top.score_fraction(), (124, 63 * 61));
    let four = r.iter().find(|h| h.doc_id == 4).unwrap();
    assert!(four.is_semantic(true));
    assert!(!four.is_semantic(false));
    assert!(!top.is_semantic(true));
}

#[test]
fn fusion_limit_and_allow_list() {
    let fts = vec![1, 2, 3];
    let vec = vec![3, 4];
    let top2: Vec<i64> = fuse(&fts, &vec, &None, 2).iter().map(|h| h.doc_id).collect();
    assert_eq!(top2, vec![3, 1]);
    let mut allowed: Vec<i64> = fuse(&fts, &vec, &Some(vec![2, 4, 9]), 10).iter().map(|h| h.doc_id).collect();
    allowed.sort();
    assert_eq!(allowed, vec![2, 4]);
    assert!(fuse(&fts, &vec, &Some(vec![]), 10).is_empty());
}

#[test]
fn plan_of_two_words() {
    let p = plan_from_cut("合同 金额", "合同 金额", SearchMode::Hybrid, Some(1024), 0);
    assert_eq!(p.limit, 20);
    assert_eq!(p.tokens, vec!["合同".to_string(), "金额".to_string()]);
    assert_eq!(p.and_query.as_deref(), Some("合同 金额"));
    assert_eq!(p.or_query.as_deref(), Some("合同 OR 金额"));
    assert_eq!(p.trigram_query.as_deref(), Some("\"合同 金额\""));
    assert!(p.use_vec);
    assert_eq!(p.hl_terms.len(), 3);
}

#[test]
fn plan_quotes_and_fallbacks() {
    let p = plan_from_cut("a\"b", "a\"b", SearchMode::Keyword, None, 5);
    assert_eq!(p.limit, 5);
    assert_eq!(p.trigram_query.as_deref(), Some("\"a b\""));
    assert_eq!(p.or_query, None);
    assert!(!p.use_vec);
    assert_eq!(p.hl_terms, vec!["a\"b".to_string()]);
    let q = plan_from_cut("ab", "ab", SearchMode::Semantic, Some(768), 1);
    assert!(!q.use_vec);
    assert_eq!(q.trigram_query, None);
    let e = plan_from_cut("", "", SearchMode::Hybrid, None, 1);
    assert_eq!(e.and_query, None);
}

#[test]
fn segmentation_joins_words_with_spaces() {
    let tok = Tokenizer::new();
    let cut = cut_search(&tok, "重庆科技有限公司");
    assert!(cut.contains("公司"));
    assert!(cut.contains(' '));
    let p = plan_search(&tok, "  有限公司  ", SearchMode::Keyword, None, 0);
    assert_eq!(p.raw, "有限公司");
    assert!(!p.tokens.is_empty());
}

#[test]
fn escaping_and_marking() {
    let e: String = escape_html(&chars("<a href='x'>&\"")).into_iter().collect();
    assert_eq!(e, "&lt;a href=&#39;x&#39;&gt;&amp;&quot;");
    let h: String = highlight_in_escaped(&chars("合同合同金额"), &chars("合同")).into_iter().collect();
    assert_eq!(h, "<mark>合同</mark><mark>合同</mark>金额");
}

#[test]
fn snippet_marks_terms_and_escapes() {
    let s = make_snippet("合同金额<100>", &vec!["金额".to_string()]).unwrap();
    assert_eq!(s, "合同<mark>金额</mark>&lt;100&gt;");
    let long = format!("{}目标{}", "甲".repeat(100), "乙".repeat(300));
    let s2 = make_snippet(&long, &vec!["目标".to_string()]).unwrap();
    assert!(s2.starts_with('…'));
    assert!(s2.ends_with('…'));
    assert!(s2.contains("<mark>目标</mark>"));
}

#[test]
fn snippet_finds_terms_regardless_of_case() {
    let long = format!("{}Target{}", "a".repeat(100), "b".repeat(300));
    let s = make_snippet(&long, &vec!["target".to_string()]).unwrap();
    assert!(s.starts_with('…'), "window should move to the hit: {s}");
    assert!(s.ends_with('…'));
}

#[test]
fn highlight_ignores_case_and_keeps_text_case() {
    let s: Vec<char> = "ABC".chars().collect();
    let t: Vec<char> = "b".chars().collect();
    let h: String = highlight_in_escaped(&s, &t).into_iter().collect();
    assert_eq!(h, "A<mark>B</mark>C");
}

#[test]
fn snippet_window_is_at_most_160_characters() {
    let long = format!("{}目标{}", "甲".repeat(100), "乙".repeat(300));
    let s = make_snippet(&long, &vec!["目标".to_string()]).unwrap();
    let body = s.trim_start_matches('…').trim_end_matches('…').replace("<mark>", "").replace("</mark>", "");
    assert_eq!(body.chars().count(), 160);
}

#[test]
fn semantic_mode_runs_the_vector_path_alone() {
    let s = plan_from_cut("合同", "合同", SearchMode::Semantic, Some(1024), 0);
    assert!(s.use_vec && !s.use_fts);
    let fallback = plan_from_cut("合同", "合同", SearchMode::Semantic, None, 0);
    assert!(!fallback.use_vec && fallback.use_fts);
    let h = plan_from_cut("合同", "合同", SearchMode::Hybrid, Some(1024), 0);
    assert!(h.use_vec && h.use_fts);
    let k = plan_from_cut("合同", "合同", SearchMode::Keyword, Some(1024), 0);
    assert!(!k.use_vec && k.use_fts);
}

#[test]
fn snippet_keeps_a_long_first_hit_whole() {
    let term = "乙".repeat(150);
    let content = format!("{}{}{}", "甲".repeat(50), term, "丙".repeat(100));
    let s = make_snippet(&content, &vec![term.clone()]).unwrap();
    let body = s.trim_start_matches('…').trim_end_matches('…').replace("<mark>", "").replace("</mark>", "");
    assert!(body.contains(&term));
    assert_eq!(body.chars().count(), 160);
}
