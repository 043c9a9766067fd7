use backend::process_article::{
    parse_llm_response, sections_from_headers, MetadataAttempts, MetadataStep, PatternError,
    ProcessResult, MAX_ATTEMPTS,
};
use regex::Regex;

/// The same parsing written directly with `regex` and `str` methods, to compare against.
fn reference(response: &str) -> (String, Vec<String>, Vec<String>) {
    let section_re = Regex::new(r"(?m)^\[([^\]]+)\]").unwrap();
    let sections: Vec<_> = section_re.find_iter(response).collect();
    let mut summary = String::new();
    let mut facts: Vec<String> = Vec::new();
    let mut keywords: Vec<String> = Vec::new();
    for (i, m) in sections.iter().enumerate() {
        let name = &response[m.start() + 1..m.end() - 1];
        let end = if i < sections.len() - 1 { sections[i + 1].start() } else { response.len() };
        let content = response[m.end()..end].trim();
        match name {
            "SUMMARY" => summary = content.to_string(),
            "FACTS" => {
                facts = content
                    .lines()
                    .map(|s| s.trim_start_matches('-').trim().to_string())
                    .filter(|s| !s.is_empty())
                    .collect()
            }
            "KEYWORDS" => {
                keywords = content
                    .split(',')
                    .map(|s| s.trim().to_string())
                    .filter(|s| !s.is_empty())
                    .collect()
            }
            _ => {}
        }
    }
    if summary.is_empty() || summary == "N/A" {
        summary = "No summary available".to_string();
    }
    if facts.is_empty() {
        facts.push("No facts available".to_string());
    }
    if keywords.is_empty() {
        keywords.push("No keywords available".to_string());
    }
    (summary, facts, keywords)
}

const RESPONSES: &[&str] = &[
    "",
    "no sections at all",
    "[SUMMARY]\nA short summary.\n[FACTS]\n- one\n- two\n[KEYWORDS]\nalpha, beta, , gamma",
    "[SUMMARY] N/A \n[FACTS]\n\n[KEYWORDS]\n,,",
    "[KEYWORDS]\na,b\n[KEYWORDS]\nc",
    "text [SUMMARY] inline is not a header\n[SUMMARY]\nreal",
    "[]\n[SUMMARY]\nafter empty brackets",
    "[SUM\nMARY]\nspans lines",
    "[SUMMARY]\r\nwindows\r\n[FACTS]\r\n-- a\r\n- b\r\n",
    "[FACTS]\n- ünï\n-\u{3000}日本\n[SUMMARY]\n\u{a0}wide\u{a0}",
    "[OTHER]\nignored\n[SUMMARY]x]y\n[FACTS]",
    "[SUMMARY",
    "[[SUMMARY]]\n[SUMMARY]]\nz",
];

#[test]
fn parse_matches_the_reference() {
    for r in RESPONSES {
        assert_eq!(parse_llm_response(r).unwrap(), reference(r), "response {:?}", r);
    }
}

#[test]
fn parse_full_answer() {
    let (summary, facts, keywords) = parse_llm_response(
        "[SUMMARY]\nA short summary.\n[FACTS]\n- one\n- two\n[KEYWORDS]\nalpha, beta, , gamma",
    )
    .unwrap();
    assert_eq!(summary, "A short summary.");
    assert_eq!(facts, vec!["one", "two"]);
    assert_eq!(keywords, vec!["alpha", "beta", "gamma"]);
}

#[test]
fn parse_placeholders_for_missing_sections() {
    let parsed = parse_llm_response("nothing here").unwrap();
    assert_eq!(
        parsed,
        (
            "No summary available".to_string(),
            vec!["No facts available".to_string()],
            vec!["No keywords available".to_string()]
        )
    );
    let parsed = parse_llm_response("[SUMMARY]\nN/A").unwrap();
    assert_eq!(parsed.0, "No summary available");
}

#[test]
fn sections_from_given_headers() {
    let text = "[SUMMARY]\nhello\n[KEYWORDS]\nx";
    let headers = vec![(0usize, 9usize), (16, 26)];
    let (s, f, k) = sections_from_headers(text, &headers);
    assert_eq!(s, "hello");
    assert_eq!(f, vec!["No facts available"]);
    assert_eq!(k, vec!["x"]);
}

#[test]
fn join_with_commas_exact() {
    assert_eq!(ProcessResult::join_with_commas(&vec![]), "");
    assert_eq!(ProcessResult::join_with_commas(&vec!["a".to_string()]), "a");
    assert_eq!(
        ProcessResult::join_with_commas(&vec!["a".to_string(), "b".to_string(), "c".to_string()]),
        "a, b, c"
    );
}

#[test]
fn complete_answer_is_stored() {
    let (run, step) = MetadataAttempts::start(7);
    assert!(matches!(step, MetadataStep::RequestMetadata));
    let parsed = parse_llm_response("[SUMMARY]\ns\n[FACTS]\n- f1\n- f2\n[KEYWORDS]\nk1, k2");
    let (run, step) = run.on_parsed(parsed);
    assert_eq!(run.attempts, 0);
    match step {
        MetadataStep::StoreMetadata { result, joined_bullets, joined_keywords } => {
            assert_eq!(result.article_id, 7);
            assert_eq!(result.paragraph.as_deref(), Some("s"));
            assert_eq!(result.bullets, Some(vec!["f1".to_string(), "f2".to_string()]));
            assert_eq!(result.keywords, Some(vec!["k1".to_string(), "k2".to_string()]));
            assert_eq!(joined_bullets, "f1, f2");
            assert_eq!(joined_keywords, "k1, k2");
        }
        _ => panic!("expected the result to be stored"),
    }
}

#[test]
fn partial_answer_is_returned_unstored() {
    let (run, _) = MetadataAttempts::start(9);
    let (_, step) = run.on_parsed(parse_llm_response("[SUMMARY]\nonly this"));
    match step {
        MetadataStep::Finish(result) => {
            assert_eq!(result.paragraph.as_deref(), Some("only this"));
            assert_eq!(result.bullets, None);
            assert_eq!(result.keywords, None);
            assert!(!result.is_complete());
        }
        _ => panic!("expected a partial result"),
    }
}

#[test]
fn failed_parses_give_up_after_three_attempts() {
    let (mut run, _) = MetadataAttempts::start(3);
    for attempt in 1..=MAX_ATTEMPTS {
        let (next, step) = run.on_parsed(Err(PatternError));
        assert_eq!(next.attempts, attempt);
        if attempt < MAX_ATTEMPTS {
            assert!(matches!(step, MetadataStep::RequestMetadata));
        } else {
            match step {
                MetadataStep::Finish(result) => {
                    assert_eq!(result.article_id, 3);
                    assert!(result.paragraph.is_none() && result.bullets.is_none() && result.keywords.is_none());
                }
                _ => panic!("expected the empty result"),
            }
        }
        run = next;
    }
}

#[test]
fn parsed_items_hold_no_separators() {
    let (s, f, k) = parse_llm_response("[SUMMARY]\nN/A\n[FACTS]\n- a\n- b, c\n[KEYWORDS]\nx, y\nz").unwrap();
    assert_ne!(s, "N/A");
    assert!(f.iter().all(|x| !x.contains('\n') && !x.is_empty()));
    assert!(k.iter().all(|x| !x.contains(',') && !x.is_empty()));
    assert_eq!(k, vec!["x", "y\nz"]);
}

#[test]
fn section_order_does_not_matter() {
    let blocks = ["[SUMMARY]\nThe summary.\n", "[FACTS]\n- one\n- two\n", "[KEYWORDS]\na, b\n", "[OTHER]\nx\n"];
    let orders = [[0, 1, 2, 3], [3, 2, 1, 0], [1, 3, 0, 2], [2, 0, 3, 1]];
    let expected = parse_llm_response(&blocks.concat()).unwrap();
    for order in orders {
        let text: String = order.iter().map(|&i| blocks[i]).collect();
        assert_eq!(parse_llm_response(&text).unwrap(), expected, "order {:?}", order);
    }
}
