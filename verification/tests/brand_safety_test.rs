use adverify::brand_safety::{BrandSafetyAnalyzer, ContentScan};

fn hits(scan: &ContentScan, category: &str) -> Vec<(String, u32, usize)> {
    scan.categories
        .iter()
        .find(|c| c.name == category)
        .unwrap()
        .hits
        .iter()
        .map(|h| (h.term.clone(), h.weight, h.count))
        .collect()
}

#[test]
fn test_all_categories_have_keywords() {
    let analyzer = BrandSafetyAnalyzer::new();
    assert_eq!(analyzer.categories().len(), 6);
    for category in analyzer.categories() {
        assert!(!category.keywords.is_empty(), "Category '{}' has no keywords", category.name);
    }
}

#[test]
fn lexicon_weights_in_tenths() {
    let analyzer = BrandSafetyAnalyzer::default();
    let names: Vec<&str> = analyzer.categories().iter().map(|c| c.name.as_str()).collect();
    assert_eq!(names, vec!["adult", "violence", "hate_speech", "drugs", "gambling", "profanity"]);
    let adult = &analyzer.categories()[0].keywords;
    assert_eq!(adult[0].term, "porn");
    assert_eq!(adult[0].weight, 9);
    assert_eq!(adult[1].term, "pornography");
    assert_eq!(adult[1].weight, 10);
    let total: usize = analyzer.categories().iter().map(|c| c.keywords.len()).sum();
    assert_eq!(total, 123);
}

#[test]
fn scan_is_case_insensitive_and_counts_occurrences() {
    let analyzer = BrandSafetyAnalyzer::new();
    let scan = analyzer.scan("Free PORN videos and xxx adult content. Porn!");
    assert_eq!(scan.word_count, 8);
    assert_eq!(
        hits(&scan, "adult"),
        vec![("porn".to_string(), 9, 2), ("xxx".to_string(), 8, 1), ("adult content".to_string(), 8, 1)]
    );
    assert_eq!(scan.flagged_terms, vec!["adult:porn", "adult:xxx", "adult:adult content"]);
}

#[test]
fn keywords_match_inside_words() {
    let analyzer = BrandSafetyAnalyzer::new();
    let scan = analyzer.scan_lowercase("sexual sex");
    assert_eq!(hits(&scan, "adult"), vec![("sexual".to_string(), 6, 1), ("sex".to_string(), 5, 2)]);
}

#[test]
fn safe_technical_text_flags_nothing() {
    let analyzer = BrandSafetyAnalyzer::new();
    let scan = analyzer.scan(
        "The quick brown fox jumps over the lazy dog. \
         Lorem ipsum dolor sit amet, consectetur adipiscing elit.",
    );
    assert_eq!(scan.flagged_terms.len(), 0);
    assert!(scan.categories.iter().all(|c| c.hits.is_empty()));
    assert_eq!(scan.word_count, 17);
}

#[test]
fn empty_content_scans_clean() {
    let scan = BrandSafetyAnalyzer::new().scan("");
    assert_eq!(scan.word_count, 0);
    assert!(scan.flagged_terms.is_empty());
    assert!(scan.categories.iter().all(|c| c.hits.is_empty()));
}

#[test]
fn flagged_terms_are_capped_at_fifty() {
    let analyzer = BrandSafetyAnalyzer::new();
    let mut text = String::new();
    for c in analyzer.categories() {
        for k in &c.keywords {
            text.push_str(&k.term);
            text.push(' ');
        }
    }
    let scan = analyzer.scan(&text);
    assert_eq!(scan.flagged_terms.len(), 50);
    assert_eq!(scan.flagged_terms[0], "adult:porn");
    let violence = hits(&scan, "violence");
    assert!(violence.iter().any(|h| h.0 == "murder"));
}

#[test]
fn analyzer_clone_holds_the_lexicon() {
    let a = BrandSafetyAnalyzer::new();
    let b = a.clone();
    assert_eq!(b.categories().len(), 6);
    assert_eq!(b.categories()[5].keywords.len(), a.categories()[5].keywords.len());
}

#[test]
fn lexicon_keywords_are_lower_case_ascii() {
    let analyzer = BrandSafetyAnalyzer::new();
    for category in analyzer.categories() {
        for keyword in &category.keywords {
            assert!(!keyword.term.is_empty());
            assert!(keyword.term.chars().all(|c| c.is_ascii() && !c.is_ascii_uppercase()), "{}", keyword.term);
        }
    }
}

#[test]
fn ascii_case_does_not_change_a_scan() {
    let analyzer = BrandSafetyAnalyzer::new();
    let upper = analyzer.scan("BUY COCAINE AT THE CASINO");
    let lower = analyzer.scan("buy cocaine at the casino");
    assert_eq!(upper.word_count, lower.word_count);
    assert_eq!(upper.flagged_terms, lower.flagged_terms);
    for name in ["adult", "violence", "hate_speech", "drugs", "gambling", "profanity"] {
        assert_eq!(hits(&upper, name), hits(&lower, name));
    }
    assert_eq!(upper.flagged_terms, vec!["drugs:cocaine", "gambling:casino"]);
}
