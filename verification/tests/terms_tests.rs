use lowcharts::terms::CommonTerms;

#[test]
fn test_common_terms_empty() {
    let terms = CommonTerms::new(10);
    let display = terms.to_text(100);
    assert_eq!(display, "No data\n");
}

#[test]
fn test_common_terms() {
    let mut terms = CommonTerms::new(2);
    for _ in 0..100 {
        terms.observe(String::from("foo"));
    }
    for _ in 0..10 {
        terms.observe(String::from("arrrrrrrr"));
    }
    for _ in 0..20 {
        terms.observe(String::from("barbar"));
    }
    let display = terms.to_text(10);

    println!("{}", display);
    assert!(display.contains("[   foo] [100] ∎∎∎∎∎∎∎∎∎∎\n"));
    assert!(display.contains("[barbar] [ 20] ∎∎\n"));
    assert!(!display.contains("arr"));
}

#[test]
fn observe_keeps_one_entry_per_term() {
    let mut terms = CommonTerms::new(5);
    terms.observe(String::from("a"));
    terms.observe(String::from("b"));
    terms.observe(String::from("a"));
    assert_eq!(terms.terms.len(), 2);
    assert_eq!(terms.terms[0], (String::from("a"), 2));
    assert_eq!(terms.terms[1], (String::from("b"), 1));
}
