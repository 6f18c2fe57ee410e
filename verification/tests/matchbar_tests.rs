use lowcharts::matchbar::{MatchBar, MatchBarRow};

#[test]
fn test_matchbar() {
    let mut row0 = MatchBarRow::new("label1");
    row0.inc_if_matches("labelN");
    row0.inc_if_matches("label1");
    row0.inc_if_matches("label1");
    row0.inc_if_matches("label11");
    let mut row1 = MatchBarRow::new("label2");
    row1.inc_if_matches("label2");
    let mb = MatchBar::new(vec![row0, row1, MatchBarRow::new("label333")]);
    assert_eq!(mb.top_lenght, 8);
    assert_eq!(mb.top_values, 3);
    let display = mb.to_text(100);

    assert!(display.contains("[label1  ] [3] ∎∎∎\n"));
    assert!(display.contains("[label2  ] [1] ∎\n"));
    assert!(display.contains("[label333] [0] \n"));
    assert!(display.contains("represents a count of 1"));
    assert!(display.contains("Matches: 4"));
}

#[test]
fn empty_label_matches_every_line() {
    let mut row = MatchBarRow::new("");
    row.inc_if_matches("anything");
    row.inc_if_matches("");
    assert_eq!(row.count, 2);
}
