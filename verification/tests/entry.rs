use aoe2_tournament_bot::entry::{ResultsEntry, SHEET_COLUMN_COUNT};

#[test]
fn get_row_all_none_returns_empty_optional_columns() {
    let entry = ResultsEntry::new("link".into(), "poster".into(), "body".into());
    let row = entry.get_row();
    assert_eq!(row.len(), SHEET_COLUMN_COUNT - 1);
    assert_eq!(row[0], "link");
    assert_eq!(row[1], "poster");
    for cell in &row[2..12] {
        assert_eq!(cell, "");
    }
    assert_eq!(row[12], "body");
}

#[test]
fn get_row_score_zero_renders_as_zero_not_blank() {
    let mut entry = ResultsEntry::new("".into(), "".into(), "".into());
    entry.player1_score = Some(0);
    entry.player2_score = Some(3);
    let row = entry.get_row();
    assert_eq!(row[5], "0");
    assert_eq!(row[8], "3");
}

#[test]
fn get_row_fully_populated() {
    let entry = ResultsEntry {
        message_link: "https://discord.com/m/1".into(),
        poster: "Alice".into(),
        message_contents: "raw".into(),
        bracket: Some("Recruit SF".into()),
        player1_id: Some(111),
        player1_name: Some("Alice".into()),
        player1_score: Some(2),
        player2_id: Some(222),
        player2_name: Some("Bob".into()),
        player2_score: Some(1),
        map_draft: Some("https://maps".into()),
        civ_draft: Some("https://civs".into()),
        replays_link: Some("gcs://b/x".into()),
    };
    assert_eq!(
        entry.get_row(),
        vec![
            "https://discord.com/m/1",
            "Alice",
            "Recruit SF",
            "111",
            "Alice",
            "2",
            "222",
            "Bob",
            "1",
            "https://maps",
            "https://civs",
            "gcs://b/x",
            "raw",
        ]
    );
}

#[test]
fn get_row_renders_extreme_ids_and_negative_scores() {
    let mut entry = ResultsEntry::new("l".into(), "p".into(), "c".into());
    entry.player1_id = Some(u64::MAX);
    entry.player2_id = Some(0);
    entry.player1_score = Some(i32::MIN);
    entry.player2_score = Some(-7);
    let row = entry.get_row();
    assert_eq!(row[3], "18446744073709551615");
    assert_eq!(row[6], "0");
    assert_eq!(row[5], "-2147483648");
    assert_eq!(row[8], "-7");
}

#[test]
fn new_entry_equals_default_with_texts() {
    let entry = ResultsEntry::new("a".into(), "b".into(), "c".into());
    let expected = ResultsEntry {
        message_link: "a".into(),
        poster: "b".into(),
        message_contents: "c".into(),
        ..ResultsEntry::default()
    };
    assert_eq!(entry, expected);
}
