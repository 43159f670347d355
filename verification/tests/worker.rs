use aoe2_tournament_bot::diag::{failure_message, render_chain};
use aoe2_tournament_bot::entry::{ResultsEntry, SHEET_COLUMN_COUNT};
use aoe2_tournament_bot::retry::{gcs_retryable, sheets_retryable, GcsFailure, SheetsFailure};
use aoe2_tournament_bot::sheets::{append_range, missing_tabs};
use aoe2_tournament_bot::text::{parse_i32, parse_u64};
use aoe2_tournament_bot::worker::{
    build_row, complete_entry, display_name, download_link, entry_for_message, object_name,
    plan_attachments, replays_link, timestamped_row, AttachmentRef, MessageEvent,
};

#[test]
fn attachments_are_uploaded_only_for_new_messages() {
    let atts = vec![
        AttachmentRef { id: 11, filename: "a.aoe2record".into() },
        AttachmentRef { id: 12, filename: "b.aoe2record".into() },
    ];
    let created = plan_attachments("sf-2026/", "bucket", MessageEvent::Created, &atts);
    assert_eq!(created.len(), 2);
    assert!(created.iter().all(|s| s.upload));
    assert_eq!(created[0].object_name, "sf-2026/11_a.aoe2record");
    assert_eq!(created[1].link, "gcs://bucket/sf-2026/12_b.aoe2record");
    let updated = plan_attachments("sf-2026/", "bucket", MessageEvent::Updated, &atts);
    assert!(updated.iter().all(|s| !s.upload));
    assert_eq!(updated[0].link, "gcs://bucket/sf-2026/11_a.aoe2record");
}

#[test]
fn object_names_and_links() {
    assert_eq!(object_name("p/", 0, "x"), "p/0_x");
    assert_eq!(download_link("b", "p/0_x"), "gcs://b/p/0_x");
}

#[test]
fn replays_cell_joins_links_by_newline() {
    assert_eq!(replays_link(&vec![]), "");
    assert_eq!(replays_link(&vec!["a".into()]), "a");
    assert_eq!(replays_link(&vec!["a".into(), "b".into(), "c".into()]), "a\nb\nc");
}

#[test]
fn entry_for_message_sets_bracket_and_parses() {
    let e = entry_for_message(
        "link".into(),
        "Poster".into(),
        "<@1> 2-1 <@2>\nMap: m".into(),
        Some("Recruit SF".into()),
    );
    assert_eq!(e.bracket.as_deref(), Some("Recruit SF"));
    assert_eq!(e.player1_id, Some(1));
    assert_eq!(e.player2_id, Some(2));
    assert_eq!(e.player1_score, Some(2));
    assert_eq!(e.player2_score, Some(1));
    assert_eq!(e.map_draft.as_deref(), Some("m"));
    assert_eq!(e.message_contents, "<@1> 2-1 <@2>\nMap: m");
}

#[test]
fn complete_entry_sets_names_and_replays() {
    let mut e = ResultsEntry::new("l".into(), "p".into(), "c".into());
    complete_entry(&mut e, Some("Alice".into()), None, &vec![]);
    assert_eq!(e.player1_name.as_deref(), Some("Alice"));
    assert_eq!(e.player2_name, None);
    assert_eq!(e.replays_link.as_deref(), Some(""));
}

#[test]
fn rows_have_the_sheet_column_count() {
    let e = ResultsEntry::new("l".into(), "p".into(), "c".into());
    let row = build_row("2024-01-01T00:00:00+00:00", &e);
    assert_eq!(row.len(), SHEET_COLUMN_COUNT);
    assert_eq!(row[0], "2024-01-01T00:00:00+00:00");
    assert_eq!(row[1..].to_vec(), e.get_row());
    let stamped = timestamped_row(&e);
    assert_eq!(stamped.len(), SHEET_COLUMN_COUNT);
    assert_eq!(stamped[1..].to_vec(), e.get_row());
}

#[test]
fn display_name_prefers_global_name() {
    assert_eq!(display_name(Some("Glob".into()), "user".into()), "Glob");
    assert_eq!(display_name(None, "user".into()), "user");
}

#[test]
fn retry_predicates() {
    assert!(gcs_retryable(&GcsFailure::Response { code: 503 }));
    assert!(gcs_retryable(&GcsFailure::Response { code: 408 }));
    assert!(!gcs_retryable(&GcsFailure::Response { code: 404 }));
    assert!(gcs_retryable(&GcsFailure::HttpClient { is_timeout: false, is_connect: true }));
    assert!(!gcs_retryable(&GcsFailure::HttpClient { is_timeout: false, is_connect: false }));
    assert!(!gcs_retryable(&GcsFailure::Other));
    assert!(sheets_retryable(&SheetsFailure::Transport));
    assert!(sheets_retryable(&SheetsFailure::Status { code: 429 }));
    assert!(sheets_retryable(&SheetsFailure::Status { code: 599 }));
    assert!(!sheets_retryable(&SheetsFailure::Status { code: 600 }));
    assert!(!sheets_retryable(&SheetsFailure::Status { code: 400 }));
    assert!(!sheets_retryable(&SheetsFailure::Other));
}

#[test]
fn sheet_ranges_and_missing_tabs() {
    assert_eq!(append_range("SF 2026"), "SF 2026!A1");
    let existing = vec!["Archive".to_string(), "SF 2026".to_string()];
    let wanted = vec!["SF 2026".to_string(), "TG".to_string(), "Unknown".to_string()];
    assert_eq!(missing_tabs(&existing, &wanted), vec!["TG".to_string(), "Unknown".to_string()]);
    assert!(missing_tabs(&existing, &vec!["Archive".to_string()]).is_empty());
}

#[test]
fn chain_rendering_collapses_repeated_frames() {
    let frames = vec![
        "fetching channel 1".to_string(),
        "HTTP error".to_string(),
        "HTTP error".to_string(),
        "timeout".to_string(),
    ];
    assert_eq!(render_chain(&frames), "fetching channel 1: HTTP error: timeout");
    assert_eq!(render_chain(&vec!["x".to_string(); 3]), "x");
    assert_eq!(render_chain(&vec![]), "");
    assert_eq!(
        failure_message("processing message failed", &vec!["boom".to_string()]),
        "processing message failed: boom"
    );
}

#[test]
fn decimal_parsing_matches_std() {
    for s in ["0", "+7", "007", "18446744073709551615", "18446744073709551616", "", "+", "-1", "1a", "٣"] {
        assert_eq!(parse_u64(s), s.parse::<u64>().ok(), "{s}");
    }
    for s in ["0", "-0", "+3", "-2147483648", "2147483647", "2147483648", "-2147483649", "-", "x"] {
        assert_eq!(parse_i32(s), s.parse::<i32>().ok(), "{s}");
    }
}

#[test]
fn chain_is_the_causes_without_repeats_joined() {
    let v = |xs: &[&str]| xs.iter().map(|s| s.to_string()).collect::<Vec<_>>();
    let frames = v(&["a", "b", "b", "a", "a", "c"]);
    let mut deduped = frames.clone();
    deduped.dedup();
    assert_eq!(render_chain(&frames), deduped.join(": "));
    assert_eq!(render_chain(&v(&["x", "y", "z"])), "x: y: z");
    // Every two kept causes are separated, even when the first is empty,
    // as `{err:#}` prints them.
    assert_eq!(render_chain(&v(&["", "x"])), ": x");
    assert_eq!(render_chain(&v(&["", "", "x"])), ": x");
}

#[test]
fn row_timestamp_has_the_rfc3339_utc_layout() {
    let entry = ResultsEntry::new("l".into(), "p".into(), "c".into());
    let row = timestamped_row(&entry);
    let ts = &row[0];
    assert!(ts.ends_with("+00:00"), "{ts}");
    assert_eq!(ts.len(), 25, "{ts}");
    assert_eq!(&ts[10..11], "T");
}
