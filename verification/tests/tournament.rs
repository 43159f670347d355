use aoe2_tournament_bot::config::Tournament;
use aoe2_tournament_bot::handler::{
    category_name, route_message, update_action, ChannelKind, UpdateAction,
};
use aoe2_tournament_bot::pattern::Pattern;
use aoe2_tournament_bot::tournament::{
    conditions_hold, match_tournament, specific_matches, MatchInput,
};

fn t(name: &str, guild: Option<u64>, pat: &str, catch_all: bool) -> Tournament {
    tc(name, guild, None, pat, catch_all)
}

fn tc(
    name: &str,
    guild: Option<u64>,
    category: Option<&str>,
    pat: &str,
    catch_all: bool,
) -> Tournament {
    Tournament {
        name: name.into(),
        guild_id: guild,
        category: category.map(str::to_string),
        channel_pattern: Pattern::new(pat).unwrap(),
        catch_all,
        sheet_tab: name.into(),
        gcs_prefix: format!("{}/", name.to_lowercase()),
    }
}

fn input<'a>(guild: Option<u64>, channel: &'a str) -> MatchInput<'a> {
    MatchInput {
        guild_id: guild,
        channel_name: channel,
        category: None,
    }
}

fn input_cat<'a>(guild: Option<u64>, channel: &'a str, category: &'a str) -> MatchInput<'a> {
    MatchInput {
        guild_id: guild,
        channel_name: channel,
        category: Some(category),
    }
}

#[test]
fn matches_specific_tournament_by_guild_and_channel() {
    let tournaments = vec![
        t("SF", Some(100), "^sf-.*-results$", false),
        t("TG", Some(100), "^tg-.*-results$", false),
    ];
    let m = match_tournament(&tournaments, input(Some(100), "sf-final-results")).unwrap();
    assert_eq!(m.name, "SF");
}

#[test]
fn no_match_returns_none_without_catch_all() {
    let tournaments = vec![t("SF", Some(100), "^sf-.*-results$", false)];
    assert!(match_tournament(&tournaments, input(Some(100), "general")).is_none());
}

#[test]
fn catch_all_wins_when_no_specific_match() {
    let tournaments = vec![
        t("SF", Some(100), "^sf-.*-results$", false),
        t("Unknown", None, "^.*results.*$", true),
    ];
    let m = match_tournament(&tournaments, input(Some(999), "team-results")).unwrap();
    assert_eq!(m.name, "Unknown");
}

#[test]
fn specific_match_takes_priority_over_catch_all() {
    let tournaments = vec![
        t("SF", Some(100), "^sf-.*-results$", false),
        t("Unknown", None, "^.*results.*$", true),
    ];
    let m = match_tournament(&tournaments, input(Some(100), "sf-r1-results")).unwrap();
    assert_eq!(m.name, "SF");
}

#[test]
fn guild_filter_excludes_wrong_guild() {
    let tournaments = vec![t("SF", Some(100), "^sf-.*-results$", false)];
    assert!(match_tournament(&tournaments, input(Some(200), "sf-x-results")).is_none());
}

#[test]
fn first_match_wins_among_overlapping_specific() {
    let tournaments = vec![
        t("SF-A", Some(100), "^sf-.*$", false),
        t("SF-B", Some(100), "^sf-.*$", false),
    ];
    let m = match_tournament(&tournaments, input(Some(100), "sf-foo")).unwrap();
    assert_eq!(m.name, "SF-A");
}

#[test]
fn non_results_channel_in_configured_guild_does_not_match() {
    let tournaments = vec![t("SF", Some(100), "^.*results.*$", false)];
    assert!(match_tournament(&tournaments, input(Some(100), "general")).is_none());
}

#[test]
fn category_constraint_matches_when_equal() {
    let tournaments = vec![tc(
        "SF",
        Some(100),
        Some("Recruit SF Bracket"),
        "^.*results.*$",
        false,
    )];
    let m = match_tournament(
        &tournaments,
        input_cat(Some(100), "r1-results", "Recruit SF Bracket"),
    )
    .unwrap();
    assert_eq!(m.name, "SF");
}

#[test]
fn category_constraint_rejects_different_category() {
    let tournaments = vec![tc(
        "SF",
        Some(100),
        Some("Recruit SF Bracket"),
        "^.*results.*$",
        false,
    )];
    assert!(match_tournament(
        &tournaments,
        input_cat(Some(100), "r1-results", "General SF Bracket")
    )
    .is_none());
}

#[test]
fn category_constraint_rejects_missing_category() {
    let tournaments = vec![tc(
        "SF",
        Some(100),
        Some("Recruit SF Bracket"),
        "^.*results.*$",
        false,
    )];
    assert!(match_tournament(&tournaments, input(Some(100), "r1-results")).is_none());
}

#[test]
fn unset_category_matches_regardless_of_message_category() {
    let tournaments = vec![t("SF", Some(100), "^.*results.*$", false)];
    let m = match_tournament(
        &tournaments,
        input_cat(Some(100), "r1-results", "Whatever Bracket"),
    )
    .unwrap();
    assert_eq!(m.name, "SF");
}

#[test]
fn guild_constrained_tournament_rejects_message_without_guild() {
    let tournaments = vec![t("SF", Some(100), ".*", false)];
    assert!(match_tournament(&tournaments, input(None, "x")).is_none());
}

#[test]
fn route_skips_own_messages_and_non_text_channels() {
    let tournaments = vec![t("Any", None, ".*", true)];
    assert!(route_message(&tournaments, 7, 7, ChannelKind::Text, input(Some(1), "c")).is_none());
    assert!(route_message(&tournaments, 8, 7, ChannelKind::Other, input(Some(1), "c")).is_none());
    let m = route_message(&tournaments, 8, 7, ChannelKind::Text, input(Some(1), "c")).unwrap();
    assert_eq!(m.name, "Any");
}

#[test]
fn category_comes_only_from_category_parents() {
    assert_eq!(
        category_name(ChannelKind::Category, "SF Bracket".into()).as_deref(),
        Some("SF Bracket")
    );
    assert_eq!(category_name(ChannelKind::Text, "general".into()), None);
}

#[test]
fn only_real_edits_are_processed() {
    assert_eq!(update_action(false, true), UpdateAction::Ignore);
    assert_eq!(update_action(false, false), UpdateAction::Ignore);
    assert_eq!(update_action(true, true), UpdateAction::Process);
    assert_eq!(update_action(true, false), UpdateAction::FetchThenProcess);
}

#[test]
fn guild_and_category_conditions_ignore_the_channel_name() {
    let sf = tc("SF", Some(7), Some("SF Bracket"), "^never$", false);
    assert!(conditions_hold(&sf, input_cat(Some(7), "anything", "SF Bracket")));
    assert!(!conditions_hold(&sf, input_cat(Some(8), "anything", "SF Bracket")));
    assert!(!conditions_hold(&sf, input_cat(Some(7), "anything", "Other")));
    assert!(!conditions_hold(&sf, input(Some(7), "anything")));
    let open = t("Open", None, "^x$", true);
    assert!(conditions_hold(&open, input(None, "y")));
}

#[test]
fn ambiguous_routing_lists_every_specific_match() {
    let ts = vec![
        t("A", Some(1), "^sf-", false),
        t("B", Some(2), "^sf-", false),
        t("C", Some(1), "results$", false),
        t("Rest", None, ".*", true),
    ];
    assert_eq!(specific_matches(&ts, input(Some(1), "sf-results")), vec![0, 2]);
    assert_eq!(specific_matches(&ts, input(Some(2), "sf-x")), vec![1]);
    assert_eq!(specific_matches(&ts, input(Some(3), "other")), Vec::<usize>::new());
    assert_eq!(match_tournament(&ts, input(Some(1), "sf-results")).unwrap().name, "A");
}
