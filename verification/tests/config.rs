use aoe2_tournament_bot::config::{
    kebab_case_prefix, validate, BotConfig, ConfigError, GcpConfig, RawConfig, RawTournament,
};

fn raw(admins: Vec<u64>, tournaments: Vec<RawTournament>) -> RawConfig {
    RawConfig {
        bot: BotConfig {
            discord_token: "tok".to_string(),
            admin_user_ids: admins,
        },
        gcp: GcpConfig {
            bucket: "b".to_string(),
            sheet_id: "s".to_string(),
        },
        tournaments,
    }
}

fn t(name: &str, guild_id: Option<u64>, pattern: &str, catch_all: bool) -> RawTournament {
    RawTournament {
        name: name.to_string(),
        guild_id,
        category: None,
        channel_pattern: pattern.to_string(),
        catch_all,
    }
}

#[test]
fn kebab_case_examples() {
    assert_eq!(kebab_case_prefix("SF 2026").as_deref(), Some("sf-2026/"));
    assert_eq!(
        kebab_case_prefix("  General SF  ").as_deref(),
        Some("general-sf/")
    );
    assert_eq!(kebab_case_prefix("Foo/Bar").as_deref(), Some("foo-bar/"));
    assert_eq!(kebab_case_prefix("--A--B--").as_deref(), Some("a-b/"));
    assert_eq!(kebab_case_prefix("!!!"), None);
    assert_eq!(kebab_case_prefix(""), None);
}

#[test]
fn loads_valid_config() {
    let cfg = validate(raw(
        vec![1, 2],
        vec![
            t("SF 2026", Some(100), "^sf-.*-results$", false),
            t("Unknown", None, ".*", true),
        ],
    ))
    .unwrap();
    assert_eq!(cfg.bot.admin_user_ids, vec![1, 2]);
    assert_eq!(cfg.tournaments.len(), 2);
    assert_eq!(cfg.tournaments[0].sheet_tab, "SF 2026");
    assert_eq!(cfg.tournaments[0].gcs_prefix, "sf-2026/");
    assert!(!cfg.tournaments[0].catch_all);
    assert!(cfg.tournaments[1].catch_all);
}

#[test]
fn rejects_empty_admin_user_ids() {
    let err = validate(raw(vec![], vec![])).unwrap_err().message();
    assert!(err.contains("admin_user_ids"), "{err}");
}

#[test]
fn rejects_invalid_regex() {
    let res = validate(raw(vec![1], vec![t("A", None, "[", false)]));
    assert!(res.is_err());
}

#[test]
fn rejects_duplicate_names() {
    let err = validate(raw(
        vec![1],
        vec![t("A", None, ".*", false), t("A", None, ".*", false)],
    ))
    .unwrap_err()
    .message();
    assert!(err.contains("duplicate"), "{err}");
}

#[test]
fn rejects_duplicate_derived_prefix() {
    let err = validate(raw(
        vec![1],
        vec![t("SF 2026", None, ".*", false), t("sf-2026", None, ".*", false)],
    ))
    .unwrap_err()
    .message();
    assert!(err.contains("gcs_prefix"), "{err}");
}

#[test]
fn rejects_catch_all_not_last() {
    let err = validate(raw(
        vec![1],
        vec![t("A", None, ".*", true), t("B", None, ".*", false)],
    ))
    .unwrap_err()
    .message();
    assert!(err.contains("not the last entry"), "{err}");
}

#[test]
fn rejects_name_with_no_alphanumerics() {
    let res = validate(raw(vec![1], vec![t("!!!", None, ".*", false)]));
    assert!(res.is_err());
}

#[test]
fn kebab_case_keeps_digits_and_lowercases_ascii_only() {
    assert_eq!(kebab_case_prefix("Ünïcode Cup 3").as_deref(), Some("n-code-cup-3/"));
    assert_eq!(kebab_case_prefix("A").as_deref(), Some("a/"));
    assert_eq!(kebab_case_prefix("x__y").as_deref(), Some("x-y/"));
}

#[test]
fn derived_prefix_is_its_own_kebab_case() {
    for name in ["SF 2026", "  General SF  ", "Foo/Bar", "--A--B--", "Team Games 2v2"] {
        let p = kebab_case_prefix(name).unwrap();
        let body = p.strip_suffix('/').unwrap();
        assert_eq!(kebab_case_prefix(body), Some(p.clone()));
        assert!(!body.starts_with('-') && !body.ends_with('-') && !body.contains("--"));
    }
}

#[test]
fn invalid_regex_error_carries_name_pattern_and_reason() {
    let err = validate(raw(vec![1], vec![t("A", None, "[", false)])).unwrap_err();
    match &err {
        ConfigError::InvalidChannelPattern { name, pattern, reason } => {
            assert_eq!(name, "A");
            assert_eq!(pattern, "[");
            assert!(!reason.is_empty());
        }
        other => panic!("unexpected {other:?}"),
    }
    assert_eq!(err.message(), "invalid channel_pattern for tournament 'A': [");
}

#[test]
fn error_messages_name_the_offending_tournaments() {
    let err = validate(raw(
        vec![1],
        vec![t("SF 2026", None, ".*", false), t("sf-2026", None, ".*", false)],
    ))
    .unwrap_err();
    assert_eq!(
        err.message(),
        "tournaments 'SF 2026' and 'sf-2026' share derived gcs_prefix 'sf-2026/'"
    );
    let err = validate(raw(vec![1], vec![t("!!!", None, ".*", false)])).unwrap_err();
    assert_eq!(
        err.message(),
        "tournament name '!!!' has no ASCII alphanumeric characters; cannot derive gcs_prefix"
    );
    assert_eq!(
        ConfigError::MultipleCatchAll { count: 2 }.message(),
        "at most one tournament may set catch_all = true (found 2)"
    );
    assert_eq!(
        ConfigError::DuplicateName { name: "A".into() }.message(),
        "duplicate tournament name 'A'"
    );
}

#[test]
fn first_faulty_tournament_is_reported() {
    // The catch-all check on the first entry comes before the bad pattern of
    // the second one.
    let err = validate(raw(
        vec![1],
        vec![t("A", None, ".*", true), t("B", None, "(", false)],
    ))
    .unwrap_err();
    assert!(matches!(err, ConfigError::CatchAllNotLast { ref name } if name == "A"));
}

#[test]
fn validated_entries_keep_guild_category_and_pattern() {
    let mut block = t("SF", Some(7), "^sf-.*$", false);
    block.category = Some("Recruit SF".into());
    let cfg = validate(raw(vec![5], vec![block])).unwrap();
    let tr = &cfg.tournaments[0];
    assert_eq!(tr.guild_id, Some(7));
    assert_eq!(tr.category.as_deref(), Some("Recruit SF"));
    assert_eq!(tr.channel_pattern.as_str(), "^sf-.*$");
    assert_eq!(tr.gcs_prefix, "sf/");
    assert_eq!(cfg.gcp.bucket, "b");
}

#[test]
fn empty_tournament_list_is_valid() {
    let cfg = validate(raw(vec![1], vec![])).unwrap();
    assert!(cfg.tournaments.is_empty());
}

#[test]
fn prefix_is_the_lowercased_words_joined_by_dashes() {
    for name in ["SF 2026", "  a1 B2\tc3 ", "Grand Final: Day 2!", "é€x9Y", "_", "Z"] {
        let words: Vec<String> = name
            .split(|c: char| !c.is_ascii_alphanumeric())
            .filter(|w| !w.is_empty())
            .map(|w| w.to_ascii_lowercase())
            .collect();
        let expected = if words.is_empty() {
            None
        } else {
            Some(words.join("-") + "/")
        };
        assert_eq!(kebab_case_prefix(name), expected, "name {name:?}");
    }
}

#[test]
fn prefix_of_a_prefix_is_itself() {
    for name in ["SF 2026", "Grand Final: Day 2!", "x__y", "--A--B--"] {
        let p = kebab_case_prefix(name).unwrap();
        assert_eq!(kebab_case_prefix(&p).as_deref(), Some(p.as_str()));
        assert_eq!(kebab_case_prefix(&p[..p.len() - 1]).as_deref(), Some(p.as_str()));
    }
}
