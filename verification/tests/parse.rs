use aoe2_tournament_bot::entry::ResultsEntry;
use aoe2_tournament_bot::parse::parse_message_content;

fn parsed(content: &str) -> ResultsEntry {
    let mut entry = ResultsEntry::new(String::new(), String::new(), String::new());
    parse_message_content(&mut entry, content);
    entry
}

const TEST_MESSAGE1: &str = "
<@698259349415657522> vs. <@810249574173245501>  Recruit SF
Civs: https://aoe2cm.net/draft/SfNXP
Map: https://aoe2cm.net/draft/zQKpk
";

#[test]
fn parses_message1_two_mentions_no_score() {
    let entry = parsed(TEST_MESSAGE1);
    assert_eq!(entry.player1_id, Some(698_259_349_415_657_522));
    assert_eq!(entry.player2_id, Some(810_249_574_173_245_501));
    assert_eq!(
        entry.civ_draft.as_deref(),
        Some("https://aoe2cm.net/draft/SfNXP")
    );
    assert_eq!(
        entry.map_draft.as_deref(),
        Some("https://aoe2cm.net/draft/zQKpk")
    );
    assert_eq!(entry.player1_score, None);
    assert_eq!(entry.player2_score, None);
}

const TEST_MESSAGE2: &str = "
<@698259349415657522> 3-0 <@810249574173245501>  Recruit SF
Civs: https://aoe2cm.net/draft/SfNXP
Map: https://aoe2cm.net/draft/zQKpk
";

#[test]
fn parses_message2_score_with_dash() {
    let entry = parsed(TEST_MESSAGE2);
    assert_eq!(entry.player1_id, Some(698_259_349_415_657_522));
    assert_eq!(entry.player2_id, Some(810_249_574_173_245_501));
    assert_eq!(
        entry.civ_draft.as_deref(),
        Some("https://aoe2cm.net/draft/SfNXP")
    );
    assert_eq!(
        entry.map_draft.as_deref(),
        Some("https://aoe2cm.net/draft/zQKpk")
    );
    assert_eq!(entry.player1_score, Some(3));
    assert_eq!(entry.player2_score, Some(0));
}

const TEST_MESSAGE3: &str = "
<@359062701831618560> ||0:3|| <@271375929702350849>
General SF
Map draft: https://aoe2cm.net/draft/TlCgx
Civ draft: https://aoe2cm.net/draft/vlrcX
";

#[test]
fn parses_message3_spoiler_score_and_draft_keywords() {
    let entry = parsed(TEST_MESSAGE3);
    assert_eq!(entry.player1_id, Some(359_062_701_831_618_560));
    assert_eq!(entry.player2_id, Some(271_375_929_702_350_849));
    assert_eq!(
        entry.civ_draft.as_deref(),
        Some("https://aoe2cm.net/draft/vlrcX")
    );
    assert_eq!(
        entry.map_draft.as_deref(),
        Some("https://aoe2cm.net/draft/TlCgx")
    );
    assert_eq!(entry.player1_score, Some(0));
    assert_eq!(entry.player2_score, Some(3));
}

#[test]
fn single_mention_leaves_ids_unset() {
    let entry = parsed("just <@123> playing alone");
    assert_eq!(entry.player1_id, None);
    assert_eq!(entry.player2_id, None);
}

#[test]
fn three_mentions_leaves_ids_unset() {
    let entry = parsed("<@1> vs <@2> vs <@3>");
    assert_eq!(entry.player1_id, None);
    assert_eq!(entry.player2_id, None);
}

#[test]
fn score_line_with_one_number_does_not_match() {
    let entry = parsed("<@1> won <@2>\nonly 5 here\n");
    assert_eq!(entry.player1_score, None);
    assert_eq!(entry.player2_score, None);
}

#[test]
fn map_draft_url_digits_do_not_become_score() {
    let entry = parsed("<@1> vs <@2>\nMap: https://aoe2cm.net/draft/ab12cd34\n");
    assert_eq!(entry.player1_score, None);
    assert_eq!(entry.player2_score, None);
    assert_eq!(
        entry.map_draft.as_deref(),
        Some("https://aoe2cm.net/draft/ab12cd34")
    );
}

#[test]
fn mention_too_large_for_u64_is_skipped() {
    // The first mention does not fit in 64 bits, so only one id remains.
    let entry = parsed("<@99999999999999999999> vs <@2>");
    assert_eq!(entry.player1_id, None);
    assert_eq!(entry.player2_id, None);
    let entry = parsed("<@99999999999999999999> <@1> vs <@2>");
    assert_eq!(entry.player1_id, Some(1));
    assert_eq!(entry.player2_id, Some(2));
}

#[test]
fn parsing_leaves_other_fields_alone() {
    let mut entry = ResultsEntry::new("link".into(), "poster".into(), "body".into());
    entry.bracket = Some("Recruit".into());
    entry.player1_id = Some(5);
    parse_message_content(&mut entry, "no mentions, 2 : 1");
    assert_eq!(entry.message_link, "link");
    assert_eq!(entry.bracket.as_deref(), Some("Recruit"));
    assert_eq!(entry.player1_id, Some(5));
    assert_eq!(entry.player2_id, None);
    assert_eq!(entry.player1_score, Some(2));
    assert_eq!(entry.player2_score, Some(1));
}

#[test]
fn scores_have_at_most_four_digits_and_links_no_spaces() {
    let entry = parsed("0003 - 0004\nmap draft :  https://d/x  tail\n");
    assert_eq!(entry.player1_score, Some(3));
    assert_eq!(entry.player2_score, Some(4));
    assert_eq!(entry.map_draft.as_deref(), Some("https://d/x"));

    let entry = parsed("12345 - 1");
    assert_eq!(entry.player1_score, None);
    assert_eq!(entry.player2_score, None);

    let entry = parsed("9999:9999");
    assert_eq!(entry.player1_score, Some(9999));
    assert_eq!(entry.player2_score, Some(9999));
}

#[test]
fn keyword_at_the_end_reads_what_follows_it() {
    // With nothing after `maps`, the `s` itself is the link; a lone `:` is
    // taken as the link when only white space follows it.
    assert_eq!(parsed("maps").map_draft.as_deref(), Some("s"));
    assert_eq!(parsed("map:  ").map_draft.as_deref(), Some(":"));
    assert_eq!(parsed("civ draft").civ_draft.as_deref(), Some("draft"));
}

#[test]
fn parsing_twice_is_parsing_once() {
    let once = parsed(TEST_MESSAGE2);
    let mut twice = once.clone();
    parse_message_content(&mut twice, TEST_MESSAGE2);
    assert_eq!(twice, once);
}

#[test]
fn readme_score_between_mentions() {
    let entry = parsed("<@1> 2 - 1 <@2>");
    assert_eq!(entry.player1_id, Some(1));
    assert_eq!(entry.player2_id, Some(2));
    assert_eq!(entry.player1_score, Some(2));
    assert_eq!(entry.player2_score, Some(1));
}
