//! The message grammar checked against the same patterns written as regular
//! expressions and run by the `regex` crate.

use aoe2_tournament_bot::entry::ResultsEntry;
use aoe2_tournament_bot::parse::parse_message_content;
use aoe2_tournament_bot::text::{is_decimal_digit_exec, is_white_space_exec};
use regex::Regex;

struct Patterns {
    mention: Regex,
    map_draft: Regex,
    civ_draft: Regex,
    score_line: Regex,
}

fn patterns() -> Patterns {
    Patterns {
        mention: Regex::new(r"<@(\d+)>").unwrap(),
        map_draft: Regex::new(r"(?i)maps?(?:\s+draft)?\s*:?\s*([^\s]+)").unwrap(),
        civ_draft: Regex::new(r"(?i)civs?(?:\s+draft)?\s*:?\s*([^\s]+)").unwrap(),
        score_line: Regex::new(r"(?m)^[^\d]*(\d{1,4})[^\d\v]+(\d{1,4})[^\d]*$").unwrap(),
    }
}

fn by_regex(p: &Patterns, content: &str) -> ResultsEntry {
    let mut entry = ResultsEntry::new(String::new(), String::new(), String::new());
    let ids: Vec<u64> = p
        .mention
        .captures_iter(content)
        .filter_map(|c| c.get(1)?.as_str().parse().ok())
        .collect();
    if ids.len() == 2 {
        entry.player1_id = Some(ids[0]);
        entry.player2_id = Some(ids[1]);
    }
    let content = p.mention.replace_all(content, "");
    if let Some(c) = p.map_draft.captures(&content) {
        entry.map_draft = Some(c.get(1).unwrap().as_str().to_string());
    }
    let content = p.map_draft.replace_all(&content, "");
    if let Some(c) = p.civ_draft.captures(&content) {
        entry.civ_draft = Some(c.get(1).unwrap().as_str().to_string());
    }
    let content = p.civ_draft.replace_all(&content, "");
    if let Some(c) = p.score_line.captures(&content) {
        if let (Ok(a), Ok(b)) = (
            c.get(1).unwrap().as_str().parse::<i32>(),
            c.get(2).unwrap().as_str().parse::<i32>(),
        ) {
            entry.player1_score = Some(a);
            entry.player2_score = Some(b);
        }
    }
    entry
}

fn by_grammar(content: &str) -> ResultsEntry {
    let mut entry = ResultsEntry::new(String::new(), String::new(), String::new());
    parse_message_content(&mut entry, content);
    entry
}

fn all_chars() -> String {
    (0u32..=0x10FFFF).filter_map(char::from_u32).collect()
}

fn chars_matched(re: &str, text: &str) -> Vec<char> {
    let re = Regex::new(re).unwrap();
    re.find_iter(text)
        .flat_map(|m| m.as_str().chars().collect::<Vec<_>>())
        .collect()
}

#[test]
fn digit_class_is_the_regex_digit_class() {
    let text = all_chars();
    let expected = chars_matched(r"\d", &text);
    let ours: Vec<char> = text.chars().filter(|c| is_decimal_digit_exec(*c)).collect();
    assert_eq!(ours, expected);
}

#[test]
fn space_class_is_the_regex_space_class() {
    let text = all_chars();
    let expected = chars_matched(r"\s", &text);
    let ours: Vec<char> = text.chars().filter(|c| is_white_space_exec(*c)).collect();
    assert_eq!(ours, expected);
}

#[test]
fn keyword_letters_fold_as_in_regex() {
    let text = all_chars();
    for letter in ['m', 'a', 'p', 'c', 'i', 'v', 'd', 'r', 'f', 't', 's'] {
        let got = chars_matched(&format!("(?i){}", letter), &text);
        let mut expected = vec![letter.to_ascii_uppercase(), letter];
        if letter == 's' {
            expected.push('\u{17f}');
        }
        assert_eq!(got, expected, "letter {letter}");
    }
}

const CASES: &[&str] = &[
    "",
    "maps",
    "map:",
    "map: ",
    "MAP :\n",
    "map:   x",
    "maps: a b",
    "Maps Draft: https://a",
    "map draft",
    "map  draft  :  link",
    "mapdraft: x",
    "ſap",
    "mapſ link",
    "civs:civ x",
    "civ civ civ",
    "map map: x civ civ: y",
    "Map: a\nCivs: b\n2 - 1",
    "<@1><@2> 3:2",
    "<@1> <@2> <@3>",
    "<@> <@12a> <@99999999999999999999> <@5>",
    "<@١٢> <@7> <@8>",
    "score 12345 - 1",
    "3 - 1 - 2",
    "3\u{b}1",
    "3 \u{b} 1",
    "a 3-1\nb 2-2",
    "x\n\n1-0\n",
    "1-0\r\n",
    "٣-٤",
    "1-٤",
    "0003 - 0004",
    "map: 1 - 2",
    "map\u{3000}draft\u{a0}:\u{2003}l",
    "civ:\u{85}x",
    "line one\n<@5> 2 vs 3 <@6>\nmap: m\n",
];

#[test]
fn listed_messages_read_as_with_regex() {
    let p = patterns();
    for case in CASES {
        assert_eq!(by_grammar(case), by_regex(&p, case), "message {case:?}");
    }
}

#[test]
fn generated_messages_read_as_with_regex() {
    let pieces: &[&str] = &[
        "<@", ">", "@", "<", "1", "23", "4567", "٣", " ", "  ", "\n", "\t", "\u{b}",
        "\u{a0}", "\u{3000}", ":", "-", "map", "MAPS", "Map", "s", "S", "ſ", "civ", "Civs",
        "draft", "DRAFT", " draft", "x", "https://d/q", "vs", "\r",
    ];
    let p = patterns();
    let mut state: u64 = 0x2545_F491_4F6C_DD1D;
    for _ in 0..20_000 {
        let mut message = String::new();
        state ^= state << 13;
        state ^= state >> 7;
        state ^= state << 17;
        let count = 1 + (state % 12) as usize;
        for _ in 0..count {
            state ^= state << 13;
            state ^= state >> 7;
            state ^= state << 17;
            message.push_str(pieces[(state % pieces.len() as u64) as usize]);
        }
        assert_eq!(
            by_grammar(&message),
            by_regex(&p, &message),
            "message {message:?}"
        );
    }
}
