//! One captured result: the fields of a results message and the sheet row
//! they become.

use vstd::prelude::*;

use crate::text::{decimal, opt_text, i32_to_decimal, owned, signed_decimal, u64_to_decimal};

verus! {

/// What one results message contributes to the sheet.
#[derive(Debug, Clone, PartialEq, Eq)]
pub struct ResultsEntry {
    pub message_link: String,
    pub poster: String,
    pub message_contents: String,
    pub bracket: Option<String>,
    pub player1_id: Option<u64>,
    pub player1_name: Option<String>,
    pub player1_score: Option<i32>,
    pub player2_id: Option<u64>,
    pub player2_name: Option<String>,
    pub player2_score: Option<i32>,
    pub map_draft: Option<String>,
    pub civ_draft: Option<String>,
    pub replays_link: Option<String>,
}

/// Number of columns of a sheet row: the timestamp followed by the
/// [`ResultsEntry::get_row`] cells.
pub const SHEET_COLUMN_COUNT: usize = 14;

/// The content of a [`ResultsEntry`].
pub struct EntryView {
    pub message_link: Seq<char>,
    pub poster: Seq<char>,
    pub message_contents: Seq<char>,
    pub bracket: Option<Seq<char>>,
    pub player1_id: Option<u64>,
    pub player1_name: Option<Seq<char>>,
    pub player1_score: Option<i32>,
    pub player2_id: Option<u64>,
    pub player2_name: Option<Seq<char>>,
    pub player2_score: Option<i32>,
    pub map_draft: Option<Seq<char>>,
    pub civ_draft: Option<Seq<char>>,
    pub replays_link: Option<Seq<char>>,
}

impl View for ResultsEntry {
    type V = EntryView;

    open spec fn view(&self) -> EntryView {
        EntryView {
            message_link: self.message_link@,
            poster: self.poster@,
            message_contents: self.message_contents@,
            bracket: opt_text(self.bracket),
            player1_id: self.player1_id,
            player1_name: opt_text(self.player1_name),
            player1_score: self.player1_score,
            player2_id: self.player2_id,
            player2_name: opt_text(self.player2_name),
            player2_score: self.player2_score,
            map_draft: opt_text(self.map_draft),
            civ_draft: opt_text(self.civ_draft),
            replays_link: opt_text(self.replays_link),
        }
    }
}

/// An entry with the three given texts and every optional field unset.
pub open spec fn fresh_entry(
    message_link: Seq<char>,
    poster: Seq<char>,
    message_contents: Seq<char>,
) -> EntryView {
    EntryView {
        message_link,
        poster,
        message_contents,
        bracket: None,
        player1_id: None,
        player1_name: None,
        player1_score: None,
        player2_id: None,
        player2_name: None,
        player2_score: None,
        map_draft: None,
        civ_draft: None,
        replays_link: None,
    }
}

impl Default for ResultsEntry {
    fn default() -> (r: ResultsEntry)
        ensures
            r@ == fresh_entry(Seq::empty(), Seq::empty(), Seq::empty()),
    {
        ResultsEntry {
            message_link: String::new(),
            poster: String::new(),
            message_contents: String::new(),
            bracket: None,
            player1_id: None,
            player1_name: None,
            player1_score: None,
            player2_id: None,
            player2_name: None,
            player2_score: None,
            map_draft: None,
            civ_draft: None,
            replays_link: None,
        }
    }
}

/// A text cell: the text, or empty when unset.
pub open spec fn text_cell(o: Option<Seq<char>>) -> Seq<char> {
    match o {
        Some(s) => s,
        None => Seq::empty(),
    }
}

/// A Discord id cell: its decimal digits, or empty when unset.
pub open spec fn id_cell(o: Option<u64>) -> Seq<char> {
    match o {
        Some(v) => decimal(v as nat),
        None => Seq::empty(),
    }
}

/// A score cell: its decimal rendering, or empty when unset (so a score of
/// zero is written `0`, not left blank).
pub open spec fn score_cell(o: Option<i32>) -> Seq<char> {
    match o {
        Some(v) => signed_decimal(v as int),
        None => Seq::empty(),
    }
}

/// The sheet cells of an entry, after the timestamp column: link, poster,
/// bracket, player 1 id, name and score, player 2 id, name and score, map
/// draft, civ draft, replays link, message contents.
pub open spec fn row_cells(e: EntryView) -> Seq<Seq<char>> {
    seq![
        e.message_link,
        e.poster,
        text_cell(e.bracket),
        id_cell(e.player1_id),
        text_cell(e.player1_name),
        score_cell(e.player1_score),
        id_cell(e.player2_id),
        text_cell(e.player2_name),
        score_cell(e.player2_score),
        text_cell(e.map_draft),
        text_cell(e.civ_draft),
        text_cell(e.replays_link),
        e.message_contents,
    ]
}

/// The texts of a row of strings.
pub open spec fn texts(v: Seq<String>) -> Seq<Seq<char>> {
    v.map_values(|s: String| s@)
}

/// The text of an optional string cell, or an empty string.
fn optstr(value: &Option<String>) -> (r: String)
    ensures
        r@ == text_cell(opt_text(*value)),
{
    match value {
        Some(v) => v.clone(),
        None => String::new(),
    }
}

/// The decimal digits of an optional id, or an empty string.
fn optstr_u64(value: Option<u64>) -> (r: String)
    ensures
        r@ == id_cell(value),
{
    match value {
        Some(v) => u64_to_decimal(v),
        None => String::new(),
    }
}

/// The decimal rendering of an optional score, or an empty string.
fn optstr_i32(value: Option<i32>) -> (r: String)
    ensures
        r@ == score_cell(value),
{
    match value {
        Some(v) => i32_to_decimal(v),
        None => String::new(),
    }
}

impl ResultsEntry {
    /// An entry for a message, with nothing parsed from it yet.
    pub fn new(message_link: String, poster: String, message_contents: String) -> (r: Self)
        ensures
            r@ == fresh_entry(message_link@, poster@, message_contents@),
            r.message_link@ == message_link@,
            r.poster@ == poster@,
            r.message_contents@ == message_contents@,
    {
        ResultsEntry {
            message_link,
            poster,
            message_contents,
            ..Self::default()
        }
    }

    /// The sheet cells of the entry, in column order (the timestamp column
    /// is not included).
    pub fn get_row(&self) -> (r: Vec<String>)
        ensures
            texts(r@) == row_cells(self@),
            r@.len() == SHEET_COLUMN_COUNT - 1,
    {
        let mut row: Vec<String> = Vec::new();
        row.push(self.message_link.clone());
        row.push(self.poster.clone());
        row.push(optstr(&self.bracket));
        row.push(optstr_u64(self.player1_id));
        row.push(optstr(&self.player1_name));
        row.push(optstr_i32(self.player1_score));
        row.push(optstr_u64(self.player2_id));
        row.push(optstr(&self.player2_name));
        row.push(optstr_i32(self.player2_score));
        row.push(optstr(&self.map_draft));
        row.push(optstr(&self.civ_draft));
        row.push(optstr(&self.replays_link));
        row.push(self.message_contents.clone());
        proof {
            assert(texts(row@) =~= row_cells(self@));
        }
        row
    }
}

} // verus!
