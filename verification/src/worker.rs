//! What the background worker does with a matched message: the entry it
//! builds, where each attachment is stored, and the sheet row it appends.

use vstd::prelude::*;

use crate::entry::{fresh_entry, row_cells, texts, EntryView, ResultsEntry, SHEET_COLUMN_COUNT};
use crate::notify::{utc_now_rfc3339, utc_timestamp_shape};
use crate::parse::{lemma_parse_sets_pairs_together, parse_message_content, spec_parse_message};
use crate::text::{decimal, opt_text, owned, push_decimal};

verus! {

/// Which gateway event delivered the message. On an edit the attachments
/// are the ones already stored when the message was first posted.
#[derive(Clone, Copy, Debug, PartialEq, Eq, Structural)]
pub enum MessageEvent {
    Created,
    Updated,
}

/// One attachment of a message: its Discord id and file name.
pub struct AttachmentRef {
    pub id: u64,
    pub filename: String,
}

/// What the worker does with one attachment: the object it is stored as,
/// whether it has to be uploaded now, and the link written to the sheet.
pub struct AttachmentStep {
    pub object_name: String,
    pub upload: bool,
    pub link: String,
}

/// The object name of an attachment: the tournament prefix, the attachment
/// id, `_`, the file name.
pub open spec fn spec_object_name(prefix: Seq<char>, id: u64, filename: Seq<char>) -> Seq<char> {
    prefix + decimal(id as nat) + "_"@ + filename
}

/// The link to a stored object: `gcs://<bucket>/<object>`.
pub open spec fn spec_download_link(bucket: Seq<char>, object_name: Seq<char>) -> Seq<char> {
    "gcs://"@ + bucket + "/"@ + object_name
}

/// The links joined by newlines (empty when there are none).
pub open spec fn join_lines(links: Seq<Seq<char>>) -> Seq<char>
    decreases links.len(),
{
    if links.len() == 0 {
        Seq::empty()
    } else if links.len() == 1 {
        links[0]
    } else {
        join_lines(links.drop_last()) + "\n"@ + links.last()
    }
}

/// The object name of an attachment under a tournament prefix.
pub fn object_name(prefix: &str, id: u64, filename: &str) -> (r: String)
    ensures
        r@ == spec_object_name(prefix@, id, filename@),
{
    let mut s = owned(prefix);
    push_decimal(&mut s, id);
    s.append("_");
    s.append(filename);
    s
}

/// The link recorded for an object stored in `bucket`.
pub fn download_link(bucket: &str, object_name: &str) -> (r: String)
    ensures
        r@ == spec_download_link(bucket@, object_name@),
{
    let mut s = owned("gcs://");
    s.append(bucket);
    s.append("/");
    s.append(object_name);
    s
}

/// One step per attachment, in order: each is stored under its object
/// name and linked from `bucket`; it is uploaded only for a new message,
/// never on an edit (an edit's files were stored when the message was first
/// posted).
pub fn plan_attachments(
    prefix: &str,
    bucket: &str,
    event: MessageEvent,
    attachments: &Vec<AttachmentRef>,
) -> (r: Vec<AttachmentStep>)
    ensures
        r@.len() == attachments@.len(),
        forall|i: int|
            #![trigger r@[i]]
            0 <= i < r@.len() ==> {
                &&& r@[i].object_name@ == spec_object_name(
                    prefix@,
                    attachments@[i].id,
                    attachments@[i].filename@,
                )
                &&& r@[i].link@ == spec_download_link(bucket@, r@[i].object_name@)
                &&& r@[i].upload == (event == MessageEvent::Created)
            },
{
    let mut steps: Vec<AttachmentStep> = Vec::new();
    let n = attachments.len();
    for i in 0..n
        invariant
            n == attachments@.len(),
            steps@.len() == i,
            forall|k: int|
                #![trigger steps@[k]]
                0 <= k < i ==> {
                    &&& steps@[k].object_name@ == spec_object_name(
                        prefix@,
                        attachments@[k].id,
                        attachments@[k].filename@,
                    )
                    &&& steps@[k].link@ == spec_download_link(bucket@, steps@[k].object_name@)
                    &&& steps@[k].upload == (event == MessageEvent::Created)
                },
    {
        let a = &attachments[i];
        let name = object_name(prefix, a.id, a.filename.as_str());
        let link = download_link(bucket, name.as_str());
        let upload = match event {
            MessageEvent::Created => true,
            MessageEvent::Updated => false,
        };
        steps.push(AttachmentStep { object_name: name, upload, link });
    }
    steps
}

/// The replays cell: every link, one per line.
pub fn replays_link(links: &Vec<String>) -> (r: String)
    ensures
        r@ == join_lines(texts(links@)),
{
    let mut out = String::new();
    let n = links.len();
    for i in 0..n
        invariant
            n == links@.len(),
            out@ == join_lines(texts(links@.take(i as int))),
    {
        proof {
            let t = texts(links@.take(i + 1));
            assert(t.drop_last() =~= texts(links@.take(i as int)));
            assert(t.last() == links@[i as int]@);
        }
        if i != 0 {
            out.append("\n");
        }
        out.append(links[i].as_str());
        proof {
            let t = texts(links@.take(i + 1));
            if i == 0 {
                assert(t.len() == 1);
                assert(out@ =~= t[0]);
            }
        }
    }
    proof {
        assert(links@.take(n as int) =~= links@);
    }
    out
}

/// The name a Discord user is shown by: the global display name when set,
/// otherwise the user name.
pub fn display_name(global_name: Option<String>, name: String) -> (r: String)
    ensures
        r@ == (match global_name {
            Some(g) => g@,
            None => name@,
        }),
{
    match global_name {
        Some(g) => g,
        None => name,
    }
}

/// A fresh entry for a message posted in `bracket`.
pub open spec fn bracketed_entry(
    link: Seq<char>,
    poster: Seq<char>,
    content: Seq<char>,
    bracket: Option<Seq<char>>,
) -> EntryView {
    EntryView { bracket, ..fresh_entry(link, poster, content) }
}

/// `e` with the looked-up player names (where there are any) and the
/// replays cell set to the links, one per line.
pub open spec fn completed_entry(
    e: EntryView,
    player1_name: Option<Seq<char>>,
    player2_name: Option<Seq<char>>,
    links: Seq<Seq<char>>,
) -> EntryView {
    EntryView {
        player1_name: if player1_name is Some { player1_name } else { e.player1_name },
        player2_name: if player2_name is Some { player2_name } else { e.player2_name },
        replays_link: Some(join_lines(links)),
        ..e
    }
}

/// The entry for a matched message before player names and replay links
/// are known: link, poster and content, the bracket (the channel's
/// category), and what [`parse_message_content`] reads from the content.
pub fn entry_for_message(
    jump_url: String,
    poster: String,
    content: String,
    category: Option<String>,
) -> (r: ResultsEntry)
    ensures
        r@ == spec_parse_message(
            bracketed_entry(jump_url@, poster@, content@, opt_text(category)),
            content@,
        ),
        r@.message_link == jump_url@,
        r@.poster == poster@,
        r@.message_contents == content@,
        r@.bracket == opt_text(category),
{
    let ghost link = jump_url@;
    let ghost who = poster@;
    let ghost body = content@;
    let ghost bracket = opt_text(category);
    let text = content.clone();
    let mut entry = ResultsEntry::new(jump_url, poster, content);
    entry.bracket = category;
    parse_message_content(&mut entry, text.as_str());
    proof {
        lemma_message_entry_keeps_message(link, who, body, bracket);
    }
    entry
}

/// The entry for a message keeps what identifies it: the row's link is
/// the message's jump URL, its poster the poster, its contents the
/// message text and its bracket the channel's category, whatever the
/// message says.
pub proof fn lemma_message_entry_keeps_message(
    link: Seq<char>,
    poster: Seq<char>,
    content: Seq<char>,
    bracket: Option<Seq<char>>,
)
    ensures
        ({
            let r = spec_parse_message(bracketed_entry(link, poster, content, bracket), content);
            &&& r.message_link == link
            &&& r.poster == poster
            &&& r.message_contents == content
            &&& r.bracket == bracket
        }),
{
    lemma_parse_sets_pairs_together(bracketed_entry(link, poster, content, bracket), content);
}

/// Fills in what the worker looked up: the players' display names and the
/// replay links (the replays cell is always set, empty when there are no
/// attachments).
pub fn complete_entry(
    entry: &mut ResultsEntry,
    player1_name: Option<String>,
    player2_name: Option<String>,
    links: &Vec<String>,
)
    ensures
        final(entry)@ == completed_entry(
            old(entry)@,
            opt_text(player1_name),
            opt_text(player2_name),
            texts(links@),
        ),
        player1_name is Some ==> final(entry)@.player1_name == opt_text(player1_name),
        player1_name is None ==> final(entry)@.player1_name == old(entry)@.player1_name,
        player2_name is Some ==> final(entry)@.player2_name == opt_text(player2_name),
        player2_name is None ==> final(entry)@.player2_name == old(entry)@.player2_name,
        links@.len() == 0 ==> final(entry)@.replays_link == Some(Seq::<char>::empty()),
        links@.len() == 1 ==> final(entry)@.replays_link == Some(links@[0]@),
        links@.len() >= 2 ==> final(entry)@.replays_link == Some(
            join_lines(texts(links@.drop_last())) + "\n"@ + links@.last()@,
        ),
{
    proof {
        lemma_completed_entry_names(
            old(entry)@,
            opt_text(player1_name),
            opt_text(player2_name),
            texts(links@),
        );
        lemma_replays_cell(
            old(entry)@,
            opt_text(player1_name),
            opt_text(player2_name),
            texts(links@),
        );
        if links@.len() >= 2 {
            assert(texts(links@).drop_last() =~= texts(links@.drop_last()));
        }
    }
    if let Some(n) = player1_name {
        entry.player1_name = Some(n);
    }
    if let Some(n) = player2_name {
        entry.player2_name = Some(n);
    }
    entry.replays_link = Some(replays_link(links));
}

/// Completing an entry sets each player's name that was looked up, to
/// that name and for that player, and leaves a name that was not looked
/// up as it was.
pub proof fn lemma_completed_entry_names(
    e: EntryView,
    player1_name: Option<Seq<char>>,
    player2_name: Option<Seq<char>>,
    links: Seq<Seq<char>>,
)
    ensures
        ({
            let r = completed_entry(e, player1_name, player2_name, links);
            &&& player1_name is Some ==> r.player1_name == player1_name
            &&& player1_name is None ==> r.player1_name == e.player1_name
            &&& player2_name is Some ==> r.player2_name == player2_name
            &&& player2_name is None ==> r.player2_name == e.player2_name
            &&& r.message_link == e.message_link && r.poster == e.poster
            &&& r.message_contents == e.message_contents && r.bracket == e.bracket
            &&& r.player1_id == e.player1_id && r.player2_id == e.player2_id
            &&& r.player1_score == e.player1_score && r.player2_score == e.player2_score
            &&& r.map_draft == e.map_draft && r.civ_draft == e.civ_draft
        }),
{
}

/// The replays cell lists every link, in order, one per line: it is empty
/// for no links, the link itself for one, and for more the cell of all
/// but the last link, a newline, then the last link.
pub proof fn lemma_replays_cell(
    e: EntryView,
    player1_name: Option<Seq<char>>,
    player2_name: Option<Seq<char>>,
    links: Seq<Seq<char>>,
)
    ensures
        links.len() == 0 ==> completed_entry(e, player1_name, player2_name, links).replays_link
            == Some(Seq::<char>::empty()),
        links.len() == 1 ==> completed_entry(e, player1_name, player2_name, links).replays_link
            == Some(links[0]),
        links.len() >= 2 ==> completed_entry(e, player1_name, player2_name, links).replays_link
            == Some(
            completed_entry(e, player1_name, player2_name, links.drop_last()).replays_link->0
                + "\n"@ + links.last(),
        ),
{
}

/// A full sheet row: the timestamp, then the entry's cells.
pub fn build_row(timestamp: &str, entry: &ResultsEntry) -> (r: Vec<String>)
    ensures
        r@.len() == SHEET_COLUMN_COUNT,
        texts(r@) == seq![timestamp@] + row_cells(entry@),
{
    let mut row: Vec<String> = Vec::new();
    row.push(owned(timestamp));
    let mut cells = entry.get_row();
    row.append(&mut cells);
    proof {
        assert(texts(row@) =~= seq![timestamp@] + row_cells(entry@));
    }
    row
}

/// The sheet row for an entry, stamped with the current time.
pub fn timestamped_row(entry: &ResultsEntry) -> (r: Vec<String>)
    ensures
        r@.len() == SHEET_COLUMN_COUNT,
        exists|ts: Seq<char>|
            utc_timestamp_shape(ts, false) && texts(r@) == seq![ts] + row_cells(entry@),
{
    let ts = utc_now_rfc3339(false);
    build_row(ts.as_str(), entry)
}

} // verus!
