//! Deciding which gateway messages become jobs for the worker.

use vstd::prelude::*;

use crate::config::Tournament;
use crate::tournament::{match_tournament, spec_tournament_matches, MatchInput};

verus! {

/// The kind of a Discord channel, as far as routing is concerned.
#[derive(Debug, Clone, Copy, PartialEq, Eq, Structural)]
pub enum ChannelKind {
    Text,
    Category,
    Other,
}

/// The category shown as a message's bracket: the parent channel's name
/// when the parent is a category, otherwise none.
pub fn category_name(parent_kind: ChannelKind, parent_name: String) -> (r: Option<String>)
    ensures
        parent_kind == ChannelKind::Category ==> r == Some(parent_name),
        parent_kind != ChannelKind::Category ==> r is None,
{
    match parent_kind {
        ChannelKind::Category => Some(parent_name),
        _ => None,
    }
}

/// The tournament a message is recorded for: none for the bot's own
/// messages or a channel that is not a text channel, otherwise the first
/// tournament that claims the channel.
pub fn route_message<'a>(
    tournaments: &'a [Tournament],
    author_id: u64,
    bot_id: u64,
    kind: ChannelKind,
    input: MatchInput<'_>,
) -> (r: Option<&'a Tournament>)
    ensures
        (author_id == bot_id || kind != ChannelKind::Text) ==> r is None,
        (author_id != bot_id && kind == ChannelKind::Text) ==> match r {
            Some(t) => exists|i: int|
                0 <= i < tournaments@.len() && *t == tournaments@[i] && spec_tournament_matches(
                    tournaments@[i],
                    input,
                ) && forall|j: int|
                    0 <= j < i ==> !spec_tournament_matches(#[trigger] tournaments@[j], input),
            None => forall|j: int|
                0 <= j < tournaments@.len() ==> !spec_tournament_matches(
                    #[trigger] tournaments@[j],
                    input,
                ),
        },
{
    if author_id == bot_id {
        return None;
    }
    match kind {
        ChannelKind::Text => match_tournament(tournaments, input),
        _ => None,
    }
}

/// What to do with a message-update event.
#[derive(Debug, Clone, Copy, PartialEq, Eq, Structural)]
pub enum UpdateAction {
    /// Not an edit (Discord also sends updates when it unfurls a link
    /// preview): nothing is recorded, so no duplicate row is appended.
    Ignore,
    /// An edit that carries the new message: process it.
    Process,
    /// An edit without the message: fetch it, then process it.
    FetchThenProcess,
}

/// The action for a message update: only a real edit (one with an edit
/// timestamp) is processed, with the message it carries or, when it
/// carries none, the message fetched again.
pub fn update_action(edited: bool, has_message: bool) -> (r: UpdateAction)
    ensures
        !edited ==> r == UpdateAction::Ignore,
        edited && has_message ==> r == UpdateAction::Process,
        edited && !has_message ==> r == UpdateAction::FetchThenProcess,
{
    if !edited {
        UpdateAction::Ignore
    } else if has_message {
        UpdateAction::Process
    } else {
        UpdateAction::FetchThenProcess
    }
}

} // verus!
