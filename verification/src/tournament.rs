//! Routing a message to the tournament whose channel it was posted in.

use vstd::prelude::*;

use crate::config::{Config, Tournament};
use crate::pattern::{is_match, regex_is_match};
use crate::text::{opt_text, str_eq};

verus! {

/// Where a message was posted.
#[derive(Debug, Clone, Copy)]
pub struct MatchInput<'a> {
    pub guild_id: Option<u64>,
    pub channel_name: &'a str,
    pub category: Option<&'a str>,
}

/// The text of an optional string slice.
pub open spec fn opt_str_text(o: Option<&str>) -> Option<Seq<char>> {
    match o {
        Some(s) => Some(s@),
        None => None,
    }
}

/// The conditions of a tournament other than its channel pattern: the
/// guild id when it sets one, and the category name when it sets one.
pub open spec fn spec_conditions_hold(t: Tournament, input: MatchInput) -> bool {
    &&& (t.guild_id matches Some(g) ==> input.guild_id == Some(g))
    &&& (opt_text(t.category) matches Some(c) ==> opt_str_text(input.category) == Some(c))
}

/// A tournament claims a message when every condition it sets holds: the
/// guild id when set, the category name when set, and the channel pattern.
pub open spec fn spec_tournament_matches(t: Tournament, input: MatchInput) -> bool {
    &&& spec_conditions_hold(t, input)
    &&& regex_is_match(t.channel_pattern@, input.channel_name@)
}

/// Whether the message is in the tournament's guild and category, where
/// the tournament sets them (a message without a guild or category fails a
/// condition that is set).
pub fn conditions_hold(t: &Tournament, input: MatchInput<'_>) -> (r: bool)
    ensures
        r == spec_conditions_hold(*t, input),
{
    if let Some(want_guild) = t.guild_id {
        match input.guild_id {
            Some(g) => {
                if g != want_guild {
                    return false;
                }
            },
            None => return false,
        }
    }
    if let Some(want_cat) = &t.category {
        match input.category {
            Some(c) => {
                if !str_eq(c, want_cat.as_str()) {
                    return false;
                }
            },
            None => return false,
        }
    }
    true
}

fn tournament_matches(t: &Tournament, input: MatchInput<'_>) -> (r: bool)
    ensures
        r == spec_tournament_matches(*t, input),
{
    conditions_hold(t, input) && is_match(&t.channel_pattern, input.channel_name)
}

/// The first tournament, in configuration order, that claims the message.
pub fn match_tournament<'a>(tournaments: &'a [Tournament], input: MatchInput<'_>) -> (r: Option<
    &'a Tournament,
>)
    ensures
        match r {
            Some(t) => exists|i: int|
                0 <= i < tournaments@.len() && *t == tournaments@[i] && spec_tournament_matches(
                    tournaments@[i],
                    input,
                ) && forall|j: int|
                    0 <= j < i ==> !spec_tournament_matches(#[trigger] tournaments@[j], input),
            None => forall|j: int|
                0 <= j < tournaments@.len() ==> !spec_tournament_matches(
                    #[trigger] tournaments@[j],
                    input,
                ),
        },
{
    let n = tournaments.len();
    for i in 0..n
        invariant
            n == tournaments@.len(),
            forall|j: int| 0 <= j < i ==> !spec_tournament_matches(#[trigger] tournaments@[j], input),
    {
        if tournament_matches(&tournaments[i], input) {
            return Some(&tournaments[i]);
        }
    }
    None
}

/// The positions, in order, of the tournaments among the first `n` that
/// claim the message and are not catch-alls.
pub open spec fn specific_matches_upto(ts: Seq<Tournament>, input: MatchInput, n: int) -> Seq<
    usize,
>
    decreases n,
{
    if n <= 0 {
        Seq::empty()
    } else {
        let rest = specific_matches_upto(ts, input, n - 1);
        if !ts[n - 1].catch_all && spec_tournament_matches(ts[n - 1], input) {
            rest.push((n - 1) as usize)
        } else {
            rest
        }
    }
}

/// The positions, in configuration order, of every tournament other than
/// a catch-all that claims the message. More than one means the routing
/// is ambiguous; the first is the one used.
pub fn specific_matches(tournaments: &[Tournament], input: MatchInput<'_>) -> (r: Vec<usize>)
    ensures
        r@ == specific_matches_upto(tournaments@, input, tournaments@.len() as int),
{
    let mut out: Vec<usize> = Vec::new();
    let n = tournaments.len();
    for i in 0..n
        invariant
            n == tournaments@.len(),
            out@ == specific_matches_upto(tournaments@, input, i as int),
    {
        if !tournaments[i].catch_all && tournament_matches(&tournaments[i], input) {
            out.push(i);
        }
    }
    out
}

/// A tournament claims a message exactly when its guild id is unset or
/// equal to the message's, its category is unset or equal to the
/// message's, and its channel pattern matches the channel name; its name,
/// catch-all flag, sheet tab and GCS prefix play no part, so two
/// tournaments that agree on those three conditions claim the same
/// messages.
pub proof fn lemma_claim_conditions(t: Tournament, u: Tournament, input: MatchInput)
    requires
        u.guild_id == t.guild_id,
        opt_text(u.category) == opt_text(t.category),
        u.channel_pattern@ == t.channel_pattern@,
    ensures
        spec_tournament_matches(t, input) <==> {
            &&& (t.guild_id is None || input.guild_id == t.guild_id)
            &&& (t.category is None || opt_str_text(input.category) == opt_text(t.category))
            &&& regex_is_match(t.channel_pattern@, input.channel_name@)
        },
        spec_tournament_matches(u, input) == spec_tournament_matches(t, input),
{
}

/// In a validated configuration a specific tournament takes priority over
/// the catch-all: when a tournament that is not a catch-all claims a
/// message, the first tournament that claims it (the one
/// [`match_tournament`] returns) is not the catch-all.
pub proof fn lemma_specific_match_takes_priority(cfg: &Config, input: MatchInput, first: int, other: int)
    requires
        cfg.well_formed(),
        0 <= other < cfg.tournaments@.len(),
        !cfg.tournaments@[other].catch_all,
        spec_tournament_matches(cfg.tournaments@[other], input),
        0 <= first < cfg.tournaments@.len(),
        spec_tournament_matches(cfg.tournaments@[first], input),
        forall|j: int| 0 <= j < first ==> !spec_tournament_matches(#[trigger] cfg.tournaments@[j], input),
    ensures
        !cfg.tournaments@[first].catch_all,
{
    let ts = cfg.tournaments@;
    if ts[first].catch_all {
        assert(first == ts.len() - 1);
        assert(first <= other);
    }
}

} // verus!
