//! Bot configuration: the values read from the configuration files, their
//! validation, and the tournament routing table derived from them.

use vstd::prelude::*;

use crate::pattern::{regex_compile_error, Pattern};
use crate::text::{
    ascii_lower, ascii_lower_exec, chars_of, decimal, is_ascii_alnum, is_ascii_alnum_exec,
    opt_text, owned, string_of, u64_to_decimal,
};

verus! {

/// Discord credentials and the users who administer the bot.
#[derive(Debug, Clone)]
pub struct BotConfig {
    pub discord_token: String,
    pub admin_user_ids: Vec<u64>,
}

/// Where results are stored: the replay bucket and the results sheet.
#[derive(Debug, Clone)]
pub struct GcpConfig {
    pub bucket: String,
    pub sheet_id: String,
}

/// One `[[tournaments]]` block as written in the configuration.
#[derive(Debug, Clone)]
pub struct RawTournament {
    pub name: String,
    pub guild_id: Option<u64>,
    pub category: Option<String>,
    pub channel_pattern: String,
    pub catch_all: bool,
}

/// The configuration as read, before validation.
#[derive(Debug, Clone)]
pub struct RawConfig {
    pub bot: BotConfig,
    pub gcp: GcpConfig,
    pub tournaments: Vec<RawTournament>,
}

/// A validated tournament routing entry.
#[derive(Debug)]
pub struct Tournament {
    pub name: String,
    pub guild_id: Option<u64>,
    pub category: Option<String>,
    pub channel_pattern: Pattern,
    pub catch_all: bool,
    pub sheet_tab: String,
    pub gcs_prefix: String,
}

/// The validated configuration.
#[derive(Debug)]
pub struct Config {
    pub bot: BotConfig,
    pub gcp: GcpConfig,
    pub tournaments: Vec<Tournament>,
}

/// Why a configuration was rejected.
#[derive(Debug, Clone)]
pub enum ConfigError {
    EmptyAdminUserIds,
    CatchAllNotLast { name: String },
    InvalidChannelPattern { name: String, pattern: String, reason: String },
    NoAlphanumeric { name: String },
    DuplicateName { name: String },
    DuplicateGcsPrefix { first: String, second: String, prefix: String },
    MultipleCatchAll { count: usize },
}

/// The content of a [`ConfigError`].
pub enum ConfigFault {
    EmptyAdminUserIds,
    CatchAllNotLast(Seq<char>),
    InvalidChannelPattern(Seq<char>, Seq<char>, Seq<char>),
    NoAlphanumeric(Seq<char>),
    DuplicateName(Seq<char>),
    DuplicateGcsPrefix(Seq<char>, Seq<char>, Seq<char>),
    MultipleCatchAll(nat),
}

impl View for ConfigError {
    type V = ConfigFault;

    open spec fn view(&self) -> ConfigFault {
        match self {
            ConfigError::EmptyAdminUserIds => ConfigFault::EmptyAdminUserIds,
            ConfigError::CatchAllNotLast { name } => ConfigFault::CatchAllNotLast(name@),
            ConfigError::InvalidChannelPattern { name, pattern, reason } => {
                ConfigFault::InvalidChannelPattern(name@, pattern@, reason@)
            },
            ConfigError::NoAlphanumeric { name } => ConfigFault::NoAlphanumeric(name@),
            ConfigError::DuplicateName { name } => ConfigFault::DuplicateName(name@),
            ConfigError::DuplicateGcsPrefix { first, second, prefix } => {
                ConfigFault::DuplicateGcsPrefix(first@, second@, prefix@)
            },
            ConfigError::MultipleCatchAll { count } => ConfigFault::MultipleCatchAll(*count as nat),
        }
    }
}

// ---------------------------------------------------------------------------
// The GCS object-key prefix derived from a tournament name.

/// Scans `s` left to right: ASCII letters and digits are kept, lower-cased;
/// every run of other characters becomes a single `-`, and none is written
/// before the first kept character. The flag tells whether the output ends
/// in a dash (or is still empty).
pub open spec fn kebab_scan(s: Seq<char>) -> (Seq<char>, bool)
    decreases s.len(),
{
    if s.len() == 0 {
        (Seq::<char>::empty(), true)
    } else {
        let (out, dash) = kebab_scan(s.drop_last());
        let c = s.last();
        if is_ascii_alnum(c) {
            (out.push(ascii_lower(c)), false)
        } else if !dash {
            (out.push('-'), true)
        } else {
            (out, true)
        }
    }
}

/// `s` without its trailing dashes.
pub open spec fn trim_trailing_dashes(s: Seq<char>) -> Seq<char>
    decreases s.len(),
{
    if s.len() > 0 && s.last() == '-' {
        trim_trailing_dashes(s.drop_last())
    } else {
        s
    }
}

/// The kebab-case prefix of a name followed by `/`, or `None` when the name
/// has no ASCII letter or digit.
pub open spec fn spec_kebab_case_prefix(name: Seq<char>) -> Option<Seq<char>> {
    let body = trim_trailing_dashes(kebab_scan(name).0);
    if body.len() == 0 {
        None
    } else {
        Some(body.push('/'))
    }
}

/// Derives the GCS object-key prefix of a tournament name, e.g.
/// `"SF 2026"` becomes `"sf-2026/"`.
pub fn kebab_case_prefix(name: &str) -> (r: Option<String>)
    ensures
        match r {
            Some(s) => spec_kebab_case_prefix(name@) == Some(s@),
            None => spec_kebab_case_prefix(name@) is None,
        },
{
    let chars = chars_of(name);
    let mut out: Vec<char> = Vec::new();
    let mut last_was_dash = true;
    let n = chars.len();
    for i in 0..n
        invariant
            n == chars@.len(),
            chars@ == name@,
            kebab_scan(chars@.take(i as int)) == (out@, last_was_dash),
    {
        let ch = chars[i];
        proof {
            assert(chars@.take(i + 1).drop_last() =~= chars@.take(i as int));
            assert(chars@.take(i + 1).last() == ch);
        }
        if is_ascii_alnum_exec(ch) {
            out.push(ascii_lower_exec(ch));
            last_was_dash = false;
        } else if !last_was_dash {
            out.push('-');
            last_was_dash = true;
        }
    }
    proof {
        assert(chars@.take(n as int) =~= name@);
    }
    let ghost scanned = out@;
    while out.len() > 0 && out[out.len() - 1] == '-'
        invariant
            trim_trailing_dashes(out@) == trim_trailing_dashes(scanned),
        decreases out.len(),
    {
        let ghost before = out@;
        out.pop();
        proof {
            assert(out@ =~= before.drop_last());
        }
    }
    if out.len() == 0 {
        return None;
    }
    out.push('/');
    Some(string_of(&out))
}


// ---------------------------------------------------------------------------
// Validation.

/// What a configuration check finds wrong with tournament `i` on its own:
/// a catch-all entry that is not last, a channel pattern that does not
/// compile, or a name from which no GCS prefix can be derived (checked in
/// that order).
pub open spec fn tournament_fault(ts: Seq<RawTournament>, i: int) -> Option<ConfigFault> {
    let t = ts[i];
    if t.catch_all && i != ts.len() - 1 {
        Some(ConfigFault::CatchAllNotLast(t.name@))
    } else if regex_compile_error(t.channel_pattern@) is Some {
        Some(
            ConfigFault::InvalidChannelPattern(
                t.name@,
                t.channel_pattern@,
                regex_compile_error(t.channel_pattern@)->0,
            ),
        )
    } else if spec_kebab_case_prefix(t.name@) is None {
        Some(ConfigFault::NoAlphanumeric(t.name@))
    } else {
        None
    }
}

/// The fault of the first of the first `n` tournaments that has one.
pub open spec fn first_tournament_fault(ts: Seq<RawTournament>, n: int) -> Option<ConfigFault>
    decreases n,
{
    if n <= 0 {
        None
    } else {
        match first_tournament_fault(ts, n - 1) {
            Some(f) => Some(f),
            None => tournament_fault(ts, n - 1),
        }
    }
}

/// The name and derived GCS prefix of each tournament.
pub open spec fn name_keys(ts: Seq<RawTournament>) -> Seq<(Seq<char>, Seq<char>)> {
    ts.map_values(|t: RawTournament| (t.name@, spec_kebab_case_prefix(t.name@)->0))
}

/// What clashes between the tournaments at `i` and `j`: the same name, or
/// else the same derived prefix.
pub open spec fn pair_fault(keys: Seq<(Seq<char>, Seq<char>)>, i: int, j: int) -> Option<ConfigFault> {
    if keys[i].0 == keys[j].0 {
        Some(ConfigFault::DuplicateName(keys[i].0))
    } else if keys[i].1 == keys[j].1 {
        Some(ConfigFault::DuplicateGcsPrefix(keys[i].0, keys[j].0, keys[i].1))
    } else {
        None
    }
}

/// The first clash of tournament `i` with a tournament at `j` or later.
pub open spec fn row_fault(keys: Seq<(Seq<char>, Seq<char>)>, i: int, j: int) -> Option<ConfigFault>
    decreases keys.len() - j,
{
    if j >= keys.len() {
        None
    } else {
        match pair_fault(keys, i, j) {
            Some(f) => Some(f),
            None => row_fault(keys, i, j + 1),
        }
    }
}

/// The first clash, in order of the earlier and then the later index, among
/// pairs whose earlier index is `i` or more.
pub open spec fn clash_fault(keys: Seq<(Seq<char>, Seq<char>)>, i: int) -> Option<ConfigFault>
    decreases keys.len() - i,
{
    if i >= keys.len() {
        None
    } else {
        match row_fault(keys, i, i + 1) {
            Some(f) => Some(f),
            None => clash_fault(keys, i + 1),
        }
    }
}

/// How many tournaments are catch-alls.
pub open spec fn catch_all_count(ts: Seq<RawTournament>) -> nat
    decreases ts.len(),
{
    if ts.len() == 0 {
        0
    } else {
        catch_all_count(ts.drop_last()) + if ts.last().catch_all { 1nat } else { 0nat }
    }
}

/// Why `raw` is rejected, if it is: no admin user, then the first faulty
/// tournament, then the first clash between two tournaments, then more than
/// one catch-all.
pub open spec fn config_fault(raw: RawConfig) -> Option<ConfigFault> {
    let ts = raw.tournaments@;
    if raw.bot.admin_user_ids@.len() == 0 {
        Some(ConfigFault::EmptyAdminUserIds)
    } else {
        match first_tournament_fault(ts, ts.len() as int) {
            Some(f) => Some(f),
            None => match clash_fault(name_keys(ts), 0) {
                Some(f) => Some(f),
                None => if catch_all_count(ts) > 1 {
                    Some(ConfigFault::MultipleCatchAll(catch_all_count(ts)))
                } else {
                    None
                },
            },
        }
    }
}

/// `t` is the routing entry built from the raw block `r`.
pub open spec fn derived_from(t: Tournament, r: RawTournament) -> bool {
    &&& t.name@ == r.name@
    &&& t.guild_id == r.guild_id
    &&& opt_text(t.category) == opt_text(r.category)
    &&& t.channel_pattern@ == r.channel_pattern@
    &&& t.catch_all == r.catch_all
    &&& t.sheet_tab@ == r.name@
    &&& spec_kebab_case_prefix(r.name@) == Some(t.gcs_prefix@)
}

impl Config {
    /// What every validated configuration satisfies: at least one admin,
    /// distinct names, distinct GCS prefixes derived from the names, sheet
    /// tabs named after the tournaments, and a catch-all only as the last
    /// entry.
    pub open spec fn well_formed(&self) -> bool {
        let ts = self.tournaments@;
        &&& self.bot.admin_user_ids@.len() > 0
        &&& forall|i: int, j: int|
            0 <= i < j < ts.len() ==> #[trigger] ts[i].name@ != #[trigger] ts[j].name@
        &&& forall|i: int, j: int|
            0 <= i < j < ts.len() ==> #[trigger] ts[i].gcs_prefix@ != #[trigger] ts[j].gcs_prefix@
        &&& forall|i: int|
            #![trigger ts[i]]
            0 <= i < ts.len() ==> {
                &&& ts[i].sheet_tab@ == ts[i].name@
                &&& spec_kebab_case_prefix(ts[i].name@) == Some(ts[i].gcs_prefix@)
                &&& regex_compile_error(ts[i].channel_pattern@) is None
                &&& ts[i].catch_all ==> i == ts.len() - 1
            }
    }
}

proof fn lemma_first_fault_extend(ts: Seq<RawTournament>, n: int)
    requires
        0 <= n,
        first_tournament_fault(ts, n) is None,
    ensures
        forall|i: int| 0 <= i < n ==> tournament_fault(ts, i) is None,
    decreases n,
{
    if n > 0 {
        lemma_first_fault_extend(ts, n - 1);
    }
}

proof fn lemma_row_fault_none(keys: Seq<(Seq<char>, Seq<char>)>, i: int, j: int)
    requires
        0 <= j,
        row_fault(keys, i, j) is None,
    ensures
        forall|k: int| j <= k < keys.len() ==> pair_fault(keys, i, k) is None,
    decreases keys.len() - j,
{
    if j < keys.len() {
        lemma_row_fault_none(keys, i, j + 1);
    }
}

proof fn lemma_clash_fault_none(keys: Seq<(Seq<char>, Seq<char>)>, i: int)
    requires
        0 <= i,
        clash_fault(keys, i) is None,
    ensures
        forall|a: int, b: int| i <= a < b < keys.len() ==> pair_fault(keys, a, b) is None,
    decreases keys.len() - i,
{
    if i < keys.len() {
        lemma_row_fault_none(keys, i, i + 1);
        lemma_clash_fault_none(keys, i + 1);
    }
}

proof fn lemma_catch_all_count_last(ts: Seq<RawTournament>)
    requires
        forall|i: int| 0 <= i < ts.len() && #[trigger] ts[i].catch_all ==> i == ts.len() - 1,
    ensures
        catch_all_count(ts) <= 1,
        ts.len() > 0 ==> catch_all_count(ts.drop_last()) == 0,
    decreases ts.len(),
{
    if ts.len() > 0 {
        let p = ts.drop_last();
        assert forall|i: int| 0 <= i < p.len() && #[trigger] p[i].catch_all implies i == p.len() - 1 by {
            assert(ts[i] == p[i]);
        }
        lemma_catch_all_count_last(p);
        if p.len() > 0 {
            assert(!p.last().catch_all) by {
                assert(p.last() == ts[p.len() - 1]);
            }
            assert(p.drop_last().len() < p.len());
        }
    }
}

impl ConfigError {
    /// The human-readable description of the error.
    pub fn message(&self) -> (r: String)
        ensures
            r@ == fault_message(self@),
    {
        match self {
            ConfigError::EmptyAdminUserIds => owned("bot.admin_user_ids must not be empty"),
            ConfigError::CatchAllNotLast { name } => {
                let mut s = owned("tournament '");
                s.append(name.as_str());
                s.append("' has catch_all = true but is not the last entry");
                s
            },
            ConfigError::InvalidChannelPattern { name, pattern, .. } => {
                let mut s = owned("invalid channel_pattern for tournament '");
                s.append(name.as_str());
                s.append("': ");
                s.append(pattern.as_str());
                s
            },
            ConfigError::NoAlphanumeric { name } => {
                let mut s = owned("tournament name '");
                s.append(name.as_str());
                s.append("' has no ASCII alphanumeric characters; cannot derive gcs_prefix");
                s
            },
            ConfigError::DuplicateName { name } => {
                let mut s = owned("duplicate tournament name '");
                s.append(name.as_str());
                s.append("'");
                s
            },
            ConfigError::DuplicateGcsPrefix { first, second, prefix } => {
                let mut s = owned("tournaments '");
                s.append(first.as_str());
                s.append("' and '");
                s.append(second.as_str());
                s.append("' share derived gcs_prefix '");
                s.append(prefix.as_str());
                s.append("'");
                s
            },
            ConfigError::MultipleCatchAll { count } => {
                let mut s = owned("at most one tournament may set catch_all = true (found ");
                let digits = u64_to_decimal(*count as u64);
                s.append(digits.as_str());
                s.append(")");
                s
            },
        }
    }
}

/// The text of each kind of configuration error. For a channel pattern
/// that does not compile it names the tournament and the pattern; the
/// compiler's reason is carried in the error as its cause.
pub open spec fn fault_message(f: ConfigFault) -> Seq<char> {
    match f {
        ConfigFault::EmptyAdminUserIds => "bot.admin_user_ids must not be empty"@,
        ConfigFault::CatchAllNotLast(name) => "tournament '"@ + name
            + "' has catch_all = true but is not the last entry"@,
        ConfigFault::InvalidChannelPattern(name, pattern, _) => "invalid channel_pattern for tournament '"@
            + name + "': "@ + pattern,
        ConfigFault::NoAlphanumeric(name) => "tournament name '"@ + name
            + "' has no ASCII alphanumeric characters; cannot derive gcs_prefix"@,
        ConfigFault::DuplicateName(name) => "duplicate tournament name '"@ + name + "'"@,
        ConfigFault::DuplicateGcsPrefix(first, second, prefix) => "tournaments '"@ + first
            + "' and '"@ + second + "' share derived gcs_prefix '"@ + prefix + "'"@,
        ConfigFault::MultipleCatchAll(count) => "at most one tournament may set catch_all = true (found "@
            + decimal(count) + ")"@,
    }
}


proof fn lemma_first_fault_stable(ts: Seq<RawTournament>, k: int, n: int)
    requires
        0 <= k <= n,
        first_tournament_fault(ts, k) is Some,
    ensures
        first_tournament_fault(ts, n) == first_tournament_fault(ts, k),
    decreases n - k,
{
    if k < n {
        lemma_first_fault_stable(ts, k, n - 1);
    }
}

fn clone_opt_string(o: &Option<String>) -> (r: Option<String>)
    ensures
        opt_text(r) == opt_text(*o),
{
    match o {
        Some(s) => Some(s.clone()),
        None => None,
    }
}

/// Checks a configuration as read and builds the routing table from it.
///
/// `Err` comes exactly when [`config_fault`] finds something wrong, and
/// carries that fault; otherwise every tournament block becomes a routing
/// entry in the same order, with its channel pattern compiled, its sheet
/// tab named after it and its GCS prefix derived from its name.
pub fn validate(raw: RawConfig) -> (r: Result<Config, ConfigError>)
    ensures
        match r {
            Ok(cfg) => {
                &&& config_fault(raw) is None
                &&& cfg.bot == raw.bot
                &&& cfg.gcp == raw.gcp
                &&& cfg.tournaments@.len() == raw.tournaments@.len()
                &&& forall|i: int|
                    0 <= i < raw.tournaments@.len() ==> derived_from(
                        #[trigger] cfg.tournaments@[i],
                        raw.tournaments@[i],
                    )
                &&& cfg.well_formed()
            },
            Err(e) => config_fault(raw) == Some(e@),
        },
{
    if raw.bot.admin_user_ids.len() == 0 {
        return Err(ConfigError::EmptyAdminUserIds);
    }
    let ghost ts = raw.tournaments@;
    let n = raw.tournaments.len();
    let mut tournaments: Vec<Tournament> = Vec::with_capacity(n);
    for idx in 0..n
        invariant
            n == ts.len(),
            ts == raw.tournaments@,
            raw.bot.admin_user_ids@.len() > 0,
            tournaments@.len() == idx,
            forall|i: int| 0 <= i < idx ==> derived_from(#[trigger] tournaments@[i], ts[i]),
            first_tournament_fault(ts, idx as int) is None,
    {
        let t = &raw.tournaments[idx];
        let is_last = idx == n - 1;
        if t.catch_all && !is_last {
            proof {
                lemma_first_fault_stable(ts, idx + 1, n as int);
            }
            return Err(ConfigError::CatchAllNotLast { name: t.name.clone() });
        }
        let pattern = match Pattern::new(t.channel_pattern.as_str()) {
            Ok(p) => p,
            Err(reason) => {
                proof {
                    lemma_first_fault_stable(ts, idx + 1, n as int);
                }
                return Err(
                    ConfigError::InvalidChannelPattern {
                        name: t.name.clone(),
                        pattern: t.channel_pattern.clone(),
                        reason,
                    },
                );
            },
        };
        let gcs_prefix = match kebab_case_prefix(t.name.as_str()) {
            Some(p) => p,
            None => {
                proof {
                    lemma_first_fault_stable(ts, idx + 1, n as int);
                }
                return Err(ConfigError::NoAlphanumeric { name: t.name.clone() });
            },
        };
        tournaments.push(
            Tournament {
                name: t.name.clone(),
                guild_id: t.guild_id,
                category: clone_opt_string(&t.category),
                channel_pattern: pattern,
                catch_all: t.catch_all,
                sheet_tab: t.name.clone(),
                gcs_prefix,
            },
        );
    }
    proof {
        lemma_first_fault_extend(ts, n as int);
    }
    let ghost keys = name_keys(ts);
    assert forall|k: int| 0 <= k < n implies (#[trigger] tournaments@[k]).name@ == keys[k].0
        && tournaments@[k].gcs_prefix@ == keys[k].1 by {
        assert(derived_from(tournaments@[k], ts[k]));
    }
    for i in 0..n
        invariant
            n == ts.len(),
            n == tournaments@.len(),
            keys == name_keys(ts),
            forall|k: int| 0 <= k < n ==> (#[trigger] tournaments@[k]).name@ == keys[k].0
                && tournaments@[k].gcs_prefix@ == keys[k].1,
            clash_fault(keys, 0) == clash_fault(keys, i as int),
            raw.bot.admin_user_ids@.len() > 0,
            ts == raw.tournaments@,
            first_tournament_fault(ts, n as int) is None,
    {
        proof {
            assert(keys.len() == n);
            assert(clash_fault(keys, i as int) == match row_fault(keys, i as int, i + 1) {
                Some(f) => Some(f),
                None => clash_fault(keys, i + 1),
            });
            assert(row_fault(keys, i as int, n as int) is None);
        }
        for j in (i + 1)..n
            invariant
                i < n,
                n == ts.len(),
                n == tournaments@.len(),
                keys == name_keys(ts),
                forall|k: int| 0 <= k < n ==> (#[trigger] tournaments@[k]).name@ == keys[k].0
                    && tournaments@[k].gcs_prefix@ == keys[k].1,
                clash_fault(keys, 0) == clash_fault(keys, i as int),
                row_fault(keys, i as int, i + 1) == row_fault(keys, i as int, j as int),
                raw.bot.admin_user_ids@.len() > 0,
                ts == raw.tournaments@,
                first_tournament_fault(ts, n as int) is None,
        {
            proof {
                assert(keys.len() == n);
                assert(row_fault(keys, i as int, j as int) == match pair_fault(keys, i as int, j as int) {
                    Some(f) => Some(f),
                    None => row_fault(keys, i as int, j + 1),
                });
                assert(clash_fault(keys, i as int) == match row_fault(keys, i as int, i + 1) {
                    Some(f) => Some(f),
                    None => clash_fault(keys, i + 1),
                });
            }
            if tournaments[i].name == tournaments[j].name {
                return Err(ConfigError::DuplicateName { name: tournaments[i].name.clone() });
            }
            if tournaments[i].gcs_prefix == tournaments[j].gcs_prefix {
                return Err(
                    ConfigError::DuplicateGcsPrefix {
                        first: tournaments[i].name.clone(),
                        second: tournaments[j].name.clone(),
                        prefix: tournaments[i].gcs_prefix.clone(),
                    },
                );
            }
        }
    }
    proof {
        lemma_clash_fault_none(keys, 0);
    }
    let mut catch_all_seen: usize = 0;
    for k in 0..n
        invariant
            n == ts.len(),
            n == tournaments@.len(),
            forall|i: int| 0 <= i < n ==> derived_from(#[trigger] tournaments@[i], ts[i]),
            catch_all_seen == catch_all_count(ts.take(k as int)),
            catch_all_seen <= k,
    {
        proof {
            assert(ts.take(k + 1).drop_last() =~= ts.take(k as int));
            assert(derived_from(tournaments@[k as int], ts[k as int]));
        }
        if tournaments[k].catch_all {
            catch_all_seen = catch_all_seen + 1;
        }
    }
    proof {
        assert(ts.take(n as int) =~= ts);
    }
    if catch_all_seen > 1 {
        return Err(ConfigError::MultipleCatchAll { count: catch_all_seen });
    }
    let cfg = Config { bot: raw.bot, gcp: raw.gcp, tournaments };
    proof {
        let cts = cfg.tournaments@;
        assert forall|i: int, j: int| 0 <= i < j < cts.len() implies #[trigger] cts[i].name@
            != #[trigger] cts[j].name@ && cts[i].gcs_prefix@ != cts[j].gcs_prefix@ by {
            assert(pair_fault(keys, i, j) is None);
        }
        assert forall|i: int| #![trigger cts[i]] 0 <= i < cts.len() implies {
            &&& cts[i].sheet_tab@ == cts[i].name@
            &&& spec_kebab_case_prefix(cts[i].name@) == Some(cts[i].gcs_prefix@)
            &&& regex_compile_error(cts[i].channel_pattern@) is None
            &&& cts[i].catch_all ==> i == cts.len() - 1
        } by {
            assert(derived_from(cts[i], ts[i]));
            assert(tournament_fault(ts, i) is None);
        }
    }
    Ok(cfg)
}

/// A character that may appear in a derived prefix before the final `/`.
pub open spec fn is_prefix_char(c: char) -> bool {
    ('0' <= c && c <= '9') || ('a' <= c && c <= 'z') || c == '-'
}

/// The shape of a kebab-case body: lower-case ASCII letters, digits and
/// single dashes, never starting with a dash.
pub open spec fn kebab_shaped(out: Seq<char>) -> bool {
    &&& forall|i: int| 0 <= i < out.len() ==> is_prefix_char(#[trigger] out[i])
    &&& forall|i: int| 0 <= i < out.len() - 1 ==> !(#[trigger] out[i] == '-' && out[i + 1] == '-')
    &&& out.len() > 0 ==> out[0] != '-'
}

/// `s` has an ASCII letter or digit.
pub open spec fn has_alnum(s: Seq<char>) -> bool {
    exists|i: int| 0 <= i < s.len() && is_ascii_alnum(#[trigger] s[i])
}

proof fn lemma_has_alnum_last(s: Seq<char>)
    requires
        s.len() > 0,
    ensures
        has_alnum(s) == (has_alnum(s.drop_last()) || is_ascii_alnum(s.last())),
{
    let p = s.drop_last();
    if has_alnum(p) {
        let i = choose|i: int| 0 <= i < p.len() && is_ascii_alnum(#[trigger] p[i]);
        assert(s[i] == p[i]);
    }
    if is_ascii_alnum(s.last()) {
        assert(is_ascii_alnum(s[s.len() - 1]));
    }
    if has_alnum(s) {
        let i = choose|i: int| 0 <= i < s.len() && is_ascii_alnum(#[trigger] s[i]);
        if i < p.len() {
            assert(p[i] == s[i]);
        }
    }
}

proof fn lemma_kebab_scan_shape(s: Seq<char>)
    ensures
        kebab_shaped(kebab_scan(s).0),
        kebab_scan(s).1 == (kebab_scan(s).0.len() == 0 || kebab_scan(s).0.last() == '-'),
        kebab_scan(s).0.len() == 0 <==> !has_alnum(s),
    decreases s.len(),
{
    if s.len() > 0 {
        let p = s.drop_last();
        lemma_kebab_scan_shape(p);
        lemma_has_alnum_last(s);
        let (out, dash) = kebab_scan(p);
        let c = s.last();
        if is_ascii_alnum(c) {
            let o2 = out.push(ascii_lower(c));
            assert forall|i: int| 0 <= i < o2.len() implies is_prefix_char(#[trigger] o2[i]) by {
                if i < out.len() {
                    assert(o2[i] == out[i]);
                }
            }
            assert forall|i: int| 0 <= i < o2.len() - 1 implies !(#[trigger] o2[i] == '-' && o2[i
                + 1] == '-') by {
                assert(o2[i] == out[i]);
            }
        } else if !dash {
            let o2 = out.push('-');
            assert forall|i: int| 0 <= i < o2.len() implies is_prefix_char(#[trigger] o2[i]) by {
                if i < out.len() {
                    assert(o2[i] == out[i]);
                }
            }
            assert forall|i: int| 0 <= i < o2.len() - 1 implies !(#[trigger] o2[i] == '-' && o2[i
                + 1] == '-') by {
                assert(o2[i] == out[i]);
                if i == out.len() - 1 {
                    assert(out.last() != '-');
                }
            }
        }
    }
}

proof fn lemma_trim_shape(out: Seq<char>)
    requires
        kebab_shaped(out),
    ensures
        kebab_shaped(trim_trailing_dashes(out)),
        trim_trailing_dashes(out).len() > 0 ==> trim_trailing_dashes(out).last() != '-',
        trim_trailing_dashes(out).len() == 0 <==> out.len() == 0,
    decreases out.len(),
{
    if out.len() > 0 && out.last() == '-' {
        let p = out.drop_last();
        assert forall|i: int| 0 <= i < p.len() implies is_prefix_char(#[trigger] p[i]) by {
            assert(p[i] == out[i]);
        }
        assert forall|i: int| 0 <= i < p.len() - 1 implies !(#[trigger] p[i] == '-' && p[i + 1]
            == '-') by {
            assert(p[i] == out[i]);
        }
        if p.len() > 0 {
            assert(p[0] == out[0]);
            assert(p.last() != '-') by {
                assert(out[out.len() - 2] == p.last());
            }
        } else {
            assert(out.len() == 1);
            assert(out[0] != '-');
        }
        lemma_trim_shape(p);
    }
}

/// The shape of a derived GCS prefix: there is one exactly when the name
/// has an ASCII letter or digit, and it is lower-case ASCII letters and
/// digits in single-dash-separated words, ending in `/`, with no dash at
/// either end.
pub proof fn lemma_kebab_case_prefix_shape(name: Seq<char>)
    ensures
        spec_kebab_case_prefix(name) is Some <==> has_alnum(name),
        spec_kebab_case_prefix(name) matches Some(p) ==> {
            &&& p.len() >= 2
            &&& p.last() == '/'
            &&& kebab_shaped(p.drop_last())
            &&& p[p.len() - 2] != '-'
        },
{
    lemma_kebab_scan_shape(name);
    lemma_trim_shape(kebab_scan(name).0);
    let body = trim_trailing_dashes(kebab_scan(name).0);
    if body.len() > 0 {
        assert(body.push('/').drop_last() =~= body);
    }
}

/// The words of `s`: its maximal runs of ASCII letters and digits, in
/// order, lower-cased (every other character, non-ASCII letters included,
/// separates words).
pub open spec fn kebab_words(s: Seq<char>) -> Seq<Seq<char>>
    decreases s.len(),
{
    if s.len() == 0 {
        Seq::empty()
    } else {
        let ws = kebab_words(s.drop_last());
        let c = s.last();
        if !is_ascii_alnum(c) {
            ws
        } else if s.len() > 1 && is_ascii_alnum(s[s.len() - 2]) && ws.len() > 0 {
            ws.update(ws.len() - 1, ws.last().push(ascii_lower(c)))
        } else {
            ws.push(seq![ascii_lower(c)])
        }
    }
}

/// Words joined with `-`.
pub open spec fn join_dash(ws: Seq<Seq<char>>) -> Seq<char>
    decreases ws.len(),
{
    if ws.len() == 0 {
        Seq::empty()
    } else if ws.len() == 1 {
        ws[0]
    } else {
        join_dash(ws.drop_last()).push('-') + ws.last()
    }
}

/// Every word is non-empty and has no dash.
spec fn plain_words(ws: Seq<Seq<char>>) -> bool {
    forall|k: int|
        0 <= k < ws.len() ==> #[trigger] ws[k].len() > 0 && forall|j: int|
            0 <= j < ws[k].len() ==> ws[k][j] != '-'
}

proof fn lemma_join_dash_last(ws: Seq<Seq<char>>)
    requires
        ws.len() > 0,
        plain_words(ws),
    ensures
        join_dash(ws).len() > 0,
        join_dash(ws).last() == ws.last().last(),
{
    assert(ws[ws.len() - 1].len() > 0);
}

proof fn lemma_join_dash_extend(ws: Seq<Seq<char>>, x: char)
    requires
        ws.len() > 0,
    ensures
        join_dash(ws.update(ws.len() - 1, ws.last().push(x))) == join_dash(ws).push(x),
{
    let u = ws.update(ws.len() - 1, ws.last().push(x));
    if ws.len() > 1 {
        assert(u.drop_last() =~= ws.drop_last());
        assert(join_dash(ws.drop_last()).push('-') + ws.last().push(x) =~= (join_dash(
            ws.drop_last(),
        ).push('-') + ws.last()).push(x));
    }
}

proof fn lemma_scan_words(s: Seq<char>)
    ensures
        plain_words(kebab_words(s)),
        kebab_words(s).len() == 0 ==> kebab_scan(s) == (Seq::<char>::empty(), true),
        kebab_words(s).len() > 0 ==> {
            let j = join_dash(kebab_words(s));
            &&& kebab_scan(s).1 == !is_ascii_alnum(s.last())
            &&& kebab_scan(s).0 == if kebab_scan(s).1 {
                j.push('-')
            } else {
                j
            }
        },
    decreases s.len(),
{
    if s.len() > 0 {
        let p = s.drop_last();
        lemma_scan_words(p);
        let ws = kebab_words(p);
        let c = s.last();
        let lc = ascii_lower(c);
        if is_ascii_alnum(c) {
            assert(lc != '-');
            if s.len() > 1 && is_ascii_alnum(s[s.len() - 2]) && ws.len() > 0 {
                assert(p.last() == s[s.len() - 2]);
                lemma_join_dash_extend(ws, lc);
                let u = ws.update(ws.len() - 1, ws.last().push(lc));
                assert forall|k: int| 0 <= k < u.len() implies #[trigger] u[k].len() > 0
                    && forall|j: int| 0 <= j < u[k].len() ==> u[k][j] != '-' by {
                    if k < ws.len() - 1 {
                        assert(u[k] == ws[k]);
                    } else {
                        assert(ws[k].len() > 0);
                        assert forall|j: int| 0 <= j < u[k].len() implies u[k][j] != '-' by {
                            if j < ws[k].len() {
                                assert(u[k][j] == ws[k][j]);
                            }
                        }
                    }
                }
            } else {
                let u = ws.push(seq![lc]);
                assert forall|k: int| 0 <= k < u.len() implies #[trigger] u[k].len() > 0
                    && forall|j: int| 0 <= j < u[k].len() ==> u[k][j] != '-' by {
                    if k < ws.len() {
                        assert(u[k] == ws[k]);
                    }
                }
                if ws.len() > 0 {
                    assert(p.len() > 0);
                    assert(u.drop_last() =~= ws);
                    assert(join_dash(ws).push('-').push(lc) =~= join_dash(ws).push('-')
                        + seq![lc]);
                } else {
                    assert(Seq::<char>::empty().push(lc) =~= seq![lc]);
                }
            }
        }
    }
}

/// The derived GCS prefix is the name's words (its runs of ASCII letters
/// and digits, lower-cased) joined with `-`, followed by `/`; there is
/// none when the name has no such word.
pub proof fn lemma_kebab_case_prefix_words(name: Seq<char>)
    ensures
        spec_kebab_case_prefix(name) == if kebab_words(name).len() == 0 {
            None
        } else {
            Some(join_dash(kebab_words(name)).push('/'))
        },
{
    lemma_scan_words(name);
    let ws = kebab_words(name);
    if ws.len() > 0 {
        let j = join_dash(ws);
        lemma_join_dash_last(ws);
        assert(ws[ws.len() - 1].len() > 0);
        assert(j.last() != '-');
        if kebab_scan(name).1 {
            assert(j.push('-').drop_last() =~= j);
            assert(trim_trailing_dashes(j.push('-')) == trim_trailing_dashes(j));
        }
        assert(trim_trailing_dashes(j) == j);
    }
}

/// A configuration as `validate` accepts it: at least one admin; every
/// tournament a catch-all only when it is the last one, with a channel
/// pattern that compiles and a name a prefix can be derived from; and the
/// derived prefixes pairwise distinct.
pub open spec fn acceptable(raw: RawConfig) -> bool {
    let ts = raw.tournaments@;
    &&& raw.bot.admin_user_ids@.len() > 0
    &&& forall|i: int|
        #![trigger ts[i]]
        0 <= i < ts.len() ==> {
            &&& ts[i].catch_all ==> i == ts.len() - 1
            &&& regex_compile_error(ts[i].channel_pattern@) is None
            &&& spec_kebab_case_prefix(ts[i].name@) is Some
        }
    &&& forall|i: int, j: int|
        0 <= i < j < ts.len() ==> spec_kebab_case_prefix(#[trigger] ts[i].name@)
            != spec_kebab_case_prefix(#[trigger] ts[j].name@)
}

proof fn lemma_first_fault_none_back(ts: Seq<RawTournament>, n: int)
    requires
        0 <= n,
        forall|i: int| 0 <= i < n ==> tournament_fault(ts, i) is None,
    ensures
        first_tournament_fault(ts, n) is None,
    decreases n,
{
    if n > 0 {
        lemma_first_fault_none_back(ts, n - 1);
    }
}

proof fn lemma_row_fault_none_back(keys: Seq<(Seq<char>, Seq<char>)>, i: int, j: int)
    requires
        0 <= j,
        forall|k: int| j <= k < keys.len() ==> pair_fault(keys, i, k) is None,
    ensures
        row_fault(keys, i, j) is None,
    decreases keys.len() - j,
{
    if j < keys.len() {
        lemma_row_fault_none_back(keys, i, j + 1);
    }
}

proof fn lemma_clash_fault_none_back(keys: Seq<(Seq<char>, Seq<char>)>, i: int)
    requires
        0 <= i,
        forall|a: int, b: int| i <= a < b < keys.len() ==> pair_fault(keys, a, b) is None,
    ensures
        clash_fault(keys, i) is None,
    decreases keys.len() - i,
{
    if i < keys.len() {
        lemma_row_fault_none_back(keys, i, i + 1);
        lemma_clash_fault_none_back(keys, i + 1);
    }
}

/// `validate` accepts a configuration exactly when it is [`acceptable`]:
/// a duplicate name is a duplicate prefix too, and a second catch-all is
/// never the last entry, so neither needs a condition of its own.
pub proof fn lemma_validate_accepts_exactly(raw: RawConfig)
    ensures
        config_fault(raw) is None <==> acceptable(raw),
{
    let ts = raw.tournaments@;
    let keys = name_keys(ts);
    if config_fault(raw) is None {
        lemma_first_fault_extend(ts, ts.len() as int);
        lemma_clash_fault_none(keys, 0);
        assert forall|i: int| #![trigger ts[i]] 0 <= i < ts.len() implies {
            &&& ts[i].catch_all ==> i == ts.len() - 1
            &&& regex_compile_error(ts[i].channel_pattern@) is None
            &&& spec_kebab_case_prefix(ts[i].name@) is Some
        } by {
            assert(tournament_fault(ts, i) is None);
        }
        assert forall|i: int, j: int| 0 <= i < j < ts.len() implies spec_kebab_case_prefix(
            #[trigger] ts[i].name@,
        ) != spec_kebab_case_prefix(#[trigger] ts[j].name@) by {
            assert(pair_fault(keys, i, j) is None);
            assert(tournament_fault(ts, i) is None);
            assert(tournament_fault(ts, j) is None);
        }
    }
    if acceptable(raw) {
        assert forall|i: int| 0 <= i < ts.len() implies tournament_fault(ts, i) is None by {
            assert(ts[i] == ts[i]);
        }
        lemma_first_fault_none_back(ts, ts.len() as int);
        assert forall|a: int, b: int| 0 <= a < b < keys.len() implies pair_fault(keys, a, b)
            is None by {
            assert(spec_kebab_case_prefix(ts[a].name@) != spec_kebab_case_prefix(ts[b].name@));
            assert(spec_kebab_case_prefix(ts[a].name@) is Some);
            assert(spec_kebab_case_prefix(ts[b].name@) is Some);
        }
        lemma_clash_fault_none_back(keys, 0);
        assert forall|i: int| 0 <= i < ts.len() && #[trigger] ts[i].catch_all implies i
            == ts.len() - 1 by {
            assert(ts[i] == ts[i]);
        }
        lemma_catch_all_count_last(ts);
    }
}

proof fn lemma_scan_shaped(q: Seq<char>)
    requires
        kebab_shaped(q),
    ensures
        kebab_scan(q) == (q, q.len() == 0 || q.last() == '-'),
    decreases q.len(),
{
    if q.len() > 0 {
        let p = q.drop_last();
        assert forall|i: int| 0 <= i < p.len() implies is_prefix_char(#[trigger] p[i]) by {
            assert(p[i] == q[i]);
        }
        assert forall|i: int| 0 <= i < p.len() - 1 implies !(#[trigger] p[i] == '-' && p[i + 1]
            == '-') by {
            assert(p[i] == q[i] && p[i + 1] == q[i + 1]);
        }
        if p.len() > 0 {
            assert(p[0] == q[0]);
        }
        lemma_scan_shaped(p);
        let c = q.last();
        assert(is_prefix_char(q[q.len() - 1]));
        if c == '-' {
            assert(q.len() > 1);
            assert(p.last() == q[q.len() - 2]);
            assert(!(q[q.len() - 2] == '-' && q[q.len() - 1] == '-'));
            assert(p.push('-') =~= q);
        } else {
            assert(ascii_lower(c) == c);
            assert(p.push(c) =~= q);
        }
    }
}

/// Deriving a prefix is idempotent: the prefix derived from a prefix is
/// itself, and so is the one derived from it without its final `/`.
pub proof fn lemma_kebab_case_prefix_idempotent(name: Seq<char>, p: Seq<char>)
    requires
        spec_kebab_case_prefix(name) == Some(p),
    ensures
        spec_kebab_case_prefix(p) == Some(p),
        spec_kebab_case_prefix(p.drop_last()) == Some(p),
{
    lemma_kebab_case_prefix_shape(name);
    let body = p.drop_last();
    lemma_scan_shaped(body);
    assert(body.last() == p[p.len() - 2]);
    assert(trim_trailing_dashes(body) == body);
    assert(body.push('/') =~= p);
    assert(p.drop_last() == body);
    assert(p.last() == '/');
    assert(!is_ascii_alnum('/'));
    assert(kebab_scan(p) == (body.push('-'), true));
    assert(body.push('-').drop_last() =~= body);
    assert(trim_trailing_dashes(body.push('-')) == trim_trailing_dashes(body));
}

proof fn lemma_first_fault_kinds(ts: Seq<RawTournament>, n: int)
    ensures
        !(first_tournament_fault(ts, n) matches Some(ConfigFault::MultipleCatchAll(_))),
    decreases n,
{
    if n > 0 {
        lemma_first_fault_kinds(ts, n - 1);
    }
}

proof fn lemma_row_fault_kinds(keys: Seq<(Seq<char>, Seq<char>)>, i: int, j: int)
    ensures
        !(row_fault(keys, i, j) matches Some(ConfigFault::MultipleCatchAll(_))),
    decreases keys.len() - j,
{
    if j < keys.len() {
        lemma_row_fault_kinds(keys, i, j + 1);
    }
}

proof fn lemma_clash_fault_kinds(keys: Seq<(Seq<char>, Seq<char>)>, i: int)
    ensures
        !(clash_fault(keys, i) matches Some(ConfigFault::MultipleCatchAll(_))),
    decreases keys.len() - i,
{
    if i < keys.len() {
        lemma_row_fault_kinds(keys, i, i + 1);
        lemma_clash_fault_kinds(keys, i + 1);
    }
}

/// A configuration is never rejected for having more than one catch-all:
/// a second catch-all is already rejected as not being the last entry.
pub proof fn lemma_multiple_catch_all_unreachable(raw: RawConfig)
    ensures
        !(config_fault(raw) matches Some(ConfigFault::MultipleCatchAll(_))),
{
    let ts = raw.tournaments@;
    lemma_first_fault_kinds(ts, ts.len() as int);
    lemma_clash_fault_kinds(name_keys(ts), 0);
    if raw.bot.admin_user_ids@.len() > 0 && first_tournament_fault(ts, ts.len() as int) is None {
        lemma_first_fault_extend(ts, ts.len() as int);
        assert forall|i: int| 0 <= i < ts.len() && #[trigger] ts[i].catch_all implies i == ts.len()
            - 1 by {
            assert(tournament_fault(ts, i) is None);
        }
        lemma_catch_all_count_last(ts);
    }
}

} // verus!
