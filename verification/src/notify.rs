//! Admin notifications: which log events are forwarded, and the Discord
//! message body they become.

use vstd::prelude::*;

use chrono::{SecondsFormat, Utc};

use crate::text::{
    chars_of, char_width, is_ascii_digit, is_prefix_of, lemma_ascii_utf8_len,
    lemma_encode_utf8_len, lemma_utf8_len_concat, owned, starts_with, string_of, utf8_len,
};

verus! {

/// Discord's limit on the length of a message (counted here in bytes).
pub const DISCORD_LIMIT: usize = 2000;

/// Severity of a log event, from most to least severe.
#[derive(Debug, Clone, Copy, PartialEq, Eq)]
pub enum Severity {
    Error,
    Warn,
    Info,
    Debug,
    Trace,
}

/// The position of a severity in the order `Error < Warn < Info < Debug <
/// Trace` (more severe is lower).
pub open spec fn severity_rank(s: Severity) -> nat {
    match s {
        Severity::Error => 0,
        Severity::Warn => 1,
        Severity::Info => 2,
        Severity::Debug => 3,
        Severity::Trace => 4,
    }
}

fn rank(s: &Severity) -> (r: u8)
    ensures
        r as nat == severity_rank(*s),
{
    match s {
        Severity::Error => 0,
        Severity::Warn => 1,
        Severity::Info => 2,
        Severity::Debug => 3,
        Severity::Trace => 4,
    }
}

/// Whether an event of severity `event` is forwarded under `threshold`: it
/// is when it is at least as severe.
pub fn level_enabled(event: &Severity, threshold: &Severity) -> (r: bool)
    ensures
        r == (severity_rank(*event) <= severity_rank(*threshold)),
{
    rank(event) <= rank(threshold)
}

/// Whether `level_enabled` forwards an event of severity `event` under
/// `threshold`.
pub open spec fn forwarded(event: Severity, threshold: Severity) -> bool {
    severity_rank(event) <= severity_rank(threshold)
}

/// Forwarding is a threshold: an event is forwarded under its own
/// severity, an event forwarded under a threshold is forwarded under every
/// less strict one, and a more severe event is forwarded whenever a less
/// severe one is.
pub proof fn lemma_level_threshold_monotone(event: Severity, other: Severity, low: Severity, high: Severity)
    requires
        severity_rank(low) <= severity_rank(high),
    ensures
        forwarded(event, event),
        forwarded(event, low) ==> forwarded(event, high),
        severity_rank(other) <= severity_rank(event) && forwarded(event, low) ==> forwarded(
            other,
            low,
        ),
{
}

/// Whether the notification layer forwards an event: it is severe enough,
/// and it was not logged by the Discord client (targets starting with
/// `serenity`) or by the layer itself (`own_target`), so that a failed
/// send can never cause another send.
pub fn forwards_event(event: &Severity, threshold: &Severity, target: &str, own_target: &str) -> (r:
    bool)
    ensures
        r == (forwarded(*event, *threshold) && !is_prefix_of("serenity"@, target@) && target@
            != own_target@),
{
    level_enabled(event, threshold) && !starts_with(target, "serenity") && !crate::text::str_eq(
        target,
        own_target,
    )
}

/// The name a severity is shown with.
pub open spec fn severity_name(s: Severity) -> Seq<char> {
    match s {
        Severity::Error => "ERROR"@,
        Severity::Warn => "WARN"@,
        Severity::Info => "INFO"@,
        Severity::Debug => "DEBUG"@,
        Severity::Trace => "TRACE"@,
    }
}

impl Severity {
    /// The upper-case name of the severity, as shown in the message header.
    pub fn name(&self) -> (r: &'static str)
        ensures
            r@ == severity_name(*self),
    {
        match self {
            Severity::Error => "ERROR",
            Severity::Warn => "WARN",
            Severity::Info => "INFO",
            Severity::Debug => "DEBUG",
            Severity::Trace => "TRACE",
        }
    }
}

/// The message and structured fields of one log event.
pub struct MessageVisitor {
    pub message: Option<String>,
    pub fields: Vec<(String, String)>,
}

impl MessageVisitor {
    /// An empty visitor.
    pub fn new() -> (r: MessageVisitor)
        ensures
            r.message is None,
            r.fields@.len() == 0,
    {
        MessageVisitor { message: None, fields: Vec::new() }
    }

    /// Records one field: the field named `message` becomes the message (the
    /// last one recorded wins), any other is appended to the fields.
    pub fn put(&mut self, name: &str, value: String)
        ensures
            name@ == "message"@ ==> final(self).message == Some(value)
                && final(self).fields == old(self).fields,
            name@ != "message"@ ==> {
                &&& final(self).message == old(self).message
                &&& final(self).fields@ == old(self).fields@.push(final(self).fields@.last())
                &&& final(self).fields@.last().0@ == name@
                &&& final(self).fields@.last().1 == value
            },
    {
        if crate::text::str_eq(name, "message") {
            self.message = Some(value);
        } else {
            self.fields.push((owned(name), value));
        }
    }
}

/// The message followed by one `key=value` line per field, a newline
/// between consecutive parts (none before the first part when the message
/// is empty).
pub open spec fn joined_core(message: Seq<char>, fields: Seq<(String, String)>) -> Seq<char>
    decreases fields.len(),
{
    if fields.len() == 0 {
        message
    } else {
        let before = joined_core(message, fields.drop_last());
        let line = fields.last().0@ + "="@ + fields.last().1@;
        if before.len() == 0 {
            line
        } else {
            before.push('\n') + line
        }
    }
}

/// The longest prefix of `s` whose UTF-8 encoding has at most `limit`
/// bytes.
pub open spec fn fit(s: Seq<char>, limit: nat) -> Seq<char>
    decreases s.len(),
{
    if utf8_len(s) <= limit || s.len() == 0 {
        s
    } else {
        fit(s.drop_last(), limit)
    }
}

/// `a - b`, or zero when `b` is larger.
pub open spec fn sat_sub(a: int, b: int) -> nat {
    if a >= b {
        (a - b) as nat
    } else {
        0
    }
}

/// The header line: severity, target and timestamp.
pub open spec fn body_header(level: Severity, target: Seq<char>, ts: Seq<char>) -> Seq<char> {
    "🔴 "@ + severity_name(level) + " · "@ + target + " · "@ + ts
}

/// The bytes the header and the code fence take.
pub open spec fn body_overhead(header: Seq<char>) -> nat {
    utf8_len(header) + utf8_len("\n```\n"@) + utf8_len("\n```"@)
}

/// The core text as it goes into the code block: unchanged when it fits in
/// what the limit leaves after the header and fence, otherwise cut on a
/// character boundary and followed by the truncation marker, so that the
/// two together fit.
pub open spec fn fitted_core(header: Seq<char>, core: Seq<char>) -> Seq<char> {
    let avail = sat_sub(DISCORD_LIMIT as int, body_overhead(header) as int);
    if utf8_len(core) > avail {
        let end = sat_sub(avail as int, utf8_len("\n… (truncated)"@) as int);
        let end = if end <= utf8_len(core) { end } else { utf8_len(core) };
        fit(core, end) + "\n… (truncated)"@
    } else {
        core
    }
}

/// The Discord message for an event logged at `ts`: the header line, then
/// the message and fields in a fenced code block.
pub open spec fn spec_format_body(
    level: Severity,
    target: Seq<char>,
    message: Seq<char>,
    fields: Seq<(String, String)>,
    ts: Seq<char>,
) -> Seq<char> {
    let header = body_header(level, target, ts);
    header + "\n```\n"@ + fitted_core(header, joined_core(message, fields)) + "\n```"@
}

proof fn lemma_utf8_len_take_mono(s: Seq<char>, j: int)
    requires
        0 <= j <= s.len(),
    ensures
        utf8_len(s.take(j)) <= utf8_len(s),
{
    lemma_utf8_len_concat(s.take(j), s.skip(j));
    assert(s.take(j) + s.skip(j) =~= s);
}

proof fn lemma_fit_prefix(s: Seq<char>, limit: nat, k: int)
    requires
        0 <= k <= s.len(),
        utf8_len(s.take(k)) <= limit,
        k == s.len() || utf8_len(s.take(k + 1)) > limit,
    ensures
        fit(s, limit) == s.take(k),
    decreases s.len(),
{
    if k == s.len() {
        assert(s.take(k) =~= s);
    } else {
        lemma_utf8_len_take_mono(s, k + 1);
        let p = s.drop_last();
        assert(p.take(k) =~= s.take(k));
        if k + 1 <= p.len() {
            assert(p.take(k + 1) =~= s.take(k + 1));
        }
        lemma_fit_prefix(p, limit, k);
    }
}

proof fn lemma_fit_len(s: Seq<char>, limit: nat)
    ensures
        utf8_len(fit(s, limit)) <= limit || fit(s, limit).len() == 0,
    decreases s.len(),
{
    if !(utf8_len(s) <= limit || s.len() == 0) {
        lemma_fit_len(s.drop_last(), limit);
    }
}

fn width_exec(c: char) -> (w: usize)
    ensures
        w as nat == char_width(c),
{
    let u: u32 = c as u32;
    if u < 0x80 {
        1
    } else if u < 0x800 {
        2
    } else if u < 0x10000 {
        3
    } else {
        4
    }
}

/// Bytes of `s` (`str::len`), as a UTF-8 length.
fn utf8_bytes(s: &str) -> (n: usize)
    ensures
        n as nat == utf8_len(s@),
{
    proof {
        lemma_encode_utf8_len(s@);
    }
    s.as_bytes().len()
}

/// The longest prefix of `s` of at most `limit` bytes.
fn fit_exec(s: &str, limit: usize) -> (r: String)
    ensures
        r@ == fit(s@, limit as nat),
{
    let cv = chars_of(s);
    let n = cv.len();
    let mut k: usize = 0;
    let mut used: usize = 0;
    let mut full = false;
    while k < n && !full
        invariant
            k <= n,
            n == cv@.len(),
            used as nat == utf8_len(cv@.take(k as int)),
            used <= limit,
            full ==> k < n && utf8_len(cv@.take(k + 1)) > limit,
        decreases n - k, if full { 0nat } else { 1nat },
    {
        let w = width_exec(cv[k]);
        proof {
            assert(cv@.take(k + 1).drop_last() =~= cv@.take(k as int));
        }
        if w > limit - used {
            full = true;
        } else {
            used = used + w;
            k = k + 1;
        }
    }
    proof {
        lemma_fit_prefix(cv@, limit as nat, k as int);
    }
    let mut out = cv;
    out.truncate(k);
    proof {
        assert(out@ =~= s@.take(k as int));
    }
    string_of(&out)
}

/// How an RFC 3339 timestamp in UTC ends: `Z`, or the offset `+00:00`.
pub open spec fn utc_offset_suffix(use_z: bool) -> Seq<char> {
    if use_z {
        seq!['Z']
    } else {
        seq!['+', '0', '0', ':', '0', '0']
    }
}

/// `ts` is an RFC 3339 UTC timestamp with whole seconds:
/// `YYYY-MM-DDTHH:MM:SS` then the offset. The year field is four digits,
/// or, for a year outside 0..=9999, a sign and at least four digits (at
/// most six, the largest year a date can have), so it is 4 to 7
/// characters long; every other field is two digits.
pub open spec fn utc_timestamp_shape(ts: Seq<char>, use_z: bool) -> bool {
    let suffix = utc_offset_suffix(use_z);
    let y = ts.len() - 15 - suffix.len();
    &&& 4 <= y <= 7
    &&& ts.subrange(y + 15, ts.len() as int) == suffix
    &&& ts[y] == '-' && ts[y + 3] == '-' && ts[y + 6] == 'T'
    &&& ts[y + 9] == ':' && ts[y + 12] == ':'
    &&& y > 4 ==> (ts[0] == '+' || ts[0] == '-')
    &&& forall|i: int|
        0 <= i < y + 15 && i != y && i != y + 3 && i != y + 6 && i != y + 9 && i != y + 12 && !(
        i == 0 && y > 4) ==> is_ascii_digit(#[trigger] ts[i])
}

/// A timestamp is ASCII, so its UTF-8 length is its length: at most 23
/// bytes with `Z`, 28 with `+00:00`.
proof fn lemma_timestamp_bytes(ts: Seq<char>, use_z: bool)
    requires
        utc_timestamp_shape(ts, use_z),
    ensures
        utf8_len(ts) == ts.len(),
        ts.len() <= 22 + utc_offset_suffix(use_z).len(),
{
    let suffix = utc_offset_suffix(use_z);
    let y = ts.len() - 15 - suffix.len();
    assert forall|i: int| 0 <= i < ts.len() implies (#[trigger] ts[i] as u32) < 0x80 by {
        if i >= y + 15 {
            assert(ts[i] == ts.subrange(y + 15, ts.len() as int)[i - y - 15]);
            assert(ts[i] == suffix[i - y - 15]);
        } else if i == y || i == y + 3 || i == y + 6 || i == y + 9 || i == y + 12 || (i == 0
            && y > 4) {
        } else {
            assert(is_ascii_digit(ts[i]));
        }
    }
    lemma_ascii_utf8_len(ts);
}

/// The header's UTF-8 length: its fixed text takes 13 bytes, the
/// severity name at most 5.
proof fn lemma_header_bytes(level: Severity, target: Seq<char>, ts: Seq<char>)
    ensures
        utf8_len(body_header(level, target, ts)) == 13 + utf8_len(severity_name(level))
            + utf8_len(target) + utf8_len(ts),
        utf8_len(severity_name(level)) <= 5,
{
    reveal_strlit("🔴 ");
    reveal_strlit(" · ");
    reveal_strlit("ERROR");
    reveal_strlit("WARN");
    reveal_strlit("INFO");
    reveal_strlit("DEBUG");
    reveal_strlit("TRACE");
    reveal_with_fuel(utf8_len, 6);
    let a = "🔴 "@;
    let b = severity_name(level);
    let c = " · "@;
    lemma_utf8_len_concat(a, b);
    lemma_utf8_len_concat(a + b, c);
    lemma_utf8_len_concat(a + b + c, target);
    lemma_utf8_len_concat(a + b + c + target, c);
    lemma_utf8_len_concat(a + b + c + target + c, ts);
}

/// The fixed parts of the body: the fence takes 9 bytes, the truncation
/// marker 16.
proof fn lemma_fixed_bytes()
    ensures
        utf8_len("\n```\n"@) + utf8_len("\n```"@) == 9,
        utf8_len("\n… (truncated)"@) == 16,
{
    reveal_strlit("\n```\n");
    reveal_strlit("\n```");
    reveal_strlit("\n… (truncated)");
    reveal_with_fuel(utf8_len, 20);
}

/// The current UTC time as RFC 3339 with whole seconds (`Utc::now` then
/// `to_rfc3339_opts(SecondsFormat::Secs, use_z)`). Which time it shows
/// depends on the clock, so its layout is what is stated: the date and
/// time fields, then `Z` or `+00:00` (the offset of UTC is zero).
#[verifier::external_body]
pub(crate) fn utc_now_rfc3339(use_z: bool) -> (r: String)
    ensures
        utc_timestamp_shape(r@, use_z),
{
    Utc::now().to_rfc3339_opts(SecondsFormat::Secs, use_z)
}

/// Builds the Discord message for an event logged at time `ts`.
pub fn format_body_at(
    level: &Severity,
    target: &str,
    message: &str,
    fields: &[(String, String)],
    ts: &str,
) -> (r: String)
    ensures
        r@ == spec_format_body(*level, target@, message@, fields@, ts@),
{
    let mut header = owned("🔴 ");
    header.append(level.name());
    header.append(" · ");
    header.append(target);
    header.append(" · ");
    header.append(ts);

    let mut core = owned(message);
    let n = fields.len();
    for i in 0..n
        invariant
            n == fields@.len(),
            core@ == joined_core(message@, fields@.take(i as int)),
    {
        proof {
            assert(fields@.take(i + 1).drop_last() =~= fields@.take(i as int));
        }
        if core.as_str().unicode_len() != 0 {
            core.append("\n");
            proof {
                assert("\n"@ == seq!['\n']) by {
                    reveal_strlit("\n");
                }
            }
        }
        core.append(fields[i].0.as_str());
        core.append("=");
        core.append(fields[i].1.as_str());
        proof {
            assert(core@ =~= joined_core(message@, fields@.take(i + 1)));
        }
    }
    proof {
        assert(fields@.take(n as int) =~= fields@);
    }

    let marker = "\n… (truncated)";
    let header_bytes = utf8_bytes(header.as_str());
    let open_bytes = utf8_bytes("\n```\n");
    let close_bytes = utf8_bytes("\n```");
    let avail: usize = if header_bytes <= DISCORD_LIMIT && open_bytes <= DISCORD_LIMIT
        - header_bytes && close_bytes <= DISCORD_LIMIT - header_bytes - open_bytes {
        DISCORD_LIMIT - header_bytes - open_bytes - close_bytes
    } else {
        0
    };
    let core_bytes = utf8_bytes(core.as_str());
    let body_core = if core_bytes > avail {
        let marker_bytes = utf8_bytes(marker);
        let end = if avail >= marker_bytes { avail - marker_bytes } else { 0 };
        let end = if end <= core_bytes { end } else { core_bytes };
        let mut cut = fit_exec(core.as_str(), end);
        cut.append(marker);
        cut
    } else {
        core
    };
    let mut body = header;
    body.append("\n```\n");
    body.append(body_core.as_str());
    body.append("\n```");
    body
}

/// The body of an event's message when nothing had to be cut: the header,
/// then the message and fields whole in the fenced block.
pub open spec fn whole_body(
    level: Severity,
    target: Seq<char>,
    message: Seq<char>,
    fields: Seq<(String, String)>,
    ts: Seq<char>,
) -> Seq<char> {
    body_header(level, target, ts) + "\n```\n"@ + joined_core(message, fields) + "\n```"@
}

/// Builds the Discord message for an event logged now: the header line
/// (severity, target, time), then the message and fields in a fenced code
/// block, truncated to fit the Discord limit.
///
/// The header takes at most 50 bytes besides the target (the timestamp at
/// most 23), so with a target of at most 1934 bytes the body fits the
/// limit, and when the message and fields take at most 1950 bytes besides
/// the target they are kept whole.
pub fn format_body(level: &Severity, target: &str, message: &str, fields: &[(String, String)]) -> (r:
    String)
    ensures
        exists|ts: Seq<char>|
            {
                &&& utc_timestamp_shape(ts, true)
                &&& r@ == spec_format_body(*level, target@, message@, fields@, ts)
                &&& utf8_len(target@) + utf8_len(joined_core(message@, fields@)) + 50
                    <= DISCORD_LIMIT ==> r@ == whole_body(
                    *level,
                    target@,
                    message@,
                    fields@,
                    ts,
                )
            },
        utf8_len(target@) + 66 <= DISCORD_LIMIT ==> utf8_len(r@) <= DISCORD_LIMIT,
{
    let ts = utc_now_rfc3339(true);
    let r = format_body_at(level, target, message, fields, ts.as_str());
    proof {
        let header = body_header(*level, target@, ts@);
        lemma_timestamp_bytes(ts@, true);
        lemma_header_bytes(*level, target@, ts@);
        lemma_fixed_bytes();
        assert(utc_offset_suffix(true).len() == 1);
        if utf8_len(target@) + 66 <= DISCORD_LIMIT {
            lemma_format_body_fits(*level, target@, message@, fields@, ts@);
        }
        if utf8_len(target@) + utf8_len(joined_core(message@, fields@)) + 50 <= DISCORD_LIMIT {
            assert(body_overhead(header) + utf8_len(joined_core(message@, fields@))
                <= DISCORD_LIMIT);
            assert(fitted_core(header, joined_core(message@, fields@)) == joined_core(
                message@,
                fields@,
            ));
            assert(r@ == whole_body(*level, target@, message@, fields@, ts@));
        }
    }
    r
}

/// The body never exceeds the Discord limit when the header leaves room for
/// the truncation marker, and the message is kept whole when it fits.
pub proof fn lemma_format_body_fits(
    level: Severity,
    target: Seq<char>,
    message: Seq<char>,
    fields: Seq<(String, String)>,
    ts: Seq<char>,
)
    requires
        body_overhead(body_header(level, target, ts)) + utf8_len("\n… (truncated)"@)
            <= DISCORD_LIMIT,
    ensures
        utf8_len(spec_format_body(level, target, message, fields, ts)) <= DISCORD_LIMIT,
        utf8_len(joined_core(message, fields)) + body_overhead(body_header(level, target, ts))
            <= DISCORD_LIMIT ==> fitted_core(body_header(level, target, ts), joined_core(
            message,
            fields,
        )) == joined_core(message, fields),
{
    let header = body_header(level, target, ts);
    let core = joined_core(message, fields);
    let marker = "\n… (truncated)"@;
    let open = "\n```\n"@;
    let close = "\n```"@;
    let avail = sat_sub(DISCORD_LIMIT as int, body_overhead(header) as int);
    let fc = fitted_core(header, core);
    if utf8_len(core) > avail {
        let end = sat_sub(avail as int, utf8_len(marker) as int);
        let end = if end <= utf8_len(core) { end } else { utf8_len(core) };
        lemma_fit_len(core, end);
        lemma_utf8_len_concat(fit(core, end), marker);
    }
    lemma_utf8_len_concat(header, open);
    lemma_utf8_len_concat(header + open, fc);
    lemma_utf8_len_concat(header + open + fc, close);
}

} // verus!
