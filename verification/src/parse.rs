//! Reading the players, drafts and score out of a results message.
//!
//! A results message is free text. The parts read from it, each defined
//! below over the message's characters:
//! - a mention is `<@` followed by one or more decimal digits and `>`;
//! - a draft link is the keyword `map` (or `civ`), optionally followed by
//!   `s`, optionally by white space and the word `draft`, then optional
//!   white space, an optional `:`, optional white space, and the link: a run
//!   of characters that are not white space (keywords in any letter case);
//! - a score line is a line holding two numbers of one to four digits
//!   separated by text without digits, and no other digits up to the end of
//!   that line.
//!
//! Digits are Unicode decimal digits and white space is Unicode white
//! space, so that a message written with other scripts' digits or spaces is
//! read as such; only ASCII digits make a number, though.

use vstd::prelude::*;

use crate::entry::{EntryView, ResultsEntry};
use crate::text::{
    is_decimal_digit, is_decimal_digit_exec, is_white_space, is_white_space_exec,
    lemma_short_unsigned_i32, parse_i32, parse_u64, spec_parse_i32, spec_parse_u64, string_of,
};

verus! {

/// The kinds of character runs the message grammar is made of.
#[derive(Clone, Copy)]
pub enum CharClass {
    /// Decimal digits.
    Digit,
    /// White space.
    Space,
    /// Anything but white space.
    NonSpace,
    /// Anything but a digit or a vertical tab (`U+000B`).
    Gap,
    /// Anything but a digit.
    NonDigit,
}

pub open spec fn in_class(c: char, k: CharClass) -> bool {
    match k {
        CharClass::Digit => is_decimal_digit(c),
        CharClass::Space => is_white_space(c),
        CharClass::NonSpace => !is_white_space(c),
        CharClass::Gap => !is_decimal_digit(c) && c != '\u{b}',
        CharClass::NonDigit => !is_decimal_digit(c),
    }
}

/// Length of the run of characters of class `k` starting at `i`.
pub open spec fn run(t: Seq<char>, i: int, k: CharClass) -> int
    decreases t.len() - i,
{
    if 0 <= i < t.len() && in_class(t[i], k) {
        1 + run(t, i + 1, k)
    } else {
        0
    }
}

pub proof fn lemma_run_bounds(t: Seq<char>, i: int, k: CharClass)
    requires
        0 <= i <= t.len(),
    ensures
        0 <= run(t, i, k),
        i + run(t, i, k) <= t.len(),
        i + run(t, i, k) < t.len() ==> !in_class(t[i + run(t, i, k)], k),
        forall|j: int| i <= j < i + run(t, i, k) ==> in_class(#[trigger] t[j], k),
    decreases t.len() - i,
{
    if i < t.len() && in_class(t[i], k) {
        lemma_run_bounds(t, i + 1, k);
    }
}

fn in_class_exec(c: char, k: CharClass) -> (r: bool)
    ensures
        r == in_class(c, k),
{
    match k {
        CharClass::Digit => is_decimal_digit_exec(c),
        CharClass::Space => is_white_space_exec(c),
        CharClass::NonSpace => !is_white_space_exec(c),
        CharClass::Gap => !is_decimal_digit_exec(c) && c != '\u{b}',
        CharClass::NonDigit => !is_decimal_digit_exec(c),
    }
}

fn run_exec(t: &Vec<char>, i: usize, k: CharClass) -> (n: usize)
    requires
        i <= t@.len(),
    ensures
        n as int == run(t@, i as int, k),
        i + n <= t@.len(),
{
    let mut j = i;
    while j < t.len() && in_class_exec(t[j], k)
        invariant
            i <= j <= t@.len(),
            run(t@, i as int, k) == (j - i) + run(t@, j as int, k),
        decreases t@.len() - j,
    {
        j = j + 1;
    }
    j - i
}

// ---------------------------------------------------------------------------
// Mentions.

/// The number of digits of the mention starting at `i`, or 0 when none
/// starts there.
pub open spec fn mention_digits(t: Seq<char>, i: int) -> int {
    if 0 <= i && i + 2 < t.len() && t[i] == '<' && t[i + 1] == '@' {
        let k = run(t, i + 2, CharClass::Digit);
        if k >= 1 && i + 2 + k < t.len() && t[i + 2 + k] == '>' {
            k
        } else {
            0
        }
    } else {
        0
    }
}

/// The digits of the mentions from `i` on, taken left to right without
/// overlapping.
pub open spec fn mentions(t: Seq<char>, i: int) -> Seq<Seq<char>>
    decreases t.len() - i,
{
    if i < 0 || i >= t.len() {
        Seq::empty()
    } else {
        let k = mention_digits(t, i);
        if k > 0 {
            seq![t.subrange(i + 2, i + 2 + k)] + mentions(t, i + 3 + k)
        } else {
            mentions(t, i + 1)
        }
    }
}

/// The text from `i` on with those mentions removed.
pub open spec fn strip_mentions(t: Seq<char>, i: int) -> Seq<char>
    decreases t.len() - i,
{
    if i < 0 || i >= t.len() {
        Seq::empty()
    } else {
        let k = mention_digits(t, i);
        if k > 0 {
            strip_mentions(t, i + 3 + k)
        } else {
            seq![t[i]] + strip_mentions(t, i + 1)
        }
    }
}

/// The player ids: each mention's digits read as a `u64`, in order,
/// skipping those that do not read as one.
pub open spec fn mention_ids(texts: Seq<Seq<char>>) -> Seq<u64>
    decreases texts.len(),
{
    if texts.len() == 0 {
        Seq::empty()
    } else {
        let rest = mention_ids(texts.drop_last());
        match spec_parse_u64(texts.last()) {
            Some(v) => rest.push(v),
            None => rest,
        }
    }
}

fn mention_digits_exec(t: &Vec<char>, i: usize) -> (k: usize)
    requires
        i <= t@.len(),
    ensures
        k as int == mention_digits(t@, i as int),
        k > 0 ==> i + 3 + k <= t@.len(),
{
    if t.len() - i > 2 && t[i] == '<' && t[i + 1] == '@' {
        let k = run_exec(t, i + 2, CharClass::Digit);
        if k >= 1 && i + 2 + k < t.len() && t[i + 2 + k] == '>' {
            k
        } else {
            0
        }
    } else {
        0
    }
}

/// The characters `t[a..b]` as a string.
fn substring(t: &Vec<char>, a: usize, b: usize) -> (s: String)
    requires
        a <= b <= t@.len(),
    ensures
        s@ == t@.subrange(a as int, b as int),
{
    let mut v: Vec<char> = Vec::new();
    for j in a..b
        invariant
            b <= t@.len(),
            v@ == t@.subrange(a as int, j as int),
    {
        v.push(t[j]);
        proof {
            assert(t@.subrange(a as int, j + 1) =~= t@.subrange(a as int, j as int).push(
                t@[j as int],
            ));
        }
    }
    string_of(&v)
}

/// The ids of the mentions in `t`, and `t` without them.
fn scan_mentions(t: &Vec<char>) -> (r: (Vec<u64>, Vec<char>))
    ensures
        r.0@ == mention_ids(mentions(t@, 0)),
        r.1@ == strip_mentions(t@, 0),
{
    let ghost mut found: Seq<Seq<char>> = Seq::empty();
    let mut ids: Vec<u64> = Vec::new();
    let mut kept: Vec<char> = Vec::new();
    let n = t.len();
    let mut i: usize = 0;
    while i < n
        invariant
            n == t@.len(),
            i <= n,
            mentions(t@, 0) == found + mentions(t@, i as int),
            strip_mentions(t@, 0) == kept@ + strip_mentions(t@, i as int),
            ids@ == mention_ids(found),
        decreases n - i,
    {
        let k = mention_digits_exec(t, i);
        if k > 0 {
            let digits = substring(t, i + 2, i + 2 + k);
            proof {
                let m = seq![t@.subrange(i + 2, i + 2 + k)];
                assert(mentions(t@, i as int) == m + mentions(t@, i + 3 + k));
                assert(found + (m + mentions(t@, i + 3 + k)) =~= found.push(m[0]) + mentions(
                    t@,
                    i + 3 + k,
                ));
                let prev = found;
                found = found.push(m[0]);
                assert(found.drop_last() =~= prev);
                assert(digits@ == found.last());
            }
            match parse_u64(digits.as_str()) {
                Some(v) => ids.push(v),
                None => {},
            }
            proof {
                assert(found.drop_last().push(found.last()) =~= found);
            }
            i = i + 3 + k;
        } else {
            let c = t[i];
            proof {
                assert(strip_mentions(t@, i as int) == seq![c] + strip_mentions(t@, i + 1));
                assert(kept@ + (seq![c] + strip_mentions(t@, i + 1)) =~= kept@.push(c)
                    + strip_mentions(t@, i + 1));
            }
            kept.push(c);
            i = i + 1;
        }
    }
    proof {
        assert(found + Seq::<Seq<char>>::empty() =~= found);
        assert(kept@ + Seq::<char>::empty() =~= kept@);
    }
    (ids, kept)
}

// ---------------------------------------------------------------------------
// Draft links.

/// `c` is the letter `lower` in either case (`s` also matches the long s,
/// `U+017F`, as Unicode case folding has it).
pub open spec fn ci_letter(c: char, lower: char) -> bool {
    c == lower || (c as u32) + 32 == (lower as u32) || (lower == 's' && c == '\u{17f}')
}

fn ci_letter_exec(c: char, lower: char) -> (r: bool)
    ensures
        r == ci_letter(c, lower),
{
    c == lower || (c as u32) as u64 + 32 == (lower as u32) as u64 || (lower == 's' && c
        == '\u{17f}')
}

/// The word `w` (lower-case ASCII letters) appears at `i`, in any case.
pub open spec fn word_at(t: Seq<char>, i: int, w: Seq<char>) -> bool {
    &&& 0 <= i
    &&& i + w.len() <= t.len()
    &&& forall|j: int| 0 <= j < w.len() ==> ci_letter(#[trigger] t[i + j], w[j])
}

pub open spec fn map_word() -> Seq<char> {
    seq!['m', 'a', 'p']
}

pub open spec fn civ_word() -> Seq<char> {
    seq!['c', 'i', 'v']
}

pub open spec fn draft_word() -> Seq<char> {
    seq!['d', 'r', 'a', 'f', 't']
}

/// Where the link starts and ends when the part after the keyword begins
/// at `a`: after optional white space, a `:` is skipped together with the
/// white space after it when a link follows; otherwise the link starts
/// right after the first white space. `None` when only white space is left.
pub open spec fn link_after(t: Seq<char>, a: int) -> Option<(int, int)> {
    let b = a + run(t, a, CharClass::Space);
    if b >= t.len() {
        None
    } else if t[b] == ':' {
        let c = b + 1 + run(t, b + 1, CharClass::Space);
        if c < t.len() {
            Some((c, c + run(t, c, CharClass::NonSpace)))
        } else {
            Some((b, b + run(t, b, CharClass::NonSpace)))
        }
    } else {
        Some((b, b + run(t, b, CharClass::NonSpace)))
    }
}

/// Where the part after ` draft` begins, when white space and the word
/// `draft` follow `m`.
pub open spec fn draft_suffix(t: Seq<char>, m: int) -> Option<int> {
    let w = run(t, m, CharClass::Space);
    if w >= 1 && word_at(t, m + w, draft_word()) {
        Some(m + w + 5)
    } else {
        None
    }
}

/// The link after the keyword (and its optional `s`) ending at `m`: read
/// after ` draft` when that is there and a link follows it, otherwise read
/// right at `m`.
pub open spec fn link_from(t: Seq<char>, m: int) -> Option<(int, int)> {
    match draft_suffix(t, m) {
        Some(a) => match link_after(t, a) {
            Some(x) => Some(x),
            None => link_after(t, m),
        },
        None => link_after(t, m),
    }
}

/// The draft link of the keyword `word` starting at `i`: with the `s` that
/// may follow the keyword when a link is found after it, otherwise without.
pub open spec fn draft_at(t: Seq<char>, i: int, word: Seq<char>) -> Option<(int, int)> {
    if word_at(t, i, word) {
        let m = i + word.len();
        if m < t.len() && ci_letter(t[m], 's') {
            match link_from(t, m + 1) {
                Some(x) => Some(x),
                None => link_from(t, m),
            }
        } else {
            link_from(t, m)
        }
    } else {
        None
    }
}

/// The first draft link of `word` from `i` on.
pub open spec fn first_draft(t: Seq<char>, i: int, word: Seq<char>) -> Option<(int, int)>
    decreases t.len() - i,
{
    if i < 0 || i >= t.len() {
        None
    } else {
        match draft_at(t, i, word) {
            Some(x) => Some(x),
            None => first_draft(t, i + 1, word),
        }
    }
}

/// The text from `i` on with every draft link of `word`, keyword to end of
/// link, removed (left to right, without overlapping).
pub open spec fn strip_drafts(t: Seq<char>, i: int, word: Seq<char>) -> Seq<char>
    decreases t.len() - i,
{
    if i < 0 || i >= t.len() {
        Seq::empty()
    } else {
        match draft_at(t, i, word) {
            Some((s, e)) => if i < e <= t.len() {
                strip_drafts(t, e, word)
            } else {
                seq![t[i]] + strip_drafts(t, i + 1, word)
            },
            None => seq![t[i]] + strip_drafts(t, i + 1, word),
        }
    }
}

/// No character of `t[s..e]` is white space.
pub open spec fn no_space(t: Seq<char>, s: int, e: int) -> bool {
    forall|j: int| s <= j < e ==> !is_white_space(#[trigger] t[j])
}

proof fn lemma_link_after_bounds(t: Seq<char>, a: int)
    requires
        0 <= a <= t.len(),
    ensures
        link_after(t, a) matches Some((s, e)) ==> a <= s < e <= t.len() && no_space(t, s, e),
{
    lemma_run_bounds(t, a, CharClass::Space);
    let b = a + run(t, a, CharClass::Space);
    if b < t.len() {
        lemma_run_bounds(t, b, CharClass::NonSpace);
        if t[b] == ':' {
            lemma_run_bounds(t, b + 1, CharClass::Space);
            let c = b + 1 + run(t, b + 1, CharClass::Space);
            if c < t.len() {
                lemma_run_bounds(t, c, CharClass::NonSpace);
            }
        }
    }
}

proof fn lemma_link_from_bounds(t: Seq<char>, m: int)
    requires
        0 <= m <= t.len(),
    ensures
        link_from(t, m) matches Some((s, e)) ==> m <= s < e <= t.len() && no_space(t, s, e),
{
    lemma_link_after_bounds(t, m);
    lemma_run_bounds(t, m, CharClass::Space);
    if let Some(a) = draft_suffix(t, m) {
        lemma_link_after_bounds(t, a);
    }
}

proof fn lemma_draft_at_bounds(t: Seq<char>, i: int, word: Seq<char>)
    requires
        0 <= i <= t.len(),
    ensures
        draft_at(t, i, word) matches Some((s, e)) ==> i <= s < e <= t.len() && no_space(t, s, e),
{
    if word_at(t, i, word) {
        let m = i + word.len();
        lemma_link_from_bounds(t, m);
        if m < t.len() {
            lemma_link_from_bounds(t, m + 1);
        }
    }
}

fn word_at_exec(t: &Vec<char>, i: usize, w: &Vec<char>) -> (r: bool)
    ensures
        r == word_at(t@, i as int, w@),
{
    let len = t.len();
    if i > len || w.len() > len - i {
        return false;
    }
    let n = w.len();
    for j in 0..n
        invariant
            n == w@.len(),
            len == t@.len(),
            i + n <= len,
            forall|q: int| 0 <= q < j ==> ci_letter(#[trigger] t@[i + q], w@[q]),
    {
        let same = ci_letter_exec(t[i + j], w[j]);
        if !same {
            proof {
                assert(!ci_letter(t@[i + j], w@[j as int]));
            }
            return false;
        }
    }
    true
}

fn link_after_exec(t: &Vec<char>, a: usize) -> (r: Option<(usize, usize)>)
    requires
        a <= t@.len(),
    ensures
        match r {
            Some((s, e)) => link_after(t@, a as int) == Some((s as int, e as int)),
            None => link_after(t@, a as int) is None,
        },
{
    let len = t.len();
    let b = a + run_exec(t, a, CharClass::Space);
    if b >= len {
        None
    } else if t[b] == ':' {
        let c = b + 1 + run_exec(t, b + 1, CharClass::Space);
        if c < t.len() {
            Some((c, c + run_exec(t, c, CharClass::NonSpace)))
        } else {
            Some((b, b + run_exec(t, b, CharClass::NonSpace)))
        }
    } else {
        Some((b, b + run_exec(t, b, CharClass::NonSpace)))
    }
}

fn link_from_exec(t: &Vec<char>, m: usize, draft: &Vec<char>) -> (r: Option<(usize, usize)>)
    requires
        m <= t@.len(),
        draft@ == draft_word(),
    ensures
        match r {
            Some((s, e)) => link_from(t@, m as int) == Some((s as int, e as int)),
            None => link_from(t@, m as int) is None,
        },
{
    let _len = t.len();
    let w = run_exec(t, m, CharClass::Space);
    if w >= 1 && word_at_exec(t, m + w, draft) {
        match link_after_exec(t, m + w + 5) {
            Some(x) => return Some(x),
            None => {},
        }
    }
    link_after_exec(t, m)
}

fn draft_at_exec(t: &Vec<char>, i: usize, word: &Vec<char>, draft: &Vec<char>) -> (r: Option<
    (usize, usize),
>)
    requires
        i <= t@.len(),
        draft@ == draft_word(),
    ensures
        match r {
            Some((s, e)) => draft_at(t@, i as int, word@) == Some((s as int, e as int)),
            None => draft_at(t@, i as int, word@) is None,
        },
{
    let len = t.len();
    if !word_at_exec(t, i, word) {
        return None;
    }
    let m = i + word.len();
    if m < len && ci_letter_exec(t[m], 's') {
        match link_from_exec(t, m + 1, draft) {
            Some(x) => return Some(x),
            None => return link_from_exec(t, m, draft),
        }
    }
    link_from_exec(t, m, draft)
}

fn first_draft_exec(t: &Vec<char>, word: &Vec<char>, draft: &Vec<char>) -> (r: Option<
    (usize, usize),
>)
    requires
        draft@ == draft_word(),
    ensures
        match r {
            Some((s, e)) => first_draft(t@, 0, word@) == Some((s as int, e as int)),
            None => first_draft(t@, 0, word@) is None,
        },
{
    let n = t.len();
    let mut i: usize = 0;
    while i < n
        invariant
            n == t@.len(),
            i <= n,
            draft@ == draft_word(),
            first_draft(t@, 0, word@) == first_draft(t@, i as int, word@),
        decreases n - i,
    {
        match draft_at_exec(t, i, word, draft) {
            Some(x) => return Some(x),
            None => {},
        }
        i = i + 1;
    }
    None
}

fn strip_drafts_exec(t: &Vec<char>, word: &Vec<char>, draft: &Vec<char>) -> (r: Vec<char>)
    requires
        draft@ == draft_word(),
    ensures
        r@ == strip_drafts(t@, 0, word@),
{
    let n = t.len();
    let mut kept: Vec<char> = Vec::new();
    let mut i: usize = 0;
    while i < n
        invariant
            n == t@.len(),
            i <= n,
            draft@ == draft_word(),
            strip_drafts(t@, 0, word@) == kept@ + strip_drafts(t@, i as int, word@),
        decreases n - i,
    {
        proof {
            lemma_draft_at_bounds(t@, i as int, word@);
        }
        match draft_at_exec(t, i, word, draft) {
            Some((_, e)) => {
                i = e;
            },
            None => {
                let c = t[i];
                proof {
                    assert(kept@ + (seq![c] + strip_drafts(t@, i + 1, word@)) =~= kept@.push(c)
                        + strip_drafts(t@, i + 1, word@));
                }
                kept.push(c);
                i = i + 1;
            },
        }
    }
    proof {
        assert(kept@ + Seq::<char>::empty() =~= kept@);
    }
    kept
}

// ---------------------------------------------------------------------------
// The score line.

/// Some character in `t[a..b]` is a newline.
pub open spec fn has_newline(t: Seq<char>, a: int, b: int) -> bool {
    exists|k: int| a <= k < b && t[k] == '\n'
}

/// The two numbers of a score line searched from `l`: after the text up to
/// the first digit, a number of at most four digits, a gap of at least one
/// character that is neither a digit nor a vertical tab, a second number of
/// at most four digits, and then no digit before the end of that line (or
/// of the text). The result gives where each number starts and ends.
pub open spec fn score_at(t: Seq<char>, l: int) -> Option<(int, int, int, int)> {
    let d = l + run(t, l, CharClass::NonDigit);
    let e = d + run(t, d, CharClass::Digit);
    let f = e + run(t, e, CharClass::Gap);
    let h = f + run(t, f, CharClass::Digit);
    let z = h + run(t, h, CharClass::NonDigit);
    if d < t.len() && e - d <= 4 && f > e && f < t.len() && is_decimal_digit(t[f]) && h - f <= 4
        && (z == t.len() || has_newline(t, h, z)) {
        Some((d, e, f, h))
    } else {
        None
    }
}

/// `l` is where a line begins.
pub open spec fn line_start(t: Seq<char>, l: int) -> bool {
    l == 0 || (0 < l <= t.len() && t[l - 1] == '\n')
}

/// The score line starting at the first line (from `l` on) that has one.
pub open spec fn first_score(t: Seq<char>, l: int) -> Option<(int, int, int, int)>
    decreases t.len() + 1 - l,
{
    if l < 0 || l > t.len() {
        None
    } else if line_start(t, l) && score_at(t, l) is Some {
        score_at(t, l)
    } else {
        first_score(t, l + 1)
    }
}

fn has_newline_exec(t: &Vec<char>, a: usize, b: usize) -> (r: bool)
    requires
        a <= b <= t@.len(),
    ensures
        r == has_newline(t@, a as int, b as int),
{
    let mut k = a;
    while k < b
        invariant
            a <= k <= b,
            b <= t@.len(),
            forall|q: int| a <= q < k ==> t@[q] != '\n',
        decreases b - k,
    {
        if t[k] == '\n' {
            return true;
        }
        k = k + 1;
    }
    false
}

fn score_at_exec(t: &Vec<char>, l: usize) -> (r: Option<(usize, usize, usize, usize)>)
    requires
        l <= t@.len(),
    ensures
        match r {
            Some((d, e, f, h)) => score_at(t@, l as int) == Some(
                (d as int, e as int, f as int, h as int),
            ),
            None => score_at(t@, l as int) is None,
        },
{
    let _len = t.len();
    let d = l + run_exec(t, l, CharClass::NonDigit);
    let e = d + run_exec(t, d, CharClass::Digit);
    let f = e + run_exec(t, e, CharClass::Gap);
    let h = f + run_exec(t, f, CharClass::Digit);
    let z = h + run_exec(t, h, CharClass::NonDigit);
    if d < t.len() && e - d <= 4 && f > e && f < t.len() && is_decimal_digit_exec(t[f]) && h - f
        <= 4 && (z == t.len() || has_newline_exec(t, h, z)) {
        Some((d, e, f, h))
    } else {
        None
    }
}

fn first_score_exec(t: &Vec<char>) -> (r: Option<(usize, usize, usize, usize)>)
    ensures
        match r {
            Some((d, e, f, h)) => first_score(t@, 0) == Some(
                (d as int, e as int, f as int, h as int),
            ),
            None => first_score(t@, 0) is None,
        },
{
    let n = t.len();
    let mut l: usize = 0;
    loop
        invariant
            n == t@.len(),
            l <= n,
            first_score(t@, 0) == first_score(t@, l as int),
        decreases n - l,
    {
        let starts = l == 0 || t[l - 1] == '\n';
        if starts {
            match score_at_exec(t, l) {
                Some(x) => return Some(x),
                None => {},
            }
        }
        if l == n {
            proof {
                assert(first_score(t@, l + 1) is None);
            }
            return None;
        }
        l = l + 1;
    }
}

/// `t[d..e]` and `t[f..h]` are numbers of one to four digits, in this
/// order within `t`.
pub open spec fn score_shaped(t: Seq<char>, d: int, e: int, f: int, h: int) -> bool {
    &&& 0 <= d < e <= f < h <= t.len()
    &&& e - d <= 4
    &&& h - f <= 4
    &&& is_decimal_digit(t[d])
    &&& is_decimal_digit(t[f])
}

proof fn lemma_score_bounds(t: Seq<char>, l: int)
    requires
        0 <= l <= t.len(),
    ensures
        score_at(t, l) matches Some((d, e, f, h)) ==> score_shaped(t, d, e, f, h) && l <= d,
{
    lemma_run_bounds(t, l, CharClass::NonDigit);
    let d = l + run(t, l, CharClass::NonDigit);
    lemma_run_bounds(t, d, CharClass::Digit);
    let e = d + run(t, d, CharClass::Digit);
    lemma_run_bounds(t, e, CharClass::Gap);
    let f = e + run(t, e, CharClass::Gap);
    lemma_run_bounds(t, f, CharClass::Digit);
    if d < t.len() {
        lemma_run_bounds(t, d + 1, CharClass::Digit);
    }
    if f < t.len() {
        lemma_run_bounds(t, f + 1, CharClass::Digit);
    }
}

proof fn lemma_first_score_bounds(t: Seq<char>, l: int)
    requires
        0 <= l,
    ensures
        first_score(t, l) matches Some((d, e, f, h)) ==> score_shaped(t, d, e, f, h),
    decreases t.len() + 1 - l,
{
    if l <= t.len() {
        lemma_score_bounds(t, l);
        lemma_first_score_bounds(t, l + 1);
    }
}

proof fn lemma_first_draft_bounds(t: Seq<char>, i: int, word: Seq<char>)
    requires
        0 <= i,
    ensures
        first_draft(t, i, word) matches Some((s, e)) ==> 0 <= s < e <= t.len() && no_space(
            t,
            s,
            e,
        ),
    decreases t.len() - i,
{
    if i < t.len() {
        lemma_draft_at_bounds(t, i, word);
        lemma_first_draft_bounds(t, i + 1, word);
    }
}

// ---------------------------------------------------------------------------
// The whole message.

/// `e` with the first draft link of `word` in `t`, when there is one, as its
/// map draft (`map`) or civ draft (otherwise).
pub open spec fn with_draft(e: EntryView, t: Seq<char>, word: Seq<char>, map: bool) -> EntryView {
    match first_draft(t, 0, word) {
        Some((s, f)) => if map {
            EntryView { map_draft: Some(t.subrange(s, f)), ..e }
        } else {
            EntryView { civ_draft: Some(t.subrange(s, f)), ..e }
        },
        None => e,
    }
}

/// What parsing a message does to an entry:
/// - exactly two player ids among the mentions set the two player ids, in
///   order (any other number leaves them as they were);
/// - with the mentions removed, the first `map` draft link sets the map
///   draft; with every map draft link removed too, the first `civ` draft
///   link sets the civ draft;
/// - with the civ draft links removed as well, the first score line sets
///   both scores, when both numbers read as `i32`.
pub open spec fn spec_parse_message(e: EntryView, content: Seq<char>) -> EntryView {
    let ids = mention_ids(mentions(content, 0));
    let e1 = if ids.len() == 2 {
        EntryView { player1_id: Some(ids[0]), player2_id: Some(ids[1]), ..e }
    } else {
        e
    };
    let c1 = strip_mentions(content, 0);
    let e2 = with_draft(e1, c1, map_word(), true);
    let c2 = strip_drafts(c1, 0, map_word());
    let e3 = with_draft(e2, c2, civ_word(), false);
    let c3 = strip_drafts(c2, 0, civ_word());
    match first_score(c3, 0) {
        Some((d, f, g, h)) => match (
            spec_parse_i32(c3.subrange(d, f)),
            spec_parse_i32(c3.subrange(g, h)),
        ) {
            (Some(s1), Some(s2)) => EntryView {
                player1_score: Some(s1),
                player2_score: Some(s2),
                ..e3
            },
            _ => e3,
        },
        None => e3,
    }
}

fn word_of(a: char, b: char, c: char) -> (w: Vec<char>)
    ensures
        w@ == seq![a, b, c],
{
    let mut w: Vec<char> = Vec::new();
    w.push(a);
    w.push(b);
    w.push(c);
    proof {
        assert(w@ =~= seq![a, b, c]);
    }
    w
}

fn draft_word_exec() -> (w: Vec<char>)
    ensures
        w@ == draft_word(),
{
    let mut w = word_of('d', 'r', 'a');
    w.push('f');
    w.push('t');
    proof {
        assert(w@ =~= draft_word());
    }
    w
}

/// Parses a results message into `entry`: player ids from the mentions,
/// the map and civ draft links, and the score line (see
/// [`spec_parse_message`]).
pub fn parse_message_content(entry: &mut ResultsEntry, content: &str)
    ensures
        final(entry)@ == spec_parse_message(old(entry)@, content@),
{
    let text = crate::text::chars_of(content);
    let (player_ids, text) = scan_mentions(&text);
    if player_ids.len() == 2 {
        entry.player1_id = Some(player_ids[0]);
        entry.player2_id = Some(player_ids[1]);
    }

    let draft = draft_word_exec();
    let map_w = word_of('m', 'a', 'p');
    proof {
        assert(map_w@ =~= map_word());
    }
    match first_draft_exec(&text, &map_w, &draft) {
        Some((s, e)) => {
            proof {
                lemma_first_draft_bounds(text@, 0, map_word());
            }
            entry.map_draft = Some(substring(&text, s, e));
        },
        None => {},
    }
    let text = strip_drafts_exec(&text, &map_w, &draft);

    let civ_w = word_of('c', 'i', 'v');
    proof {
        assert(civ_w@ =~= civ_word());
    }
    match first_draft_exec(&text, &civ_w, &draft) {
        Some((s, e)) => {
            proof {
                lemma_first_draft_bounds(text@, 0, civ_word());
            }
            entry.civ_draft = Some(substring(&text, s, e));
        },
        None => {},
    }
    let text = strip_drafts_exec(&text, &civ_w, &draft);

    match first_score_exec(&text) {
        Some((d, e, f, h)) => {
            proof {
                lemma_first_score_bounds(text@, 0);
            }
            let first = substring(&text, d, e);
            let second = substring(&text, f, h);
            match (parse_i32(first.as_str()), parse_i32(second.as_str())) {
                (Some(s1), Some(s2)) => {
                    entry.player1_score = Some(s1);
                    entry.player2_score = Some(s2);
                },
                _ => {},
            }
        },
        None => {},
    }
}

/// Parsing a message sets the two player ids together and the two scores
/// together (never one without the other), and leaves the link, poster,
/// contents, bracket, player names and replays link as they were.
pub proof fn lemma_parse_sets_pairs_together(e: EntryView, content: Seq<char>)
    ensures
        ({
            let r = spec_parse_message(e, content);
            &&& r.message_link == e.message_link
            &&& r.poster == e.poster
            &&& r.message_contents == e.message_contents
            &&& r.bracket == e.bracket
            &&& r.player1_name == e.player1_name
            &&& r.player2_name == e.player2_name
            &&& r.replays_link == e.replays_link
            &&& (r.player1_id == e.player1_id && r.player2_id == e.player2_id) || (
            r.player1_id is Some && r.player2_id is Some)
            &&& (r.player1_score == e.player1_score && r.player2_score == e.player2_score) || (
            r.player1_score is Some && r.player2_score is Some)
        }),
{
}

/// A draft link as the grammar reads it: a non-empty run of characters
/// none of which is white space.
pub open spec fn link_shaped(l: Seq<char>) -> bool {
    l.len() > 0 && forall|j: int| 0 <= j < l.len() ==> !is_white_space(#[trigger] l[j])
}

proof fn lemma_draft_shape(e: EntryView, t: Seq<char>, word: Seq<char>, map: bool)
    ensures
        ({
            let r = with_draft(e, t, word, map);
            &&& r.map_draft == e.map_draft || (r.map_draft matches Some(l) && map && link_shaped(
                l,
            ))
            &&& r.civ_draft == e.civ_draft || (r.civ_draft matches Some(l) && !map
                && link_shaped(l))
            &&& r.player1_score == e.player1_score
            &&& r.player2_score == e.player2_score
        }),
{
    lemma_first_draft_bounds(t, 0, word);
    if let Some((s, f)) = first_draft(t, 0, word) {
        let l = t.subrange(s, f);
        assert forall|j: int| 0 <= j < l.len() implies !is_white_space(#[trigger] l[j]) by {
            assert(l[j] == t[s + j]);
        }
    }
}

proof fn lemma_score_value(t: Seq<char>, a: int, b: int)
    requires
        0 <= a < b <= t.len(),
        b - a <= 4,
        is_decimal_digit(t[a]),
    ensures
        spec_parse_i32(t.subrange(a, b)) matches Some(v) ==> 0 <= v <= 9999,
{
    let n = t.subrange(a, b);
    assert(n[0] == t[a]);
    assert(!is_decimal_digit('+') && !is_decimal_digit('-'));
    lemma_short_unsigned_i32(n);
}

/// What parsing a message sets has the shape the grammar reads: each score
/// it sets is a number from 0 to 9999 (at most four digits), and each draft
/// link it sets is a non-empty run of characters without white space.
pub proof fn lemma_parsed_values_shape(e: EntryView, content: Seq<char>)
    ensures
        ({
            let r = spec_parse_message(e, content);
            &&& r.player1_score == e.player1_score || (r.player1_score matches Some(v) && 0 <= v
                <= 9999)
            &&& r.player2_score == e.player2_score || (r.player2_score matches Some(v) && 0 <= v
                <= 9999)
            &&& r.map_draft == e.map_draft || (r.map_draft matches Some(l) && link_shaped(l))
            &&& r.civ_draft == e.civ_draft || (r.civ_draft matches Some(l) && link_shaped(l))
        }),
{
    let ids = mention_ids(mentions(content, 0));
    let e1 = if ids.len() == 2 {
        EntryView { player1_id: Some(ids[0]), player2_id: Some(ids[1]), ..e }
    } else {
        e
    };
    let c1 = strip_mentions(content, 0);
    lemma_draft_shape(e1, c1, map_word(), true);
    let e2 = with_draft(e1, c1, map_word(), true);
    let c2 = strip_drafts(c1, 0, map_word());
    lemma_draft_shape(e2, c2, civ_word(), false);
    let c3 = strip_drafts(c2, 0, civ_word());
    lemma_first_score_bounds(c3, 0);
    if let Some((d, f, g, h)) = first_score(c3, 0) {
        lemma_score_value(c3, d, f);
        lemma_score_value(c3, g, h);
    }
}

/// Parsing the same message again changes nothing: every field a parse
/// sets depends on the message alone.
pub proof fn lemma_parse_idempotent(e: EntryView, content: Seq<char>)
    ensures
        spec_parse_message(spec_parse_message(e, content), content) == spec_parse_message(
            e,
            content,
        ),
{
}

} // verus!
