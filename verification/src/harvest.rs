//! Harvest reports: the one kind of message that carries plot counts.

use vstd::prelude::*;
use crate::chars::{
    chars_of, lemma_part_fills, lemma_run_covers, lemma_run_end, lemma_run_end_unique, phrase_at,
    run_end, scan_run, stands_at, CharClass,
};
use crate::decimal::{decimal_value, read_decimal};
use crate::entry::{EntryView, LogEntry};

verus! {

/// The application whose messages are searched for harvest reports.
pub const HARVESTER: &'static str = "harvester";

/// What follows the number of eligible plots.
pub const ELIGIBLE_PHRASE: &'static str = " plots were eligible for farming ";

/// What stands between the digest and the number of proofs.
pub const FOUND_PHRASE: &'static str = "... Found ";

/// What follows the number of proofs.
pub const PROOFS_PHRASE: &'static str = " proofs.";

/// What precedes the total number of plots.
pub const TOTAL_PHRASE: &'static str = "Total ";

/// What follows the total number of plots.
pub const PLOTS_PHRASE: &'static str = " plots";

/// What a harvest report says.
#[derive(Clone, Copy, Debug, PartialEq, Eq, Structural)]
pub struct HarvestEvent {
    /// How many plots were eligible in this round.
    pub eligible_plots: u64,
    /// How many proofs were found in this round.
    pub proofs_found: u64,
    /// How many plots the harvester knows in all; never negative.
    pub total_plots: i64,
}

/// The places at which a harvest report divides: the ends of its two leading
/// numbers and of the digest, and where the words before the total and the
/// total itself lie.
#[derive(Clone, Copy, Debug, PartialEq, Eq, Structural)]
pub struct ReportSplit {
    pub eligible_end: usize,
    pub digest_end: usize,
    pub proofs_end: usize,
    pub total_at: usize,
    pub total_end: usize,
}

/// A total stands in the message from `at` up to `end`: its leading word, a
/// number that ends at `end`, and its closing word.
pub open spec fn total_stands(s: Seq<char>, at: int, end: int) -> bool {
    &&& stands_at(s, at, TOTAL_PHRASE@)
    &&& at + TOTAL_PHRASE@.len() < end
    &&& CharClass::Digit.fills(s, at + TOTAL_PHRASE@.len(), end)
    &&& stands_at(s, end, PLOTS_PHRASE@)
}

impl ReportSplit {
    /// Where the digest starts.
    pub open spec fn digest_start(self) -> int {
        self.eligible_end + ELIGIBLE_PHRASE@.len()
    }

    /// Where the number of proofs starts.
    pub open spec fn proofs_start(self) -> int {
        self.digest_end + FOUND_PHRASE@.len()
    }

    /// Where the stretch between the proofs and the total starts.
    pub open spec fn rest_start(self) -> int {
        self.proofs_end + PROOFS_PHRASE@.len()
    }

    /// Where the total number of plots starts.
    pub open spec fn total_start(self) -> int {
        self.total_at + TOTAL_PHRASE@.len()
    }

    /// The message is a harvest report that divides as the split says: a
    /// number, the words on eligible plots, a digest in lower-case
    /// hexadecimal digits, the words before the proofs, a number, the words
    /// after it, anything but a line feed, and the total between its words.
    /// What follows the total is free.
    pub open spec fn fits(self, s: Seq<char>) -> bool {
        &&& 0 < self.eligible_end
        &&& CharClass::Digit.fills(s, 0, self.eligible_end as int)
        &&& stands_at(s, self.eligible_end as int, ELIGIBLE_PHRASE@)
        &&& self.digest_start() < self.digest_end
        &&& CharClass::Hex.fills(s, self.digest_start(), self.digest_end as int)
        &&& stands_at(s, self.digest_end as int, FOUND_PHRASE@)
        &&& self.proofs_start() < self.proofs_end
        &&& CharClass::Digit.fills(s, self.proofs_start(), self.proofs_end as int)
        &&& stands_at(s, self.proofs_end as int, PROOFS_PHRASE@)
        &&& self.rest_start() <= self.total_at
        &&& CharClass::Inline.fills(s, self.rest_start(), self.total_at as int)
        &&& total_stands(s, self.total_at as int, self.total_end as int)
    }

    /// No split that fits the message has its total further back: where a
    /// message names several totals, the last one counts.
    pub open spec fn preferred(self, s: Seq<char>) -> bool {
        forall|q: ReportSplit| #[trigger] q.fits(s) ==> q.total_at <= self.total_at
    }

    /// The split of the message: it fits and is preferred.
    pub open spec fn divides(self, s: Seq<char>) -> bool {
        self.fits(s) && self.preferred(s)
    }

    /// The digits of the number of eligible plots.
    pub open spec fn eligible_digits(self, s: Seq<char>) -> Seq<char> {
        s.subrange(0, self.eligible_end as int)
    }

    /// The digits of the number of proofs.
    pub open spec fn proofs_digits(self, s: Seq<char>) -> Seq<char> {
        s.subrange(self.proofs_start(), self.proofs_end as int)
    }

    /// The digits of the total number of plots.
    pub open spec fn total_digits(self, s: Seq<char>) -> Seq<char> {
        s.subrange(self.total_start(), self.total_end as int)
    }
}

/// Whether the message has the shape of a harvest report.
pub open spec fn matches_report(text: Seq<char>) -> bool {
    exists|p: ReportSplit| #[trigger] p.divides(text)
}

/// How a message of the shape of a harvest report divides.
pub open spec fn report_split(text: Seq<char>) -> ReportSplit {
    choose|p: ReportSplit| #[trigger] p.divides(text)
}

/// The event that three numbers make, if the counts of eligible plots and of
/// proofs fit in 64 bits without a sign and the total fits in 64 bits with
/// one.
pub open spec fn event_from(eligible: nat, proofs: nat, total: nat) -> Option<HarvestEvent> {
    if eligible <= u64::MAX && proofs <= u64::MAX && total <= i64::MAX {
        Some(
            HarvestEvent {
                eligible_plots: eligible as u64,
                proofs_found: proofs as u64,
                total_plots: total as i64,
            },
        )
    } else {
        None
    }
}

/// Whether the three numbers of a message of the shape of a harvest report
/// can be held.
pub open spec fn numbers_fit(text: Seq<char>) -> bool {
    let p = report_split(text);
    event_from(
        decimal_value(p.eligible_digits(text)),
        decimal_value(p.proofs_digits(text)),
        decimal_value(p.total_digits(text)),
    ) is Some
}

/// The event that a message reports: the message must have the shape of a
/// harvest report and its three numbers must fit.
pub open spec fn report_of(text: Seq<char>) -> Option<HarvestEvent> {
    if matches_report(text) {
        let p = report_split(text);
        event_from(
            decimal_value(p.eligible_digits(text)),
            decimal_value(p.proofs_digits(text)),
            decimal_value(p.total_digits(text)),
        )
    } else {
        None
    }
}

/// The event that an entry reports: only entries of the harvester report
/// any.
pub open spec fn harvest_of(entry: EntryView) -> Option<HarvestEvent> {
    if entry.app == HARVESTER@ {
        report_of(entry.text)
    } else {
        None
    }
}

/// Only harvest reports of the harvester give an event: an entry reports one
/// if and only if it comes from the harvester, its message has the shape of a
/// harvest report, and the three numbers in it can be held. The same message
/// under any other application reports nothing.
pub proof fn lemma_extract_selective(entry: EntryView)
    ensures
        harvest_of(entry) is Some <==> entry.app == HARVESTER@ && matches_report(entry.text)
            && numbers_fit(entry.text),
        forall|app: Seq<char>|
            app != HARVESTER@ ==> #[trigger] harvest_of(EntryView { app, ..entry }) is None,
        harvest_of(entry) matches Some(event) ==> event.total_plots >= 0,
{
}

/// The character with which a phrase that stands in a text begins stands in
/// the text at that place.
proof fn lemma_phrase_start(s: Seq<char>, at: int, phrase: Seq<char>)
    requires
        stands_at(s, at, phrase),
        phrase.len() > 0,
    ensures
        at < s.len(),
        s[at] == phrase[0],
{
    assert(s.subrange(at, at + phrase.len())[0] == s[at]);
}

/// In a split that fits, the numbers and the digest are runs, and the total
/// lies on the line on which the stretch after the proofs starts.
pub proof fn lemma_report_forced(s: Seq<char>, p: ReportSplit)
    requires
        p.fits(s),
    ensures
        p.eligible_end == run_end(s, CharClass::Digit, 0),
        p.digest_end == run_end(s, CharClass::Hex, p.digest_start()),
        p.proofs_end == run_end(s, CharClass::Digit, p.proofs_start()),
        p.total_at <= run_end(s, CharClass::Inline, p.rest_start()),
        p.total_end == run_end(s, CharClass::Digit, p.total_start()),
{
    reveal_strlit(" plots were eligible for farming ");
    reveal_strlit("... Found ");
    reveal_strlit(" proofs.");
    reveal_strlit("Total ");
    reveal_strlit(" plots");
    lemma_phrase_start(s, p.eligible_end as int, ELIGIBLE_PHRASE@);
    lemma_run_end_unique(s, CharClass::Digit, 0, p.eligible_end as int);
    lemma_phrase_start(s, p.digest_end as int, FOUND_PHRASE@);
    lemma_run_end_unique(s, CharClass::Hex, p.digest_start(), p.digest_end as int);
    lemma_phrase_start(s, p.proofs_end as int, PROOFS_PHRASE@);
    lemma_run_end_unique(s, CharClass::Digit, p.proofs_start(), p.proofs_end as int);
    lemma_run_covers(s, CharClass::Inline, p.rest_start(), p.total_at as int);
    lemma_phrase_start(s, p.total_end as int, PLOTS_PHRASE@);
    lemma_run_end_unique(s, CharClass::Digit, p.total_start(), p.total_end as int);
}

/// A message has one split at most.
pub proof fn lemma_report_unique(s: Seq<char>, p: ReportSplit, q: ReportSplit)
    requires
        p.divides(s),
        q.divides(s),
    ensures
        p == q,
{
    assert(q.total_at <= p.total_at);
    assert(p.total_at <= q.total_at);
    lemma_report_forced(s, p);
    lemma_report_forced(s, q);
}

/// The parts from which a harvest report is written: its three numbers, the
/// digest, what stands between the proofs and the total, and what follows
/// the report.
pub ghost struct ReportParts {
    pub eligible: Seq<char>,
    pub digest: Seq<char>,
    pub proofs: Seq<char>,
    pub between: Seq<char>,
    pub total: Seq<char>,
    pub rest: Seq<char>,
}

impl ReportParts {
    /// The message that the parts make, with the words of a harvest report
    /// between them.
    pub open spec fn written(self) -> Seq<char> {
        self.eligible + ELIGIBLE_PHRASE@ + self.digest + FOUND_PHRASE@ + self.proofs
            + PROOFS_PHRASE@ + self.between + TOTAL_PHRASE@ + self.total + PLOTS_PHRASE@
            + self.rest
    }

    /// Where the message divides: where its parts meet.
    pub open spec fn split(self) -> ReportSplit {
        let digest_end = self.eligible.len() + ELIGIBLE_PHRASE@.len() + self.digest.len();
        let proofs_end = digest_end + FOUND_PHRASE@.len() + self.proofs.len();
        let total_at = proofs_end + PROOFS_PHRASE@.len() + self.between.len();
        ReportSplit {
            eligible_end: self.eligible.len() as usize,
            digest_end: digest_end as usize,
            proofs_end: proofs_end as usize,
            total_at: total_at as usize,
            total_end: (total_at + TOTAL_PHRASE@.len() + self.total.len()) as usize,
        }
    }

    /// The numbers are written in digits and the digest in lower-case
    /// hexadecimal digits, none of them empty; no line feed stands between
    /// the proofs and the total; and no further total stands in what follows
    /// the report.
    pub open spec fn well_formed(self) -> bool {
        &&& self.eligible.len() > 0
        &&& CharClass::Digit.has_all(self.eligible)
        &&& self.digest.len() > 0
        &&& CharClass::Hex.has_all(self.digest)
        &&& self.proofs.len() > 0
        &&& CharClass::Digit.has_all(self.proofs)
        &&& CharClass::Inline.has_all(self.between)
        &&& self.total.len() > 0
        &&& CharClass::Digit.has_all(self.total)
        &&& forall|at: int, end: int| !total_stands(self.rest, at, end)
    }
}

/// A total that stands in a message behind `from` stands in what is left of
/// the message from there on.
proof fn lemma_total_in_rest(s: Seq<char>, from: int, at: int, end: int)
    requires
        0 <= from <= at,
        total_stands(s, at, end),
    ensures
        total_stands(s.subrange(from, s.len() as int), at - from, end - from),
{
    let rest = s.subrange(from, s.len() as int);
    let total = TOTAL_PHRASE@;
    let plots = PLOTS_PHRASE@;
    assert(rest.subrange(at - from, at - from + total.len()) =~= s.subrange(at, at + total.len()));
    assert(rest.subrange(end - from, end - from + plots.len()) =~= s.subrange(
        end,
        end + plots.len(),
    ));
    assert forall|i: int| at - from + total.len() <= i < end - from implies CharClass::Digit.has(
        #[trigger] rest[i],
    ) by {
        assert(CharClass::Digit.has(s[i + from]));
    }
}

/// A message written from well-formed parts divides where its parts meet.
proof fn lemma_written_fits(parts: ReportParts)
    requires
        parts.well_formed(),
        parts.written().len() <= usize::MAX,
    ensures
        parts.split().fits(parts.written()),
        parts.split().eligible_digits(parts.written()) == parts.eligible,
        parts.split().proofs_digits(parts.written()) == parts.proofs,
        parts.split().total_digits(parts.written()) == parts.total,
        parts.split().total_end + PLOTS_PHRASE@.len() + parts.rest.len() == parts.written().len(),
        parts.written().subrange(
            parts.split().total_end + PLOTS_PHRASE@.len(),
            parts.written().len() as int,
        ) == parts.rest,
{
    let s = parts.written();
    let o1 = parts.eligible.len() as int;
    let o2 = o1 + ELIGIBLE_PHRASE@.len();
    let o3 = o2 + parts.digest.len();
    let o4 = o3 + FOUND_PHRASE@.len();
    let o5 = o4 + parts.proofs.len();
    let o6 = o5 + PROOFS_PHRASE@.len();
    let o7 = o6 + parts.between.len();
    let o8 = o7 + TOTAL_PHRASE@.len();
    let o9 = o8 + parts.total.len();
    let o10 = o9 + PLOTS_PHRASE@.len();
    assert(s.len() == o10 + parts.rest.len());
    assert(s.subrange(0, o1) =~= parts.eligible);
    assert(s.subrange(o1, o2) =~= ELIGIBLE_PHRASE@);
    assert(s.subrange(o2, o3) =~= parts.digest);
    assert(s.subrange(o3, o4) =~= FOUND_PHRASE@);
    assert(s.subrange(o4, o5) =~= parts.proofs);
    assert(s.subrange(o5, o6) =~= PROOFS_PHRASE@);
    assert(s.subrange(o6, o7) =~= parts.between);
    assert(s.subrange(o7, o8) =~= TOTAL_PHRASE@);
    assert(s.subrange(o8, o9) =~= parts.total);
    assert(s.subrange(o9, o10) =~= PLOTS_PHRASE@);
    assert(s.subrange(o10, s.len() as int) =~= parts.rest);
    lemma_part_fills(s, 0, parts.eligible, CharClass::Digit);
    lemma_part_fills(s, o2, parts.digest, CharClass::Hex);
    lemma_part_fills(s, o4, parts.proofs, CharClass::Digit);
    lemma_part_fills(s, o6, parts.between, CharClass::Inline);
    lemma_part_fills(s, o8, parts.total, CharClass::Digit);
}

/// No total starts inside a total: behind the first character of a total
/// that stands in a message, none starts before the total is over.
proof fn lemma_no_total_inside(s: Seq<char>, at: int, end: int, inside: int)
    requires
        total_stands(s, at, end),
        at < inside < end + PLOTS_PHRASE@.len(),
    ensures
        s[inside] != 'T',
{
    reveal_strlit("Total ");
    reveal_strlit(" plots");
    let start = at + TOTAL_PHRASE@.len();
    if inside < start {
        assert(s.subrange(at, start)[inside - at] == s[inside]);
    } else if inside < end {
        assert(CharClass::Digit.has(s[inside]));
    } else {
        assert(s.subrange(end, end + PLOTS_PHRASE@.len())[inside - end] == s[inside]);
    }
}

/// A total starts with its first character.
proof fn lemma_total_starts(s: Seq<char>, at: int, end: int)
    requires
        total_stands(s, at, end),
    ensures
        s[at] == 'T',
{
    reveal_strlit("Total ");
    lemma_phrase_start(s, at, TOTAL_PHRASE@);
}

/// Reading gives back what was written: a message written from well-formed
/// parts reports the event of the three numbers among them, or none where
/// one of them is too large to hold.
pub proof fn lemma_report_read_back(parts: ReportParts)
    requires
        parts.well_formed(),
        parts.written().len() <= usize::MAX,
    ensures
        report_of(parts.written()) == event_from(
            decimal_value(parts.eligible),
            decimal_value(parts.proofs),
            decimal_value(parts.total),
        ),
{
    let s = parts.written();
    let p = parts.split();
    lemma_written_fits(parts);
    let over = p.total_end + PLOTS_PHRASE@.len();
    assert forall|q: ReportSplit| #[trigger] q.fits(s) implies q.total_at <= p.total_at by {
        if q.total_at > p.total_at {
            lemma_total_starts(s, q.total_at as int, q.total_end as int);
            if q.total_at < over {
                lemma_no_total_inside(s, p.total_at as int, p.total_end as int, q.total_at as int);
            } else {
                lemma_total_in_rest(s, over, q.total_at as int, q.total_end as int);
            }
        }
    }
    assert(p.divides(s));
    lemma_report_unique(s, p, report_split(s));
}

/// Looks for a total that starts at `at` and gives the place where its
/// number ends.
fn total_from(s: &[char], at: usize, total: &[char], plots: &[char]) -> (r: Option<usize>)
    requires
        at <= s.len(),
        total@ == TOTAL_PHRASE@,
        plots@ == PLOTS_PHRASE@,
    ensures
        match r {
            Some(end) => total_stands(s@, at as int, end as int),
            None => forall|end: int| !total_stands(s@, at as int, end),
        },
{
    if !phrase_at(s, at, total) {
        return None;
    }
    let start: usize = at + total.len();
    let end: usize = scan_run(s, CharClass::Digit, start);
    proof {
        reveal_strlit(" plots");
        lemma_run_end(s@, CharClass::Digit, start as int);
        assert forall|e: int| total_stands(s@, at as int, e) implies e == end by {
            lemma_phrase_start(s@, e, PLOTS_PHRASE@);
            lemma_run_end_unique(s@, CharClass::Digit, start as int, e);
        }
    }
    if end == start || !phrase_at(s, end, plots) {
        return None;
    }
    Some(end)
}

/// Finds how a message divides as a harvest report, if it does.
#[verifier::loop_isolation(false)]
pub fn split_report(s: &[char]) -> (r: Option<ReportSplit>)
    ensures
        match r {
            Some(p) => p.divides(s@),
            None => forall|q: ReportSplit| !#[trigger] q.fits(s@),
        },
{
    let eligible = chars_of(ELIGIBLE_PHRASE);
    let found = chars_of(FOUND_PHRASE);
    let proofs = chars_of(PROOFS_PHRASE);
    let total = chars_of(TOTAL_PHRASE);
    let plots = chars_of(PLOTS_PHRASE);
    proof {
        assert forall|q: ReportSplit| #[trigger] q.fits(s@) implies q.eligible_end == run_end(
            s@,
            CharClass::Digit,
            0,
        ) && q.digest_end == run_end(s@, CharClass::Hex, q.digest_start()) && q.proofs_end
            == run_end(s@, CharClass::Digit, q.proofs_start()) && q.total_at <= run_end(
            s@,
            CharClass::Inline,
            q.rest_start(),
        ) by {
            lemma_report_forced(s@, q);
        }
    }
    let eligible_end: usize = scan_run(s, CharClass::Digit, 0);
    if eligible_end == 0 || !phrase_at(s, eligible_end, eligible.as_slice()) {
        return None;
    }
    let digest_start: usize = eligible_end + eligible.len();
    let digest_end: usize = scan_run(s, CharClass::Hex, digest_start);
    if digest_end == digest_start || !phrase_at(s, digest_end, found.as_slice()) {
        return None;
    }
    let proofs_start: usize = digest_end + found.len();
    let proofs_end: usize = scan_run(s, CharClass::Digit, proofs_start);
    if proofs_end == proofs_start || !phrase_at(s, proofs_end, proofs.as_slice()) {
        return None;
    }
    let rest_start: usize = proofs_end + proofs.len();
    let limit: usize = scan_run(s, CharClass::Inline, rest_start);
    proof {
        lemma_run_end(s@, CharClass::Digit, 0);
        lemma_run_end(s@, CharClass::Hex, digest_start as int);
        lemma_run_end(s@, CharClass::Digit, proofs_start as int);
        lemma_run_end(s@, CharClass::Inline, rest_start as int);
    }
    let mut at: usize = limit;
    loop
        invariant
            rest_start <= at <= limit,
            forall|q: ReportSplit| #[trigger] q.fits(s@) ==> q.total_at <= at,
        decreases at,
    {
        match total_from(s, at, total.as_slice(), plots.as_slice()) {
            Some(total_end) => {
                return Some(
                    ReportSplit { eligible_end, digest_end, proofs_end, total_at: at, total_end },
                );
            },
            None => {},
        }
        if at == rest_start {
            return None;
        }
        at -= 1;
    }
}

/// Reads a message as a harvest report. A message of another shape, or one
/// with a number too large to hold, gives nothing.
pub fn read_report(text: &str) -> (r: Option<HarvestEvent>)
    ensures
        r == report_of(text@),
        r is Some ==> r->0.total_plots >= 0,
{
    let chars = chars_of(text);
    let s = chars.as_slice();
    match split_report(s) {
        Some(p) => {
            proof {
                lemma_report_unique(text@, p, report_split(text@));
            }
            let eligible_len: usize = chars_of(ELIGIBLE_PHRASE).len();
            let found_len: usize = chars_of(FOUND_PHRASE).len();
            let total_len: usize = chars_of(TOTAL_PHRASE).len();
            let eligible = read_decimal(s, 0, p.eligible_end, u64::MAX);
            let proofs = read_decimal(s, p.digest_end + found_len, p.proofs_end, u64::MAX);
            let total = read_decimal(s, p.total_at + total_len, p.total_end, 0x7fff_ffff_ffff_ffff);
            match (eligible, proofs, total) {
                (Some(eligible_plots), Some(proofs_found), Some(total)) => Some(
                    HarvestEvent { eligible_plots, proofs_found, total_plots: total as i64 },
                ),
                _ => None,
            }
        },
        None => {
            proof {
                assert forall|q: ReportSplit| !#[trigger] q.divides(text@) by {
                    assert(!q.fits(text@));
                }
            }
            None
        },
    }
}

/// Extracts the harvest report from an entry, if it holds one: the entry
/// must come from the harvester and its message must be a harvest report
/// whose numbers can be held.
pub fn extract(entry: &LogEntry) -> (r: Option<HarvestEvent>)
    ensures
        r == harvest_of(entry@),
        r is Some <==> entry.app@ == HARVESTER@ && matches_report(entry.text@) && numbers_fit(
            entry.text@,
        ),
        r is Some ==> r->0.total_plots >= 0,
{
    let harvester: String = HARVESTER.to_owned();
    if entry.app != harvester {
        return None;
    }
    read_report(entry.text.as_str())
}

} // verus!
