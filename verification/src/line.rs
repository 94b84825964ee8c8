//! The shape of a log line: a timestamp, an application and a module parted
//! by white space, a colon, a level and the message.

use vstd::prelude::*;
use crate::chars::{lemma_run_covers, lemma_run_end, lemma_run_end_unique, run_end, scan_run, CharClass};

verus! {

/// The places at which a line divides into its fields. Each field reaches
/// from its start up to, and not including, its end; the timestamp starts the
/// line and the message ends it.
#[derive(Clone, Copy, Debug, PartialEq, Eq, Structural)]
pub struct LineSplit {
    pub stamp_end: usize,
    pub app_start: usize,
    pub app_end: usize,
    pub module_start: usize,
    pub module_end: usize,
    pub colon: usize,
    pub level_start: usize,
    pub level_end: usize,
    pub text_start: usize,
}

impl LineSplit {
    /// The timestamp, the application and the module lie where the split
    /// says: each is a non-empty stretch of its class, and white space, at
    /// least one character of it, parts the timestamp from the application
    /// and the application from the module.
    pub open spec fn head_fits(self, s: Seq<char>) -> bool {
        &&& 0 < self.stamp_end < self.app_start < self.app_end
        &&& self.app_end < self.module_start < self.module_end <= s.len()
        &&& CharClass::Stamp.fills(s, 0, self.stamp_end as int)
        &&& CharClass::Space.fills(s, self.stamp_end as int, self.app_start as int)
        &&& CharClass::Ident.fills(s, self.app_start as int, self.app_end as int)
        &&& CharClass::Space.fills(s, self.app_end as int, self.module_start as int)
        &&& CharClass::Ident.fills(s, self.module_start as int, self.module_end as int)
    }

    /// After the module come white space, if any, the colon, white space, if
    /// any, the level in upper case, white space, at least one character of
    /// it, and the message, which runs to the end of the line and holds no
    /// line feed.
    pub open spec fn tail_fits(self, s: Seq<char>) -> bool {
        &&& self.module_end <= self.colon < self.level_start
        &&& self.level_start < self.level_end < self.text_start <= s.len()
        &&& CharClass::Space.fills(s, self.module_end as int, self.colon as int)
        &&& s[self.colon as int] == ':'
        &&& CharClass::Space.fills(s, self.colon + 1, self.level_start as int)
        &&& CharClass::Upper.fills(s, self.level_start as int, self.level_end as int)
        &&& CharClass::Space.fills(s, self.level_end as int, self.text_start as int)
        &&& CharClass::Inline.fills(s, self.text_start as int, s.len() as int)
    }

    /// The line divides as the split says.
    pub open spec fn fits(self, s: Seq<char>) -> bool {
        self.head_fits(s) && self.tail_fits(s)
    }

    /// Whether this split is to be taken rather than `other`: the one with
    /// more white space before the message wins, so that the message does
    /// not begin with white space.
    pub open spec fn outranks(self, other: LineSplit) -> bool {
        self.text_start > other.text_start
    }

    /// No split that fits the line is to be taken rather than this one.
    pub open spec fn preferred(self, s: Seq<char>) -> bool {
        forall|q: LineSplit| #[trigger] q.fits(s) ==> !q.outranks(self)
    }

    /// The split of the line: it fits and is preferred.
    pub open spec fn divides(self, s: Seq<char>) -> bool {
        self.fits(s) && self.preferred(s)
    }
}

/// In a tail that fits, white space and level are runs; only the start of the
/// message may lie before the end of its white space.
pub proof fn lemma_tail_forced(s: Seq<char>, p: LineSplit)
    requires
        p.tail_fits(s),
    ensures
        p.colon == run_end(s, CharClass::Space, p.module_end as int),
        p.level_start == run_end(s, CharClass::Space, p.colon + 1),
        p.level_end == run_end(s, CharClass::Upper, p.level_start as int),
        p.text_start <= run_end(s, CharClass::Space, p.level_end as int),
        run_end(s, CharClass::Inline, p.text_start as int) == s.len(),
        p.module_end < s.len() && !CharClass::Ident.has(s[p.module_end as int]),
{
    lemma_run_end_unique(s, CharClass::Space, p.module_end as int, p.colon as int);
    assert(CharClass::Upper.has(s[p.level_start as int]));
    lemma_run_end_unique(s, CharClass::Space, p.colon + 1, p.level_start as int);
    assert(CharClass::Space.has(s[p.level_end as int]));
    lemma_run_end_unique(s, CharClass::Upper, p.level_start as int, p.level_end as int);
    lemma_run_covers(s, CharClass::Space, p.level_end as int, p.text_start as int);
    lemma_run_end_unique(s, CharClass::Inline, p.text_start as int, s.len() as int);
    if p.module_end < p.colon {
        assert(CharClass::Space.has(s[p.module_end as int]));
    }
}

/// In a split that fits, the timestamp, the application, the module and the
/// white space between them are runs.
pub proof fn lemma_fit_forced(s: Seq<char>, p: LineSplit)
    requires
        p.fits(s),
    ensures
        p.stamp_end == run_end(s, CharClass::Stamp, 0),
        p.app_start == run_end(s, CharClass::Space, p.stamp_end as int),
        p.app_end == run_end(s, CharClass::Ident, p.app_start as int),
        p.module_start == run_end(s, CharClass::Space, p.app_end as int),
        p.module_end == run_end(s, CharClass::Ident, p.module_start as int),
{
    lemma_tail_forced(s, p);
    assert(CharClass::Space.has(s[p.stamp_end as int]));
    lemma_run_end_unique(s, CharClass::Stamp, 0, p.stamp_end as int);
    assert(CharClass::Ident.has(s[p.app_start as int]));
    lemma_run_end_unique(s, CharClass::Space, p.stamp_end as int, p.app_start as int);
    assert(CharClass::Space.has(s[p.app_end as int]));
    lemma_run_end_unique(s, CharClass::Ident, p.app_start as int, p.app_end as int);
    assert(CharClass::Ident.has(s[p.module_start as int]));
    lemma_run_end_unique(s, CharClass::Space, p.app_end as int, p.module_start as int);
    lemma_run_end_unique(s, CharClass::Ident, p.module_start as int, p.module_end as int);
}

/// A line has one split at most.
pub proof fn lemma_split_unique(s: Seq<char>, p: LineSplit, q: LineSplit)
    requires
        p.divides(s),
        q.divides(s),
    ensures
        p == q,
{
    assert(!q.outranks(p));
    assert(!p.outranks(q));
    lemma_fit_forced(s, p);
    lemma_fit_forced(s, q);
    lemma_tail_forced(s, p);
    lemma_tail_forced(s, q);
}

/// Completes a split from the end of the module on.
fn split_tail(s: &[char], head: LineSplit) -> (r: Option<LineSplit>)
    requires
        head.module_end <= s.len(),
    ensures
        match r {
            Some(p) => {
                &&& p.tail_fits(s@)
                &&& p.stamp_end == head.stamp_end
                &&& p.app_start == head.app_start
                &&& p.app_end == head.app_end
                &&& p.module_start == head.module_start
                &&& p.module_end == head.module_end
                &&& forall|q: LineSplit| #[trigger]
                    q.tail_fits(s@) && q.module_end == head.module_end ==> q.text_start
                        <= p.text_start
            },
            None => forall|q: LineSplit| #[trigger]
                q.tail_fits(s@) ==> q.module_end != head.module_end,
        },
{
    proof {
        assert forall|q: LineSplit| #[trigger]
            q.tail_fits(s@) implies q.colon == run_end(
            s@,
            CharClass::Space,
            q.module_end as int,
        ) && q.level_start == run_end(s@, CharClass::Space, q.colon + 1) && q.level_end == run_end(
            s@,
            CharClass::Upper,
            q.level_start as int,
        ) && q.text_start <= run_end(s@, CharClass::Space, q.level_end as int) && run_end(
            s@,
            CharClass::Inline,
            q.text_start as int,
        ) == s@.len() by {
            lemma_tail_forced(s@, q);
        }
    }
    let colon: usize = scan_run(s, CharClass::Space, head.module_end);
    if colon >= s.len() || s[colon] != ':' {
        return None;
    }
    let level_start: usize = scan_run(s, CharClass::Space, colon + 1);
    let level_end: usize = scan_run(s, CharClass::Upper, level_start);
    if level_end == level_start {
        return None;
    }
    let text_start: usize = scan_run(s, CharClass::Space, level_end);
    if text_start == level_end {
        return None;
    }
    let line_end: usize = scan_run(s, CharClass::Inline, text_start);
    proof {
        lemma_run_end(s@, CharClass::Space, head.module_end as int);
        lemma_run_end(s@, CharClass::Space, colon + 1);
        lemma_run_end(s@, CharClass::Upper, level_start as int);
        lemma_run_end(s@, CharClass::Space, level_end as int);
        lemma_run_end(s@, CharClass::Inline, text_start as int);
    }
    if line_end < s.len() {
        proof {
            assert forall|q: LineSplit| #[trigger] q.tail_fits(s@) implies q.module_end
                != head.module_end by {
                if q.module_end == head.module_end {
                    assert(CharClass::Inline.has(s@[line_end as int]));
                }
            }
        }
        return None;
    }
    Some(
        LineSplit {
            stamp_end: head.stamp_end,
            app_start: head.app_start,
            app_end: head.app_end,
            module_start: head.module_start,
            module_end: head.module_end,
            colon,
            level_start,
            level_end,
            text_start,
        },
    )
}

/// Finds how a line divides into its fields, if it does.
pub fn split_line(s: &[char]) -> (r: Option<LineSplit>)
    ensures
        match r {
            Some(p) => p.divides(s@),
            None => forall|q: LineSplit| !#[trigger] q.fits(s@),
        },
{
    proof {
        assert forall|q: LineSplit| #[trigger] q.fits(s@) implies q.stamp_end == run_end(
            s@,
            CharClass::Stamp,
            0,
        ) && q.app_start == run_end(s@, CharClass::Space, q.stamp_end as int) && q.app_end
            == run_end(s@, CharClass::Ident, q.app_start as int) && q.module_start == run_end(
            s@,
            CharClass::Space,
            q.app_end as int,
        ) && q.module_end == run_end(s@, CharClass::Ident, q.module_start as int) by {
            lemma_fit_forced(s@, q);
        }
    }
    let stamp_end: usize = scan_run(s, CharClass::Stamp, 0);
    let app_start: usize = scan_run(s, CharClass::Space, stamp_end);
    let app_end: usize = scan_run(s, CharClass::Ident, app_start);
    let module_start: usize = scan_run(s, CharClass::Space, app_end);
    let module_end: usize = scan_run(s, CharClass::Ident, module_start);
    if stamp_end == 0 || app_start == stamp_end || app_end == app_start || module_start == app_end
        || module_end == module_start {
        return None;
    }
    proof {
        lemma_run_end(s@, CharClass::Stamp, 0);
        lemma_run_end(s@, CharClass::Space, stamp_end as int);
        lemma_run_end(s@, CharClass::Ident, app_start as int);
        lemma_run_end(s@, CharClass::Space, app_end as int);
        lemma_run_end(s@, CharClass::Ident, module_start as int);
    }
    let head = LineSplit {
        stamp_end,
        app_start,
        app_end,
        module_start,
        module_end,
        colon: 0,
        level_start: 0,
        level_end: 0,
        text_start: 0,
    };
    split_tail(s, head)
}

} // verus!
