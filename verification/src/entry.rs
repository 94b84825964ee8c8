//! Log entries: what a line of the log says once it is divided into fields
//! and its timestamp is read.

use vstd::prelude::*;
use vstd::string::StrSliceExecFns;
use crate::chars::{chars_of, is_space, lemma_part_fills, lemma_run_end_unique, CharClass};
use crate::line::{lemma_fit_forced, lemma_split_unique, lemma_tail_forced, split_line, LineSplit};
use crate::timestamp::{timestamp_of, Timestamp};

verus! {

/// The five fields of a line, as they are written.
#[derive(Debug)]
pub struct LineFields {
    pub stamp: String,
    pub app: String,
    pub module: String,
    pub level: String,
    pub text: String,
}

/// The five fields of a line as sequences of characters.
pub ghost struct FieldsView {
    pub stamp: Seq<char>,
    pub app: Seq<char>,
    pub module: Seq<char>,
    pub level: Seq<char>,
    pub text: Seq<char>,
}

impl View for LineFields {
    type V = FieldsView;

    open spec fn view(&self) -> FieldsView {
        FieldsView {
            stamp: self.stamp@,
            app: self.app@,
            module: self.module@,
            level: self.level@,
            text: self.text@,
        }
    }
}

/// One parsed line of the log.
#[derive(Clone, Debug)]
pub struct LogEntry {
    pub date: Timestamp,
    pub app: String,
    pub module: String,
    pub level: String,
    pub text: String,
}

/// A log entry with its texts as sequences of characters.
pub ghost struct EntryView {
    pub date: Timestamp,
    pub app: Seq<char>,
    pub module: Seq<char>,
    pub level: Seq<char>,
    pub text: Seq<char>,
}

impl View for LogEntry {
    type V = EntryView;

    open spec fn view(&self) -> EntryView {
        EntryView {
            date: self.date,
            app: self.app@,
            module: self.module@,
            level: self.level@,
            text: self.text@,
        }
    }
}

/// Whether the line has the shape of a log line.
pub open spec fn matches_line(line: Seq<char>) -> bool {
    exists|p: LineSplit| #[trigger] p.divides(line)
}

/// How a line of the shape of a log line divides.
pub open spec fn line_split(line: Seq<char>) -> LineSplit {
    choose|p: LineSplit| #[trigger] p.divides(line)
}

/// The fields that a split cuts out of a line.
pub open spec fn fields_at(line: Seq<char>, p: LineSplit) -> FieldsView {
    FieldsView {
        stamp: line.subrange(0, p.stamp_end as int),
        app: line.subrange(p.app_start as int, p.app_end as int),
        module: line.subrange(p.module_start as int, p.module_end as int),
        level: line.subrange(p.level_start as int, p.level_end as int),
        text: line.subrange(p.text_start as int, line.len() as int),
    }
}

/// The fields of a line, if it has the shape of a log line.
pub open spec fn fields_of(line: Seq<char>) -> Option<FieldsView> {
    if matches_line(line) {
        Some(fields_at(line, line_split(line)))
    } else {
        None
    }
}

/// The entry made of the fields of a line and the point in time that its
/// first field was read as, if it was read as one.
pub open spec fn entry_from(fields: FieldsView, date: Option<Timestamp>) -> Option<EntryView> {
    match date {
        Some(date) => Some(
            EntryView {
                date,
                app: fields.app,
                module: fields.module,
                level: fields.level,
                text: fields.text,
            },
        ),
        None => None,
    }
}

/// The entry that a line stands for: the line must have the shape of a log
/// line and its first field must be read as a timestamp.
pub open spec fn entry_of(line: Seq<char>) -> Option<EntryView> {
    match fields_of(line) {
        Some(fields) => entry_from(fields, timestamp_of(fields.stamp)),
        None => None,
    }
}

/// The characters of `log` from `from` up to `to` as a string of their own.
fn text_between(log: &str, from: usize, to: usize) -> (r: String)
    requires
        from <= to <= log@.len(),
    ensures
        r@ == log@.subrange(from as int, to as int),
{
    log.substring_char(from, to).to_owned()
}

impl LineFields {
    /// Divides a line into its five fields. Lines of any other shape give
    /// nothing.
    pub fn split(log: &str) -> (r: Option<LineFields>)
        ensures
            match r {
                Some(fields) => fields_of(log@) == Some(fields@),
                None => fields_of(log@) is None,
            },
    {
        let chars = chars_of(log);
        match split_line(chars.as_slice()) {
            Some(p) => {
                proof {
                    lemma_split_unique(log@, p, line_split(log@));
                }
                let end: usize = chars.len();
                Some(
                    LineFields {
                        stamp: text_between(log, 0, p.stamp_end),
                        app: text_between(log, p.app_start, p.app_end),
                        module: text_between(log, p.module_start, p.module_end),
                        level: text_between(log, p.level_start, p.level_end),
                        text: text_between(log, p.text_start, end),
                    },
                )
            },
            None => {
                proof {
                    assert forall|q: LineSplit| !#[trigger] q.divides(log@) by {
                        assert(!q.fits(log@));
                    }
                }
                None
            },
        }
    }
}

impl LogEntry {
    /// Parses one line of the log. A line that has not the shape of a log
    /// line, or whose first field is no timestamp, gives nothing.
    pub fn parse_str(log: &str) -> (r: Option<LogEntry>)
        ensures
            match r {
                Some(entry) => entry_of(log@) == Some(entry@),
                None => entry_of(log@) is None,
            },
    {
        match LineFields::split(log) {
            Some(fields) => {
                let date = Timestamp::parse(fields.stamp.as_str());
                LogEntry::from_fields(fields, date)
            },
            None => None,
        }
    }

    /// Makes the entry out of the fields of a line, given what its first
    /// field was read as.
    pub fn from_fields(fields: LineFields, date: Option<Timestamp>) -> (r: Option<LogEntry>)
        ensures
            match r {
                Some(entry) => entry_from(fields@, date) == Some(entry@),
                None => entry_from(fields@, date) is None,
            },
    {
        match date {
            Some(date) => Some(
                LogEntry {
                    date,
                    app: fields.app,
                    module: fields.module,
                    level: fields.level,
                    text: fields.text,
                },
            ),
            None => None,
        }
    }
}

/// The parts from which a log line is written: the five fields and the white
/// space around them.
pub ghost struct LineParts {
    pub stamp: Seq<char>,
    pub after_stamp: Seq<char>,
    pub app: Seq<char>,
    pub after_app: Seq<char>,
    pub module: Seq<char>,
    pub before_colon: Seq<char>,
    pub after_colon: Seq<char>,
    pub level: Seq<char>,
    pub before_text: Seq<char>,
    pub text: Seq<char>,
}

impl LineParts {
    /// The line that the parts make, with the colon between module and
    /// level.
    pub open spec fn written(self) -> Seq<char> {
        self.stamp + self.after_stamp + self.app + self.after_app + self.module
            + self.before_colon + seq![':'] + self.after_colon + self.level + self.before_text
            + self.text
    }

    /// Each field is of its class and, but for the message, not empty; the
    /// gaps hold white space only, and those after the timestamp, after the
    /// application and before the message are not empty; the message holds
    /// no line feed and does not begin with white space.
    pub open spec fn well_formed(self) -> bool {
        &&& self.stamp.len() > 0
        &&& CharClass::Stamp.has_all(self.stamp)
        &&& self.after_stamp.len() > 0
        &&& CharClass::Space.has_all(self.after_stamp)
        &&& self.app.len() > 0
        &&& CharClass::Ident.has_all(self.app)
        &&& self.after_app.len() > 0
        &&& CharClass::Space.has_all(self.after_app)
        &&& self.module.len() > 0
        &&& CharClass::Ident.has_all(self.module)
        &&& CharClass::Space.has_all(self.before_colon)
        &&& CharClass::Space.has_all(self.after_colon)
        &&& self.level.len() > 0
        &&& CharClass::Upper.has_all(self.level)
        &&& self.before_text.len() > 0
        &&& CharClass::Space.has_all(self.before_text)
        &&& CharClass::Inline.has_all(self.text)
        &&& self.text.len() > 0 ==> !is_space(self.text[0])
    }

    /// The five fields among the parts.
    pub open spec fn fields(self) -> FieldsView {
        FieldsView {
            stamp: self.stamp,
            app: self.app,
            module: self.module,
            level: self.level,
            text: self.text,
        }
    }
}

/// Nothing is parsed out of a line that lacks a field: in every entry the
/// application, the module and the level are not empty and of their classes,
/// the message holds no line feed, and the first field, not empty and of its
/// class, was read as the timestamp of the entry. White space stands in the
/// line behind the timestamp and behind the application.
pub proof fn lemma_entry_has_its_fields(line: Seq<char>)
    ensures
        match entry_of(line) {
            Some(entry) => {
                &&& fields_of(line) matches Some(fields)
                &&& line_split(line).stamp_end < line_split(line).app_start
                &&& CharClass::Space.fills(
                    line,
                    line_split(line).stamp_end as int,
                    line_split(line).app_start as int,
                )
                &&& line_split(line).app_end < line_split(line).module_start
                &&& CharClass::Space.fills(
                    line,
                    line_split(line).app_end as int,
                    line_split(line).module_start as int,
                )
                &&& fields.stamp.len() > 0
                &&& CharClass::Stamp.has_all(fields.stamp)
                &&& timestamp_of(fields.stamp) == Some(entry.date)
                &&& entry.app.len() > 0
                &&& CharClass::Ident.has_all(entry.app)
                &&& entry.module.len() > 0
                &&& CharClass::Ident.has_all(entry.module)
                &&& entry.level.len() > 0
                &&& CharClass::Upper.has_all(entry.level)
                &&& CharClass::Inline.has_all(entry.text)
            },
            None => fields_of(line) matches Some(fields) ==> timestamp_of(fields.stamp) is None,
        },
{
    if matches_line(line) {
        let p = line_split(line);
        assert(p.fits(line));
    }
}

/// The parts into which a split takes a line: the five fields and the white
/// space around them.
pub open spec fn parts_at(line: Seq<char>, p: LineSplit) -> LineParts {
    LineParts {
        stamp: line.subrange(0, p.stamp_end as int),
        after_stamp: line.subrange(p.stamp_end as int, p.app_start as int),
        app: line.subrange(p.app_start as int, p.app_end as int),
        after_app: line.subrange(p.app_end as int, p.module_start as int),
        module: line.subrange(p.module_start as int, p.module_end as int),
        before_colon: line.subrange(p.module_end as int, p.colon as int),
        after_colon: line.subrange(p.colon + 1, p.level_start as int),
        level: line.subrange(p.level_start as int, p.level_end as int),
        before_text: line.subrange(p.level_end as int, p.text_start as int),
        text: line.subrange(p.text_start as int, line.len() as int),
    }
}

/// Only what is written as a log line is parsed: a line that divides into
/// fields is the line written from well-formed parts, namely those into
/// which its split takes it, and its fields are the fields among them.
pub proof fn lemma_parsed_line_is_well_formed(line: Seq<char>)
    requires
        matches_line(line),
        line.len() <= usize::MAX,
    ensures
        parts_at(line, line_split(line)).well_formed(),
        parts_at(line, line_split(line)).written() == line,
        fields_of(line) == Some(parts_at(line, line_split(line)).fields()),
{
    let p = line_split(line);
    let parts = parts_at(line, p);
    assert(p.fits(line));
    assert(parts.written() =~= line);
    if parts.text.len() > 0 && is_space(parts.text[0]) {
        let later = LineSplit { text_start: (p.text_start + 1) as usize, ..p };
        assert(parts.text[0] == line[p.text_start as int]);
        assert(CharClass::Space.has(line[p.text_start as int]));
        assert(later.fits(line));
        assert(later.outranks(p));
    }
}

/// A line has the shape of a log line exactly if it is written from
/// well-formed parts.
pub proof fn lemma_shape_is_well_formedness(line: Seq<char>)
    requires
        line.len() <= usize::MAX,
    ensures
        matches_line(line) <==> exists|parts: LineParts|
            parts.well_formed() && #[trigger] parts.written() == line,
{
    if matches_line(line) {
        lemma_parsed_line_is_well_formed(line);
        let parts = parts_at(line, line_split(line));
        assert(parts.well_formed() && parts.written() == line);
    }
    if exists|parts: LineParts| parts.well_formed() && #[trigger] parts.written() == line {
        let parts = choose|parts: LineParts| parts.well_formed() && #[trigger] parts.written() == line;
        lemma_parse_recovers_fields(parts);
    }
}

/// Parsing gives back what was written: a line written from well-formed
/// parts divides into exactly the five fields among them, and it stands for
/// the entry of those fields, or for none where the first field is not read
/// as a timestamp.
pub proof fn lemma_parse_recovers_fields(parts: LineParts)
    requires
        parts.well_formed(),
        parts.written().len() <= usize::MAX,
    ensures
        fields_of(parts.written()) == Some(parts.fields()),
        entry_of(parts.written()) == entry_from(parts.fields(), timestamp_of(parts.stamp)),
{
    let s = parts.written();
    let o1 = parts.stamp.len() as int;
    let o2 = o1 + parts.after_stamp.len();
    let o3 = o2 + parts.app.len();
    let o4 = o3 + parts.after_app.len();
    let o5 = o4 + parts.module.len();
    let o6 = o5 + parts.before_colon.len();
    let o7 = o6 + 1 + parts.after_colon.len();
    let o8 = o7 + parts.level.len();
    let o9 = o8 + parts.before_text.len();
    assert(s.len() == o9 + parts.text.len());
    let p = LineSplit {
        stamp_end: o1 as usize,
        app_start: o2 as usize,
        app_end: o3 as usize,
        module_start: o4 as usize,
        module_end: o5 as usize,
        colon: o6 as usize,
        level_start: o7 as usize,
        level_end: o8 as usize,
        text_start: o9 as usize,
    };
    assert(s.subrange(0, o1) =~= parts.stamp);
    assert(s.subrange(o1, o2) =~= parts.after_stamp);
    assert(s.subrange(o2, o3) =~= parts.app);
    assert(s.subrange(o3, o4) =~= parts.after_app);
    assert(s.subrange(o4, o5) =~= parts.module);
    assert(s.subrange(o5, o6) =~= parts.before_colon);
    assert(s[o6] == ':');
    assert(s.subrange(o6 + 1, o7) =~= parts.after_colon);
    assert(s.subrange(o7, o8) =~= parts.level);
    assert(s.subrange(o8, o9) =~= parts.before_text);
    assert(s.subrange(o9, s.len() as int) =~= parts.text);
    lemma_part_fills(s, 0, parts.stamp, CharClass::Stamp);
    lemma_part_fills(s, o1, parts.after_stamp, CharClass::Space);
    lemma_part_fills(s, o2, parts.app, CharClass::Ident);
    lemma_part_fills(s, o3, parts.after_app, CharClass::Space);
    lemma_part_fills(s, o4, parts.module, CharClass::Ident);
    lemma_part_fills(s, o5, parts.before_colon, CharClass::Space);
    lemma_part_fills(s, o6 + 1, parts.after_colon, CharClass::Space);
    lemma_part_fills(s, o7, parts.level, CharClass::Upper);
    lemma_part_fills(s, o8, parts.before_text, CharClass::Space);
    lemma_part_fills(s, o9, parts.text, CharClass::Inline);
    assert(p.fits(s));
    lemma_fit_forced(s, p);
    lemma_tail_forced(s, p);
    if parts.text.len() > 0 {
        assert(s[o9] == parts.text[0]);
    }
    lemma_run_end_unique(s, CharClass::Space, o8, o9);
    assert forall|q: LineSplit| #[trigger] q.fits(s) implies !q.outranks(p) by {
        lemma_fit_forced(s, q);
        lemma_tail_forced(s, q);
    }
    assert(p.divides(s));
    lemma_split_unique(s, p, line_split(s));
    assert(fields_at(s, p) == parts.fields());
}

} // verus!
