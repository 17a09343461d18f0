//! The box data model: a named, file-backed container of task records,
//! with add / list / mark / purge, the flattened "todos with warnings"
//! view, and the move engine that transfers open tasks between boxes.
//!
//! A box binds a name to a parsed record sequence. The backing document's
//! text comes in through [`TaskBox::load`] and goes out through
//! [`TaskBox::dump`]; reading and writing the file itself is the caller's
//! business, as is any at-rest encryption of the same text.

use vstd::prelude::*;
use crate::cli::Routine;
use crate::codec::{
    begins_with, parse, parse_doc, recs, serialize, serialize_doc, str_eq, strs, trim_end_chars,
    trim_start_chars, Level, Rec, TaskRecord,
};
use crate::date::{date_chars, date_lt, format_date, parse_date, parse_date_chars, valid_date, Date};
use crate::clock::{tomorrow_date, tomorrow_of, yesterday_date, yesterday_of, weekday_from_date};
use crate::routine::{
    build_checkout, build_datestamp, build_routine_def, checkout_chars, contains_checkout_marker,
    datestamp_chars, find_header, find_routine_header, has_checkout_marker, routine_code,
    routine_def_chars, spec_fires, fires,
};

verus! {

/// The relative meaning of a box's name, cached at load time.
#[derive(Clone, Copy, Debug, PartialEq, Eq, Structural)]
pub enum Alias {
    Today,
    Tomorrow,
    Yesterday,
}

/// One named container of task records.
pub struct TaskBox {
    /// The backing file's base name: the box's identity.
    pub name: String,
    /// What the name means relative to the date it was loaded on; `None`
    /// for boxes not named after a nearby date, and before loading.
    pub alias: Option<Alias>,
    /// The ordered record sequence.
    pub records: Vec<TaskRecord>,
    /// An optional subset of literal record texts restricting which open
    /// records a move may act on; an explicitly empty selection makes the
    /// move a deliberate no-op.
    pub selected: Option<Vec<String>>,
    /// Whether the backing document is kept in the encrypted at-rest form.
    pub encrypted: bool,
    /// Whether the in-memory records mirror the backing document.
    pub loaded: bool,
}

/// What a box name means relative to a date.
pub open spec fn alias_of(name: Seq<char>, today: Date) -> Option<Alias> {
    if name == date_chars(today) {
        Some(Alias::Today)
    } else if name == date_chars(tomorrow_of(today)) {
        Some(Alias::Tomorrow)
    } else if name == date_chars(yesterday_of(today)) {
        Some(Alias::Yesterday)
    } else {
        None
    }
}

/// The selection's mathematical value.
pub open spec fn sel_view(s: Option<Vec<String>>) -> Option<Seq<Seq<char>>> {
    match s {
        Some(v) => Some(strs(v@)),
        None => None,
    }
}

/// The flat marker that puts a sub record's text beneath its major in the
/// flattened views.
pub open spec fn sub_marker() -> Seq<char> {
    seq![' ', '\u{f17a9}', ' ']
}

/// The icon that opens a synthetic warning item.
pub open spec fn warn_icon() -> char {
    '\u{f0f08}'
}

/// A record's text as the flattened views carry it: sub records wear the
/// sub marker.
pub open spec fn flat_text(r: Rec) -> Seq<char> {
    if r.level == Level::Sub {
        sub_marker() + r.text
    } else {
        r.text
    }
}

/// The synthetic warning item for a completed major with an open sub.
pub open spec fn warn_text(major: Seq<char>) -> Seq<char> {
    seq![warn_icon(), ' '] + major
}

/// The flattened walk from record `i` on, given the most recently seen
/// major record: every open record's flat text lands in the first list
/// and every done record's in the second, and an open sub under a major
/// already marked done inserts a warning item first (one per major).
pub open spec fn todos_from(rs: Seq<Rec>, i: int, last: Option<(Seq<char>, bool)>) -> (
    Seq<Seq<char>>,
    Seq<Seq<char>>,
)
    decreases rs.len() - i,
{
    if i < 0 || i >= rs.len() {
        (Seq::empty(), Seq::empty())
    } else {
        let r = rs[i];
        if begins_with(flat_text(r), sub_marker()) {
            let emit = match last {
                Some((t, done)) => done && !r.completed,
                None => false,
            };
            let last2: Option<(Seq<char>, bool)> = if emit {
                None
            } else {
                last
            };
            let rest = todos_from(rs, i + 1, last2);
            let own_open: Seq<Seq<char>> = if !r.completed {
                seq![flat_text(r)]
            } else {
                Seq::empty()
            };
            let warn: Seq<Seq<char>> = if emit {
                seq![warn_text((last->0).0)]
            } else {
                Seq::empty()
            };
            let own_done: Seq<Seq<char>> = if r.completed {
                seq![flat_text(r)]
            } else {
                Seq::empty()
            };
            (warn + own_open + rest.0, own_done + rest.1)
        } else {
            let rest = todos_from(rs, i + 1, Some((flat_text(r), r.completed)));
            if !r.completed {
                (seq![flat_text(r)] + rest.0, rest.1)
            } else {
                (rest.0, seq![flat_text(r)] + rest.1)
            }
        }
    }
}

/// The flattened open and done views of a record sequence.
pub open spec fn todos_of(rs: Seq<Rec>) -> (Seq<Seq<char>>, Seq<Seq<char>>) {
    todos_from(rs, 0, None)
}

/// A record's flat text, as an owned string.
pub fn flat_of(r: &TaskRecord) -> (s: String)
    ensures
        s@ == flat_text(r@),
{
    proof {
        reveal_strlit(" \u{f17a9} ");
    }
    if r.level == Level::Sub {
        let mut s = String::new();
        s.append(" \u{f17a9} ");
        s.append(r.text.as_str());
        proof {
            assert(s@ =~= flat_text(r@));
        }
        s
    } else {
        r.text.clone()
    }
}

fn is_sub_flat(r: &TaskRecord) -> (b: bool)
    ensures
        b == begins_with(flat_text(r@), sub_marker()),
{
    if r.level == Level::Sub {
        proof {
            assert(flat_text(r@)[0] == ' ');
            assert(flat_text(r@)[1] == '\u{f17a9}');
            assert(flat_text(r@)[2] == ' ');
        }
        true
    } else {
        let n = r.text.unicode_len();
        let b = n >= 3 && r.text.as_str().get_char(0) == ' ' && r.text.as_str().get_char(1)
            == '\u{f17a9}' && r.text.as_str().get_char(2) == ' ';
        proof {
            if b {
                assert(begins_with(flat_text(r@), sub_marker()));
            } else {
                assert(!begins_with(flat_text(r@), sub_marker()));
            }
        }
        b
    }
}

impl TaskBox {
    /// A box bound to a name, not yet loaded.
    pub fn new(name: String, encrypted: bool) -> (b: TaskBox)
        ensures
            b.name == name,
            b.alias is None,
            b.records@.len() == 0,
            b.selected is None,
            b.encrypted == encrypted,
            !b.loaded,
    {
        TaskBox {
            name,
            alias: None,
            records: Vec::new(),
            selected: None,
            encrypted,
            loaded: false,
        }
    }

    /// Parses the backing document's text into the box. Loading an
    /// already-loaded box is a no-op: the text is not even looked at, and
    /// nothing changes.
    pub fn load(&mut self, text: &str, today: &Date)
        requires
            valid_date(*today),
        ensures
            old(self).loaded ==> *final(self) == *old(self),
            !old(self).loaded ==> {
                &&& final(self).loaded
                &&& recs(final(self).records@) == parse_doc(text@).1
                &&& final(self).alias == alias_of(old(self).name@, *today)
                &&& final(self).name == old(self).name
                &&& final(self).selected == old(self).selected
                &&& final(self).encrypted == old(self).encrypted
            },
    {
        if self.loaded {
            return ;
        }
        let (_title, records) = parse(text);
        self.records = records;
        let today_s = format_date(today);
        let tomorrow_s = format_date(&tomorrow_date(today));
        let yesterday_d = yesterday_date(today);
        let yesterday_s = format_date(&yesterday_d);
        self.alias = if str_eq(self.name.as_str(), today_s.as_str()) {
            Some(Alias::Today)
        } else if str_eq(self.name.as_str(), tomorrow_s.as_str()) {
            Some(Alias::Tomorrow)
        } else if str_eq(self.name.as_str(), yesterday_s.as_str()) {
            Some(Alias::Yesterday)
        } else {
            None
        };
        self.loaded = true;
    }

    /// Serializes the box back into document text, regenerating the title
    /// from the box name. The load marker is cleared: serialization may
    /// alter literal text, so the in-memory cache is no longer trusted
    /// and the next access must re-parse.
    pub fn dump(&mut self) -> (text: String)
        ensures
            text@ == serialize_doc(old(self).name@, recs(old(self).records@)),
            final(self).name == old(self).name,
            final(self).records == old(self).records,
            final(self).selected == old(self).selected,
            final(self).encrypted == old(self).encrypted,
            final(self).alias is None,
            !final(self).loaded,
    {
        let text = serialize(self.name.as_str(), &self.records);
        self.alias = None;
        self.loaded = false;
        text
    }

    /// The number of open records.
    pub fn count(&self) -> (n: usize)
        requires
            self.loaded,
        ensures
            n == count_open(recs(self.records@), 0),
    {
        let mut n: usize = 0;
        let mut i: usize = 0;
        while i < self.records.len()
            invariant
                i <= self.records@.len(),
                n <= i,
                count_open(recs(self.records@), 0) == n + count_open(
                    recs(self.records@),
                    i as int,
                ),
            decreases self.records@.len() - i,
        {
            proof {
                assert(recs(self.records@)[i as int] == self.records@[i as int]@);
            }
            if !self.records[i].completed {
                n = n + 1;
            }
            i = i + 1;
        }
        n
    }

    /// The flattened open and done views, with synthetic warnings: every
    /// record's own text is classified by its own flag, and an open sub
    /// whose major is already done inserts a warning item into the open
    /// list.
    pub fn get_all_todos(&self) -> (r: (Vec<String>, Vec<String>))
        requires
            self.loaded,
        ensures
            strs(r.0@) == todos_of(recs(self.records@)).0,
            strs(r.1@) == todos_of(recs(self.records@)).1,
    {
        proof {
            reveal_strlit(" ");
        }
        let ghost rs = recs(self.records@);
        let mut tasks: Vec<String> = Vec::new();
        let mut dones: Vec<String> = Vec::new();
        let mut last_major: Option<(String, bool)> = None;
        let mut i: usize = 0;
        while i < self.records.len()
            invariant
                i <= self.records@.len(),
                rs == recs(self.records@),
                todos_of(rs).0 =~~= strs(tasks@) + todos_from(rs, i as int, lm_view(last_major)).0,
                todos_of(rs).1 =~~= strs(dones@) + todos_from(rs, i as int, lm_view(last_major)).1,
            decreases self.records@.len() - i,
        {
            proof {
                assert(rs[i as int] == self.records@[i as int]@);
            }
            let r = &self.records[i];
            let ghost prev_tasks = strs(tasks@);
            let ghost prev_dones = strs(dones@);
            let ghost lm0 = lm_view(last_major);
            if is_sub_flat(r) {
                let mut emitted = false;
                match &last_major {
                    Some((t, done)) => {
                        if *done && !r.completed {
                            let mut w = String::new();
                            let warn_s = warn_str();
                            w.append(warn_s);
                            w.append(" ");
                            w.append(t.as_str());
                            proof {
                                reveal_strlit(" ");
                                assert(w@ =~= warn_text((lm0->0).0));
                            }
                            tasks.push(w);
                            emitted = true;
                        }
                    },
                    None => {},
                }
                if emitted {
                    last_major = None;
                }
                let f = flat_of(r);
                if !r.completed {
                    tasks.push(f);
                } else {
                    dones.push(f);
                }
                proof {
                    if emitted {
                        if !rs[i as int].completed {
                            assert(strs(tasks@) =~~= prev_tasks + seq![
                                warn_text((lm0->0).0),
                            ] + seq![flat_text(rs[i as int])]);
                        } else {
                            assert(strs(tasks@) =~~= prev_tasks + seq![
                                warn_text((lm0->0).0),
                            ]);
                            assert(strs(dones@) =~~= prev_dones + seq![flat_text(rs[i as int])]);
                        }
                    } else {
                        if !rs[i as int].completed {
                            assert(strs(tasks@) =~~= prev_tasks + seq![flat_text(rs[i as int])]);
                        } else {
                            assert(strs(dones@) =~~= prev_dones + seq![flat_text(rs[i as int])]);
                        }
                    }
                }
            } else {
                last_major = Some((r.text.clone(), r.completed));
                let f = flat_of(r);
                if !r.completed {
                    tasks.push(f);
                    proof {
                        assert(strs(tasks@) =~~= prev_tasks + seq![flat_text(rs[i as int])]);
                    }
                } else {
                    dones.push(f);
                    proof {
                        assert(strs(dones@) =~~= prev_dones + seq![flat_text(rs[i as int])]);
                    }
                }
            }
            i = i + 1;
        }
        (tasks, dones)
    }
}

/// A fresh open major record appended at the end, unless some record
/// already carries the identical text.
pub open spec fn addone_spec(rs: Seq<Rec>, t: Seq<char>) -> Seq<Rec> {
    if exists|j: int| 0 <= j < rs.len() && rs[j].text == t {
        rs
    } else {
        rs.push(Rec { text: t, completed: false, level: Level::Major })
    }
}

/// Texts folded in one after another through `addone_spec`.
pub open spec fn add_tasks_spec(rs: Seq<Rec>, ts: Seq<Seq<char>>, i: int) -> Seq<Rec>
    decreases ts.len() - i,
{
    if i < 0 || i >= ts.len() {
        rs
    } else {
        add_tasks_spec(addone_spec(rs, ts[i]), ts, i + 1)
    }
}

/// The stored text `add` builds: a routine definition header for routine
/// tasks, a date annotation when a stamp is asked for, the text alone
/// otherwise.
pub open spec fn add_text_spec(
    what: Seq<char>,
    routine: Option<Routine>,
    add_date: bool,
    start: Seq<char>,
    today: Date,
) -> Seq<char> {
    match routine {
        Some(k) => {
            let www: Seq<char> = if start.len() == 0 {
                Seq::empty()
            } else {
                crate::date::weekday_chars(parse_date_chars(start)->0)
            };
            routine_def_chars(k, start, www, what)
        },
        None => if add_date {
            datestamp_chars(what, date_chars(today))
        } else {
            what
        },
    }
}

/// Marking: an open record whose flat text is selected turns done; with
/// `delete`, such records are removed outright instead.
pub open spec fn mark_spec(rs: Seq<Rec>, items: Seq<Seq<char>>, delete: bool, i: int) -> Seq<Rec>
    decreases rs.len() - i,
{
    if i < 0 || i >= rs.len() {
        Seq::empty()
    } else {
        let r = rs[i];
        let hit = !r.completed && items.contains(flat_text(r));
        let rest = mark_spec(rs, items, delete, i + 1);
        if hit {
            if delete {
                rest
            } else {
                seq![Rec { text: r.text, completed: true, level: r.level }] + rest
            }
        } else {
            seq![r] + rest
        }
    }
}

/// A text trimmed of blanks at both ends, as the dedup pass compares.
pub open spec fn trim_chars(s: Seq<char>) -> Seq<char> {
    trim_start_chars(trim_end_chars(s))
}

/// Dedup pass one: keep the first occurrence of each trimmed text, major
/// and sub records sharing one namespace; kept records carry the trimmed
/// text.
pub open spec fn purge_pass1(rs: Seq<Rec>, i: int, seen: Seq<Seq<char>>) -> Seq<Rec>
    decreases rs.len() - i,
{
    if i < 0 || i >= rs.len() {
        Seq::empty()
    } else {
        let r = rs[i];
        let t = trim_chars(r.text);
        if seen.contains(t) {
            purge_pass1(rs, i + 1, seen)
        } else {
            seq![Rec { text: t, completed: r.completed, level: r.level }] + purge_pass1(
                rs,
                i + 1,
                seen.push(t),
            )
        }
    }
}

/// Whether the original sequence held an open record with this trimmed
/// text.
pub open spec fn has_open_trim(rs: Seq<Rec>, t: Seq<char>) -> bool {
    exists|j: int| 0 <= j < rs.len() && trim_chars(rs[j].text) == t && !rs[j].completed
}

/// Dedup pass two: open dominates done when duplicates merge — a kept
/// record turns open if any original duplicate was open.
pub open spec fn purge_pass2(ks: Seq<Rec>, orig: Seq<Rec>, i: int) -> Seq<Rec>
    decreases ks.len() - i,
{
    if i < 0 || i >= ks.len() {
        Seq::empty()
    } else {
        let r = ks[i];
        let r2 = if r.completed && has_open_trim(orig, r.text) {
            Rec { text: r.text, completed: false, level: r.level }
        } else {
            r
        };
        seq![r2] + purge_pass2(ks, orig, i + 1)
    }
}

pub open spec fn sel_flag(rs: Seq<Rec>, i: int, completed: bool) -> Seq<Rec>
    decreases rs.len() - i,
{
    if i < 0 || i >= rs.len() {
        Seq::empty()
    } else if rs[i].completed == completed {
        seq![rs[i]] + sel_flag(rs, i + 1, completed)
    } else {
        sel_flag(rs, i + 1, completed)
    }
}

/// The whole purge: collapse duplicates, let open dominate, and with
/// `sort` stable-partition completed records before open ones.
pub open spec fn purge_spec(rs: Seq<Rec>, sort: bool) -> Seq<Rec> {
    let k1 = purge_pass1(rs, 0, Seq::empty());
    let k2 = purge_pass2(k1, rs, 0);
    if sort {
        sel_flag(k2, 0, true) + sel_flag(k2, 0, false)
    } else {
        k2
    }
}

/// What `import` takes from free-form markdown text: each line, trimmed,
/// that is an open checkbox at any indentation contributes its text —
/// routine definitions to the second list, everything else to the first.
pub open spec fn import_spec(lines: Seq<Seq<char>>, i: int) -> (Seq<Seq<char>>, Seq<Seq<char>>)
    decreases lines.len() - i,
{
    if i < 0 || i >= lines.len() {
        (Seq::empty(), Seq::empty())
    } else {
        let l = trim_chars(lines[i]);
        let rest = import_spec(lines, i + 1);
        if begins_with(l, crate::codec::open_prefix()) {
            let stripped = l.subrange(6, l.len() as int);
            if find_header(stripped) is Some {
                (rest.0, seq![stripped] + rest.1)
            } else {
                (seq![stripped] + rest.0, rest.1)
            }
        } else {
            rest
        }
    }
}

fn record_copy(r: &TaskRecord) -> (c: TaskRecord)
    ensures
        c@ == r@,
{
    TaskRecord { text: r.text.clone(), completed: r.completed, level: r.level }
}

fn contains_text(v: &Vec<TaskRecord>, t: &str) -> (r: bool)
    ensures
        r == exists|j: int| 0 <= j < v@.len() && recs(v@)[j].text == t@,
{
    let mut i: usize = 0;
    while i < v.len()
        invariant
            i <= v@.len(),
            forall|j: int| 0 <= j < i ==> v@[j]@.text != t@,
        decreases v@.len() - i,
    {
        if str_eq(v[i].text.as_str(), t) {
            proof {
                assert(recs(v@)[i as int].text == t@);
            }
            return true;
        }
        i = i + 1;
    }
    proof {
        assert(forall|j: int| 0 <= j < v@.len() ==> recs(v@)[j] == #[trigger] v@[j]@);
    }
    false
}

fn trim_str<'a>(s: &'a str) -> (r: &'a str)
    ensures
        r@ == trim_chars(s@),
{
    crate::codec::trim_start_str(crate::codec::trim_end_str(s))
}

fn has_open_trim_ex(v: &Vec<TaskRecord>, t: &str) -> (r: bool)
    ensures
        r == has_open_trim(recs(v@), t@),
{
    let mut i: usize = 0;
    while i < v.len()
        invariant
            i <= v@.len(),
            forall|j: int|
                0 <= j < i ==> !(trim_chars(v@[j]@.text) == t@ && !v@[j]@.completed),
        decreases v@.len() - i,
    {
        if !v[i].completed && str_eq(trim_str(v[i].text.as_str()), t) {
            proof {
                assert(trim_chars(recs(v@)[i as int].text) == t@ && !recs(v@)[i as int].completed);
            }
            return true;
        }
        i = i + 1;
    }
    proof {
        assert(forall|j: int| 0 <= j < v@.len() ==> recs(v@)[j] == #[trigger] v@[j]@);
        assert(!has_open_trim(recs(v@), t@));
    }
    false
}

impl TaskBox {
    fn addone(&mut self, task: String)
        requires
            old(self).loaded,
        ensures
            recs(final(self).records@) == addone_spec(recs(old(self).records@), task@),
            final(self).name == old(self).name,
            final(self).alias == old(self).alias,
            final(self).selected == old(self).selected,
            final(self).encrypted == old(self).encrypted,
            final(self).loaded,
    {
        let ghost rs = recs(self.records@);
        if !contains_text(&self.records, task.as_str()) {
            let ghost tv = task@;
            self.records.push(TaskRecord { text: task, completed: false, level: Level::Major });
            proof {
                assert(recs(self.records@) =~~= rs.push(
                    Rec { text: tv, completed: false, level: Level::Major },
                ));
            }
        }
    }

    /// Appends each text as a fresh open major record, skipping texts the
    /// box already holds.
    pub fn add_tasks(&mut self, tasks: Vec<String>)
        requires
            old(self).loaded,
        ensures
            recs(final(self).records@) == add_tasks_spec(
                recs(old(self).records@),
                strs(tasks@),
                0,
            ),
            final(self).name == old(self).name,
            final(self).alias == old(self).alias,
            final(self).selected == old(self).selected,
            final(self).encrypted == old(self).encrypted,
            final(self).loaded,
    {
        let ghost ts = strs(tasks@);
        let ghost rs0 = recs(self.records@);
        let mut i: usize = 0;
        while i < tasks.len()
            invariant
                i <= tasks@.len(),
                ts == strs(tasks@),
                self.loaded,
                self.name == old(self).name,
                self.alias == old(self).alias,
                self.selected == old(self).selected,
                self.encrypted == old(self).encrypted,
                add_tasks_spec(rs0, ts, 0) == add_tasks_spec(recs(self.records@), ts, i as int),
            decreases tasks@.len() - i,
        {
            proof {
                assert(ts[i as int] == tasks@[i as int]@);
            }
            self.addone(tasks[i].clone());
            i = i + 1;
        }
    }

    /// Builds the stored text — routine header, date annotation, or the
    /// text alone — and appends it as a fresh open major record.
    pub fn add(
        &mut self,
        what: String,
        routine: Option<Routine>,
        add_date: bool,
        start_date: &str,
        today: &Date,
    )
        requires
            old(self).loaded,
            valid_date(*today),
            routine is Some ==> start_date@.len() == 0 || parse_date_chars(start_date@) is Some,
        ensures
            recs(final(self).records@) == addone_spec(
                recs(old(self).records@),
                add_text_spec(what@, routine, add_date, start_date@, *today),
            ),
            final(self).name == old(self).name,
            final(self).alias == old(self).alias,
            final(self).selected == old(self).selected,
            final(self).encrypted == old(self).encrypted,
            final(self).loaded,
    {
        let task: String = match routine {
            Some(kind) => {
                let www = weekday_from_date(start_date);
                build_routine_def(kind, start_date, www.as_str(), what.as_str())
            },
            None => {
                if add_date {
                    let ds = format_date(today);
                    build_datestamp(what.as_str(), ds.as_str())
                } else {
                    what
                }
            },
        };
        self.addone(task);
    }

    /// Turns selected open records done; with `delete`, removes them
    /// outright instead. Other records are untouched.
    pub fn mark(&mut self, items: Vec<String>, delete: bool)
        requires
            old(self).loaded,
        ensures
            recs(final(self).records@) == mark_spec(
                recs(old(self).records@),
                strs(items@),
                delete,
                0,
            ),
            final(self).name == old(self).name,
            final(self).alias == old(self).alias,
            final(self).selected == old(self).selected,
            final(self).encrypted == old(self).encrypted,
            final(self).loaded,
    {
        let ghost rs = recs(self.records@);
        let ghost its = strs(items@);
        let mut out: Vec<TaskRecord> = Vec::new();
        let mut i: usize = 0;
        while i < self.records.len()
            invariant
                i <= self.records@.len(),
                rs == recs(self.records@),
                its == strs(items@),
                mark_spec(rs, its, delete, 0) =~~= recs(out@) + mark_spec(
                    rs,
                    its,
                    delete,
                    i as int,
                ),
            decreases self.records@.len() - i,
        {
            proof {
                assert(rs[i as int] == self.records@[i as int]@);
            }
            let r = &self.records[i];
            let ghost prev = recs(out@);
            let flat = flat_of(r);
            let hit = !r.completed && crate::codec::contains_str(&items, &flat);
            if hit {
                if !delete {
                    out.push(
                        TaskRecord { text: r.text.clone(), completed: true, level: r.level },
                    );
                    proof {
                        let ghost rr = rs[i as int];
                        assert(recs(out@) =~~= prev + seq![
                            Rec { text: rr.text, completed: true, level: rr.level },
                        ]);
                    }
                }
            } else {
                out.push(record_copy(r));
                proof {
                    assert(recs(out@) =~~= prev + seq![rs[i as int]]);
                }
            }
            i = i + 1;
        }
        self.records = out;
    }

    /// Collapses duplicate texts, keeping first occurrences, letting open
    /// dominate done among merged duplicates, and — if asked — ordering
    /// completed records before open ones without disturbing the order
    /// within each group.
    pub fn purge(&mut self, sort: bool)
        requires
            old(self).loaded,
        ensures
            recs(final(self).records@) == purge_spec(recs(old(self).records@), sort),
            final(self).name == old(self).name,
            final(self).alias == old(self).alias,
            final(self).selected == old(self).selected,
            final(self).encrypted == old(self).encrypted,
            final(self).loaded,
    {
        let ghost rs = recs(self.records@);
        // Pass one: drop duplicates.
        let mut kept: Vec<TaskRecord> = Vec::new();
        let mut seen: Vec<String> = Vec::new();
        let mut i: usize = 0;
        proof {
            assert(strs(seen@) =~~= Seq::empty());
            assert(recs(kept@) =~~= Seq::empty());
        }
        while i < self.records.len()
            invariant
                i <= self.records@.len(),
                rs == recs(self.records@),
                purge_pass1(rs, 0, Seq::empty()) =~~= recs(kept@) + purge_pass1(
                    rs,
                    i as int,
                    strs(seen@),
                ),
            decreases self.records@.len() - i,
        {
            proof {
                assert(rs[i as int] == self.records@[i as int]@);
            }
            let r = &self.records[i];
            let tname = trim_str(r.text.as_str()).to_owned();
            let ghost prev_kept = recs(kept@);
            let ghost prev_seen = strs(seen@);
            if !crate::codec::contains_str(&seen, &tname) {
                let ghost tv = tname@;
                kept.push(
                    TaskRecord { text: tname.clone(), completed: r.completed, level: r.level },
                );
                seen.push(tname);
                proof {
                    assert(strs(seen@) =~~= prev_seen.push(tv));
                    let ghost rr = rs[i as int];
                    assert(recs(kept@) =~~= prev_kept + seq![
                        Rec { text: tv, completed: rr.completed, level: rr.level },
                    ]);
                }
            }
            i = i + 1;
        }
        // Pass two: open dominates done among merged duplicates.
        let mut out: Vec<TaskRecord> = Vec::new();
        let ghost k1 = recs(kept@);
        let mut j: usize = 0;
        while j < kept.len()
            invariant
                j <= kept@.len(),
                k1 == recs(kept@),
                rs == recs(self.records@),
                purge_pass2(k1, rs, 0) =~~= recs(out@) + purge_pass2(k1, rs, j as int),
            decreases kept@.len() - j,
        {
            proof {
                assert(k1[j as int] == kept@[j as int]@);
            }
            let r = &kept[j];
            let ghost prev = recs(out@);
            if r.completed && has_open_trim_ex(&self.records, r.text.as_str()) {
                out.push(TaskRecord { text: r.text.clone(), completed: false, level: r.level });
                proof {
                    let ghost rr = k1[j as int];
                    assert(recs(out@) =~~= prev + seq![
                        Rec { text: rr.text, completed: false, level: rr.level },
                    ]);
                }
            } else {
                out.push(record_copy(r));
                proof {
                    assert(recs(out@) =~~= prev + seq![k1[j as int]]);
                }
            }
            j = j + 1;
        }
        // Optional pass three: completed records first, stably.
        if sort {
            let ghost k2 = recs(out@);
            let mut sorted: Vec<TaskRecord> = Vec::new();
            let mut a: usize = 0;
            while a < out.len()
                invariant
                    a <= out@.len(),
                    k2 == recs(out@),
                    sel_flag(k2, 0, true) =~~= recs(sorted@) + sel_flag(k2, a as int, true),
                decreases out@.len() - a,
            {
                proof {
                    assert(k2[a as int] == out@[a as int]@);
                }
                let ghost prev = recs(sorted@);
                if out[a].completed {
                    sorted.push(record_copy(&out[a]));
                    proof {
                        assert(recs(sorted@) =~~= prev + seq![k2[a as int]]);
                    }
                }
                a = a + 1;
            }
            let ghost half = recs(sorted@);
            let mut b: usize = 0;
            while b < out.len()
                invariant
                    b <= out@.len(),
                    k2 == recs(out@),
                    half + sel_flag(k2, 0, false) =~~= recs(sorted@) + sel_flag(
                        k2,
                        b as int,
                        false,
                    ),
                decreases out@.len() - b,
            {
                proof {
                    assert(k2[b as int] == out@[b as int]@);
                }
                let ghost prev = recs(sorted@);
                if !out[b].completed {
                    sorted.push(record_copy(&out[b]));
                    proof {
                        assert(recs(sorted@) =~~= prev + seq![k2[b as int]]);
                    }
                }
                b = b + 1;
            }
            self.records = sorted;
        } else {
            self.records = out;
        }
    }
}

impl TaskBox {
    /// The move engine: transfers the source's flattened open items into
    /// this box, in original order. Synthetic warning items are appended
    /// verbatim with nothing removed; when the source is the routines
    /// template box, items check out as dated one-off occurrences on the
    /// day this box stands for — and only into a today or tomorrow box —
    /// with one-shot routines consumed from the template; any other item
    /// moves verbatim, surviving in the source flipped to completed when
    /// its block shows a finished trailing sub. An explicitly empty
    /// selection, or a source without open items, moves nothing.
    pub fn collect_from(&mut self, tb_from: &mut TaskBox, today: &Date)
        requires
            old(self).loaded,
            old(tb_from).loaded,
            valid_date(*today),
            ctx_of(
                old(self).name@,
                old(self).alias,
                old(tb_from).name@,
                old(tb_from).alias,
                sel_view(old(tb_from).selected),
                *today,
            ).src_routines ==> forall|j: int|
                0 <= j < todos_of(recs(old(tb_from).records@)).0.len() ==> header_date_ok(
                    #[trigger] todos_of(recs(old(tb_from).records@)).0[j],
                ),
        ensures
            ({
                let ctx = ctx_of(
                    old(self).name@,
                    old(self).alias,
                    old(tb_from).name@,
                    old(tb_from).alias,
                    sel_view(old(tb_from).selected),
                    *today,
                );
                let out = collect_spec(
                    recs(old(self).records@),
                    recs(old(tb_from).records@),
                    ctx,
                );
                recs(final(self).records@) == out.0 && recs(final(tb_from).records@) == out.1
            }),
            final(self).name == old(self).name,
            final(self).alias == old(self).alias,
            final(self).selected == old(self).selected,
            final(self).encrypted == old(self).encrypted,
            final(self).loaded,
            final(tb_from).name == old(tb_from).name,
            final(tb_from).alias == old(tb_from).alias,
            final(tb_from).selected == old(tb_from).selected,
            final(tb_from).encrypted == old(tb_from).encrypted,
            final(tb_from).loaded,
    {
        proof {
            reveal_strlit("today");
            reveal_strlit("tomorrow");
            reveal_strlit("INBOX");
            reveal_strlit("ROUTINES");
        }
        let ghost d0 = recs(self.records@);
        let ghost s0 = recs(tb_from.records@);
        let ghost ctx = ctx_of(
            self.name@,
            self.alias,
            tb_from.name@,
            tb_from.alias,
            sel_view(tb_from.selected),
            *today,
        );
        let (items, _dones) = tb_from.get_all_todos();
        if items.len() == 0 {
            return ;
        }
        let mut sel_empty = false;
        match &tb_from.selected {
            Some(sel) => {
                if sel.len() == 0 {
                    sel_empty = true;
                }
            },
            None => {},
        }
        if sel_empty {
            proof {
                assert(ctx.sel matches Some(ss) && ss.len() == 0);
            }
            return ;
        }
        let to_today = match self.alias {
            Some(Alias::Today) => true,
            Some(_) => false,
            None => str_eq(self.name.as_str(), "today"),
        };
        let to_tomorrow = match self.alias {
            Some(Alias::Tomorrow) => true,
            Some(_) => false,
            None => str_eq(self.name.as_str(), "tomorrow"),
        };
        let to_inbox = match self.alias {
            Some(_) => false,
            None => str_eq(self.name.as_str(), "INBOX"),
        };
        let src_routines = match tb_from.alias {
            Some(_) => false,
            None => str_eq(tb_from.name.as_str(), "ROUTINES"),
        };
        proof {
            assert(("today")@ =~= seq!['t', 'o', 'd', 'a', 'y']);
            assert(("tomorrow")@ =~= seq!['t', 'o', 'm', 'o', 'r', 'r', 'o', 'w']);
            assert(("INBOX")@ =~= seq!['I', 'N', 'B', 'O', 'X']);
            assert(("ROUTINES")@ =~= seq!['R', 'O', 'U', 'T', 'I', 'N', 'E', 'S']);
            assert(to_today == ctx.to_today);
            assert(to_tomorrow == ctx.to_tomorrow);
            assert(to_inbox == ctx.to_inbox);
            assert(src_routines == ctx.src_routines);
        }
        let target: Date = if to_today {
            *today
        } else {
            tomorrow_date(today)
        };
        let target_s = format_date(&target);
        proof {
            if to_today {
                assert(target == ctx.target);
            } else {
                assert(target == ctx.target);
            }
        }
        let ghost iv = strs(items@);
        let mut k: usize = 0;
        while k < items.len()
            invariant
                k <= items@.len(),
                iv == strs(items@),
                iv == todos_of(s0).0,
                iv.len() > 0,
                !(ctx.sel matches Some(ss) && ss.len() == 0),
                valid_date(*today),
                valid_date(target),
                target == ctx.target,
                target_s@ == date_chars(target),
                to_today == ctx.to_today,
                to_tomorrow == ctx.to_tomorrow,
                to_inbox == ctx.to_inbox,
                src_routines == ctx.src_routines,
                sel_view(tb_from.selected) == ctx.sel,
                ctx.src_routines ==> forall|j: int|
                    0 <= j < iv.len() ==> header_date_ok(#[trigger] iv[j]),
                collect_fold(d0, s0, iv, 0, ctx) == collect_fold(
                    recs(self.records@),
                    recs(tb_from.records@),
                    iv,
                    k as int,
                    ctx,
                ),
                self.name == old(self).name,
                self.alias == old(self).alias,
                self.selected == old(self).selected,
                self.encrypted == old(self).encrypted,
                self.loaded,
                tb_from.name == old(tb_from).name,
                tb_from.alias == old(tb_from).alias,
                tb_from.selected == old(tb_from).selected,
                tb_from.encrypted == old(tb_from).encrypted,
                tb_from.loaded,
            decreases items@.len() - k,
        {
            proof {
                assert(iv[k as int] == items@[k as int]@);
            }
            let item = &items[k];
            let ghost itemv = item@;
            let ghost dcur = recs(self.records@);
            let ghost scur = recs(tb_from.records@);
            let mut skip = false;
            match &tb_from.selected {
                Some(sel) => {
                    if !crate::codec::contains_str(sel, item) {
                        skip = true;
                    }
                },
                None => {},
            }
            if skip {
                proof {
                    assert(collect_step(dcur, scur, itemv, ctx) == (dcur, scur));
                }
            } else if src_routines {
                if to_today || to_tomorrow {
                    match find_routine_header(item.as_str()) {
                        Some(hp) => {
                            let ghost hi = crate::routine::find_header(itemv)->0;
                            let anchor = match parse_date(hp.date_text.as_str()) {
                                Some(d) => d,
                                None => {
                                    proof {
                                        assert(header_date_ok(itemv));
                                        assert(false);
                                    }
                                    Date { year: 1, month: 1, day: 1 }
                                },
                            };
                            if fires(hp.kind, &anchor, &target) {
                                let newtask = build_checkout(
                                    hp.kind,
                                    hp.payload.as_str(),
                                    target_s.as_str(),
                                );
                                let ghost ntv = newtask@;
                                if !contains_open_text(&self.records, newtask.as_str()) {
                                    let ghost prev = recs(self.records@);
                                    self.records.push(
                                        TaskRecord {
                                            text: newtask,
                                            completed: false,
                                            level: Level::Major,
                                        },
                                    );
                                    proof {
                                        assert(recs(self.records@) =~~= prev.push(
                                            Rec {
                                                text: ntv,
                                                completed: false,
                                                level: Level::Major,
                                            },
                                        ));
                                    }
                                }
                                let once = match hp.kind {
                                    Routine::Once => true,
                                    _ => false,
                                };
                                if once {
                                    tb_from.records = remove_flat_ex(
                                        &tb_from.records,
                                        item.as_str(),
                                        false,
                                    );
                                }
                                proof {
                                    assert(collect_step(dcur, scur, itemv, ctx) == (
                                        recs(self.records@),
                                        recs(tb_from.records@),
                                    ));
                                }
                            } else {
                                proof {
                                    assert(collect_step(dcur, scur, itemv, ctx) == (
                                        dcur,
                                        scur,
                                    ));
                                }
                            }
                        },
                        None => {
                            proof {
                                assert(collect_step(dcur, scur, itemv, ctx) == (dcur, scur));
                            }
                        },
                    }
                } else {
                    proof {
                        assert(collect_step(dcur, scur, itemv, ctx) == (dcur, scur));
                    }
                }
            } else {
                if starts_with_warn(item.as_str()) {
                    let ghost prev = recs(self.records@);
                    self.records.push(
                        TaskRecord {
                            text: item.clone(),
                            completed: false,
                            level: Level::Major,
                        },
                    );
                    proof {
                        assert(recs(self.records@) =~~= prev.push(
                            Rec { text: itemv, completed: false, level: Level::Major },
                        ));
                        assert(collect_step(dcur, scur, itemv, ctx) == (
                            recs(self.records@),
                            recs(tb_from.records@),
                        ));
                    }
                } else if to_inbox && contains_checkout_marker(item.as_str()) {
                    proof {
                        assert(collect_step(dcur, scur, itemv, ctx) == (dcur, scur));
                    }
                } else {
                    // Append the item to the destination.
                    let ghost prev = recs(self.records@);
                    if starts_with_marker(item.as_str()) {
                        let n = item.unicode_len();
                        let stripped = item.as_str().substring_char(3, n).to_owned();
                        self.records.push(
                            TaskRecord {
                                text: stripped,
                                completed: false,
                                level: Level::Sub,
                            },
                        );
                    } else {
                        self.records.push(
                            TaskRecord {
                                text: item.clone(),
                                completed: false,
                                level: Level::Major,
                            },
                        );
                    }
                    proof {
                        assert(recs(self.records@) =~~= prev.push(unflat(itemv)));
                    }
                    // Take the item out of the source, or flip its
                    // archival copy to completed.
                    if starts_with_marker(item.as_str()) {
                        tb_from.records = remove_flat_ex(&tb_from.records, item.as_str(), true);
                    } else {
                        match find_open_flat_ex(&tb_from.records, item.as_str()) {
                            Some(j) => {
                                let src_len = tb_from.records.len();
                                proof {
                                    assert(j < src_len);
                                }
                                if scan_done_sub_ex(&tb_from.records, j + 1) {
                                    tb_from.records = set_done_ex(&tb_from.records, j);
                                } else {
                                    tb_from.records = remove_flat_ex(
                                        &tb_from.records,
                                        item.as_str(),
                                        true,
                                    );
                                }
                            },
                            None => {
                                tb_from.records = remove_flat_ex(
                                    &tb_from.records,
                                    item.as_str(),
                                    true,
                                );
                            },
                        }
                    }
                    proof {
                        assert(recs(tb_from.records@) == move_from_source(scur, itemv));
                        assert(collect_step(dcur, scur, itemv, ctx) == (
                            recs(self.records@),
                            recs(tb_from.records@),
                        ));
                    }
                }
            }
            k = k + 1;
        }
    }
}

/// What a cleanup sweep should do with a dated box: drop it when empty,
/// archive it when only completed records remain, keep it while any open
/// work is left.
#[derive(Clone, Copy, Debug, PartialEq, Eq, Structural)]
pub enum CleanupAction {
    Keep,
    Delete,
    Archive,
}

impl TaskBox {
    /// Decides the cleanup sweep's action for this box.
    pub fn cleanup_action(&self) -> (a: CleanupAction)
        requires
            self.loaded,
        ensures
            a == CleanupAction::Keep <==> count_open(recs(self.records@), 0) > 0,
            a == CleanupAction::Delete <==> count_open(recs(self.records@), 0) == 0
                && self.records@.len() == 0,
            a == CleanupAction::Archive <==> count_open(recs(self.records@), 0) == 0
                && self.records@.len() > 0,
    {
        proof {
            lemma_count_open_nonneg(recs(self.records@), 0);
        }
        if self.count() > 0 {
            CleanupAction::Keep
        } else if self.records.len() == 0 {
            CleanupAction::Delete
        } else {
            CleanupAction::Archive
        }
    }
}

proof fn lemma_count_open_nonneg(rs: Seq<Rec>, i: int)
    ensures
        count_open(rs, i) >= 0,
    decreases rs.len() - i,
{
    if i < 0 || i >= rs.len() {
    } else {
        lemma_count_open_nonneg(rs, i + 1);
    }
}

/// Whether a dated box name lies strictly before the given day, so a
/// sink pass should fold its leftovers into today's box. Names that do
/// not parse as a date are never overdue.
pub fn is_overdue(name: &str, today: &Date) -> (r: bool)
    ensures
        r == match parse_date_chars(name@) {
            Some(d) => date_lt(d, *today),
            None => false,
        },
{
    match parse_date(name) {
        Some(d) => crate::date::date_lt_ex(&d, today),
        None => false,
    }
}

/// Whether a box of this name may be kept in the encrypted at-rest form:
/// the reserved boxes and date-named boxes stay plain.
pub fn can_encrypt_name(name: &str) -> (r: bool)
    ensures
        r == (name@ != ("INBOX")@ && name@ != ("ROUTINES")@ && !(exists|i: int|
            crate::date::has_date_shape_at(name@, i))),
{
    !str_eq(name, "INBOX") && !str_eq(name, "ROUTINES") && !crate::date::contains_date_shape(
        name,
    )
}

/// Splits free-form markdown into the open tasks it holds: plain ones and
/// routine definitions, each list in reading order.
pub fn import_tasks(text: &str) -> (r: (Vec<String>, Vec<String>))
    ensures
        strs(r.0@) == import_spec(crate::codec::split_lines(text@), 0).0,
        strs(r.1@) == import_spec(crate::codec::split_lines(text@), 0).1,
{
    let lines = crate::codec::split_lines_ex(text);
    let ghost lv = crate::codec::split_lines(text@);
    let mut newt: Vec<String> = Vec::new();
    let mut newr: Vec<String> = Vec::new();
    let mut i: usize = 0;
    while i < lines.len()
        invariant
            i <= lines@.len(),
            lv == crate::codec::split_lines(text@),
            lines@.len() == lv.len(),
            forall|j: int| 0 <= j < lines@.len() ==> lines@[j]@ == lv[j],
            import_spec(lv, 0).0 =~~= strs(newt@) + import_spec(lv, i as int).0,
            import_spec(lv, 0).1 =~~= strs(newr@) + import_spec(lv, i as int).1,
        decreases lines@.len() - i,
    {
        let l = trim_str(lines[i]);
        let n = l.unicode_len();
        let ghost prev_t = strs(newt@);
        let ghost prev_r = strs(newr@);
        let is_open = n >= 6 && l.get_char(0) == '-' && l.get_char(1) == ' ' && l.get_char(2)
            == '[' && l.get_char(3) == ' ' && l.get_char(4) == ']' && l.get_char(5) == ' ';
        proof {
            if is_open {
                assert(begins_with(l@, crate::codec::open_prefix()));
            } else {
                assert(!begins_with(l@, crate::codec::open_prefix()));
            }
        }
        if is_open {
            let stripped = l.substring_char(6, n);
            match find_routine_header(stripped) {
                Some(_) => {
                    newr.push(stripped.to_owned());
                    proof {
                        assert(strs(newr@) =~~= prev_r + seq![stripped@]);
                    }
                },
                None => {
                    newt.push(stripped.to_owned());
                    proof {
                        assert(strs(newt@) =~~= prev_t + seq![stripped@]);
                    }
                },
            }
        }
        i = i + 1;
    }
    (newt, newr)
}

/// The fixed facts one move pass runs under: where the items come from
/// and go to, the selection, and the resolved checkout target date.
#[verifier::ext_equal]
pub ghost struct MoveCtx {
    pub src_routines: bool,
    pub to_today: bool,
    pub to_tomorrow: bool,
    pub to_inbox: bool,
    pub sel: Option<Seq<Seq<char>>>,
    pub target: Date,
}

/// How one pass reads the two boxes: the destination counts as `today`,
/// `tomorrow` or the inbox by its cached alias or its literal name, the
/// source as the routines template box by its reserved name, and the
/// checkout target is the day the destination stands for.
pub open spec fn ctx_of(
    dst_name: Seq<char>,
    dst_alias: Option<Alias>,
    src_name: Seq<char>,
    src_alias: Option<Alias>,
    sel: Option<Seq<Seq<char>>>,
    today: Date,
) -> MoveCtx {
    let to_today = dst_alias == Some(Alias::Today) || (dst_alias is None && dst_name == seq![
        't',
        'o',
        'd',
        'a',
        'y',
    ]);
    MoveCtx {
        src_routines: src_alias is None && src_name == seq![
            'R',
            'O',
            'U',
            'T',
            'I',
            'N',
            'E',
            'S',
        ],
        to_today,
        to_tomorrow: dst_alias == Some(Alias::Tomorrow) || (dst_alias is None && dst_name
            == seq!['t', 'o', 'm', 'o', 'r', 'r', 'o', 'w']),
        to_inbox: dst_alias is None && dst_name == seq!['I', 'N', 'B', 'O', 'X'],
        sel,
        target: if to_today {
            today
        } else {
            tomorrow_of(today)
        },
    }
}

/// A flat item back as a record: marked items become open sub records,
/// everything else an open major record.
pub open spec fn unflat(item: Seq<char>) -> Rec {
    if begins_with(item, sub_marker()) {
        Rec { text: item.subrange(3, item.len() as int), completed: false, level: Level::Sub }
    } else {
        Rec { text: item, completed: false, level: Level::Major }
    }
}

/// Records from `i` on with the item's matches removed: every record
/// whose flat text equals the item (restricted to open records when
/// `only_open`) is dropped.
pub open spec fn remove_flat(s: Seq<Rec>, i: int, item: Seq<char>, only_open: bool) -> Seq<Rec>
    decreases s.len() - i,
{
    if i < 0 || i >= s.len() {
        Seq::empty()
    } else {
        let r = s[i];
        let hit = flat_text(r) == item && (!only_open || !r.completed);
        if hit {
            remove_flat(s, i + 1, item, only_open)
        } else {
            seq![r] + remove_flat(s, i + 1, item, only_open)
        }
    }
}

/// The first open record whose flat text equals the item, from `i` on.
pub open spec fn find_open_flat(s: Seq<Rec>, i: int, item: Seq<char>) -> Option<int>
    decreases s.len() - i,
{
    if i < 0 || i >= s.len() {
        None
    } else if flat_text(s[i]) == item && !s[i].completed {
        Some(i)
    } else {
        find_open_flat(s, i + 1, item)
    }
}

/// Whether the sub block starting at `k` holds a completed sub record
/// before its first open... scanning stops at the first completed sub
/// (found) or the first non-sub record or the end (not found).
pub open spec fn scan_done_sub(s: Seq<Rec>, k: int) -> bool
    decreases s.len() - k,
{
    if k < 0 || k >= s.len() {
        false
    } else if !begins_with(flat_text(s[k]), sub_marker()) {
        false
    } else if s[k].completed {
        true
    } else {
        scan_done_sub(s, k + 1)
    }
}

/// The record at `j` flipped to completed.
pub open spec fn set_done(s: Seq<Rec>, j: int) -> Seq<Rec> {
    s.update(j, Rec { text: s[j].text, completed: true, level: s[j].level })
}

/// What a plain move does to the source: a moved major whose block shows
/// a completed trailing sub survives flipped to completed (an archival
/// entry beside its finished sub history); otherwise the open record with
/// the item's text is deleted outright.
pub open spec fn move_from_source(s: Seq<Rec>, item: Seq<char>) -> Seq<Rec> {
    if begins_with(item, sub_marker()) {
        remove_flat(s, 0, item, true)
    } else {
        match find_open_flat(s, 0, item) {
            None => remove_flat(s, 0, item, true),
            Some(j) => if scan_done_sub(s, j + 1) {
                set_done(s, j)
            } else {
                remove_flat(s, 0, item, true)
            },
        }
    }
}

/// Whether the destination already holds an open record with this text.
pub open spec fn dst_has_open_text(d: Seq<Rec>, t: Seq<char>) -> bool {
    exists|j: int| 0 <= j < d.len() && d[j].text == t && !d[j].completed
}

/// An item whose embedded routine header, if any, carries a date text
/// that denotes a real calendar date.
pub open spec fn header_date_ok(s: Seq<char>) -> bool {
    match find_header(s) {
        Some(i) => parse_date_chars(s.subrange(i + 5, i + 15)) is Some,
        None => true,
    }
}

/// One item of the pass, applied to the two record sequences.
pub open spec fn collect_step(d: Seq<Rec>, s: Seq<Rec>, item: Seq<char>, ctx: MoveCtx) -> (
    Seq<Rec>,
    Seq<Rec>,
) {
    if ctx.sel matches Some(ss) && !ss.contains(item) {
        (d, s)
    } else if ctx.src_routines {
        if !(ctx.to_today || ctx.to_tomorrow) {
            (d, s)
        } else {
            match find_header(item) {
                None => (d, s),
                Some(i) => {
                    let kind = routine_code(item[i + 3])->0;
                    match parse_date_chars(item.subrange(i + 5, i + 15)) {
                        None => (d, s),
                        Some(anchor) => {
                            if !spec_fires(kind, anchor, ctx.target) {
                                (d, s)
                            } else {
                                let newtask = checkout_chars(
                                    kind,
                                    item.subrange(i + 22, item.len() as int),
                                    date_chars(ctx.target),
                                );
                                let d2 = if dst_has_open_text(d, newtask) {
                                    d
                                } else {
                                    d.push(
                                        Rec {
                                            text: newtask,
                                            completed: false,
                                            level: Level::Major,
                                        },
                                    )
                                };
                                let s2 = if kind == Routine::Once {
                                    remove_flat(s, 0, item, false)
                                } else {
                                    s
                                };
                                (d2, s2)
                            }
                        },
                    }
                },
            }
        }
    } else {
        if begins_with(item, seq![warn_icon(), ' ']) {
            (d.push(Rec { text: item, completed: false, level: Level::Major }), s)
        } else if ctx.to_inbox && has_checkout_marker(item) {
            (d, s)
        } else {
            (d.push(unflat(item)), move_from_source(s, item))
        }
    }
}

/// The whole pass folded over the flattened open items in order.
pub open spec fn collect_fold(
    d: Seq<Rec>,
    s: Seq<Rec>,
    items: Seq<Seq<char>>,
    k: int,
    ctx: MoveCtx,
) -> (Seq<Rec>, Seq<Rec>)
    decreases items.len() - k,
{
    if k < 0 || k >= items.len() {
        (d, s)
    } else {
        let st = collect_step(d, s, items[k], ctx);
        collect_fold(st.0, st.1, items, k + 1, ctx)
    }
}

/// What one move pass yields: nothing at all when the source offers no
/// open items or the selection is explicitly empty, else the fold of
/// `collect_step` over the source's flattened open items.
pub open spec fn collect_spec(d: Seq<Rec>, s: Seq<Rec>, ctx: MoveCtx) -> (Seq<Rec>, Seq<Rec>) {
    let items = todos_of(s).0;
    if items.len() == 0 || (ctx.sel matches Some(ss) && ss.len() == 0) {
        (d, s)
    } else {
        collect_fold(d, s, items, 0, ctx)
    }
}

fn starts_with_warn(s: &str) -> (r: bool)
    ensures
        r == begins_with(s@, seq![warn_icon(), ' ']),
{
    let n = s.unicode_len();
    let b = n >= 2 && s.get_char(0) == '\u{f0f08}' && s.get_char(1) == ' ';
    proof {
        if b {
            assert(begins_with(s@, seq![warn_icon(), ' ']));
        } else {
            assert(!begins_with(s@, seq![warn_icon(), ' ']));
        }
    }
    b
}

fn starts_with_marker(s: &str) -> (r: bool)
    ensures
        r == begins_with(s@, sub_marker()),
{
    let n = s.unicode_len();
    let b = n >= 3 && s.get_char(0) == ' ' && s.get_char(1) == '\u{f17a9}' && s.get_char(2)
        == ' ';
    proof {
        if b {
            assert(begins_with(s@, sub_marker()));
        } else {
            assert(!begins_with(s@, sub_marker()));
        }
    }
    b
}

fn contains_open_text(v: &Vec<TaskRecord>, t: &str) -> (r: bool)
    ensures
        r == dst_has_open_text(recs(v@), t@),
{
    let mut i: usize = 0;
    while i < v.len()
        invariant
            i <= v@.len(),
            forall|j: int| 0 <= j < i ==> !(v@[j]@.text == t@ && !v@[j]@.completed),
        decreases v@.len() - i,
    {
        if !v[i].completed && str_eq(v[i].text.as_str(), t) {
            proof {
                assert(recs(v@)[i as int].text == t@ && !recs(v@)[i as int].completed);
            }
            return true;
        }
        i = i + 1;
    }
    proof {
        assert(forall|j: int| 0 <= j < v@.len() ==> recs(v@)[j] == #[trigger] v@[j]@);
    }
    false
}

fn remove_flat_ex(v: &Vec<TaskRecord>, item: &str, only_open: bool) -> (out: Vec<TaskRecord>)
    ensures
        recs(out@) == remove_flat(recs(v@), 0, item@, only_open),
{
    let ghost rs = recs(v@);
    let mut out: Vec<TaskRecord> = Vec::new();
    let mut i: usize = 0;
    while i < v.len()
        invariant
            i <= v@.len(),
            rs == recs(v@),
            remove_flat(rs, 0, item@, only_open) =~~= recs(out@) + remove_flat(
                rs,
                i as int,
                item@,
                only_open,
            ),
        decreases v@.len() - i,
    {
        proof {
            assert(rs[i as int] == v@[i as int]@);
        }
        let r = &v[i];
        let ghost prev = recs(out@);
        let flat = flat_of(r);
        let hit = str_eq(flat.as_str(), item) && (!only_open || !r.completed);
        if !hit {
            out.push(record_copy(r));
            proof {
                assert(recs(out@) =~~= prev + seq![rs[i as int]]);
            }
        }
        i = i + 1;
    }
    out
}

fn find_open_flat_ex(v: &Vec<TaskRecord>, item: &str) -> (r: Option<usize>)
    ensures
        match r {
            Some(j) => find_open_flat(recs(v@), 0, item@) == Some(j as int) && j < v@.len(),
            None => find_open_flat(recs(v@), 0, item@) is None,
        },
{
    let mut i: usize = 0;
    while i < v.len()
        invariant
            i <= v@.len(),
            find_open_flat(recs(v@), 0, item@) == find_open_flat(recs(v@), i as int, item@),
        decreases v@.len() - i,
    {
        proof {
            assert(recs(v@)[i as int] == v@[i as int]@);
        }
        let flat = flat_of(&v[i]);
        if !v[i].completed && str_eq(flat.as_str(), item) {
            return Some(i);
        }
        i = i + 1;
    }
    None
}

fn scan_done_sub_ex(v: &Vec<TaskRecord>, start: usize) -> (r: bool)
    ensures
        r == scan_done_sub(recs(v@), start as int),
{
    let mut k = start;
    while k < v.len()
        invariant
            start <= k,
            scan_done_sub(recs(v@), start as int) == scan_done_sub(recs(v@), k as int),
        decreases v@.len() - k,
    {
        proof {
            assert(recs(v@)[k as int] == v@[k as int]@);
        }
        if !is_sub_flat(&v[k]) {
            return false;
        }
        if v[k].completed {
            return true;
        }
        k = k + 1;
    }
    false
}

fn set_done_ex(v: &Vec<TaskRecord>, j: usize) -> (out: Vec<TaskRecord>)
    requires
        j < v@.len(),
    ensures
        recs(out@) == set_done(recs(v@), j as int),
{
    let ghost rs = recs(v@);
    let mut out: Vec<TaskRecord> = Vec::new();
    let mut i: usize = 0;
    while i < v.len()
        invariant
            i <= v@.len(),
            rs == recs(v@),
            j < v@.len(),
            recs(out@) =~~= set_done(rs, j as int).subrange(0, i as int),
        decreases v@.len() - i,
    {
        proof {
            assert(rs[i as int] == v@[i as int]@);
        }
        let ghost prev = recs(out@);
        if i == j {
            out.push(
                TaskRecord { text: v[i].text.clone(), completed: true, level: v[i].level },
            );
        } else {
            out.push(record_copy(&v[i]));
        }
        proof {
            assert(recs(out@) =~~= prev + seq![set_done(rs, j as int)[i as int]]);
            assert(recs(out@) =~~= set_done(rs, j as int).subrange(0, i + 1));
        }
        i = i + 1;
    }
    proof {
        assert(set_done(rs, j as int).subrange(0, v@.len() as int) =~~= set_done(rs, j as int));
    }
    out
}

/// The most-recently-seen-major state's mathematical value.
pub open spec fn lm_view(last: Option<(String, bool)>) -> Option<(Seq<char>, bool)> {
    match last {
        Some((t, d)) => Some((t@, d)),
        None => None,
    }
}

/// Open records from index `i` on.
pub open spec fn count_open(rs: Seq<Rec>, i: int) -> int
    decreases rs.len() - i,
{
    if i < 0 || i >= rs.len() {
        0
    } else if !rs[i].completed {
        1 + count_open(rs, i + 1)
    } else {
        count_open(rs, i + 1)
    }
}

proof fn lemma_contains_right(a: Seq<Seq<char>>, b: Seq<Seq<char>>, x: Seq<char>)
    requires
        b.contains(x),
    ensures
        (a + b).contains(x),
{
    let w = choose|w: int| 0 <= w < b.len() && b[w] == x;
    assert((a + b)[a.len() + w] == x);
}

proof fn lemma_contains_split(a: Seq<Seq<char>>, b: Seq<Seq<char>>, x: Seq<char>)
    requires
        (a + b).contains(x),
    ensures
        a.contains(x) || b.contains(x),
{
    let w = choose|w: int| 0 <= w < (a + b).len() && (a + b)[w] == x;
    if w < a.len() {
        assert(a[w] == x);
    } else {
        assert(b[w - a.len()] == x);
    }
}

/// Whether a record shows up as a sub task in the flattened views.
pub open spec fn is_sub_rec(r: Rec) -> bool {
    begins_with(flat_text(r), sub_marker())
}

/// A completed major task whose attached sub block — the contiguous run
/// of sub records right after it — still holds an open sub.
pub open spec fn major_warns(rs: Seq<Rec>, i: int) -> bool {
    &&& 0 <= i < rs.len()
    &&& !is_sub_rec(rs[i])
    &&& rs[i].completed
    &&& exists|j: int|
        i < j < rs.len() && (forall|u: int| i < u <= j ==> is_sub_rec(#[trigger] rs[u]))
            && !rs[j].completed
}

/// Walking a sub block that still holds an open sub, under a completed
/// major, surfaces that major's warning.
proof fn lemma_warn_from_block(rs: Seq<Rec>, k: int, t: Seq<char>)
    requires
        0 <= k,
        exists|j: int|
            k <= j < rs.len() && (forall|u: int| k <= u <= j ==> is_sub_rec(#[trigger] rs[u]))
                && !rs[j].completed,
    ensures
        todos_from(rs, k, Some((t, true))).0.contains(warn_text(t)),
    decreases rs.len() - k,
{
    let j = choose|j: int|
        k <= j < rs.len() && (forall|u: int| k <= u <= j ==> is_sub_rec(#[trigger] rs[u]))
            && !rs[j].completed;
    assert(is_sub_rec(rs[k]));
    if !rs[k].completed {
        let r0 = todos_from(rs, k, Some((t, true))).0;
        assert(r0[0] == warn_text(t));
    } else {
        assert(j > k);
        assert(forall|u: int| k + 1 <= u <= j ==> is_sub_rec(#[trigger] rs[u]));
        lemma_warn_from_block(rs, k + 1, t);
        let rest = todos_from(rs, k + 1, Some((t, true))).0;
        assert(todos_from(rs, k, Some((t, true))).0 =~~= Seq::<Seq<char>>::empty()
            + Seq::<Seq<char>>::empty() + rest);
        lemma_contains_right(
            Seq::<Seq<char>>::empty() + Seq::<Seq<char>>::empty(),
            rest,
            warn_text(t),
        );
    }
}

/// Every completed major with an open sub in its block gets its warning
/// into the flattened open view, from any walk state.
proof fn lemma_warn_present(rs: Seq<Rec>, i: int, last: Option<(Seq<char>, bool)>, m: int)
    requires
        0 <= i <= m,
        major_warns(rs, m),
    ensures
        todos_from(rs, i, last).0.contains(warn_text(rs[m].text)),
    decreases rs.len() - i,
{
    let w = warn_text(rs[m].text);
    if i == m {
        assert(!is_sub_rec(rs[m]));
        let j = choose|j: int|
            m < j < rs.len() && (forall|u: int| m < u <= j ==> is_sub_rec(#[trigger] rs[u]))
                && !rs[j].completed;
        assert(forall|u: int| m + 1 <= u <= j ==> is_sub_rec(#[trigger] rs[u]));
        lemma_warn_from_block(rs, m + 1, rs[m].text);
        assert(flat_text(rs[m]) == rs[m].text);
        assert(todos_from(rs, i, last).0 == todos_from(rs, m + 1, Some((rs[m].text, true))).0);
    } else {
        let r = rs[i];
        if is_sub_rec(r) {
            let emit = match last {
                Some((t, done)) => done && !r.completed,
                None => false,
            };
            let last2: Option<(Seq<char>, bool)> = if emit {
                None
            } else {
                last
            };
            lemma_warn_present(rs, i + 1, last2, m);
            let rest = todos_from(rs, i + 1, last2).0;
            let warn: Seq<Seq<char>> = if emit {
                seq![warn_text((last->0).0)]
            } else {
                Seq::empty()
            };
            let own: Seq<Seq<char>> = if !r.completed {
                seq![flat_text(r)]
            } else {
                Seq::empty()
            };
            lemma_contains_right(warn + own, rest, w);
            assert(todos_from(rs, i, last).0 == warn + own + rest);
        } else {
            lemma_warn_present(rs, i + 1, Some((flat_text(r), r.completed)), m);
            let rest = todos_from(rs, i + 1, Some((flat_text(r), r.completed))).0;
            if !r.completed {
                lemma_contains_right(seq![flat_text(r)], rest, w);
                assert(todos_from(rs, i, last).0 == seq![flat_text(r)] + rest);
            } else {
                assert(todos_from(rs, i, last).0 == rest);
            }
        }
    }
}

/// The walk state points back at a real major: the most recent non-sub
/// record, with only subs in between.
pub open spec fn last_ok(rs: Seq<Rec>, i: int, last: Option<(Seq<char>, bool)>) -> bool {
    match last {
        None => true,
        Some((t, done)) => exists|m: int|
            0 <= m < i && !is_sub_rec(#[trigger] rs[m]) && rs[m].text == t && rs[m].completed
                == done && (forall|u: int| m < u < i ==> is_sub_rec(#[trigger] rs[u])),
    }
}

/// Conversely, every warning-shaped item in the flattened open view
/// names a completed major with an open sub in its block, provided no
/// record's own flat text is warning-shaped.
proof fn lemma_warn_only(rs: Seq<Rec>, i: int, last: Option<(Seq<char>, bool)>)
    requires
        0 <= i,
        forall|m: int|
            0 <= m < rs.len() ==> !begins_with(
                flat_text(#[trigger] rs[m]),
                seq![warn_icon(), ' '],
            ),
        last_ok(rs, i, last),
    ensures
        forall|w: Seq<char>|
            todos_from(rs, i, last).0.contains(w) && begins_with(w, seq![warn_icon(), ' '])
                ==> exists|m: int| major_warns(rs, m) && w == warn_text(#[trigger] rs[m].text),
    decreases rs.len() - i,
{
    if i >= rs.len() {
    } else {
        let r = rs[i];
        if is_sub_rec(r) {
            let emit = match last {
                Some((t, done)) => done && !r.completed,
                None => false,
            };
            let last2: Option<(Seq<char>, bool)> = if emit {
                None
            } else {
                last
            };
            if !emit {
                match last {
                    Some((t, done)) => {
                        let m = choose|m: int|
                            0 <= m < i && !is_sub_rec(#[trigger] rs[m]) && rs[m].text == t
                                && rs[m].completed == done && (forall|u: int|
                                m < u < i ==> is_sub_rec(#[trigger] rs[u]));
                        assert(forall|u: int|
                            m < u < i + 1 ==> is_sub_rec(#[trigger] rs[u]));
                        assert(last_ok(rs, i + 1, last2));
                    },
                    None => {},
                }
            }
            lemma_warn_only(rs, i + 1, last2);
            let rest = todos_from(rs, i + 1, last2).0;
            let warn: Seq<Seq<char>> = if emit {
                seq![warn_text((last->0).0)]
            } else {
                Seq::empty()
            };
            let own: Seq<Seq<char>> = if !r.completed {
                seq![flat_text(r)]
            } else {
                Seq::empty()
            };
            assert(todos_from(rs, i, last).0 == warn + own + rest);
            assert forall|w: Seq<char>|
                todos_from(rs, i, last).0.contains(w) && begins_with(
                    w,
                    seq![warn_icon(), ' '],
                ) implies exists|m: int|
                major_warns(rs, m) && w == warn_text(#[trigger] rs[m].text) by {
                lemma_contains_split(warn + own, rest, w);
                if (warn + own).contains(w) {
                    lemma_contains_split(warn, own, w);
                    if warn.contains(w) {
                        // The emitted warning names the pending major.
                        let t = (last->0).0;
                        let m = choose|m: int|
                            0 <= m < i && !is_sub_rec(#[trigger] rs[m]) && rs[m].text == t
                                && rs[m].completed == (last->0).1 && (forall|u: int|
                                m < u < i ==> is_sub_rec(#[trigger] rs[u]));
                        assert(forall|u: int| m < u <= i ==> is_sub_rec(#[trigger] rs[u]));
                        assert(major_warns(rs, m));
                        assert(w == warn_text(rs[m].text));
                    } else {
                        assert(own.contains(w));
                        assert(w == flat_text(r));
                        assert(false);
                    }
                }
            }
        } else {
            assert(last_ok(rs, i + 1, Some((flat_text(r), r.completed)))) by {
                assert(flat_text(r) == r.text);
            }
            lemma_warn_only(rs, i + 1, Some((flat_text(r), r.completed)));
            let rest = todos_from(rs, i + 1, Some((flat_text(r), r.completed))).0;
            let own: Seq<Seq<char>> = if !r.completed {
                seq![flat_text(r)]
            } else {
                Seq::empty()
            };
            assert(todos_from(rs, i, last).0 == own + rest);
            assert forall|w: Seq<char>|
                todos_from(rs, i, last).0.contains(w) && begins_with(
                    w,
                    seq![warn_icon(), ' '],
                ) implies exists|m: int|
                major_warns(rs, m) && w == warn_text(#[trigger] rs[m].text) by {
                lemma_contains_split(own, rest, w);
                if own.contains(w) {
                    assert(w == flat_text(r));
                    assert(false);
                }
            }
        }
    }
}

/// Warning law: the flattened open view carries a synthetic warning for
/// a completed major exactly when its attached sub block still holds an
/// open sub — provided no record's own text is already warning-shaped
/// (no real record matches a synthetic string).
pub proof fn lemma_warning_iff(rs: Seq<Rec>)
    requires
        forall|m: int|
            0 <= m < rs.len() ==> !begins_with(
                flat_text(#[trigger] rs[m]),
                seq![warn_icon(), ' '],
            ),
    ensures
        forall|i: int|
            major_warns(rs, i) ==> todos_of(rs).0.contains(warn_text(#[trigger] rs[i].text)),
        forall|w: Seq<char>|
            todos_of(rs).0.contains(w) && begins_with(w, seq![warn_icon(), ' ']) ==> exists|
                m: int,
            | major_warns(rs, m) && w == warn_text(#[trigger] rs[m].text),
{
    assert forall|i: int| major_warns(rs, i) implies todos_of(rs).0.contains(
        warn_text(#[trigger] rs[i].text),
    ) by {
        lemma_warn_present(rs, 0, None, i);
    }
    lemma_warn_only(rs, 0, None);
}

/// Pass one keeps nothing it has seen and never repeats a text.
proof fn lemma_pass1_fresh(rs: Seq<Rec>, i: int, seen: Seq<Seq<char>>)
    ensures
        forall|k: int|
            0 <= k < purge_pass1(rs, i, seen).len() ==> !seen.contains(
                #[trigger] purge_pass1(rs, i, seen)[k].text,
            ),
        forall|k1: int, k2: int|
            0 <= k1 < k2 < purge_pass1(rs, i, seen).len() ==> purge_pass1(rs, i, seen)[k1].text
                != purge_pass1(rs, i, seen)[k2].text,
    decreases rs.len() - i,
{
    if i < 0 || i >= rs.len() {
    } else {
        let r = rs[i];
        let t = trim_chars(r.text);
        if seen.contains(t) {
            lemma_pass1_fresh(rs, i + 1, seen);
        } else {
            let seen2 = seen.push(t);
            lemma_pass1_fresh(rs, i + 1, seen2);
            let tail = purge_pass1(rs, i + 1, seen2);
            let out = purge_pass1(rs, i, seen);
            assert(out[0].text == t);
            assert(seen2[seen.len() as int] == t);
            assert(seen2.contains(t));
            assert(forall|k: int| 0 <= k < tail.len() ==> out[k + 1] == tail[k]);
            assert forall|k: int| 0 <= k < out.len() implies !seen.contains(
                #[trigger] out[k].text,
            ) by {
                if k > 0 {
                    assert(out[k] == tail[k - 1]);
                    assert(!seen2.contains(tail[k - 1].text));
                    if seen.contains(out[k].text) {
                        let wi = choose|wi: int|
                            0 <= wi < seen.len() && seen[wi] == out[k].text;
                        assert(seen2[wi] == out[k].text);
                    }
                }
            }
            assert forall|k1: int, k2: int| 0 <= k1 < k2 < out.len() implies out[k1].text
                != out[k2].text by {
                if k1 == 0 {
                    assert(out[k2] == tail[k2 - 1]);
                    assert(!seen2.contains(tail[k2 - 1].text));
                    assert(out[k1].text == t);
                } else {
                    assert(out[k1] == tail[k1 - 1]);
                    assert(out[k2] == tail[k2 - 1]);
                }
            }
        }
    }
}

/// Pass two only flips completion flags, pointwise.
proof fn lemma_pass2_pointwise(ks: Seq<Rec>, orig: Seq<Rec>, i: int)
    requires
        0 <= i <= ks.len(),
    ensures
        purge_pass2(ks, orig, i).len() == ks.len() - i,
        forall|k: int|
            0 <= k < ks.len() - i ==> (#[trigger] purge_pass2(ks, orig, i)[k]).text == ks[i
                + k].text,
        forall|k: int|
            0 <= k < ks.len() - i && (#[trigger] purge_pass2(ks, orig, i)[k]).completed ==> ks[i
                + k].completed && !has_open_trim(orig, ks[i + k].text),
    decreases ks.len() - i,
{
    if i >= ks.len() {
    } else {
        lemma_pass2_pointwise(ks, orig, i + 1);
    }
}

/// Dedup law: after a plain purge no two records share a literal text,
/// and a record that survives completed had no open duplicate — open
/// dominates done when duplicates merge.
pub proof fn lemma_purge_dedup(rs: Seq<Rec>)
    ensures
        forall|i: int, j: int|
            0 <= i < j < purge_spec(rs, false).len() ==> (#[trigger] purge_spec(
                rs,
                false,
            )[i]).text != (#[trigger] purge_spec(rs, false)[j]).text,
        forall|i: int|
            0 <= i < purge_spec(rs, false).len() && (#[trigger] purge_spec(
                rs,
                false,
            )[i]).completed ==> !has_open_trim(rs, purge_spec(rs, false)[i].text),
{
    let k1 = purge_pass1(rs, 0, Seq::empty());
    lemma_pass1_fresh(rs, 0, Seq::empty());
    lemma_pass2_pointwise(k1, rs, 0);
}

fn warn_str() -> (s: &'static str)
    ensures
        s@ =~= seq![warn_icon()],
{
    proof {
        reveal_strlit("\u{f0f08}");
    }
    "\u{f0f08}"
}

} // verus!
