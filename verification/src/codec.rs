//! The document codec: checkbox-line documents to and from an ordered
//! sequence of task records.
//!
//! A document's first line carries the title (`# <name>`); every further
//! line is either an open checkbox (`- [ ] text`), a done checkbox
//! (`- [x] text`, with any of `xX-/<>*` as the mark), an indented variant
//! of either (a sub task attached to the nearest preceding major task), or
//! prose, which the codec drops: it is a checkbox-line extractor, not a
//! general markdown parser.

use vstd::prelude::*;

verus! {

/// Whether a record is a top-level task or attached beneath one.
#[derive(Clone, Copy, Debug, PartialEq, Eq, Structural)]
pub enum Level {
    Major,
    Sub,
}

/// One task line: its text, its completion flag, and its level.
#[derive(Clone, Debug)]
pub struct TaskRecord {
    pub text: String,
    pub completed: bool,
    pub level: Level,
}

/// The mathematical value of a record.
#[verifier::ext_equal]
pub ghost struct Rec {
    pub text: Seq<char>,
    pub completed: bool,
    pub level: Level,
}

impl View for TaskRecord {
    type V = Rec;

    open spec fn view(&self) -> Rec {
        Rec { text: self.text@, completed: self.completed, level: self.level }
    }
}

/// The record sequence a vector of records stands for.
pub open spec fn recs(v: Seq<TaskRecord>) -> Seq<Rec> {
    v.map_values(|r: TaskRecord| r@)
}

/// The blank characters the codec trims at line edges.
pub open spec fn is_space(c: char) -> bool {
    c == ' ' || c == '\t' || c == '\r'
}

pub open spec fn trim_end_chars(s: Seq<char>) -> Seq<char>
    decreases s.len(),
{
    if s.len() > 0 && is_space(s[s.len() - 1]) {
        trim_end_chars(s.drop_last())
    } else {
        s
    }
}

pub open spec fn trim_start_chars(s: Seq<char>) -> Seq<char>
    decreases s.len(),
{
    if s.len() > 0 && is_space(s[0]) {
        trim_start_chars(s.subrange(1, s.len() as int))
    } else {
        s
    }
}

pub open spec fn begins_with(s: Seq<char>, p: Seq<char>) -> bool {
    p.len() <= s.len() && forall|i: int| 0 <= i < p.len() ==> s[i] == p[i]
}

/// Splits on `'\n'`; the result always has one more segment than the text
/// has newlines, so a trailing newline yields a final empty segment.
pub open spec fn split_lines(s: Seq<char>) -> Seq<Seq<char>>
    decreases s.len(),
{
    if s.len() == 0 {
        seq![Seq::<char>::empty()]
    } else if s[0] == '\n' {
        seq![Seq::<char>::empty()] + split_lines(s.subrange(1, s.len() as int))
    } else {
        let rest = split_lines(s.subrange(1, s.len() as int));
        seq![seq![s[0]] + rest[0]] + rest.subrange(1, rest.len() as int)
    }
}

proof fn lemma_split_lines_len(s: Seq<char>)
    ensures
        split_lines(s).len() >= 1,
    decreases s.len(),
{
    if s.len() == 0 {
    } else if s[0] == '\n' {
        lemma_split_lines_len(s.subrange(1, s.len() as int));
    } else {
        lemma_split_lines_len(s.subrange(1, s.len() as int));
    }
}

/// A text without newlines is a single segment.
proof fn lemma_split_lines_no_nl(s: Seq<char>)
    requires
        forall|i: int| 0 <= i < s.len() ==> s[i] != '\n',
    ensures
        split_lines(s) =~~= seq![s],
    decreases s.len(),
{
    if s.len() == 0 {
        assert(split_lines(s) =~~= seq![s]);
    } else {
        let tail = s.subrange(1, s.len() as int);
        lemma_split_lines_no_nl(tail);
        lemma_split_lines_len(tail);
        assert(seq![s[0]] + tail =~= s);
        assert(split_lines(s) =~~= seq![s]);
    }
}

/// Splitting `a \n b` where `a` holds no newline gives `a` and the
/// segments of `b`.
proof fn lemma_split_lines_append(a: Seq<char>, b: Seq<char>)
    requires
        forall|i: int| 0 <= i < a.len() ==> a[i] != '\n',
    ensures
        split_lines(a + seq!['\n'] + b) =~~= seq![a] + split_lines(b),
    decreases a.len(),
{
    let s = a + seq!['\n'] + b;
    if a.len() == 0 {
        assert(s[0] == '\n');
        assert(s.subrange(1, s.len() as int) =~= b);
        assert(split_lines(s) =~~= seq![a] + split_lines(b));
    } else {
        let a2 = a.subrange(1, a.len() as int);
        lemma_split_lines_append(a2, b);
        lemma_split_lines_len(a2 + seq!['\n'] + b);
        lemma_split_lines_len(b);
        assert(s[0] == a[0]);
        assert(s.subrange(1, s.len() as int) =~= a2 + seq!['\n'] + b);
        let rest = split_lines(a2 + seq!['\n'] + b);
        assert(rest =~~= seq![a2] + split_lines(b));
        assert(rest[0] == a2);
        assert(seq![s[0]] + rest[0] =~= a);
        assert(rest.subrange(1, rest.len() as int) =~~= split_lines(b));
        assert(split_lines(s) =~~= seq![a] + split_lines(b));
    }
}

proof fn lemma_trim_end_clean(s: Seq<char>)
    requires
        s.len() == 0 || !is_space(s[s.len() - 1]),
    ensures
        trim_end_chars(s) == s,
{
}

/// Trimming ignores an all-blank suffix.
proof fn lemma_trim_end_spaces(s: Seq<char>, k: int)
    requires
        0 <= k <= s.len(),
        forall|j: int| k <= j < s.len() ==> is_space(s[j]),
    ensures
        trim_end_chars(s) == trim_end_chars(s.subrange(0, k)),
    decreases s.len() - k,
{
    if k == s.len() {
        assert(s.subrange(0, k) =~= s);
    } else {
        assert(is_space(s[s.len() - 1]));
        let s2 = s.drop_last();
        assert(s2 =~= s.subrange(0, s.len() - 1));
        lemma_trim_end_spaces(s2, k);
        assert(s2.subrange(0, k) =~= s.subrange(0, k));
    }
}

proof fn lemma_trim_start_spaces(s: Seq<char>, k: int)
    requires
        0 <= k <= s.len(),
        forall|j: int| 0 <= j < k ==> is_space(s[j]),
    ensures
        trim_start_chars(s) == trim_start_chars(s.subrange(k, s.len() as int)),
    decreases k,
{
    if k == 0 {
        assert(s.subrange(0, s.len() as int) =~= s);
    } else {
        assert(is_space(s[0]));
        let s2 = s.subrange(1, s.len() as int);
        lemma_trim_start_spaces(s2, k - 1);
        assert(s2.subrange(k - 1, s2.len() as int) =~= s.subrange(k, s.len() as int));
    }
}

proof fn lemma_trim_start_clean(s: Seq<char>)
    requires
        s.len() == 0 || !is_space(s[0]),
    ensures
        trim_start_chars(s) == s,
{
}

/// `- [ ] `, the open-checkbox prefix.
pub open spec fn open_prefix() -> Seq<char> {
    seq!['-', ' ', '[', ' ', ']', ' ']
}

/// `- [x] `, the done-checkbox prefix the codec writes.
pub open spec fn done_prefix() -> Seq<char> {
    seq!['-', ' ', '[', 'x', ']', ' ']
}

/// The marks accepted inside a done checkbox.
pub open spec fn is_done_mark(c: char) -> bool {
    c == 'x' || c == 'X' || c == '-' || c == '/' || c == '<' || c == '>' || c == '*'
}

/// What a right-trimmed line yields if it is a checkbox at column 0:
/// the text after the prefix and the completion flag.
pub open spec fn checkbox_chars(t: Seq<char>) -> Option<(Seq<char>, bool)> {
    if t.len() >= 6 && t[0] == '-' && t[1] == ' ' && t[2] == '[' && t[4] == ']' && t[5] == ' ' {
        if t[3] == ' ' {
            Some((t.subrange(6, t.len() as int), false))
        } else if is_done_mark(t[3]) {
            Some((t.subrange(6, t.len() as int), true))
        } else {
            None
        }
    } else {
        None
    }
}

/// What one body line (any line but the first) yields: a major record for
/// a checkbox at column 0, a sub record for an indented checkbox, nothing
/// for anything else.
pub open spec fn parse_body_line(raw: Seq<char>) -> Option<Rec> {
    let t = trim_end_chars(raw);
    if begins_with(t, seq!['-', ' ', '[']) {
        match checkbox_chars(t) {
            Some((tx, done)) => Some(Rec { text: tx, completed: done, level: Level::Major }),
            None => None,
        }
    } else {
        match checkbox_chars(trim_start_chars(t)) {
            Some((tx, done)) => Some(Rec { text: tx, completed: done, level: Level::Sub }),
            None => None,
        }
    }
}

/// The records of body lines `1 .. i`, in order.
pub open spec fn parse_upto(lines: Seq<Seq<char>>, i: int) -> Seq<Rec>
    decreases i,
{
    if i <= 1 {
        Seq::empty()
    } else {
        parse_upto(lines, i - 1) + match parse_body_line(lines[i - 1]) {
            Some(r) => seq![r],
            None => Seq::empty(),
        }
    }
}

/// The title is the first line, right-trimmed, with every leading `# `
/// removed.
pub open spec fn strip_title(s: Seq<char>) -> Seq<char>
    decreases s.len(),
{
    if begins_with(s, seq!['#', ' ']) {
        strip_title(s.subrange(2, s.len() as int))
    } else {
        s
    }
}

/// Pads a text with trailing blanks until it avoids `seen`, giving up
/// after `fuel` tries (more tries than `seen` has entries always succeed).
pub open spec fn pad_fresh(t: Seq<char>, seen: Seq<Seq<char>>, fuel: nat) -> Seq<char>
    decreases fuel,
{
    if fuel == 0 {
        t
    } else if seen.contains(t) {
        pad_fresh(t + seq![' '], seen, (fuel - 1) as nat)
    } else {
        t
    }
}

/// Distinguishes open major records that share one literal text: each
/// after the first gains invisible trailing padding, so text-equality
/// operations treat genuinely distinct duplicates as distinct.
pub open spec fn dedup_from(rs: Seq<Rec>, i: int, seen: Seq<Seq<char>>) -> Seq<Rec>
    decreases rs.len() - i,
{
    if i < 0 || i >= rs.len() {
        Seq::empty()
    } else {
        let r = rs[i];
        if r.level == Level::Major && !r.completed {
            let t2 = pad_fresh(r.text, seen, (seen.len() + 1) as nat);
            seq![Rec { text: t2, completed: false, level: Level::Major }] + dedup_from(
                rs,
                i + 1,
                seen.push(t2),
            )
        } else {
            seq![r] + dedup_from(rs, i + 1, seen)
        }
    }
}

/// What `parse` yields on a document: its title and its records.
pub open spec fn parse_doc(text: Seq<char>) -> (Seq<char>, Seq<Rec>) {
    let lines = split_lines(text);
    let title = strip_title(trim_end_chars(lines[0]));
    let rs = dedup_from(parse_upto(lines, lines.len() as int), 0, Seq::empty());
    (title, rs)
}

/// One serialized record line, newline included: indentation for a sub
/// record, the checkbox prefix for its flag, then the right-trimmed text.
pub open spec fn record_line(r: Rec) -> Seq<char> {
    record_content(r) + seq!['\n']
}

/// A serialized record line without its final newline.
pub open spec fn record_content(r: Rec) -> Seq<char> {
    let indent: Seq<char> = if r.level == Level::Sub {
        seq![' ', ' ']
    } else {
        Seq::empty()
    };
    let prefix: Seq<char> = if r.completed {
        done_prefix()
    } else {
        open_prefix()
    };
    indent + prefix + trim_end_chars(r.text)
}

pub open spec fn serialize_records(rs: Seq<Rec>, i: int) -> Seq<char>
    decreases rs.len() - i,
{
    if i < 0 || i >= rs.len() {
        Seq::empty()
    } else {
        record_line(rs[i]) + serialize_records(rs, i + 1)
    }
}

/// What `serialize` yields: the regenerated title header, a blank line,
/// then one line per record in order.
pub open spec fn serialize_doc(title: Seq<char>, rs: Seq<Rec>) -> Seq<char> {
    seq!['#', ' '] + title + seq!['\n', '\n'] + serialize_records(rs, 0)
}

/// Character-wise string equality.
pub fn str_eq(a: &str, b: &str) -> (r: bool)
    ensures
        r == (a@ == b@),
{
    let n = a.unicode_len();
    if n != b.unicode_len() {
        proof {
            assert(a@ != b@);
        }
        return false;
    }
    let mut i: usize = 0;
    while i < n
        invariant
            i <= n,
            n == a@.len(),
            n == b@.len(),
            forall|j: int| 0 <= j < i ==> a@[j] == b@[j],
        decreases n - i,
    {
        if a.get_char(i) != b.get_char(i) {
            return false;
        }
        i = i + 1;
    }
    proof {
        assert(a@ =~= b@);
    }
    true
}

fn is_space_ex(c: char) -> (r: bool)
    ensures
        r == is_space(c),
{
    c == ' ' || c == '\t' || c == '\r'
}

pub fn trim_end_str<'a>(s: &'a str) -> (r: &'a str)
    ensures
        r@ == trim_end_chars(s@),
{
    let n = s.unicode_len();
    let mut k = n;
    while k > 0 && is_space_ex(s.get_char(k - 1))
        invariant
            k <= n,
            n == s@.len(),
            forall|j: int| k <= j < n ==> is_space(s@[j]),
        decreases k,
    {
        k = k - 1;
    }
    proof {
        lemma_trim_end_spaces(s@, k as int);
        lemma_trim_end_clean(s@.subrange(0, k as int));
    }
    s.substring_char(0, k)
}

pub fn trim_start_str<'a>(s: &'a str) -> (r: &'a str)
    ensures
        r@ == trim_start_chars(s@),
{
    let n = s.unicode_len();
    let mut k: usize = 0;
    while k < n && is_space_ex(s.get_char(k))
        invariant
            k <= n,
            n == s@.len(),
            forall|j: int| 0 <= j < k ==> is_space(s@[j]),
        decreases n - k,
    {
        k = k + 1;
    }
    proof {
        lemma_trim_start_spaces(s@, k as int);
        lemma_trim_start_clean(s@.subrange(k as int, s@.len() as int));
    }
    s.substring_char(k, n)
}

/// Splits a right-trimmed line as a column-0 checkbox, if it is one.
fn checkbox_split<'a>(t: &'a str) -> (r: Option<(&'a str, bool)>)
    ensures
        match (r, checkbox_chars(t@)) {
            (Some((tx, d)), Some((stx, sd))) => tx@ == stx && d == sd,
            (None, None) => true,
            _ => false,
        },
{
    let n = t.unicode_len();
    if n < 6 {
        return None;
    }
    if !(t.get_char(0) == '-' && t.get_char(1) == ' ' && t.get_char(2) == '[' && t.get_char(4)
        == ']' && t.get_char(5) == ' ') {
        return None;
    }
    let mark = t.get_char(3);
    if mark == ' ' {
        Some((t.substring_char(6, n), false))
    } else if mark == 'x' || mark == 'X' || mark == '-' || mark == '/' || mark == '<' || mark
        == '>' || mark == '*' {
        Some((t.substring_char(6, n), true))
    } else {
        None
    }
}

pub fn split_lines_ex<'a>(s: &'a str) -> (lines: Vec<&'a str>)
    ensures
        lines@.len() == split_lines(s@).len(),
        forall|i: int| 0 <= i < lines@.len() ==> lines@[i]@ == split_lines(s@)[i],
{
    let n = s.unicode_len();
    let mut lines: Vec<&str> = Vec::new();
    proof {
        assert(s@.subrange(0, n as int) =~= s@);
        assert(lines@.map_values(|x: &str| x@) =~~= Seq::<Seq<char>>::empty());
    }
    let mut start: usize = 0;
    let mut i: usize = 0;
    while i < n
        invariant
            start <= i <= n,
            n == s@.len(),
            forall|j: int| start <= j < i ==> s@[j] != '\n',
            lines@.map_values(|x: &str| x@) + split_lines(
                s@.subrange(start as int, n as int),
            ) =~~= split_lines(s@),
        decreases n - i,
    {
        if s.get_char(i) == '\n' {
            let seg = s.substring_char(start, i);
            proof {
                assert(s@.subrange(start as int, n as int) =~= s@.subrange(start as int, i as int)
                    + seq!['\n'] + s@.subrange(i + 1, n as int));
                lemma_split_lines_append(
                    s@.subrange(start as int, i as int),
                    s@.subrange(i + 1, n as int),
                );
            }
            let ghost prev = lines@.map_values(|x: &str| x@);
            lines.push(seg);
            proof {
                assert(lines@.map_values(|x: &str| x@) =~~= prev + seq![seg@]);
            }
            start = i + 1;
        }
        i = i + 1;
    }
    let seg = s.substring_char(start, n);
    proof {
        lemma_split_lines_no_nl(s@.subrange(start as int, n as int));
    }
    lines.push(seg);
    proof {
        assert(lines@.map_values(|x: &str| x@) + Seq::<Seq<char>>::empty() =~~= split_lines(s@));
        assert(forall|i: int|
            0 <= i < lines@.len() ==> lines@[i]@ == #[trigger] split_lines(s@)[i]);
    }
    lines
}

fn strip_title_ex<'a>(t: &'a str) -> (r: &'a str)
    ensures
        r@ == strip_title(t@),
{
    let mut cur = t;
    let mut n = cur.unicode_len();
    while n >= 2 && cur.get_char(0) == '#' && cur.get_char(1) == ' '
        invariant
            n == cur@.len(),
            strip_title(t@) == strip_title(cur@),
        decreases n,
    {
        proof {
            assert(begins_with(cur@, seq!['#', ' ']));
        }
        cur = cur.substring_char(2, n);
        n = n - 2;
    }
    proof {
        assert(!begins_with(cur@, seq!['#', ' ']));
    }
    cur
}

/// Parses one body line into a record, if it is a checkbox line.
fn parse_line_ex(line: &str) -> (r: Option<TaskRecord>)
    ensures
        match (r, parse_body_line(line@)) {
            (Some(rec), Some(m)) => rec@ == m,
            (None, None) => true,
            _ => false,
        },
{
    let t = trim_end_str(line);
    let n = t.unicode_len();
    if n >= 3 && t.get_char(0) == '-' && t.get_char(1) == ' ' && t.get_char(2) == '[' {
        proof {
            assert(begins_with(t@, seq!['-', ' ', '[']));
        }
        match checkbox_split(t) {
            Some((tx, done)) => Some(
                TaskRecord { text: tx.to_owned(), completed: done, level: Level::Major },
            ),
            None => None,
        }
    } else {
        proof {
            assert(!begins_with(t@, seq!['-', ' ', '[']));
        }
        let t2 = trim_start_str(t);
        match checkbox_split(t2) {
            Some((tx, done)) => Some(
                TaskRecord { text: tx.to_owned(), completed: done, level: Level::Sub },
            ),
            None => None,
        }
    }
}

/// The views of a vector of strings.
pub open spec fn strs(v: Seq<String>) -> Seq<Seq<char>> {
    v.map_values(|s: String| s@)
}

pub fn contains_str(v: &Vec<String>, x: &String) -> (r: bool)
    ensures
        r == strs(v@).contains(x@),
{
    let mut i: usize = 0;
    while i < v.len()
        invariant
            i <= v@.len(),
            forall|j: int| 0 <= j < i ==> v@[j]@ != x@,
        decreases v@.len() - i,
    {
        if v[i] == *x {
            proof {
                assert(strs(v@)[i as int] == x@);
            }
            return true;
        }
        i = i + 1;
    }
    proof {
        assert(forall|j: int| 0 <= j < v@.len() ==> strs(v@)[j] == #[trigger] v@[j]@);
        assert(!strs(v@).contains(x@));
    }
    false
}

fn pad_fresh_ex(t: String, seen: &Vec<String>) -> (r: String)
    requires
        seen@.len() < usize::MAX,
    ensures
        r@ == pad_fresh(t@, strs(seen@), (seen@.len() + 1) as nat),
{
    let mut cand = t;
    let mut fuel: usize = seen.len() + 1;
    let ghost t0 = cand@;
    let ghost f0 = fuel as nat;
    while fuel > 0 && contains_str(seen, &cand)
        invariant
            pad_fresh(t0, strs(seen@), f0) == pad_fresh(cand@, strs(seen@), fuel as nat),
        decreases fuel,
    {
        proof {
            reveal_strlit(" ");
            assert(strs(seen@).contains(cand@));
        }
        let ghost before = cand@;
        cand.append(" ");
        proof {
            assert(cand@ =~= before + seq![' ']);
        }
        fuel = fuel - 1;
    }
    cand
}

/// Applies the duplicate-disambiguation padding of `dedup_from`.
fn dedup_records(raw: Vec<TaskRecord>) -> (out: Vec<TaskRecord>)
    ensures
        recs(out@) =~~= dedup_from(recs(raw@), 0, Seq::empty()),
{
    let ghost rs = recs(raw@);
    let mut seen: Vec<String> = Vec::new();
    let mut out: Vec<TaskRecord> = Vec::new();
    proof {
        assert(strs(seen@) =~~= Seq::empty());
        assert(recs(out@) =~~= Seq::empty());
    }
    let mut i: usize = 0;
    while i < raw.len()
        invariant
            i <= raw@.len(),
            rs == recs(raw@),
            seen@.len() <= i,
            dedup_from(rs, 0, Seq::empty()) =~~= recs(out@) + dedup_from(
                rs,
                i as int,
                strs(seen@),
            ),
        decreases raw@.len() - i,
    {
        let r = &raw[i];
        assert(rs[i as int] == raw@[i as int]@);
        let ghost prev_out = recs(out@);
        let ghost prev_seen = strs(seen@);
        if r.level == Level::Major && !r.completed {
            let t2 = pad_fresh_ex(r.text.clone(), &seen);
            let ghost t2v = t2@;
            out.push(TaskRecord { text: t2.clone(), completed: false, level: Level::Major });
            seen.push(t2);
            proof {
                assert(strs(seen@) =~~= prev_seen.push(t2v));
                assert(recs(out@) =~~= prev_out + seq![
                    Rec { text: t2v, completed: false, level: Level::Major },
                ]);
            }
        } else {
            out.push(
                TaskRecord { text: r.text.clone(), completed: r.completed, level: r.level },
            );
            proof {
                assert(recs(out@) =~~= prev_out + seq![rs[i as int]]);
            }
        }
        i = i + 1;
    }
    out
}

/// Parses a document into its title and its record sequence.
pub fn parse(text: &str) -> (r: (String, Vec<TaskRecord>))
    ensures
        r.0@ == parse_doc(text@).0,
        recs(r.1@) == parse_doc(text@).1,
{
    proof {
        lemma_split_lines_len(text@);
    }
    let lines = split_lines_ex(text);
    let ghost lv = split_lines(text@);
    let title = strip_title_ex(trim_end_str(lines[0]));
    let mut raw: Vec<TaskRecord> = Vec::new();
    let mut i: usize = 1;
    while i < lines.len()
        invariant
            1 <= i <= lines@.len(),
            lv == split_lines(text@),
            lines@.len() == lv.len(),
            forall|j: int| 0 <= j < lines@.len() ==> lines@[j]@ == lv[j],
            recs(raw@) =~~= parse_upto(lv, i as int),
        decreases lines@.len() - i,
    {
        let ghost prev = recs(raw@);
        match parse_line_ex(lines[i]) {
            Some(rec) => {
                let ghost rv = rec@;
                raw.push(rec);
                proof {
                    assert(recs(raw@) =~~= prev + seq![rv]);
                }
            },
            None => {},
        }
        i = i + 1;
    }
    let out = dedup_records(raw);
    (title.to_owned(), out)
}

/// Serializes a title and records back into document text.
pub fn serialize(title: &str, records: &Vec<TaskRecord>) -> (r: String)
    ensures
        r@ == serialize_doc(title@, recs(records@)),
{
    proof {
        reveal_strlit("# ");
        reveal_strlit("\n\n");
        reveal_strlit("\n");
        reveal_strlit("  ");
        reveal_strlit("- [ ] ");
        reveal_strlit("- [x] ");
    }
    let ghost rs = recs(records@);
    let mut s = String::new();
    s.append("# ");
    s.append(title);
    s.append("\n\n");
    proof {
        assert(s@ =~= seq!['#', ' '] + title@ + seq!['\n', '\n']);
    }
    let mut i: usize = 0;
    while i < records.len()
        invariant
            i <= records@.len(),
            rs == recs(records@),
            s@ + serialize_records(rs, i as int) =~= serialize_doc(title@, rs),
        decreases records@.len() - i,
    {
        proof {
            reveal_strlit("\n");
            reveal_strlit("  ");
            reveal_strlit("- [ ] ");
            reveal_strlit("- [x] ");
        }
        assert(rs[i as int] == records@[i as int]@);
        let ghost prev = s@;
        let r = &records[i];
        if r.level == Level::Sub {
            s.append("  ");
        }
        if r.completed {
            s.append("- [x] ");
        } else {
            s.append("- [ ] ");
        }
        s.append(trim_end_str(r.text.as_str()));
        s.append("\n");
        proof {
            assert(s@ =~= prev + record_line(rs[i as int]));
        }
        i = i + 1;
    }
    s
}

/// Entries of `seen` at least `n` characters long.
pub open spec fn count_ge(seen: Seq<Seq<char>>, n: int) -> int
    decreases seen.len(),
{
    if seen.len() == 0 {
        0
    } else {
        (if seen[0].len() >= n {
            1int
        } else {
            0int
        }) + count_ge(seen.drop_first(), n)
    }
}

proof fn lemma_count_ge_bounds(seen: Seq<Seq<char>>, n: int)
    ensures
        0 <= count_ge(seen, n) <= seen.len(),
        count_ge(seen, n + 1) <= count_ge(seen, n),
    decreases seen.len(),
{
    if seen.len() == 0 {
    } else {
        lemma_count_ge_bounds(seen.drop_first(), n);
    }
}

/// A contained text of length `n` strictly separates the counts at `n`
/// and `n + 1`.
proof fn lemma_count_ge_member(seen: Seq<Seq<char>>, t: Seq<char>)
    requires
        seen.contains(t),
    ensures
        count_ge(seen, t.len() as int + 1) < count_ge(seen, t.len() as int),
    decreases seen.len(),
{
    lemma_count_ge_bounds(seen.drop_first(), t.len() as int);
    if seen[0] == t {
        assert(seen[0].len() >= t.len());
        assert(!(seen[0].len() >= t.len() + 1));
    } else {
        let w = choose|w: int| 0 <= w < seen.len() && seen[w] == t;
        assert(seen.drop_first()[w - 1] == t);
        lemma_count_ge_member(seen.drop_first(), t);
        if seen[0].len() >= t.len() + 1 {
            assert(seen[0].len() >= t.len());
        }
    }
}

/// With more fuel than `seen` has entries at least as long as the text,
/// the padding really lands on a fresh text.
proof fn lemma_pad_fresh_escapes(t: Seq<char>, seen: Seq<Seq<char>>, fuel: nat)
    requires
        fuel > count_ge(seen, t.len() as int),
    ensures
        !seen.contains(pad_fresh(t, seen, fuel)),
    decreases fuel,
{
    if seen.contains(t) {
        lemma_count_ge_member(seen, t);
        lemma_count_ge_bounds(seen, t.len() as int);
        lemma_count_ge_bounds(seen, t.len() as int + 1);
        assert(count_ge(seen, t.len() as int) >= 1);
        assert(fuel >= 2);
        let t2 = t + seq![' '];
        assert(t2.len() == t.len() + 1);
        lemma_pad_fresh_escapes(t2, seen, (fuel - 1) as nat);
        assert(pad_fresh(t, seen, fuel) == pad_fresh(t2, seen, (fuel - 1) as nat));
    }
}

/// The duplicate-disambiguation pass leaves no open major record sharing
/// a text with another, nor with anything already seen.
proof fn lemma_dedup_distinct(rs: Seq<Rec>, i: int, seen: Seq<Seq<char>>)
    ensures
        forall|k: int|
            0 <= k < dedup_from(rs, i, seen).len() && (#[trigger] dedup_from(rs, i, seen)[k]).level
                == Level::Major && !dedup_from(rs, i, seen)[k].completed ==> !seen.contains(
                dedup_from(rs, i, seen)[k].text,
            ),
        forall|k1: int, k2: int|
            0 <= k1 < k2 < dedup_from(rs, i, seen).len() && (#[trigger] dedup_from(
                rs,
                i,
                seen,
            )[k1]).level == Level::Major && !dedup_from(rs, i, seen)[k1].completed && (
            #[trigger] dedup_from(rs, i, seen)[k2]).level == Level::Major && !dedup_from(
                rs,
                i,
                seen,
            )[k2].completed ==> dedup_from(rs, i, seen)[k1].text != dedup_from(rs, i, seen)[k2].text,
    decreases rs.len() - i,
{
    if i < 0 || i >= rs.len() {
    } else {
        let r = rs[i];
        let out = dedup_from(rs, i, seen);
        if r.level == Level::Major && !r.completed {
            let t2 = pad_fresh(r.text, seen, (seen.len() + 1) as nat);
            lemma_count_ge_bounds(seen, r.text.len() as int);
            lemma_pad_fresh_escapes(r.text, seen, (seen.len() + 1) as nat);
            let seen2 = seen.push(t2);
            lemma_dedup_distinct(rs, i + 1, seen2);
            let tail = dedup_from(rs, i + 1, seen2);
            assert(out[0].text == t2);
            assert(forall|k: int| 0 <= k < tail.len() ==> out[k + 1] == tail[k]);
            assert(seen2[seen.len() as int] == t2);
            assert forall|k: int|
                0 <= k < out.len() && (#[trigger] out[k]).level == Level::Major
                    && !out[k].completed implies !seen.contains(out[k].text) by {
                if k > 0 {
                    assert(out[k] == tail[k - 1]);
                    if seen.contains(out[k].text) {
                        let w = choose|w: int| 0 <= w < seen.len() && seen[w] == out[k].text;
                        assert(seen2[w] == out[k].text);
                    }
                }
            }
            assert forall|k1: int, k2: int|
                0 <= k1 < k2 < out.len() && (#[trigger] out[k1]).level == Level::Major
                    && !out[k1].completed && (#[trigger] out[k2]).level == Level::Major
                    && !out[k2].completed implies out[k1].text != out[k2].text by {
                if k1 == 0 {
                    assert(out[k2] == tail[k2 - 1]);
                    assert(!seen2.contains(tail[k2 - 1].text));
                    assert(seen2.contains(t2));
                } else {
                    assert(out[k1] == tail[k1 - 1]);
                    assert(out[k2] == tail[k2 - 1]);
                }
            }
        } else {
            lemma_dedup_distinct(rs, i + 1, seen);
            let tail = dedup_from(rs, i + 1, seen);
            assert(out[0] == r);
            assert(forall|k: int| 0 <= k < tail.len() ==> out[k + 1] == tail[k]);
        }
    }
}

/// Parsing disambiguates: no two open major records of a parsed document
/// share a literal text.
pub proof fn lemma_parse_disambiguates(text: Seq<char>)
    ensures
        unique_open_majors(parse_doc(text).1),
{
    let lines = split_lines(text);
    lemma_dedup_distinct(parse_upto(lines, lines.len() as int), 0, Seq::empty());
}

/// A record text that survives a round trip: nonempty, free of newlines,
/// and carrying no trailing blanks (which serialization would trim away).
pub open spec fn wf_text(t: Seq<char>) -> bool {
    t.len() > 0 && trim_end_chars(t) == t && forall|i: int| 0 <= i < t.len() ==> t[i] != '\n'
}

/// A title that survives a round trip: nonempty, free of newlines and
/// trailing blanks, and not itself beginning with the `# ` header mark.
pub open spec fn wf_title(t: Seq<char>) -> bool {
    t.len() > 0 && trim_end_chars(t) == t && !begins_with(t, seq!['#', ' '])
        && forall|i: int| 0 <= i < t.len() ==> t[i] != '\n'
}

/// No two open major records share a literal text, so the load-time
/// duplicate padding has nothing to do.
pub open spec fn unique_open_majors(rs: Seq<Rec>) -> bool {
    forall|i: int, j: int|
        0 <= i < j < rs.len() && rs[i].level == Level::Major && !rs[i].completed
            && rs[j].level == Level::Major && !rs[j].completed ==> rs[i].text != rs[j].text
}

proof fn lemma_trim_end_of_wf(t: Seq<char>)
    requires
        t.len() == 0 || trim_end_chars(t) == t,
    ensures
        t.len() == 0 || !is_space(t[t.len() - 1]),
{
    if t.len() > 0 && is_space(t[t.len() - 1]) {
        lemma_trim_end_len(t.drop_last());
        assert(trim_end_chars(t) == trim_end_chars(t.drop_last()));
        assert(trim_end_chars(t).len() < t.len());
    }
}

proof fn lemma_trim_end_len(s: Seq<char>)
    ensures
        trim_end_chars(s).len() <= s.len(),
    decreases s.len(),
{
    if s.len() > 0 && is_space(s[s.len() - 1]) {
        lemma_trim_end_len(s.drop_last());
    }
}

proof fn lemma_content_no_nl(r: Rec)
    requires
        wf_text(r.text),
    ensures
        forall|i: int| 0 <= i < record_content(r).len() ==> record_content(r)[i] != '\n',
{
}

/// A serialized line, right-trimmed, parses back to exactly its record.
proof fn lemma_parse_content(r: Rec)
    requires
        wf_text(r.text),
    ensures
        parse_body_line(record_content(r)) == Some(r),
{
    let c = record_content(r);
    lemma_trim_end_of_wf(r.text);
    assert(c[c.len() - 1] == r.text[r.text.len() - 1]);
    lemma_trim_end_clean(c);
    if r.level == Level::Major {
        assert(begins_with(c, seq!['-', ' ', '[']));
        assert(c.subrange(6, c.len() as int) =~= r.text);
        assert(parse_body_line(c) == Some(
            Rec { text: c.subrange(6, c.len() as int), completed: r.completed, level: Level::Major },
        ));
        assert(parse_body_line(c)->0 =~~= r);
    } else {
        assert(c[0] == ' ');
        assert(!begins_with(c, seq!['-', ' ', '[']));
        lemma_trim_start_spaces(c, 2);
        let c2 = c.subrange(2, c.len() as int);
        assert(c2[0] == '-');
        lemma_trim_start_clean(c2);
        assert(trim_start_chars(c) == c2);
        assert(c2.subrange(6, c2.len() as int) =~= r.text);
        assert(parse_body_line(c)->0 =~~= r);
    }
}

/// The serialized body splits into one segment per record plus a final
/// empty segment.
proof fn lemma_split_body(rs: Seq<Rec>, i: int)
    requires
        0 <= i <= rs.len(),
        forall|j: int| 0 <= j < rs.len() ==> wf_text(#[trigger] rs[j].text),
    ensures
        split_lines(serialize_records(rs, i)) =~~= Seq::new(
            (rs.len() - i) as nat,
            |j: int| record_content(rs[i + j]),
        ) + seq![Seq::<char>::empty()],
    decreases rs.len() - i,
{
    if i >= rs.len() {
        assert(split_lines(serialize_records(rs, i)) =~~= seq![Seq::<char>::empty()]);
    } else {
        lemma_split_body(rs, i + 1);
        lemma_content_no_nl(rs[i]);
        assert(serialize_records(rs, i) =~= record_content(rs[i]) + seq!['\n']
            + serialize_records(rs, i + 1));
        lemma_split_lines_append(record_content(rs[i]), serialize_records(rs, i + 1));
    }
}

/// Parsing walks the body segments record by record.
proof fn lemma_parse_body_lines(lines: Seq<Seq<char>>, rs: Seq<Rec>, j: int)
    requires
        0 <= j <= rs.len(),
        lines.len() == rs.len() + 3,
        lines[1] == Seq::<char>::empty(),
        forall|k: int| 0 <= k < rs.len() ==> lines[2 + k] == record_content(#[trigger] rs[k]),
        forall|k: int| 0 <= k < rs.len() ==> wf_text(#[trigger] rs[k].text),
    ensures
        parse_upto(lines, 2 + j) =~~= rs.subrange(0, j),
    decreases j,
{
    if j == 0 {
        assert(parse_upto(lines, 2) =~~= parse_upto(lines, 1) + Seq::<Rec>::empty());
        assert(rs.subrange(0, 0) =~~= Seq::<Rec>::empty());
    } else {
        lemma_parse_body_lines(lines, rs, j - 1);
        lemma_parse_content(rs[j - 1]);
        assert(lines[2 + (j - 1)] == record_content(rs[j - 1]));
        assert(rs.subrange(0, j) =~~= rs.subrange(0, j - 1) + seq![rs[j - 1]]);
    }
}

/// When no two open major records share a text, the duplicate padding
/// pass is the identity.
proof fn lemma_dedup_id(rs: Seq<Rec>, i: int, seen: Seq<Seq<char>>)
    requires
        0 <= i <= rs.len(),
        unique_open_majors(rs),
        forall|j: int|
            i <= j < rs.len() && rs[j].level == Level::Major && !rs[j].completed
                ==> !seen.contains(#[trigger] rs[j].text),
    ensures
        dedup_from(rs, i, seen) =~~= rs.subrange(i, rs.len() as int),
    decreases rs.len() - i,
{
    if i >= rs.len() {
    } else {
        let r = rs[i];
        if r.level == Level::Major && !r.completed {
            assert(!seen.contains(r.text));
            let t2 = pad_fresh(r.text, seen, (seen.len() + 1) as nat);
            assert(t2 == r.text);
            let seen2 = seen.push(t2);
            assert forall|j: int|
                i + 1 <= j < rs.len() && rs[j].level == Level::Major && !rs[j].completed implies
                !seen2.contains(#[trigger] rs[j].text) by {
                assert(rs[j].text != r.text);
                if seen2.contains(rs[j].text) {
                    let w = choose|w: int| 0 <= w < seen2.len() && seen2[w] == rs[j].text;
                    assert(w < seen.len() ==> seen.contains(rs[j].text));
                }
            }
            lemma_dedup_id(rs, i + 1, seen2);
            assert(seq![Rec { text: t2, completed: false, level: Level::Major }] =~~= seq![r]);
            assert(seq![r] + rs.subrange(i + 1, rs.len() as int) =~= rs.subrange(
                i,
                rs.len() as int,
            ));
        } else {
            lemma_dedup_id(rs, i + 1, seen);
            assert(seq![r] + rs.subrange(i + 1, rs.len() as int) =~= rs.subrange(
                i,
                rs.len() as int,
            ));
        }
    }
}

/// Round trip: serializing a title and records and parsing the result
/// gives them back, provided the title and every text are well formed and
/// no two open major records share a literal text.
pub proof fn lemma_round_trip(title: Seq<char>, rs: Seq<Rec>)
    requires
        wf_title(title),
        forall|j: int| 0 <= j < rs.len() ==> wf_text(#[trigger] rs[j].text),
        unique_open_majors(rs),
    ensures
        parse_doc(serialize_doc(title, rs)).0 =~~= title,
        parse_doc(serialize_doc(title, rs)).1 =~~= rs,
{
    let doc = serialize_doc(title, rs);
    let line0 = seq!['#', ' '] + title;
    let body = serialize_records(rs, 0);
    // The document splits into the title line, a blank line, the record
    // lines, and a final empty segment.
    assert(doc =~= line0 + seq!['\n'] + (Seq::<char>::empty() + seq!['\n'] + body));
    lemma_split_lines_append(line0, Seq::<char>::empty() + seq!['\n'] + body);
    lemma_split_lines_append(Seq::<char>::empty(), body);
    lemma_split_body(rs, 0);
    let lines = split_lines(doc);
    assert(lines =~~= seq![line0] + (seq![Seq::<char>::empty()] + (Seq::new(
        rs.len(),
        |j: int| record_content(rs[j]),
    ) + seq![Seq::<char>::empty()])));
    assert(lines.len() == rs.len() + 3);
    // The title comes back unchanged.
    lemma_trim_end_of_wf(title);
    assert(line0[line0.len() - 1] == title[title.len() - 1]);
    lemma_trim_end_clean(line0);
    assert(begins_with(line0, seq!['#', ' ']));
    assert(line0.subrange(2, line0.len() as int) =~= title);
    assert(strip_title(line0) == strip_title(title));
    assert(strip_title(title) == title);
    // The records come back unchanged.
    assert(lines[1] == Seq::<char>::empty());
    assert(forall|k: int|
        0 <= k < rs.len() ==> lines[2 + k] == record_content(#[trigger] rs[k]));
    lemma_parse_body_lines(lines, rs, rs.len() as int);
    assert(lines.len() == 2 + rs.len() + 1);
    assert(parse_upto(lines, lines.len() as int) =~~= parse_upto(lines, lines.len() - 1) + Seq::<
        Rec,
    >::empty());
    assert(parse_upto(lines, lines.len() as int) =~~= rs.subrange(0, rs.len() as int));
    assert(rs.subrange(0, rs.len() as int) =~= rs);
    assert forall|j: int|
        0 <= j < rs.len() && rs[j].level == Level::Major && !rs[j].completed implies !Seq::<
        Seq<char>,
    >::empty().contains(#[trigger] rs[j].text) by {}
    lemma_dedup_id(parse_upto(lines, lines.len() as int), 0, Seq::empty());
}

} // verus!
