//! The record store: the `records` table as the storage engine holds it,
//! its well-formedness invariant, the online date-column migration, and the
//! create/update/delete operations with sign normalization.

use vstd::prelude::*;
use vstd::pervasive::VecAdditionalExecFns;

use crate::points::PointType;
use crate::points::spec_normalize;
use crate::points::stored_sign_ok;
use crate::points::normalize_points;
use crate::clock::stamp_pair;
use crate::clock::now_strings;
use crate::record::Record;
use crate::text::prefix_chars;
use crate::text::lex_lt;
use crate::text::str_lt;
use crate::text::str_eq;
use crate::text::str_contains_ci;
use crate::text::contains_ci;

verus! {

/// One stored row of the `records` table. The `date` column is nullable:
/// databases created before the column existed hold `None` until the
/// migration backfills them.
pub struct Row {
    pub id: i32,
    pub student_id: String,
    pub name: String,
    pub reason: String,
    pub points: i32,
    pub point_type: PointType,
    pub timestamp: String,
    pub date: Option<String>,
}

impl Clone for Row {
    fn clone(&self) -> (r: Row)
        ensures
            r == *self,
    {
        Row {
            id: self.id,
            student_id: self.student_id.clone(),
            name: self.name.clone(),
            reason: self.reason.clone(),
            points: self.points,
            point_type: self.point_type,
            timestamp: self.timestamp.clone(),
            date: match &self.date {
                Some(d) => Some(d.clone()),
                None => None,
            },
        }
    }
}

/// The effective date of a row as every read reports it: the stored date
/// when present, otherwise the calendar-date prefix of the timestamp.
pub open spec fn row_date(r: Row) -> Seq<char> {
    match r.date {
        Some(d) => d@,
        None => r.timestamp@.take(
            if r.timestamp@.len() <= 10 {
                r.timestamp@.len() as int
            } else {
                10
            },
        ),
    }
}

/// `a` must be listed strictly before `b`: its effective date is later, or
/// the dates are equal and its timestamp is later. Rows equal in both keys
/// are not ordered by this relation, so insertion keeps their entry order.
pub open spec fn row_before(a: Row, b: Row) -> bool {
    ||| lex_lt(row_date(b), row_date(a))
    ||| (row_date(a) == row_date(b) && lex_lt(b.timestamp@, a.timestamp@))
}

/// Where a row lands in an already ordered list: after every entry it is
/// not strictly before, and in front of the first entry it is strictly
/// before.
pub open spec fn insert_row_desc(s: Seq<Row>, x: Row) -> Seq<Row>
    decreases s.len(),
{
    if s.len() == 0 {
        seq![x]
    } else if row_before(x, s[0]) {
        seq![x] + s
    } else {
        seq![s[0]] + insert_row_desc(s.skip(1), x)
    }
}

/// The rows in presentation order — effective date descending, then
/// timestamp descending: each entry inserted in turn, so equal keys stay
/// in entry order.
pub open spec fn sort_rows(s: Seq<Row>) -> Seq<Row>
    decreases s.len(),
{
    if s.len() == 0 {
        s
    } else {
        insert_row_desc(sort_rows(s.drop_last()), s.last())
    }
}

/// No row in an ordered listing must strictly precede a row listed
/// before it.
pub open spec fn rows_ordered(s: Seq<Row>) -> bool {
    forall|i: int, j: int| 0 <= i < j < s.len() ==> !row_before(#[trigger] s[j], #[trigger] s[i])
}

proof fn lemma_row_before_trans(a: Row, b: Row, c: Row)
    requires
        row_before(a, b),
        row_before(b, c),
    ensures
        row_before(a, c),
{
    if lex_lt(row_date(b), row_date(a)) && lex_lt(row_date(c), row_date(b)) {
        crate::text::lemma_lex_lt_trans(row_date(c), row_date(b), row_date(a));
    } else if row_date(a) == row_date(b) && row_date(b) == row_date(c) {
        crate::text::lemma_lex_lt_trans(c.timestamp@, b.timestamp@, a.timestamp@);
    }
}

proof fn lemma_row_before_irrefl(a: Row)
    ensures
        !row_before(a, a),
{
    crate::text::lemma_lex_lt_irrefl(row_date(a));
    crate::text::lemma_lex_lt_irrefl(a.timestamp@);
}

proof fn lemma_insert_row_ordered(s: Seq<Row>, x: Row)
    requires
        rows_ordered(s),
    ensures
        rows_ordered(insert_row_desc(s, x)),
    decreases s.len(),
{
    if s.len() == 0 {
    } else if row_before(x, s[0]) {
        let t = seq![x] + s;
        assert forall|i: int, j: int| 0 <= i < j < t.len() implies !row_before(t[j], t[i]) by {
            if i == 0 {
                if row_before(t[j], x) {
                    lemma_row_before_trans(t[j], x, s[0]);
                    if j == 1 {
                        lemma_row_before_irrefl(s[0]);
                    }
                }
            } else {
                assert(t[i] == s[i - 1] && t[j] == s[j - 1]);
            }
        }
    } else {
        assert(rows_ordered(s.skip(1)));
        lemma_insert_row_ordered(s.skip(1), x);
        let r = insert_row_desc(s.skip(1), x);
        let t = seq![s[0]] + r;
        lemma_insert_row_members(s.skip(1), x);
        assert forall|i: int, j: int| 0 <= i < j < t.len() implies !row_before(t[j], t[i]) by {
            if i == 0 {
                // the tail holds only x and rows that already followed s[0]
                if row_before(t[j], s[0]) {
                    let e = r[j - 1];
                    if e == x {
                    } else {
                        let k = choose|k: int| 0 <= k < s.skip(1).len() && s.skip(1)[k] == e;
                        assert(s[k + 1] == e);
                    }
                }
            } else {
                assert(t[i] == r[i - 1] && t[j] == r[j - 1]);
            }
        }
    }
}

proof fn lemma_insert_row_members(s: Seq<Row>, x: Row)
    ensures
        forall|j: int|
            0 <= j < insert_row_desc(s, x).len() ==> (#[trigger] insert_row_desc(s, x)[j]) == x
                || s.contains(insert_row_desc(s, x)[j]),
    decreases s.len(),
{
    if s.len() == 0 {
    } else if row_before(x, s[0]) {
        assert forall|j: int| 0 <= j < insert_row_desc(s, x).len() implies (#[trigger] insert_row_desc(
            s,
            x,
        )[j]) == x || s.contains(insert_row_desc(s, x)[j]) by {
            if j > 0 {
                assert(insert_row_desc(s, x)[j] == s[j - 1]);
            }
        }
    } else {
        lemma_insert_row_members(s.skip(1), x);
        let r = insert_row_desc(s.skip(1), x);
        assert forall|j: int| 0 <= j < (seq![s[0]] + r).len() implies (#[trigger] (seq![s[0]]
            + r)[j]) == x || s.contains((seq![s[0]] + r)[j]) by {
            if j == 0 {
                assert(s.contains(s[0]));
            } else {
                assert((seq![s[0]] + r)[j] == r[j - 1]);
                if r[j - 1] == x {
                } else {
                    let k = choose|k: int| 0 <= k < s.skip(1).len() && s.skip(1)[k] == r[j - 1];
                    assert(s[k + 1] == r[j - 1]);
                    assert(s.contains(s[k + 1]));
                }
            }
        }
    }
}

/// The listing order the reads return really is ordered: no record is
/// placed after one it must precede — latest effective date first, ties
/// by latest timestamp, remaining ties in entry order.
pub proof fn lemma_sort_rows_ordered(s: Seq<Row>)
    ensures
        rows_ordered(sort_rows(s)),
    decreases s.len(),
{
    if s.len() > 0 {
        lemma_sort_rows_ordered(s.drop_last());
        lemma_insert_row_ordered(sort_rows(s.drop_last()), s.last());
    }
}

proof fn lemma_insert_row_at(s: Seq<Row>, x: Row, p: int)
    requires
        0 <= p <= s.len(),
        forall|k: int| 0 <= k < p ==> !row_before(x, #[trigger] s[k]),
        p < s.len() ==> row_before(x, s[p]),
    ensures
        insert_row_desc(s, x) == s.insert(p, x),
    decreases p,
{
    if p == 0 {
        assert(insert_row_desc(s, x) =~= s.insert(0, x));
    } else {
        assert(!row_before(x, s[0]));
        lemma_insert_row_at(s.skip(1), x, p - 1);
        assert(seq![s[0]] + s.skip(1).insert(p - 1, x) =~= s.insert(p, x));
    }
}

/// The effective date of a row, as an owned string.
fn row_date_exec(r: &Row) -> (res: String)
    ensures
        res@ == row_date(*r),
{
    match &r.date {
        Some(d) => d.clone(),
        None => prefix_chars(r.timestamp.as_str(), 10),
    }
}

/// Decides the listing order between two rows.
fn row_before_exec(a: &Row, b: &Row) -> (r: bool)
    ensures
        r == row_before(*a, *b),
{
    let da = row_date_exec(a);
    let db = row_date_exec(b);
    if str_lt(db.as_str(), da.as_str()) {
        true
    } else if str_eq(da.as_str(), db.as_str()) {
        str_lt(b.timestamp.as_str(), a.timestamp.as_str())
    } else {
        false
    }
}

/// The position `insert_row_desc` places `x` at in `res`: just before the
/// first entry that `x` must precede.
fn find_row_insert_pos(res: &Vec<Row>, x: &Row) -> (p: usize)
    ensures
        p <= res@.len(),
        forall|k: int| 0 <= k < p ==> !row_before(*x, #[trigger] res@[k]),
        p < res@.len() ==> row_before(*x, res@[p as int]),
{
    let mut p: usize = 0;
    while p < res.len()
        invariant
            p <= res@.len(),
            forall|k: int| 0 <= k < p ==> !row_before(*x, #[trigger] res@[k]),
        decreases res@.len() - p,
    {
        if row_before_exec(x, &res[p]) {
            return p;
        }
        p = p + 1;
    }
    p
}

/// Inserts a row into an ordered list at the position `insert_row_desc`
/// describes.
fn insert_row_sorted(res: &mut Vec<Row>, x: Row)
    ensures
        final (res)@ == insert_row_desc(old(res)@, x),
{
    let p = find_row_insert_pos(res, &x);
    proof {
        lemma_insert_row_at(res@, x, p as int);
    }
    res.insert(p, x);
}

/// The record a row is read back as: same fields, the id filled in, and
/// the effective date coalesced from the date column or the timestamp.
pub open spec fn record_matches_row(rec: Record, row: Row) -> bool {
    &&& rec.id == Some(row.id)
    &&& rec.student_id@ == row.student_id@
    &&& rec.name@ == row.name@
    &&& rec.reason@ == row.reason@
    &&& rec.points == row.points
    &&& rec.point_type == row.point_type
    &&& rec.timestamp@ == row.timestamp@
    &&& rec.date@ == row_date(row)
}

/// Reads one row back as a record.
fn record_from_row(row: &Row) -> (rec: Record)
    ensures
        record_matches_row(rec, *row),
{
    Record {
        id: Some(row.id),
        student_id: row.student_id.clone(),
        name: row.name.clone(),
        reason: row.reason.clone(),
        points: row.points,
        point_type: row.point_type,
        timestamp: row.timestamp.clone(),
        date: row_date_exec(row),
    }
}

/// Reads a list of rows back as records, keeping their order.
fn rows_to_records(rows: &Vec<Row>) -> (res: Vec<Record>)
    ensures
        res@.len() == rows@.len(),
        forall|i: int|
            0 <= i < res@.len() ==> record_matches_row(#[trigger] res@[i], rows@[i]),
{
    let mut res: Vec<Record> = Vec::new();
    let mut i: usize = 0;
    while i < rows.len()
        invariant
            i <= rows@.len(),
            res@.len() == i,
            forall|k: int| 0 <= k < i ==> record_matches_row(#[trigger] res@[k], rows@[k]),
        decreases rows@.len() - i,
    {
        res.push(record_from_row(&rows[i]));
        i = i + 1;
    }
    res
}

/// A row matches a search term when its student id, name or reason
/// contains it, case-insensitively.
pub open spec fn row_matches_term(r: Row, term: Seq<char>) -> bool {
    ||| contains_ci(r.student_id@, term)
    ||| contains_ci(r.name@, term)
    ||| contains_ci(r.reason@, term)
}

/// The rows a record search keeps, in stored order.
pub open spec fn filter_by_term(s: Seq<Row>, term: Seq<char>) -> Seq<Row> {
    s.filter(|r: Row| row_matches_term(r, term))
}

/// The rows of one student, matched on the exact student id, in stored
/// order.
pub open spec fn filter_by_student(s: Seq<Row>, student_id: Seq<char>) -> Seq<Row> {
    s.filter(|r: Row| r.student_id@ == student_id)
}

/// Which of the three read operations' filters applies.
#[derive(Clone, Copy)]
enum Filter {
    All,
    Term,
    Student,
}

/// The rows a read keeps: all of them, a term search, or one student.
spec fn filter_rows(s: Seq<Row>, filter: Filter, arg: Seq<char>) -> Seq<Row> {
    match filter {
        Filter::All => s,
        Filter::Term => filter_by_term(s, arg),
        Filter::Student => filter_by_student(s, arg),
    }
}

proof fn lemma_filter_rows_push(s: Seq<Row>, x: Row, filter: Filter, arg: Seq<char>)
    ensures
        filter_rows(s.push(x), filter, arg) == (if match filter {
            Filter::All => true,
            Filter::Term => row_matches_term(x, arg),
            Filter::Student => x.student_id@ == arg,
        } {
            filter_rows(s, filter, arg).push(x)
        } else {
            filter_rows(s, filter, arg)
        }),
{
    reveal(Seq::filter);
    assert(s.push(x).drop_last() =~= s);
    assert(s.push(x).last() == x);
}

/// The database file behind the store: the schema (whether the `date`
/// column exists yet), the next id the engine will assign, and the rows.
pub struct Db {
    pub has_date_column: bool,
    pub next_id: i32,
    pub rows: Vec<Row>,
}

impl Clone for Db {
    fn clone(&self) -> (r: Db)
        ensures
            r.has_date_column == self.has_date_column,
            r.next_id == self.next_id,
            r.rows@ == self.rows@,
    {
        let mut rows: Vec<Row> = Vec::new();
        let mut i: usize = 0;
        while i < self.rows.len()
            invariant
                i <= self.rows@.len(),
                rows@ =~= self.rows@.take(i as int),
            decreases self.rows@.len() - i,
        {
            rows.push(self.rows[i].clone());
            proof {
                assert(rows@ =~= self.rows@.take(i + 1));
            }
            i = i + 1;
        }
        proof {
            assert(self.rows@.take(self.rows@.len() as int) =~= self.rows@);
        }
        Db { has_date_column: self.has_date_column, next_id: self.next_id, rows }
    }
}

impl Db {
    /// Invariant of the store: the engine's next id is positive and fresh,
    /// every id is unique, and every stored point value obeys the sign rule
    /// of its category.
    pub open spec fn wf(self) -> bool {
        &&& 1 <= self.next_id
        &&& self.rows@.len() < self.next_id
        &&& forall|i: int|
            0 <= i < self.rows@.len() ==> 1 <= (#[trigger] self.rows@[i]).id < self.next_id
        &&& forall|i: int, j: int|
            0 <= i < j < self.rows@.len() ==> self.rows@[i].id != self.rows@[j].id
        &&& forall|i: int|
            0 <= i < self.rows@.len() ==> stored_sign_ok(
                (#[trigger] self.rows@[i]).points as int,
                self.rows@[i].point_type,
            )
    }

    /// A freshly created database: empty table, date column present from
    /// the start.
    pub fn new() -> (r: Db)
        ensures
            r.wf(),
            r.has_date_column,
            r.next_id == 1,
            r.rows@.len() == 0,
    {
        Db { has_date_column: true, next_id: 1, rows: Vec::new() }
    }
}

/// Two database values hold the same content: same schema state, same next
/// id, and the same rows. This is the equality that matters for a store
/// whose strings may have been copied.
pub open spec fn db_eq(a: Db, b: Db) -> bool {
    &&& a.has_date_column == b.has_date_column
    &&& a.next_id == b.next_id
    &&& a.rows@ == b.rows@
}

/// The migration relation: what one run of the date-column migration does
/// to the store. A database that already has the column is left untouched;
/// otherwise the column is added and every row's missing date is backfilled
/// from the first ten characters of its timestamp.
pub open spec fn migrated(pre: Db, post: Db) -> bool {
    &&& post.has_date_column
    &&& pre.has_date_column ==> db_eq(post, pre)
    &&& !pre.has_date_column ==> {
        &&& post.next_id == pre.next_id
        &&& post.rows@.len() == pre.rows@.len()
        &&& forall|i: int|
            0 <= i < pre.rows@.len() ==> {
                let o = pre.rows@[i];
                let n = #[trigger] post.rows@[i];
                &&& n.id == o.id
                &&& n.student_id == o.student_id
                &&& n.name == o.name
                &&& n.reason == o.reason
                &&& n.points == o.points
                &&& n.point_type == o.point_type
                &&& n.timestamp == o.timestamp
                &&& (o.date is Some ==> n.date == o.date)
                &&& (o.date is None ==> n.date is Some && n.date->0@ == row_date(o))
            }
    }
}

impl Db {
    /// Inspects the schema for the `date` column and adds and backfills it
    /// when absent, as the storage engine does on every startup and after
    /// every restore. Running it on a store that already has the column
    /// changes nothing.
    pub fn migrate(&mut self)
        ensures
            migrated(*old(self), *final (self)),
            old(self).wf() ==> final (self).wf(),
    {
        if self.has_date_column {
            return ;
        }
        self.has_date_column = true;
        let ghost pre_rows = self.rows@;
        let mut i: usize = 0;
        while i < self.rows.len()
            invariant
                i <= self.rows@.len(),
                !old(self).has_date_column,
                self.has_date_column,
                self.next_id == old(self).next_id,
                pre_rows == old(self).rows@,
                self.rows@.len() == pre_rows.len(),
                forall|k: int| i <= k < pre_rows.len() ==> self.rows@[k] == pre_rows[k],
                forall|k: int|
                    0 <= k < i ==> {
                        let o = pre_rows[k];
                        let n = #[trigger] self.rows@[k];
                        &&& n.id == o.id
                        &&& n.student_id == o.student_id
                        &&& n.name == o.name
                        &&& n.reason == o.reason
                        &&& n.points == o.points
                        &&& n.point_type == o.point_type
                        &&& n.timestamp == o.timestamp
                        &&& (o.date is Some ==> n.date == o.date)
                        &&& (o.date is None ==> n.date is Some && n.date->0@ == row_date(o))
                    },
            decreases self.rows@.len() - i,
        {
            if self.rows[i].date.is_none() {
                let filled = Row {
                    id: self.rows[i].id,
                    student_id: self.rows[i].student_id.clone(),
                    name: self.rows[i].name.clone(),
                    reason: self.rows[i].reason.clone(),
                    points: self.rows[i].points,
                    point_type: self.rows[i].point_type,
                    timestamp: self.rows[i].timestamp.clone(),
                    date: Some(prefix_chars(self.rows[i].timestamp.as_str(), 10)),
                };
                self.rows.set(i, filled);
            }
            i = i + 1;
        }
        proof {
            assert forall|k: int| 0 <= k < self.rows@.len() implies {
                &&& (#[trigger] self.rows@[k]).id == old(self).rows@[k].id
                &&& self.rows@[k].points == old(self).rows@[k].points
                &&& self.rows@[k].point_type == old(self).rows@[k].point_type
            } by {}
        }
    }
}

/// Running the migration on a store that one run already brought up to
/// date changes nothing: the second run sees the date column and leaves the
/// store exactly as it found it.
pub proof fn lemma_migration_idempotent(db: Db, once: Db, twice: Db)
    requires
        migrated(db, once),
        migrated(once, twice),
    ensures
        db_eq(twice, once),
{
}

/// In a well-formed store every demerit row holds a non-positive point
/// value: the sign a record is stored with is decided by its category,
/// never by the raw input.
pub proof fn lemma_demerit_stored_nonpositive(db: Db)
    requires
        db.wf(),
    ensures
        forall|i: int|
            0 <= i < db.rows@.len() && (#[trigger] db.rows@[i]).point_type == PointType::Demerit
                ==> db.rows@[i].points <= 0,
{
}

/// A newly written row carries exactly the caller's fields, with the point
/// value sign-normalized, the given timestamp, and the given effective
/// date stored in the (non-null) date column.
pub open spec fn row_written(
    n: Row,
    id: int,
    student_id: Seq<char>,
    name: Seq<char>,
    reason: Seq<char>,
    points: int,
    point_type: PointType,
    timestamp: Seq<char>,
    date: Seq<char>,
) -> bool {
    &&& n.id == id
    &&& n.student_id@ == student_id
    &&& n.name@ == name
    &&& n.reason@ == reason
    &&& n.points == spec_normalize(points, point_type)
    &&& n.point_type == point_type
    &&& n.timestamp@ == timestamp
    &&& n.date is Some
    &&& n.date->0@ == date
}

impl Db {
    /// Appends one record with the given timestamp and effective date,
    /// assigning it the next id and normalizing the point sign.
    pub fn insert_record(
        &mut self,
        student_id: &str,
        name: &str,
        reason: &str,
        points: i32,
        point_type: PointType,
        date: &str,
        timestamp: &str,
    )
        requires
            old(self).wf(),
            old(self).next_id < i32::MAX,
            points != i32::MIN,
        ensures
            final (self).wf(),
            final (self).has_date_column == old(self).has_date_column,
            final (self).next_id == old(self).next_id + 1,
            final (self).rows@.len() == old(self).rows@.len() + 1,
            forall|k: int|
                0 <= k < old(self).rows@.len() ==> final (self).rows@[k] == old(self).rows@[k],
            row_written(
                final (self).rows@.last(),
                old(self).next_id as int,
                student_id@,
                name@,
                reason@,
                points as int,
                point_type,
                timestamp@,
                date@,
            ),
    {
        let row = Row {
            id: self.next_id,
            student_id: student_id.to_owned(),
            name: name.to_owned(),
            reason: reason.to_owned(),
            points: normalize_points(points, point_type),
            point_type,
            timestamp: timestamp.to_owned(),
            date: Some(date.to_owned()),
        };
        self.rows.push(row);
        self.next_id = self.next_id + 1;
    }

    /// Creates a record as the repository's create operation does: the
    /// timestamp is the clock read at minute precision, and the effective
    /// date is the supplied one, or the current calendar date when none is
    /// given — in which case it equals the date part of the timestamp.
    pub fn add_record(
        &mut self,
        student_id: &str,
        name: &str,
        reason: &str,
        points: i32,
        point_type: PointType,
        date: Option<String>,
    )
        requires
            old(self).wf(),
            old(self).next_id < i32::MAX,
            points != i32::MIN,
        ensures
            final (self).wf(),
            final (self).has_date_column == old(self).has_date_column,
            final (self).next_id == old(self).next_id + 1,
            final (self).rows@.len() == old(self).rows@.len() + 1,
            forall|k: int|
                0 <= k < old(self).rows@.len() ==> final (self).rows@[k] == old(self).rows@[k],
            ({
                let n = final (self).rows@.last();
                &&& n.id == old(self).next_id
                &&& n.student_id@ == student_id@
                &&& n.name@ == name@
                &&& n.reason@ == reason@
                &&& n.points == spec_normalize(points as int, point_type)
                &&& n.point_type == point_type
                &&& n.date is Some
                &&& (date is Some ==> n.date->0@ == date->0@ && exists|d0: Seq<char>|
                    stamp_pair(n.timestamp@, d0))
                &&& (date is None ==> stamp_pair(n.timestamp@, n.date->0@))
            }),
    {
        let (ts, today) = now_strings();
        let effective = match date {
            Some(d) => d,
            None => today,
        };
        self.insert_record(
            student_id,
            name,
            reason,
            points,
            point_type,
            effective.as_str(),
            ts.as_str(),
        );
    }

    /// Overwrites every field of the record with the given id, normalizing
    /// the point sign again and refreshing the timestamp to the edit
    /// instant (the original keeps no creation time on edit). A missing id
    /// is a silent no-op, as in the original.
    pub fn update_record(
        &mut self,
        id: i32,
        student_id: &str,
        name: &str,
        reason: &str,
        points: i32,
        point_type: PointType,
        date: &str,
    )
        requires
            old(self).wf(),
            points != i32::MIN,
        ensures
            final (self).wf(),
            final (self).has_date_column == old(self).has_date_column,
            final (self).next_id == old(self).next_id,
            final (self).rows@.len() == old(self).rows@.len(),
            forall|k: int|
                0 <= k < old(self).rows@.len() && old(self).rows@[k].id != id
                    ==> final (self).rows@[k] == old(self).rows@[k],
            forall|k: int|
                0 <= k < old(self).rows@.len() && old(self).rows@[k].id == id ==> ({
                    let n = #[trigger] final (self).rows@[k];
                    &&& n.id == id
                    &&& n.student_id@ == student_id@
                    &&& n.name@ == name@
                    &&& n.reason@ == reason@
                    &&& n.points == spec_normalize(points as int, point_type)
                    &&& n.point_type == point_type
                    &&& n.date is Some
                    &&& n.date->0@ == date@
                    &&& exists|d0: Seq<char>| stamp_pair(n.timestamp@, d0)
                }),
    {
        let (ts, _today) = now_strings();
        let new_points = normalize_points(points, point_type);
        let mut i: usize = 0;
        while i < self.rows.len()
            invariant
                i <= self.rows@.len(),
                old(self).wf(),
                points != i32::MIN,
                self.has_date_column == old(self).has_date_column,
                self.next_id == old(self).next_id,
                self.rows@.len() == old(self).rows@.len(),
                new_points == spec_normalize(points as int, point_type),
                stored_sign_ok(new_points as int, point_type),
                exists|d0: Seq<char>| stamp_pair(ts@, d0),
                forall|k: int|
                    i <= k < old(self).rows@.len() ==> self.rows@[k] == old(self).rows@[k],
                forall|k: int|
                    0 <= k < i && old(self).rows@[k].id != id ==> self.rows@[k] == old(
                        self,
                    ).rows@[k],
                forall|k: int|
                    0 <= k < i && old(self).rows@[k].id == id ==> ({
                        let n = #[trigger] self.rows@[k];
                        &&& n.id == id
                        &&& n.student_id@ == student_id@
                        &&& n.name@ == name@
                        &&& n.reason@ == reason@
                        &&& n.points == spec_normalize(points as int, point_type)
                        &&& n.point_type == point_type
                        &&& n.date is Some
                        &&& n.date->0@ == date@
                        &&& exists|d0: Seq<char>| stamp_pair(n.timestamp@, d0)
                    }),
            decreases self.rows@.len() - i,
        {
            if self.rows[i].id == id {
                let updated = Row {
                    id,
                    student_id: student_id.to_owned(),
                    name: name.to_owned(),
                    reason: reason.to_owned(),
                    points: new_points,
                    point_type,
                    timestamp: ts.clone(),
                    date: Some(date.to_owned()),
                };
                self.rows.set(i, updated);
                proof {
                    let d0 = choose|d0: Seq<char>| stamp_pair(ts@, d0);
                    assert(stamp_pair(self.rows@[i as int].timestamp@, d0));
                }
            }
            i = i + 1;
        }
    }

    /// Returns all records, ordered by effective date descending, then
    /// timestamp descending, ties keeping entry order.
    pub fn get_records(&self) -> (res: Vec<Record>)
        ensures
            res@.len() == sort_rows(self.rows@).len(),
            forall|i: int|
                0 <= i < res@.len() ==> record_matches_row(
                    #[trigger] res@[i],
                    sort_rows(self.rows@)[i],
                ),
    {
        let ordered = self.sorted_rows_where(Filter::All, "");
        rows_to_records(&ordered)
    }

    /// Returns the records whose student id, name or reason contains the
    /// term, case-insensitively; the empty term matches everything. Same
    /// order as `get_records`.
    pub fn search_records(&self, term: &str) -> (res: Vec<Record>)
        ensures
            res@.len() == sort_rows(filter_by_term(self.rows@, term@)).len(),
            forall|i: int|
                0 <= i < res@.len() ==> record_matches_row(
                    #[trigger] res@[i],
                    sort_rows(filter_by_term(self.rows@, term@))[i],
                ),
    {
        let ordered = self.sorted_rows_where(Filter::Term, term);
        rows_to_records(&ordered)
    }

    /// Returns the records of one student, matched on the exact student
    /// id. Same order as `get_records`.
    pub fn get_student_details(&self, student_id: &str) -> (res: Vec<Record>)
        ensures
            res@.len() == sort_rows(filter_by_student(self.rows@, student_id@)).len(),
            forall|i: int|
                0 <= i < res@.len() ==> record_matches_row(
                    #[trigger] res@[i],
                    sort_rows(filter_by_student(self.rows@, student_id@))[i],
                ),
    {
        let ordered = self.sorted_rows_where(Filter::Student, student_id);
        rows_to_records(&ordered)
    }

    /// Collects the rows the filter keeps, in presentation order.
    fn sorted_rows_where(&self, filter: Filter, arg: &str) -> (res: Vec<Row>)
        ensures
            res@ == sort_rows(filter_rows(self.rows@, filter, arg@)),
    {
        let mut ordered: Vec<Row> = Vec::new();
        let mut i: usize = 0;
        proof {
            assert(self.rows@.take(0) =~= Seq::<Row>::empty());
            reveal(Seq::filter);
        }
        while i < self.rows.len()
            invariant
                i <= self.rows@.len(),
                ordered@ == sort_rows(filter_rows(self.rows@.take(i as int), filter, arg@)),
            decreases self.rows@.len() - i,
        {
            let keep = match filter {
                Filter::All => true,
                Filter::Term => {
                    let row = &self.rows[i];
                    str_contains_ci(row.student_id.as_str(), arg) || str_contains_ci(
                        row.name.as_str(),
                        arg,
                    ) || str_contains_ci(row.reason.as_str(), arg)
                },
                Filter::Student => str_eq(self.rows[i].student_id.as_str(), arg),
            };
            proof {
                lemma_filter_rows_push(self.rows@.take(i as int), self.rows@[i as int], filter, arg@);
                assert(self.rows@.take(i as int).push(self.rows@[i as int]) =~= self.rows@.take(
                    i + 1,
                ));
                let f = filter_rows(self.rows@.take(i + 1), filter, arg@);
                if keep {
                    assert(f.drop_last() =~= filter_rows(self.rows@.take(i as int), filter, arg@));
                }
            }
            if keep {
                insert_row_sorted(&mut ordered, self.rows[i].clone());
            }
            i = i + 1;
        }
        proof {
            assert(self.rows@.take(self.rows@.len() as int) =~= self.rows@);
        }
        ordered
    }

    /// Removes the record with the given id; ids the store never assigned
    /// are a silent no-op, as in the original.
    pub fn delete_record(&mut self, id: i32)
        requires
            old(self).wf(),
        ensures
            final (self).wf(),
            final (self).has_date_column == old(self).has_date_column,
            final (self).next_id == old(self).next_id,
            (forall|k: int|
                0 <= k < old(self).rows@.len() ==> (#[trigger] old(self).rows@[k]).id != id)
                ==> final (self).rows@ == old(self).rows@,
            forall|k: int|
                0 <= k < old(self).rows@.len() && (#[trigger] old(self).rows@[k]).id == id
                    ==> final (self).rows@ == old(self).rows@.remove(k),
    {
        let mut i: usize = 0;
        while i < self.rows.len()
            invariant
                i <= self.rows@.len(),
                old(self).wf(),
                *self == *old(self),
                forall|k: int| 0 <= k < i ==> (#[trigger] self.rows@[k]).id != id,
            decreases self.rows@.len() - i,
        {
            if self.rows[i].id == id {
                proof {
                    old(self).rows@.remove_ensures(i as int);
                }
                self.rows.remove(i);
                return ;
            }
            i = i + 1;
        }
    }
}

} // verus!
