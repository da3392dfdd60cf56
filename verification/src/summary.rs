//! Per-student aggregation: the summary rows the front end shows, computed
//! by grouping records by student id and name.
//!
//! Each sum is taken in the stored, sign-normalized point domain. The
//! demerit column applies the absolute value again at aggregation time, so
//! it is non-negative however the points were stored; the total is the
//! independent sum of the stored points, never a recombination of the other
//! three columns.

use vstd::prelude::*;

use crate::db::Db;
use crate::db::Row;
use crate::points::PointType;
use crate::text::contains_ci;
use crate::text::lex_lt;
use crate::text::lemma_lex_lt_trans;
use crate::text::str_contains_ci;
use crate::text::str_eq;
use crate::text::str_lt;
use vstd::pervasive::VecAdditionalExecFns;

verus! {

/// One aggregate line: the per-category sums, the independent total, and
/// the latest activity timestamp of the group.
#[derive(Debug)]
pub struct Summary {
    pub student_id: String,
    pub name: String,
    pub merit: i32,
    pub demerit: i32,
    pub offset: i32,
    pub total: i32,
    pub last_activity: String,
}

impl Clone for Summary {
    fn clone(&self) -> (r: Summary)
        ensures
            r == *self,
    {
        Summary {
            student_id: self.student_id.clone(),
            name: self.name.clone(),
            merit: self.merit,
            demerit: self.demerit,
            offset: self.offset,
            total: self.total,
            last_activity: self.last_activity.clone(),
        }
    }
}

/// The magnitude of a point value.
pub open spec fn abs_val(n: int) -> int {
    if n >= 0 {
        n
    } else {
        -n
    }
}

/// The rows of one group: those that carry exactly this student id and
/// name.
pub open spec fn group_rows(s: Seq<Row>, student_id: Seq<char>, name: Seq<char>) -> Seq<Row> {
    s.filter(|r: Row| r.student_id@ == student_id && r.name@ == name)
}

/// Sum of stored points over the merit rows.
pub open spec fn merit_sum(s: Seq<Row>) -> int
    decreases s.len(),
{
    if s.len() == 0 {
        0
    } else {
        merit_sum(s.drop_last()) + if s.last().point_type == PointType::Merit {
            s.last().points as int
        } else {
            0
        }
    }
}

/// Sum of the magnitudes of stored points over the demerit rows: the
/// absolute value is applied at aggregation time even though storage
/// already normalizes the sign, so this sum is non-negative whatever was
/// stored.
pub open spec fn demerit_sum(s: Seq<Row>) -> int
    decreases s.len(),
{
    if s.len() == 0 {
        0
    } else {
        demerit_sum(s.drop_last()) + if s.last().point_type == PointType::Demerit {
            abs_val(s.last().points as int)
        } else {
            0
        }
    }
}

/// Sum of stored points over the offset rows.
pub open spec fn offset_sum(s: Seq<Row>) -> int
    decreases s.len(),
{
    if s.len() == 0 {
        0
    } else {
        offset_sum(s.drop_last()) + if s.last().point_type == PointType::Offset {
            s.last().points as int
        } else {
            0
        }
    }
}

/// The independent sum of stored points over all rows of the group,
/// whatever their category.
pub open spec fn total_sum(s: Seq<Row>) -> int
    decreases s.len(),
{
    if s.len() == 0 {
        0
    } else {
        total_sum(s.drop_last()) + s.last().points as int
    }
}

/// The latest timestamp among the rows; the empty sequence yields the
/// empty string.
pub open spec fn last_activity(s: Seq<Row>) -> Seq<char>
    decreases s.len(),
{
    if s.len() == 0 {
        Seq::empty()
    } else if s.len() == 1 {
        s.last().timestamp@
    } else {
        let rest = last_activity(s.drop_last());
        if lex_lt(rest, s.last().timestamp@) {
            s.last().timestamp@
        } else {
            rest
        }
    }
}

/// A summary line is correct for a row set when its group is present and
/// every column holds the documented aggregate of that group.
pub open spec fn summary_matches(sm: Summary, rows: Seq<Row>) -> bool {
    let g = group_rows(rows, sm.student_id@, sm.name@);
    &&& g.len() > 0
    &&& sm.merit as int == merit_sum(g)
    &&& sm.demerit as int == demerit_sum(g)
    &&& sm.offset as int == offset_sum(g)
    &&& sm.total as int == total_sum(g)
    &&& sm.last_activity@ == last_activity(g)
}

/// A value representable in the 32-bit column the summary is read into.
pub open spec fn fits_i32(n: int) -> bool {
    -0x8000_0000 <= n < 0x8000_0000
}

/// Every group's four sums fit the 32-bit summary columns; reading a wider
/// sum back would fail in the original, so summaries are only specified
/// under this bound.
pub open spec fn sums_fit(rows: Seq<Row>) -> bool {
    forall|i: int|
        0 <= i < rows.len() ==> {
            let g = group_rows(rows, (#[trigger] rows[i]).student_id@, rows[i].name@);
            &&& fits_i32(merit_sum(g))
            &&& fits_i32(demerit_sum(g))
            &&& fits_i32(offset_sum(g))
            &&& fits_i32(total_sum(g))
        }
}

/// The rows a summary search keeps: student id or name contains the term,
/// case-insensitively — the reason column is deliberately not consulted,
/// unlike the record search.
pub open spec fn filter_by_sum_term(s: Seq<Row>, term: Seq<char>) -> Seq<Row> {
    s.filter(|r: Row| contains_ci(r.student_id@, term) || contains_ci(r.name@, term))
}

/// Every partial sum over a row set stays within `len * 2^31`, and the
/// demerit sum is never negative.
pub proof fn lemma_sum_bounds(s: Seq<Row>)
    ensures
        -(s.len() * 0x8000_0000) <= merit_sum(s) <= s.len() * 0x8000_0000,
        0 <= demerit_sum(s) <= s.len() * 0x8000_0000,
        -(s.len() * 0x8000_0000) <= offset_sum(s) <= s.len() * 0x8000_0000,
        -(s.len() * 0x8000_0000) <= total_sum(s) <= s.len() * 0x8000_0000,
    decreases s.len(),
{
    if s.len() > 0 {
        lemma_sum_bounds(s.drop_last());
    }
}

proof fn lemma_group_push(s: Seq<Row>, x: Row, sid: Seq<char>, nm: Seq<char>)
    ensures
        group_rows(s.push(x), sid, nm) == (if x.student_id@ == sid && x.name@ == nm {
            group_rows(s, sid, nm).push(x)
        } else {
            group_rows(s, sid, nm)
        }),
{
    reveal(Seq::filter);
    assert(s.push(x).drop_last() =~= s);
    assert(s.push(x).last() == x);
}

proof fn lemma_sum_term_push(s: Seq<Row>, x: Row, term: Seq<char>)
    ensures
        filter_by_sum_term(s.push(x), term) == (if contains_ci(x.student_id@, term) || contains_ci(
            x.name@,
            term,
        ) {
            filter_by_sum_term(s, term).push(x)
        } else {
            filter_by_sum_term(s, term)
        }),
{
    reveal(Seq::filter);
    assert(s.push(x).drop_last() =~= s);
    assert(s.push(x).last() == x);
}

proof fn lemma_sums_push(g: Seq<Row>, x: Row)
    ensures
        merit_sum(g.push(x)) == merit_sum(g) + (if x.point_type == PointType::Merit {
            x.points as int
        } else {
            0
        }),
        demerit_sum(g.push(x)) == demerit_sum(g) + (if x.point_type == PointType::Demerit {
            abs_val(x.points as int)
        } else {
            0
        }),
        offset_sum(g.push(x)) == offset_sum(g) + (if x.point_type == PointType::Offset {
            x.points as int
        } else {
            0
        }),
        total_sum(g.push(x)) == total_sum(g) + x.points as int,
        last_activity(g.push(x)) == (if g.len() == 0 {
            x.timestamp@
        } else if lex_lt(last_activity(g), x.timestamp@) {
            x.timestamp@
        } else {
            last_activity(g)
        }),
{
    assert(g.push(x).drop_last() =~= g);
    assert(g.push(x).last() == x);
}

/// A non-empty group means some row of the set carries the group's key.
proof fn lemma_group_nonempty_key(f: Seq<Row>, sid: Seq<char>, nm: Seq<char>)
    requires
        group_rows(f, sid, nm).len() > 0,
    ensures
        exists|k: int| 0 <= k < f.len() && (#[trigger] f[k]).student_id@ == sid && f[k].name@ == nm,
{
    broadcast use vstd::seq_lib::group_filter_ensures, Seq::lemma_filter_contains_rev;

    let g = group_rows(f, sid, nm);
    let e = g[0];
    assert(g.contains(e));
    assert(f.contains(e));
    let k = choose|k: int| 0 <= k < f.len() && f[k] == e;
    assert(f[k].student_id@ == sid && f[k].name@ == nm);
}

/// One accumulated group while summaries are being built: sums are taken
/// in 64 bits, as the database engine does, and narrowed only at the end.
struct Acc {
    student_id: String,
    name: String,
    merit: i64,
    demerit: i64,
    offset: i64,
    total: i64,
    last_activity: String,
}

/// The accumulator carries exactly the aggregates of its group.
spec fn acc_inv(a: Acc, rows: Seq<Row>) -> bool {
    let g = group_rows(rows, a.student_id@, a.name@);
    &&& g.len() > 0
    &&& a.merit as int == merit_sum(g)
    &&& a.demerit as int == demerit_sum(g)
    &&& a.offset as int == offset_sum(g)
    &&& a.total as int == total_sum(g)
    &&& a.last_activity@ == last_activity(g)
}

/// Finds the accumulator that already carries this key, if any.
fn find_acc(accs: &Vec<Acc>, sid: &str, nm: &str) -> (r: Option<usize>)
    ensures
        match r {
            Some(j) => j < accs@.len() && accs@[j as int].student_id@ == sid@
                && accs@[j as int].name@ == nm@,
            None => forall|j: int|
                0 <= j < accs@.len() ==> !((#[trigger] accs@[j]).student_id@ == sid@
                    && accs@[j].name@ == nm@),
        },
{
    let mut j: usize = 0;
    while j < accs.len()
        invariant
            j <= accs@.len(),
            forall|k: int|
                0 <= k < j ==> !((#[trigger] accs@[k]).student_id@ == sid@ && accs@[k].name@
                    == nm@),
        decreases accs@.len() - j,
    {
        if str_eq(accs[j].student_id.as_str(), sid) && str_eq(accs[j].name.as_str(), nm) {
            return Some(j);
        }
        j = j + 1;
    }
    None
}

/// Which rows a summary covers: all of them, or those a term search keeps.
#[derive(Clone, Copy)]
enum Scope {
    All,
    Term,
}

/// The rows the chosen scope keeps.
spec fn scope_rows(s: Seq<Row>, scope: Scope, term: Seq<char>) -> Seq<Row> {
    match scope {
        Scope::All => s,
        Scope::Term => filter_by_sum_term(s, term),
    }
}

/// The contribution of one row to its group's 64-bit accumulators.
fn contribution(x: &Row) -> (c: (i64, i64, i64, i64))
    ensures
        c.0 == (if x.point_type == PointType::Merit {
            x.points as int
        } else {
            0
        }),
        c.1 == (if x.point_type == PointType::Demerit {
            abs_val(x.points as int)
        } else {
            0
        }),
        c.2 == (if x.point_type == PointType::Offset {
            x.points as int
        } else {
            0
        }),
        c.3 == x.points as int,
{
    let p = x.points as i64;
    let a = if x.points >= 0 {
        x.points as i64
    } else {
        -(x.points as i64)
    };
    match x.point_type {
        PointType::Merit => (p, 0, 0, p),
        PointType::Demerit => (0, a, 0, p),
        PointType::Offset => (0, 0, p, p),
    }
}

/// When one row joins the scoped set and its key is carried by some
/// accumulator whose keys otherwise persist, every scoped row's key is
/// still covered.
proof fn lemma_keys_cover(
    pre: Seq<Acc>,
    post: Seq<Acc>,
    f_pre: Seq<Row>,
    f_post: Seq<Row>,
    x: Row,
    jx: int,
)
    requires
        0 <= jx < post.len(),
        f_post == f_pre.push(x),
        pre.len() <= post.len(),
        forall|j: int|
            0 <= j < pre.len() ==> (#[trigger] post[j]).student_id@ == pre[j].student_id@
                && post[j].name@ == pre[j].name@,
        post[jx].student_id@ == x.student_id@ && post[jx].name@ == x.name@,
        forall|k: int|
            0 <= k < f_pre.len() ==> exists|j: int|
                0 <= j < pre.len() && (#[trigger] f_pre[k]).student_id@ == pre[j].student_id@
                    && f_pre[k].name@ == pre[j].name@,
    ensures
        forall|k: int|
            0 <= k < f_post.len() ==> exists|j: int|
                0 <= j < post.len() && (#[trigger] f_post[k]).student_id@ == post[j].student_id@
                    && f_post[k].name@ == post[j].name@,
{
    assert forall|k: int| 0 <= k < f_post.len() implies exists|j: int|
        0 <= j < post.len() && (#[trigger] f_post[k]).student_id@ == post[j].student_id@
            && f_post[k].name@ == post[j].name@ by {
        if k < f_pre.len() {
            assert(f_post[k] == f_pre[k]);
            let j0 = choose|j: int|
                0 <= j < pre.len() && (#[trigger] f_pre[k]).student_id@ == pre[j].student_id@
                    && f_pre[k].name@ == pre[j].name@;
            assert(0 <= j0 < post.len() && f_post[k].student_id@ == post[j0].student_id@
                && f_post[k].name@ == post[j0].name@);
        } else {
            assert(f_post[k] == x);
            assert(f_post[k].student_id@ == post[jx].student_id@ && f_post[k].name@
                == post[jx].name@);
        }
    }
}

/// Groups the scoped rows and accumulates their sums and latest activity.
fn build_groups(db: &Db, scope: Scope, term: &str) -> (accs: Vec<Acc>)
    requires
        db.rows@.len() <= 0x7fff_ffff,
    ensures
        ({
            let f = scope_rows(db.rows@, scope, term@);
            &&& forall|j: int| 0 <= j < accs@.len() ==> acc_inv(#[trigger] accs@[j], f)
            &&& forall|j1: int, j2: int|
                0 <= j1 < j2 < accs@.len() ==> !((#[trigger] accs@[j1]).student_id@ == (
                #[trigger] accs@[j2]).student_id@ && accs@[j1].name@ == accs@[j2].name@)
            &&& forall|k: int|
                0 <= k < f.len() ==> exists|j: int|
                    0 <= j < accs@.len() && (#[trigger] f[k]).student_id@ == accs@[j].student_id@
                        && f[k].name@ == accs@[j].name@
        }),
{
    broadcast use vstd::seq_lib::group_filter_ensures;

    let mut accs: Vec<Acc> = Vec::new();
    let mut i: usize = 0;
    proof {
        assert(db.rows@.take(0) =~= Seq::<Row>::empty());
        reveal(Seq::filter);
    }
    while i < db.rows.len()
        invariant
            i <= db.rows@.len(),
            db.rows@.len() <= 0x7fff_ffff,
            scope_rows(db.rows@.take(i as int), scope, term@).len() <= i,
            forall|j: int|
                0 <= j < accs@.len() ==> acc_inv(
                    #[trigger] accs@[j],
                    scope_rows(db.rows@.take(i as int), scope, term@),
                ),
            forall|j1: int, j2: int|
                0 <= j1 < j2 < accs@.len() ==> !((#[trigger] accs@[j1]).student_id@ == (
                #[trigger] accs@[j2]).student_id@ && accs@[j1].name@ == accs@[j2].name@),
            forall|k: int|
                0 <= k < scope_rows(db.rows@.take(i as int), scope, term@).len() ==> exists|j: int|
                    0 <= j < accs@.len() && (#[trigger] scope_rows(
                        db.rows@.take(i as int),
                        scope,
                        term@,
                    )[k]).student_id@ == accs@[j].student_id@ && scope_rows(
                        db.rows@.take(i as int),
                        scope,
                        term@,
                    )[k].name@ == accs@[j].name@,
        decreases db.rows@.len() - i,
    {
        let x = &db.rows[i];
        let keep = match scope {
            Scope::All => true,
            Scope::Term => str_contains_ci(x.student_id.as_str(), term) || str_contains_ci(
                x.name.as_str(),
                term,
            ),
        };
        let ghost f_pre = scope_rows(db.rows@.take(i as int), scope, term@);
        let ghost f_post = scope_rows(db.rows@.take(i + 1), scope, term@);
        proof {
            assert(db.rows@.take(i as int).push(db.rows@[i as int]) =~= db.rows@.take(i + 1));
            if scope is Term {
                lemma_sum_term_push(db.rows@.take(i as int), db.rows@[i as int], term@);
            }
            assert(f_post == if keep {
                f_pre.push(db.rows@[i as int])
            } else {
                f_pre
            });
        }
        if keep {
            let ghost accs_pre = accs@;
            let (cm, cd, co, ct) = contribution(x);
            match find_acc(&accs, x.student_id.as_str(), x.name.as_str()) {
                Some(j) => {
                    proof {
                        let a = accs@[j as int];
                        let g = group_rows(f_pre, a.student_id@, a.name@);
                        lemma_sum_bounds(g);
                        assert(g.len() <= f_pre.len());
                        lemma_sums_push(g, db.rows@[i as int]);
                        // every accumulator's group after the push
                        assert forall|j2: int| 0 <= j2 < accs@.len() implies group_rows(
                            f_post,
                            (#[trigger] accs@[j2]).student_id@,
                            accs@[j2].name@,
                        ) == (if j2 == j {
                            group_rows(f_pre, accs@[j2].student_id@, accs@[j2].name@).push(
                                db.rows@[i as int],
                            )
                        } else {
                            group_rows(f_pre, accs@[j2].student_id@, accs@[j2].name@)
                        }) by {
                            lemma_group_push(
                                f_pre,
                                db.rows@[i as int],
                                accs@[j2].student_id@,
                                accs@[j2].name@,
                            );
                        }
                    }
                    let bump = {
                        let a = &accs[j];
                        let last = if str_lt(a.last_activity.as_str(), x.timestamp.as_str()) {
                            x.timestamp.clone()
                        } else {
                            a.last_activity.clone()
                        };
                        Acc {
                            student_id: a.student_id.clone(),
                            name: a.name.clone(),
                            merit: a.merit + cm,
                            demerit: a.demerit + cd,
                            offset: a.offset + co,
                            total: a.total + ct,
                            last_activity: last,
                        }
                    };
                    accs.set(j, bump);
                    proof {
                        lemma_keys_cover(accs_pre, accs@, f_pre, f_post, db.rows@[i as int], j as int);
                    }
                },
                None => {
                    proof {
                        let g = group_rows(f_pre, db.rows@[i as int].student_id@, db.rows@[i as int].name@);
                        if g.len() > 0 {
                            lemma_group_nonempty_key(
                                f_pre,
                                db.rows@[i as int].student_id@,
                                db.rows@[i as int].name@,
                            );
                        }
                        lemma_group_push(
                            f_pre,
                            db.rows@[i as int],
                            db.rows@[i as int].student_id@,
                            db.rows@[i as int].name@,
                        );
                        lemma_sums_push(g, db.rows@[i as int]);
                        assert forall|j2: int| 0 <= j2 < accs@.len() implies group_rows(
                            f_post,
                            (#[trigger] accs@[j2]).student_id@,
                            accs@[j2].name@,
                        ) == group_rows(f_pre, accs@[j2].student_id@, accs@[j2].name@) by {
                            lemma_group_push(
                                f_pre,
                                db.rows@[i as int],
                                accs@[j2].student_id@,
                                accs@[j2].name@,
                            );
                        }
                    }
                    accs.push(
                        Acc {
                            student_id: x.student_id.clone(),
                            name: x.name.clone(),
                            merit: cm,
                            demerit: cd,
                            offset: co,
                            total: ct,
                            last_activity: x.timestamp.clone(),
                        },
                    );
                    proof {
                        lemma_keys_cover(
                            accs_pre,
                            accs@,
                            f_pre,
                            f_post,
                            db.rows@[i as int],
                            accs_pre.len() as int,
                        );
                    }
                },
            }
        }
        i = i + 1;
    }
    proof {
        assert(db.rows@.take(db.rows@.len() as int) =~= db.rows@);
    }
    accs
}

/// `a` is listed strictly before `b`: its latest activity is later.
pub open spec fn summary_before(a: Summary, b: Summary) -> bool {
    lex_lt(b.last_activity@, a.last_activity@)
}

/// Summaries in presentation order: latest activity first.
pub open spec fn summaries_sorted(s: Seq<Summary>) -> bool {
    forall|i: int, j: int|
        0 <= i < j < s.len() ==> !lex_lt(
            (#[trigger] s[i]).last_activity@,
            (#[trigger] s[j]).last_activity@,
        )
}

/// The position a summary is inserted at: just before the first entry
/// whose latest activity is strictly earlier.
fn find_summary_insert_pos(res: &Vec<Summary>, x: &Summary) -> (p: usize)
    ensures
        p <= res@.len(),
        forall|k: int|
            0 <= k < p ==> !lex_lt((#[trigger] res@[k]).last_activity@, x.last_activity@),
        p < res@.len() ==> lex_lt(res@[p as int].last_activity@, x.last_activity@),
{
    let mut p: usize = 0;
    while p < res.len()
        invariant
            p <= res@.len(),
            forall|k: int|
                0 <= k < p ==> !lex_lt((#[trigger] res@[k]).last_activity@, x.last_activity@),
        decreases res@.len() - p,
    {
        if str_lt(res[p].last_activity.as_str(), x.last_activity.as_str()) {
            return p;
        }
        p = p + 1;
    }
    p
}

/// Inserts a summary, keeping the list ordered by latest activity
/// descending.
fn insert_summary_sorted(res: &mut Vec<Summary>, x: Summary)
    requires
        summaries_sorted(old(res)@),
    ensures
        summaries_sorted(final (res)@),
        final (res)@.len() == old(res)@.len() + 1,
        exists|p: int| 0 <= p <= old(res)@.len() && final (res)@ == old(res)@.insert(p, x),
{
    let p = find_summary_insert_pos(res, &x);
    proof {
        let s = res@;
        let pp = p as int;
        s.insert_ensures(pp, x);
        if pp < s.len() {
            assert(lex_lt(s[pp].last_activity@, x.last_activity@));
        }
        assert forall|i: int, j: int|
            0 <= i < j < s.insert(pp, x).len() implies !lex_lt(
            (#[trigger] s.insert(pp, x)[i]).last_activity@,
            (#[trigger] s.insert(pp, x)[j]).last_activity@,
        ) by {
            let t = s.insert(pp, x);
            if i == pp {
                // t[i] is x; any later entry was at or after position pp
                if lex_lt(x.last_activity@, t[j].last_activity@) {
                    assert(t[j] == s[j - 1]);
                    lemma_lex_lt_trans(
                        s[pp].last_activity@,
                        x.last_activity@,
                        s[j - 1].last_activity@,
                    );
                    if j - 1 == pp {
                        crate::text::lemma_lex_lt_irrefl(s[pp].last_activity@);
                    }
                }
            } else if j == pp {
                assert(t[i] == s[i]);
                assert(!lex_lt(s[i].last_activity@, x.last_activity@));
            } else {
                let si = if i < pp {
                    i
                } else {
                    i - 1
                };
                let sj = if j < pp {
                    j
                } else {
                    j - 1
                };
                assert(t[i] == s[si]);
                assert(t[j] == s[sj]);
            }
        }
    }
    res.insert(p, x);
}

impl Db {
    /// Groups all records by student id and name and reports the five
    /// aggregates per group, latest activity first. Every group present in
    /// the store appears exactly once.
    pub fn get_summary(&self) -> (res: Vec<Summary>)
        requires
            self.rows@.len() <= 0x7fff_ffff,
            sums_fit(self.rows@),
        ensures
            forall|i: int| 0 <= i < res@.len() ==> summary_matches(#[trigger] res@[i], self.rows@),
            forall|i: int| 0 <= i < res@.len() ==> (#[trigger] res@[i]).demerit >= 0,
            forall|i1: int, i2: int|
                0 <= i1 < i2 < res@.len() ==> !((#[trigger] res@[i1]).student_id@ == (
                #[trigger] res@[i2]).student_id@ && res@[i1].name@ == res@[i2].name@),
            forall|k: int|
                0 <= k < self.rows@.len() ==> exists|j: int|
                    0 <= j < res@.len() && (#[trigger] self.rows@[k]).student_id@ == res@[j].student_id@ && self.rows@[k].name@ == res@[j].name@,
            summaries_sorted(res@),
    {
        proof {
            assert(scope_rows(self.rows@, Scope::All, ""@) == self.rows@);
        }
        summarize(self, Scope::All, "")
    }

    /// Like `get_summary`, restricted to the groups whose student id or
    /// name contains the term, case-insensitively. The reason column is
    /// deliberately not searched here, unlike in the record search.
    pub fn search_summary(&self, term: &str) -> (res: Vec<Summary>)
        requires
            self.rows@.len() <= 0x7fff_ffff,
            sums_fit(filter_by_sum_term(self.rows@, term@)),
        ensures
            forall|i: int|
                0 <= i < res@.len() ==> summary_matches(
                    #[trigger] res@[i],
                    filter_by_sum_term(self.rows@, term@),
                ),
            forall|i: int| 0 <= i < res@.len() ==> (#[trigger] res@[i]).demerit >= 0,
            forall|i1: int, i2: int|
                0 <= i1 < i2 < res@.len() ==> !((#[trigger] res@[i1]).student_id@ == (
                #[trigger] res@[i2]).student_id@ && res@[i1].name@ == res@[i2].name@),
            forall|k: int|
                0 <= k < filter_by_sum_term(self.rows@, term@).len() ==> exists|j: int|
                    0 <= j < res@.len() && (#[trigger] filter_by_sum_term(self.rows@, term@)[k]).student_id@ == res@[j].student_id@ && filter_by_sum_term(self.rows@, term@)[k].name@ == res@[j].name@,
            summaries_sorted(res@),
    {
        proof {
            assert(scope_rows(self.rows@, Scope::Term, term@) == filter_by_sum_term(
                self.rows@,
                term@,
            ));
        }
        summarize(self, Scope::Term, term)
    }
}

/// Where each entry of a list stands after one insertion.
proof fn lemma_insert_entries(pre: Seq<Summary>, post: Seq<Summary>, sm: Summary, p: int)
    requires
        0 <= p <= pre.len(),
        post == pre.insert(p, sm),
    ensures
        post.len() == pre.len() + 1,
        post[p] == sm,
        forall|k: int| 0 <= k < p ==> #[trigger] post[k] == pre[k],
        forall|k: int| p < k < post.len() ==> #[trigger] post[k] == pre[k - 1],
{
    pre.insert_ensures(p, sm);
    assert forall|k: int| p < k < post.len() implies #[trigger] post[k] == pre[k - 1] by {
        assert(post[(k - 1) + 1] == pre[k - 1]);
    }
}

/// Builds the ordered summary list for the scoped rows.
#[verifier::rlimit(60)]
fn summarize(db: &Db, scope: Scope, term: &str) -> (res: Vec<Summary>)
    requires
        db.rows@.len() <= 0x7fff_ffff,
        sums_fit(scope_rows(db.rows@, scope, term@)),
    ensures
        ({
            let f = scope_rows(db.rows@, scope, term@);
            &&& forall|i: int| 0 <= i < res@.len() ==> summary_matches(#[trigger] res@[i], f)
            &&& forall|i: int| 0 <= i < res@.len() ==> (#[trigger] res@[i]).demerit >= 0
            &&& forall|i1: int, i2: int|
                0 <= i1 < i2 < res@.len() ==> !((#[trigger] res@[i1]).student_id@ == (
                #[trigger] res@[i2]).student_id@ && res@[i1].name@ == res@[i2].name@)
            &&& forall|k: int|
                0 <= k < f.len() ==> exists|j: int|
                    0 <= j < res@.len() && (#[trigger] f[k]).student_id@ == res@[j].student_id@
                        && f[k].name@ == res@[j].name@
            &&& summaries_sorted(res@)
        }),
{
    let ghost f = scope_rows(db.rows@, scope, term@);
    let accs = build_groups(db, scope, term);
    let mut res: Vec<Summary> = Vec::new();
    let mut i: usize = 0;
    let ghost mut pos: Seq<int> = Seq::empty();
    while i < accs.len()
        invariant
            i <= accs@.len(),
            sums_fit(f),
            forall|j: int| 0 <= j < accs@.len() ==> acc_inv(#[trigger] accs@[j], f),
            forall|j1: int, j2: int|
                0 <= j1 < j2 < accs@.len() ==> !((#[trigger] accs@[j1]).student_id@ == (
                #[trigger] accs@[j2]).student_id@ && accs@[j1].name@ == accs@[j2].name@),
            forall|k: int| 0 <= k < res@.len() ==> summary_matches(#[trigger] res@[k], f),
            forall|k: int| 0 <= k < res@.len() ==> (#[trigger] res@[k]).demerit >= 0,
            forall|k: int|
                0 <= k < res@.len() ==> exists|j: int|
                    0 <= j < i && (#[trigger] res@[k]).student_id@ == accs@[j].student_id@ && res@[k].name@ == accs@[j].name@,
            pos.len() == i,
            forall|j: int| 0 <= j < i ==> 0 <= #[trigger] pos[j] < res@.len(),
            forall|j: int|
                0 <= j < i ==> accs@[j].student_id@ == res@[#[trigger] pos[j]].student_id@
                    && accs@[j].name@ == res@[pos[j]].name@,
            forall|k1: int, k2: int|
                0 <= k1 < k2 < res@.len() ==> !((#[trigger] res@[k1]).student_id@ == (
                #[trigger] res@[k2]).student_id@ && res@[k1].name@ == res@[k2].name@),
            summaries_sorted(res@),
        decreases accs@.len() - i,
    {
        let a = &accs[i];
        proof {
            let g = group_rows(f, a.student_id@, a.name@);
            lemma_group_nonempty_key(f, a.student_id@, a.name@);
            let k0 = choose|k: int|
                0 <= k < f.len() && (#[trigger] f[k]).student_id@ == a.student_id@ && f[k].name@
                    == a.name@;
            assert(group_rows(f, f[k0].student_id@, f[k0].name@) == g);
            assert(fits_i32(merit_sum(g)) && fits_i32(demerit_sum(g)) && fits_i32(offset_sum(g))
                && fits_i32(total_sum(g)));
            lemma_sum_bounds(g);
        }
        let sm = Summary {
            student_id: a.student_id.clone(),
            name: a.name.clone(),
            merit: a.merit as i32,
            demerit: a.demerit as i32,
            offset: a.offset as i32,
            total: a.total as i32,
            last_activity: a.last_activity.clone(),
        };
        proof {
            assert(summary_matches(sm, f));
            assert(sm.demerit >= 0);
        }
        let ghost res_pre = res@;
        insert_summary_sorted(&mut res, sm);
        proof {
            let p = choose|p: int| 0 <= p <= res_pre.len() && res@ == res_pre.insert(p, sm);
            lemma_insert_entries(res_pre, res@, sm, p);
            let ii = i as int;
            assert forall|k: int| 0 <= k < res@.len() implies summary_matches(
                #[trigger] res@[k],
                f,
            ) && res@[k].demerit >= 0 by {
                if k < p {
                    assert(res@[k] == res_pre[k]);
                } else if k > p {
                    assert(res@[k] == res_pre[k - 1]);
                }
            }
            assert forall|k: int| 0 <= k < res@.len() implies exists|j: int|
                0 <= j < ii + 1 && (#[trigger] res@[k]).student_id@ == accs@[j].student_id@
                    && res@[k].name@ == accs@[j].name@ by {
                if k == p {
                    assert(res@[k].student_id@ == accs@[ii].student_id@ && res@[k].name@
                        == accs@[ii].name@);
                } else {
                    let k0 = if k < p {
                        k
                    } else {
                        k - 1
                    };
                    let j0 = choose|j: int|
                        0 <= j < ii && (#[trigger] res_pre[k0]).student_id@ == accs@[j].student_id@
                            && res_pre[k0].name@ == accs@[j].name@;
                    assert(0 <= j0 < ii + 1 && res@[k].student_id@ == accs@[j0].student_id@
                        && res@[k].name@ == accs@[j0].name@);
                }
            }
            assert forall|k1: int, k2: int| 0 <= k1 < k2 < res@.len() implies !((
            #[trigger] res@[k1]).student_id@ == (#[trigger] res@[k2]).student_id@ && res@[k1].name@
                == res@[k2].name@) by {
                if k1 == p || k2 == p {
                    let other = if k1 == p {
                        k2
                    } else {
                        k1
                    };
                    let o0 = if other < p {
                        other
                    } else {
                        other - 1
                    };
                    let j0 = choose|j: int|
                        0 <= j < ii && (#[trigger] res_pre[o0]).student_id@ == accs@[j].student_id@
                            && res_pre[o0].name@ == accs@[j].name@;
                    assert(!(accs@[j0].student_id@ == accs@[ii].student_id@ && accs@[j0].name@
                        == accs@[ii].name@));
                } else {
                    let a1 = if k1 < p {
                        k1
                    } else {
                        k1 - 1
                    };
                    let a2 = if k2 < p {
                        k2
                    } else {
                        k2 - 1
                    };
                    assert(res@[k1] == res_pre[a1] && res@[k2] == res_pre[a2]);
                }
            }
            let pos_pre = pos;
            pos = pos.map_values(|q: int| if q < p { q } else { q + 1 }).push(p);
            assert forall|j: int| 0 <= j < i + 1 implies 0 <= #[trigger] pos[j] < res@.len()
                && accs@[j].student_id@ == res@[pos[j]].student_id@ && accs@[j].name@
                == res@[pos[j]].name@ by {
                if j < i as int {
                    let q = pos_pre[j];
                    assert(pos[j] == if q < p {
                        q
                    } else {
                        q + 1
                    });
                    if q < p {
                        assert(res@[q] == res_pre[q]);
                    } else {
                        assert(res@[q + 1] == res_pre[q]);
                    }
                } else {
                    assert(pos[j] == p);
                    assert(res@[p] == sm);
                }
            }
        }
        i = i + 1;
    }
    proof {
        // every scoped row's key is among the accumulators, which all made
        // it into the result
        assert forall|k: int| 0 <= k < f.len() implies exists|j: int|
            0 <= j < res@.len() && (#[trigger] f[k]).student_id@ == res@[j].student_id@ && f[k].name@
                == res@[j].name@ by {
            let j0 = choose|j: int|
                0 <= j < accs@.len() && (#[trigger] f[k]).student_id@ == accs@[j].student_id@ && f[k].name@ == accs@[j].name@;
            let k2 = pos[j0];
            assert(0 <= k2 < res@.len() && f[k].student_id@ == res@[k2].student_id@ && f[k].name@
                == res@[k2].name@);
        }
    }
    res
}

} // verus!
