//! The backup/restore manager, over a model of the data directory: the
//! live database file and the `backups` directory as the manager sees
//! them. The host mirrors every transition here with the corresponding
//! file copies.
//!
//! A reset snapshots the live file as `backup_<stamp>.db` and then clears
//! the records; a restore first snapshots the live file as
//! `before_restore_<stamp>.db`, then copies the chosen backup over it and
//! re-runs the schema migration on the restored file.

use vstd::prelude::*;
use vstd::pervasive::VecAdditionalExecFns;

use crate::db::Db;
use crate::db::db_eq;
use crate::db::migrated;
use crate::text::lex_lt;
use crate::text::str_eq;
use crate::text::str_lt;

verus! {

/// One file in the `backups` directory: its name and the database it
/// holds.
pub struct BackupFile {
    pub name: String,
    pub contents: Db,
}

/// The persisted state the manager works on: the live database file, if
/// one exists, and the contents of the `backups` directory (a missing
/// directory is the empty listing).
pub struct Store {
    pub live: Option<Db>,
    pub backups: Vec<BackupFile>,
}

/// Why a restore is refused.
#[derive(Clone, Copy, Debug, PartialEq, Eq, Structural)]
pub enum BackupError {
    /// The named backup file does not exist.
    NotFound,
}

/// A file of that name exists in the listing.
pub open spec fn has_file(files: Seq<BackupFile>, name: Seq<char>) -> bool {
    exists|i: int| 0 <= i < files.len() && (#[trigger] files[i]).name@ == name
}

/// File names in a directory are unique.
pub open spec fn names_unique(files: Seq<BackupFile>) -> bool {
    forall|i: int, j: int|
        0 <= i < j < files.len() ==> (#[trigger] files[i]).name@ != (#[trigger] files[j]).name@
}

/// What copying a database to a file of the given name does to a listing:
/// an existing file of that name is overwritten in place, any other file
/// is untouched, and a fresh name is appended.
pub open spec fn put_rel(
    pre: Seq<BackupFile>,
    post: Seq<BackupFile>,
    name: Seq<char>,
    data: Db,
) -> bool {
    &&& post.len() == (if has_file(pre, name) {
        pre.len() as int
    } else {
        pre.len() as int + 1
    })
    &&& forall|i: int|
        0 <= i < pre.len() && (#[trigger] pre[i]).name@ != name ==> post[i] == pre[i]
    &&& forall|i: int|
        0 <= i < pre.len() && (#[trigger] pre[i]).name@ == name ==> post[i].name@ == name
            && db_eq(post[i].contents, data)
    &&& !has_file(pre, name) ==> post.last().name@ == name && db_eq(post.last().contents, data)
}

/// The snapshot name a reset writes: `backup_<stamp>.db`.
pub open spec fn backup_name(stamp: Seq<char>) -> Seq<char> {
    "backup_"@ + stamp + ".db"@
}

/// The safety-snapshot name a restore writes: `before_restore_<stamp>.db`.
pub open spec fn before_restore_name(stamp: Seq<char>) -> Seq<char> {
    "before_restore_"@ + stamp + ".db"@
}

/// A file name the backup listing reports: at least one character before
/// a final `.db`.
pub open spec fn is_db_name(n: Seq<char>) -> bool {
    &&& n.len() >= 4
    &&& n[n.len() - 3] == '.'
    &&& n[n.len() - 2] == 'd'
    &&& n[n.len() - 1] == 'b'
}

/// What one reset does to the store: with a live database, its snapshot
/// joins the listing under the stamped name and the records are cleared,
/// schema and next id retained; without one there is nothing to back up or
/// clear.
pub open spec fn reset_rel(pre: Store, post: Store, stamp: Seq<char>) -> bool {
    &&& pre.live is None ==> post.live is None && post.backups@ == pre.backups@
    &&& pre.live is Some ==> {
        &&& put_rel(pre.backups@, post.backups@, backup_name(stamp), pre.live->0)
        &&& post.live is Some
        &&& post.live->0.has_date_column == pre.live->0.has_date_column
        &&& post.live->0.next_id == pre.live->0.next_id
        &&& post.live->0.rows@.len() == 0
    }
}

/// What one restore does to the store: a missing backup name changes
/// nothing and is reported; otherwise the live file is first snapshotted
/// under the stamped safety name, the chosen backup (looked up after that
/// snapshot, as the file copy order has it) replaces the live file, and
/// the restored file is migrated.
pub open spec fn restore_rel(
    pre: Store,
    post: Store,
    name: Seq<char>,
    stamp: Seq<char>,
    r: Result<(), BackupError>,
) -> bool {
    &&& !has_file(pre.backups@, name) ==> r is Err && post == pre
    &&& has_file(pre.backups@, name) ==> {
        &&& r is Ok
        &&& (pre.live is Some ==> put_rel(
            pre.backups@,
            post.backups@,
            before_restore_name(stamp),
            pre.live->0,
        ))
        &&& (pre.live is None ==> post.backups@ == pre.backups@)
        &&& post.live is Some
        &&& exists|i: int|
            0 <= i < post.backups@.len() && (#[trigger] post.backups@[i]).name@ == name
                && migrated(post.backups@[i].contents, post.live->0)
    }
}

impl Store {
    /// Invariant of the persisted state: a live database and every backup
    /// are well formed, and file names are unique.
    pub open spec fn wf(self) -> bool {
        &&& (self.live is Some ==> self.live->0.wf())
        &&& forall|i: int| 0 <= i < self.backups@.len() ==> (#[trigger] self.backups@[i]).contents.wf()
        &&& names_unique(self.backups@)
    }
}

/// Finds the file of that name, if it exists.
fn find_file_exec(files: &Vec<BackupFile>, name: &str) -> (r: Option<usize>)
    ensures
        match r {
            Some(i) => i < files@.len() && files@[i as int].name@ == name@,
            None => !has_file(files@, name@),
        },
{
    let mut i: usize = 0;
    while i < files.len()
        invariant
            i <= files@.len(),
            forall|k: int| 0 <= k < i ==> (#[trigger] files@[k]).name@ != name@,
        decreases files@.len() - i,
    {
        if str_eq(files[i].name.as_str(), name) {
            return Some(i);
        }
        i = i + 1;
    }
    None
}

/// Copies a database into the listing under the given name, overwriting
/// an existing file of that name.
fn put_backup(files: &mut Vec<BackupFile>, name: String, data: Db)
    requires
        names_unique(old(files)@),
    ensures
        put_rel(old(files)@, final (files)@, name@, data),
        names_unique(final (files)@),
        ((forall|k: int| 0 <= k < old(files)@.len() ==> (#[trigger] old(files)@[k]).contents.wf())
            && data.wf()) ==> (forall|i: int|
            0 <= i < final (files)@.len() ==> (#[trigger] final (files)@[i]).contents.wf()),
{
    let ghost pre = files@;
    match find_file_exec(files, name.as_str()) {
        Some(i) => {
            files.set(i, BackupFile { name, contents: data });
            proof {
                assert forall|k: int|
                    0 <= k < pre.len() && (#[trigger] pre[k]).name@ == name@ implies k
                    == i as int by {}
            }
        },
        None => {
            files.push(BackupFile { name, contents: data });
        },
    }
}

impl Store {
    /// Clears all records, as the destructive reset does, after writing a
    /// timestamped snapshot of the live database into the backup listing.
    /// The snapshot is taken only when a live database exists; the schema
    /// and the next id survive the reset.
    pub fn reset_data(&mut self, stamp: &str)
        requires
            old(self).wf(),
        ensures
            final (self).wf(),
            reset_rel(*old(self), *final (self), stamp@),
    {
        let live = self.live.take();
        match live {
            Some(db) => {
                let name = String::from_str("backup_").concat(stamp).concat(".db");
                let snapshot = db.clone();
                put_backup(&mut self.backups, name, snapshot);
                let cleared = Db {
                    has_date_column: db.has_date_column,
                    next_id: db.next_id,
                    rows: Vec::new(),
                };
                self.live = Some(cleared);
            },
            None => {},
        }
    }

    /// Lists the backup file names, most recent first: the fixed
    /// zero-padded stamp makes descending name order descending time
    /// order. Only `.db` files are reported; a missing directory is the
    /// empty listing.
    pub fn list_backups(&self) -> (res: Vec<String>)
        ensures
            res@ == sort_names(db_names(self.backups@)),
    {
        let mut res: Vec<String> = Vec::new();
        let mut i: usize = 0;
        proof {
            assert(self.backups@.take(0) =~= Seq::<BackupFile>::empty());
            reveal(Seq::filter);
            assert(db_names(self.backups@.take(0)) =~= Seq::<String>::empty());
        }
        while i < self.backups.len()
            invariant
                i <= self.backups@.len(),
                res@ == sort_names(db_names(self.backups@.take(i as int))),
            decreases self.backups@.len() - i,
        {
            let f = &self.backups[i];
            let keep = is_db_name_exec(f.name.as_str());
            proof {
                lemma_db_names_push(self.backups@.take(i as int), self.backups@[i as int]);
                assert(self.backups@.take(i as int).push(self.backups@[i as int])
                    =~= self.backups@.take(i + 1));
                if keep {
                    assert(db_names(self.backups@.take(i + 1)).drop_last() =~= db_names(
                        self.backups@.take(i as int),
                    ));
                }
            }
            if keep {
                insert_name_sorted(&mut res, f.name.clone());
            }
            i = i + 1;
        }
        proof {
            assert(self.backups@.take(self.backups@.len() as int) =~= self.backups@);
        }
        res
    }

    /// Restores the named backup: refused when it does not exist; else the
    /// live database is first snapshotted under a stamped safety name,
    /// then replaced by the backup's contents, and the date-column
    /// migration is re-run on the restored file (it may predate the
    /// column).
    #[verifier::rlimit(60)]
    pub fn restore_backup(&mut self, backup_filename: &str, stamp: &str) -> (r: Result<
        (),
        BackupError,
    >)
        requires
            old(self).wf(),
        ensures
            final (self).wf(),
            restore_rel(*old(self), *final (self), backup_filename@, stamp@, r),
    {
        let first = find_file_exec(&self.backups, backup_filename);
        if first.is_none() {
            return Err(BackupError::NotFound);
        }
        proof {
            assert(has_file(old(self).backups@, backup_filename@));
        }
        let live = self.live.take();
        match live {
            Some(db) => {
                let name = String::from_str("before_restore_").concat(stamp).concat(".db");
                let snapshot = db.clone();
                put_backup(&mut self.backups, name, snapshot);
            },
            None => {},
        }
        proof {
            // the chosen file was present before the safety snapshot, and
            // a copy never removes a file, so it is still present
            let pre_files = old(self).backups@;
            let i0 = choose|i: int|
                0 <= i < pre_files.len() && (#[trigger] pre_files[i]).name@ == backup_filename@;
            if old(self).live is Some {
                if pre_files[i0].name@ == before_restore_name(stamp@) {
                    assert(self.backups@[i0].name@ == backup_filename@);
                } else {
                    assert(self.backups@[i0] == pre_files[i0]);
                }
            }
            assert(has_file(self.backups@, backup_filename@));
        }
        let found = find_file_exec(&self.backups, backup_filename);
        let idx = match found {
            Some(i) => i,
            None => {
                proof {
                    assert(false);
                }
                0
            },
        };
        let mut restored = self.backups[idx].contents.clone();
        let ghost copied = restored;
        restored.migrate();
        proof {
            assert(db_eq(copied, self.backups@[idx as int].contents));
            assert(migrated(self.backups@[idx as int].contents, restored));
        }
        self.live = Some(restored);
        proof {
            let r: Result<(), BackupError> = Ok(());
            assert(has_file(old(self).backups@, backup_filename@));
            assert(old(self).live is Some ==> put_rel(
                old(self).backups@,
                self.backups@,
                before_restore_name(stamp@),
                old(self).live->0,
            ));
            assert(old(self).live is None ==> self.backups@ == old(self).backups@);
            assert(self.live is Some);
            assert(exists|i: int|
                0 <= i < self.backups@.len() && (#[trigger] self.backups@[i]).name@
                    == backup_filename@ && migrated(self.backups@[i].contents, self.live->0));
            assert(restore_rel(*old(self), *self, backup_filename@, stamp@, r));
        }
        Ok(())
    }
}

/// A copy into the listing keeps every file name in place: replaced
/// entries keep their name, untouched entries keep everything, and only a
/// fresh name appends a file. Unique names stay unique.
pub proof fn lemma_put_keeps_names(pre: Seq<BackupFile>, post: Seq<BackupFile>, name: Seq<char>, data: Db)
    requires
        put_rel(pre, post, name, data),
        names_unique(pre),
    ensures
        names_unique(post),
        forall|i: int| 0 <= i < pre.len() ==> (#[trigger] post[i]).name@ == pre[i].name@,
        post.len() >= pre.len(),
        forall|i: int| pre.len() <= i < post.len() ==> (#[trigger] post[i]).name@ == name,
{
    assert forall|i: int| 0 <= i < pre.len() implies (#[trigger] post[i]).name@ == pre[i].name@ by {
        if pre[i].name@ == name {
        } else {
            assert(post[i] == pre[i]);
        }
    }
    if !has_file(pre, name) {
        assert forall|i: int| 0 <= i < pre.len() implies (#[trigger] pre[i]).name@ != name by {}
    }
}

/// After a reset of a store that held a live database, under a stamp
/// whose snapshot name is fresh, the records are empty — schema and next
/// id retained — and the backup directory holds exactly one new file: the
/// snapshot of the former live database, named `backup_<stamp>.db`.
pub proof fn lemma_reset_takes_snapshot(pre: Store, post: Store, stamp: Seq<char>)
    requires
        reset_rel(pre, post, stamp),
        pre.live is Some,
        !has_file(pre.backups@, backup_name(stamp)),
    ensures
        post.live is Some,
        post.live->0.rows@.len() == 0,
        post.live->0.has_date_column == pre.live->0.has_date_column,
        post.live->0.next_id == pre.live->0.next_id,
        post.backups@.len() == pre.backups@.len() + 1,
        forall|i: int| 0 <= i < pre.backups@.len() ==> (#[trigger] post.backups@[i]) == pre.backups@[i],
        post.backups@.last().name@ == backup_name(stamp),
        db_eq(post.backups@.last().contents, pre.live->0),
        is_db_name(backup_name(stamp)),
{
    assert forall|i: int| 0 <= i < pre.backups@.len() implies (#[trigger] post.backups@[i])
        == pre.backups@[i] by {
        assert(pre.backups@[i].name@ != backup_name(stamp));
    }
    reveal_strlit("backup_");
    reveal_strlit(".db");
    assert(is_db_name(backup_name(stamp)));
}

/// Backing up a live database (the snapshot a reset takes), then letting
/// the live records change, then restoring that snapshot reproduces the
/// record set from before the change exactly — and leaves a
/// `before_restore_<stamp>.db` safety snapshot of the replaced state
/// behind.
pub proof fn lemma_restore_round_trip(
    s0: Store,
    s1: Store,
    s2: Store,
    s3: Store,
    t1: Seq<char>,
    t2: Seq<char>,
    r: Result<(), BackupError>,
)
    requires
        s0.live is Some,
        s0.live->0.has_date_column,
        names_unique(s0.backups@),
        !has_file(s0.backups@, backup_name(t1)),
        reset_rel(s0, s1, t1),
        s2.backups@ == s1.backups@,
        s2.live is Some,
        restore_rel(s2, s3, backup_name(t1), t2, r),
    ensures
        r is Ok,
        s3.live is Some,
        s3.live->0.rows@ == s0.live->0.rows@,
        has_file(s3.backups@, before_restore_name(t2)),
{
    let bn = backup_name(t1);
    let brn = before_restore_name(t2);
    lemma_put_keeps_names(s0.backups@, s1.backups@, bn, s0.live->0);
    let n = s1.backups@.len() - 1;
    assert(s1.backups@[n].name@ == bn);
    assert(has_file(s2.backups@, bn));
    // the two stamp names differ in their second character
    reveal_strlit("backup_");
    reveal_strlit("before_restore_");
    reveal_strlit(".db");
    assert(bn[1] == 'a');
    assert(brn[1] == 'e');
    assert(bn != brn);
    // the snapshot entry survives the safety copy untouched
    lemma_put_keeps_names(s2.backups@, s3.backups@, brn, s2.live->0);
    assert(s3.backups@[n] == s2.backups@[n]);
    // the restored live database is that entry's contents, migrated
    let i0 = choose|i: int|
        0 <= i < s3.backups@.len() && (#[trigger] s3.backups@[i]).name@ == bn && migrated(
            s3.backups@[i].contents,
            s3.live->0,
        );
    if i0 < s2.backups@.len() {
        assert(s2.backups@[i0].name@ == bn);
        assert(i0 == n);
    } else {
        assert(s3.backups@[i0].name@ == brn);
        assert(false);
    }
    assert(migrated(s1.backups@[n].contents, s3.live->0));
    assert(db_eq(s1.backups@[n].contents, s0.live->0));
    // the safety snapshot exists
    if has_file(s2.backups@, brn) {
        let k = choose|i: int|
            0 <= i < s2.backups@.len() && (#[trigger] s2.backups@[i]).name@ == brn;
        assert(s3.backups@[k].name@ == brn);
    } else {
        assert(s3.backups@.last().name@ == brn);
    }
}

/// The `.db` entries of a listing, by name, in directory order.
pub open spec fn db_names(files: Seq<BackupFile>) -> Seq<String> {
    files.map_values(|f: BackupFile| f.name).filter(|n: String| is_db_name(n@))
}

/// Where a name lands in a descending-sorted listing: after every name it
/// is not greater than.
pub open spec fn insert_name_desc(s: Seq<String>, x: String) -> Seq<String>
    decreases s.len(),
{
    if s.len() == 0 {
        seq![x]
    } else if lex_lt(s[0]@, x@) {
        seq![x] + s
    } else {
        seq![s[0]] + insert_name_desc(s.skip(1), x)
    }
}

/// The names in descending lexicographic order, each inserted in turn.
pub open spec fn sort_names(s: Seq<String>) -> Seq<String>
    decreases s.len(),
{
    if s.len() == 0 {
        s
    } else {
        insert_name_desc(sort_names(s.drop_last()), s.last())
    }
}

proof fn lemma_insert_name_at(s: Seq<String>, x: String, p: int)
    requires
        0 <= p <= s.len(),
        forall|k: int| 0 <= k < p ==> !lex_lt((#[trigger] s[k])@, x@),
        p < s.len() ==> lex_lt(s[p]@, x@),
    ensures
        insert_name_desc(s, x) == s.insert(p, x),
    decreases p,
{
    if p == 0 {
        assert(insert_name_desc(s, x) =~= s.insert(0, x));
    } else {
        assert(!lex_lt(s[0]@, x@));
        lemma_insert_name_at(s.skip(1), x, p - 1);
        assert(seq![s[0]] + s.skip(1).insert(p - 1, x) =~= s.insert(p, x));
    }
}

/// Inserts a name into a descending-sorted list at the position
/// `insert_name_desc` describes.
fn insert_name_sorted(res: &mut Vec<String>, x: String)
    ensures
        final (res)@ == insert_name_desc(old(res)@, x),
{
    let mut p: usize = 0;
    loop
        invariant
            p <= res@.len(),
            *res == *old(res),
            forall|k: int| 0 <= k < p ==> !lex_lt((#[trigger] res@[k])@, x@),
        decreases res@.len() - p + 1,
    {
        if p < res.len() && str_lt(res[p].as_str(), x.as_str()) {
            proof {
                lemma_insert_name_at(res@, x, p as int);
            }
            res.insert(p, x);
            return ;
        } else if p >= res.len() {
            proof {
                lemma_insert_name_at(res@, x, p as int);
            }
            res.insert(p, x);
            return ;
        }
        p = p + 1;
    }
}

/// Decides whether a file name is a `.db` entry.
fn is_db_name_exec(n: &str) -> (r: bool)
    ensures
        r == is_db_name(n@),
{
    let len = n.unicode_len();
    if len < 4 {
        return false;
    }
    n.get_char(len - 3) == '.' && n.get_char(len - 2) == 'd' && n.get_char(len - 1) == 'b'
}

proof fn lemma_db_names_push(s: Seq<BackupFile>, f: BackupFile)
    ensures
        db_names(s.push(f)) == (if is_db_name(f.name@) {
            db_names(s).push(f.name)
        } else {
            db_names(s)
        }),
{
    reveal(Seq::filter);
    let m = s.push(f).map_values(|g: BackupFile| g.name);
    assert(m =~= s.map_values(|g: BackupFile| g.name).push(f.name));
    assert(m.drop_last() =~= s.map_values(|g: BackupFile| g.name));
    assert(m.last() == f.name);
}

} // verus!
