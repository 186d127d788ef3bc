use vstd::prelude::*;

use crate::checksum::{checksum_of, sha256_hex};
use crate::clock::{compact_stamp, format_compact, LAST_STAMPED_SECOND};
use crate::error::{Error, ErrorKind};
use crate::paths::{base_name, file_name_of, join, join_path, suffixed_name, with_suffix};

verus! {

/// A file held in safe storage.
#[derive(Debug)]
pub struct SafeFile {
    /// Where the file lived before it was moved away.
    pub original_path: String,
    /// Where the file now lies inside safe storage; identifies the entry.
    pub moved_path: String,
    /// The time (seconds since the Unix epoch) from which the file may be purged.
    pub deleted_at: i64,
    /// When the file was moved into storage (seconds since the Unix epoch).
    pub trashed_at: i64,
    /// When the file was created, as its metadata said at trashing time.
    pub created_at: i64,
    /// Hex SHA-256 of the content at the time it was moved; empty when unknown.
    pub checksum: String,
}

impl SafeFile {
    /// Whether `content` still has the checksum recorded for this file.
    pub fn content_intact(&self, content: &Vec<u8>) -> (r: bool)
        ensures
            r == (self.checksum@ == sha256_hex(content@)),
    {
        checksum_of(content) == self.checksum
    }

    /// A field-for-field copy.
    pub fn duplicate(&self) -> (r: SafeFile)
        ensures
            r == *self,
    {
        SafeFile {
            original_path: self.original_path.clone(),
            moved_path: self.moved_path.clone(),
            deleted_at: self.deleted_at,
            trashed_at: self.trashed_at,
            created_at: self.created_at,
            checksum: self.checksum.clone(),
        }
    }
}

/// The first entry of `files` stored under the file name `name`.
pub open spec fn lookup(files: Seq<SafeFile>, name: Seq<char>) -> Option<SafeFile>
    decreases files.len(),
{
    if files.len() == 0 {
        None
    } else if name_matches(files[0], name) {
        Some(files[0])
    } else {
        lookup(files.drop_first(), name)
    }
}

/// The stored path chosen for a file named `name` moved into `dir` at time
/// `now`: the plain name when it is free, else the name with the time stamp.
pub open spec fn destination_path(dir: Seq<char>, name: Seq<char>, free: bool, now: i64) -> Seq<
    char,
> {
    if free {
        join_path(dir, name)
    } else {
        join_path(dir, with_suffix(name, compact_stamp(now)))
    }
}

/// Whether the retention time of `f` has run out at time `now`.
pub open spec fn is_expired(f: SafeFile, now: int) -> bool {
    now >= f.deleted_at
}

/// Whether the entry `f` is the one stored under the file name `name`.
pub open spec fn name_matches(f: SafeFile, name: Seq<char>) -> bool {
    base_name(f.moved_path@) == name
}

/// Whether some entry of `files` lies at `p`.
pub open spec fn tracks(files: Seq<SafeFile>, p: Seq<char>) -> bool {
    exists|i: int| 0 <= i < files.len() && (#[trigger] files[i]).moved_path@ == p
}

/// Whether some entry of `files` is stored under the file name `name`.
pub open spec fn tracks_name(files: Seq<SafeFile>, name: Seq<char>) -> bool {
    exists|i: int| 0 <= i < files.len() && name_matches(#[trigger] files[i], name)
}

/// No two entries of `files` are stored under the same file name.
pub open spec fn distinct_names(files: Seq<SafeFile>) -> bool {
    forall|i: int, j: int|
        0 <= i < files.len() && 0 <= j < files.len() && i != j ==> base_name(
            (#[trigger] files[i]).moved_path@,
        ) != base_name((#[trigger] files[j]).moved_path@)
}

/// No two entries of `files` lie at the same stored path.
pub open spec fn distinct_paths(files: Seq<SafeFile>) -> bool {
    forall|i: int, j: int|
        0 <= i < files.len() && 0 <= j < files.len() && i != j ==> (#[trigger] files[i]).moved_path@
            != (#[trigger] files[j]).moved_path@
}

/// The entries of `files` whose flag is set, in their order.
pub open spec fn select(files: Seq<SafeFile>, flags: Seq<bool>) -> Seq<SafeFile>
    decreases files.len(),
{
    if files.len() == 0 {
        Seq::empty()
    } else {
        let rest = select(files.drop_last(), flags.drop_last());
        if flags[files.len() - 1] {
            rest.push(files.last())
        } else {
            rest
        }
    }
}

/// The entries of `files` that do not lie at `p`, in their order.
pub open spec fn without_path(files: Seq<SafeFile>, p: Seq<char>) -> Seq<SafeFile> {
    select(files, other_path_flags(files, p))
}

/// Which entries of `files` do not lie at `p`.
pub open spec fn other_path_flags(files: Seq<SafeFile>, p: Seq<char>) -> Seq<bool> {
    Seq::new(files.len(), |i: int| files[i].moved_path@ != p)
}

/// Which entries a sweep at `now` removes: those expired whose file was deleted.
pub open spec fn purge_flags(files: Seq<SafeFile>, now: int, deleted: Seq<bool>) -> Seq<bool> {
    Seq::new(files.len(), |i: int| is_expired(files[i], now) && deleted[i])
}

/// Which entries a sweep at `now` tried and failed to delete.
pub open spec fn fail_flags(files: Seq<SafeFile>, now: int, deleted: Seq<bool>) -> Seq<bool> {
    Seq::new(files.len(), |i: int| is_expired(files[i], now) && !deleted[i])
}

/// Which entries a sweep at `now` keeps.
pub open spec fn keep_flags(files: Seq<SafeFile>, now: int, deleted: Seq<bool>) -> Seq<bool> {
    Seq::new(files.len(), |i: int| !(is_expired(files[i], now) && deleted[i]))
}

/// Which entries are not yet expired at `now`.
pub open spec fn live_flags(files: Seq<SafeFile>, now: int) -> Seq<bool> {
    Seq::new(files.len(), |i: int| !is_expired(files[i], now))
}

/// The entries a sweep at `now` removes from the store.
pub open spec fn sweep_purged(files: Seq<SafeFile>, now: int, deleted: Seq<bool>) -> Seq<SafeFile> {
    select(files, purge_flags(files, now, deleted))
}

/// The expired entries that a sweep at `now` keeps because deletion failed.
pub open spec fn sweep_failed(files: Seq<SafeFile>, now: int, deleted: Seq<bool>) -> Seq<SafeFile> {
    select(files, fail_flags(files, now, deleted))
}

/// The store's entries after a sweep at `now`.
pub open spec fn sweep_kept(files: Seq<SafeFile>, now: int, deleted: Seq<bool>) -> Seq<SafeFile> {
    select(files, keep_flags(files, now, deleted))
}

/// Every entry of `select(files, flags)` is a flagged entry of `files`.
pub proof fn lemma_select_member(files: Seq<SafeFile>, flags: Seq<bool>, k: int)
    requires
        flags.len() == files.len(),
        0 <= k < select(files, flags).len(),
    ensures
        exists|i: int| 0 <= i < files.len() && flags[i] && files[i] == select(files, flags)[k],
    decreases files.len(),
{
    let rest = select(files.drop_last(), flags.drop_last());
    if k < rest.len() {
        lemma_select_member(files.drop_last(), flags.drop_last(), k);
        let i = choose|i: int|
            0 <= i < files.len() - 1 && flags.drop_last()[i] && files.drop_last()[i] == rest[k];
        assert(flags[i] && files[i] == select(files, flags)[k]);
    } else {
        assert(flags[files.len() - 1] && files[files.len() - 1] == select(files, flags)[k]);
    }
}

/// Every flagged entry of `files` is in `select(files, flags)`.
pub proof fn lemma_select_contains(files: Seq<SafeFile>, flags: Seq<bool>, i: int)
    requires
        flags.len() == files.len(),
        0 <= i < files.len(),
        flags[i],
    ensures
        select(files, flags).contains(files[i]),
    decreases files.len(),
{
    let rest = select(files.drop_last(), flags.drop_last());
    if i < files.len() - 1 {
        lemma_select_contains(files.drop_last(), flags.drop_last(), i);
        let k = choose|k: int| 0 <= k < rest.len() && rest[k] == files[i];
        if flags[files.len() - 1] {
            assert(select(files, flags)[k] == files[i]);
        }
    } else {
        assert(select(files, flags)[rest.len() as int] == files[i]);
    }
}

/// With every flag set, `select` keeps everything.
proof fn lemma_select_all(files: Seq<SafeFile>, flags: Seq<bool>)
    requires
        flags.len() == files.len(),
        forall|i: int| 0 <= i < flags.len() ==> flags[i],
    ensures
        select(files, flags) == files,
    decreases files.len(),
{
    if files.len() > 0 {
        lemma_select_all(files.drop_last(), flags.drop_last());
        assert(files.drop_last().push(files.last()) =~= files);
    }
}

/// Flags of a prefix: `select` over the first `i + 1` entries extends that over the first `i`.
proof fn lemma_select_step(files: Seq<SafeFile>, flags: Seq<bool>, i: int)
    requires
        flags.len() == files.len(),
        0 <= i < files.len(),
    ensures
        select(files.subrange(0, i + 1), flags.subrange(0, i + 1)) == (if flags[i] {
            select(files.subrange(0, i), flags.subrange(0, i)).push(files[i])
        } else {
            select(files.subrange(0, i), flags.subrange(0, i))
        }),
{
    assert(files.subrange(0, i + 1).drop_last() =~= files.subrange(0, i));
    assert(flags.subrange(0, i + 1).drop_last() =~= flags.subrange(0, i));
}

/// Safe storage: the directory files are moved into, the metadata document
/// that records them, and the tracked entries in order.
pub struct StorageManager {
    pub safe_dir: String,
    pub metadata_file: String,
    pub safe_files: Vec<SafeFile>,
}

/// What a sweep did with each entry it looked at.
pub struct SweepReport {
    /// Expired entries whose file was deleted; they have left the store.
    pub purged: Vec<SafeFile>,
    /// Entries that had not expired; they stay.
    pub retained: Vec<SafeFile>,
    /// Expired entries whose file could not be deleted; they stay for a later try.
    pub failed: Vec<SafeFile>,
}

impl StorageManager {
    /// The store's invariant: no two entries share a stored file name (and
    /// so no two share a stored path).
    pub open spec fn wf(&self) -> bool {
        distinct_names(self.safe_files@)
    }

    /// A store over `safe_dir`, recorded in `metadata_file`, holding
    /// `safe_files` as loaded. Fails when two entries share a stored file name.
    pub fn new(safe_dir: String, metadata_file: String, safe_files: Vec<SafeFile>) -> (r: Result<
        StorageManager,
        Error,
    >)
        ensures
            r is Ok <==> distinct_names(safe_files@),
            r matches Ok(m) ==> m.wf() && m.safe_dir == safe_dir && m.metadata_file
                == metadata_file && m.safe_files@ == safe_files@,
            r matches Err(e) ==> e.kind is ParseError,
    {
        let n = safe_files.len();
        let mut i: usize = 0;
        while i < n
            invariant
                n == safe_files@.len(),
                0 <= i <= n,
                forall|a: int, b: int|
                    0 <= a < i && 0 <= b < n && a != b ==> base_name(
                        (#[trigger] safe_files@[a]).moved_path@,
                    ) != base_name((#[trigger] safe_files@[b]).moved_path@),
            decreases n - i,
        {
            let mut j: usize = 0;
            while j < n
                invariant
                    n == safe_files@.len(),
                    0 <= i < n,
                    0 <= j <= n,
                    forall|a: int, b: int|
                        0 <= a < i && 0 <= b < n && a != b ==> base_name(
                            (#[trigger] safe_files@[a]).moved_path@,
                        ) != base_name((#[trigger] safe_files@[b]).moved_path@),
                    forall|b: int|
                        0 <= b < j && b != i ==> base_name(safe_files@[i as int].moved_path@)
                            != base_name((#[trigger] safe_files@[b]).moved_path@),
                decreases n - j,
            {
                if j != i && file_name_of(safe_files[i].moved_path.as_str()) == file_name_of(
                    safe_files[j].moved_path.as_str(),
                ) {
                    return Err(
                        Error::new(
                            ErrorKind::ParseError(
                                String::from_str("two entries share one stored file name"),
                            ),
                        ),
                    );
                }
                j = j + 1;
            }
            i = i + 1;
        }
        Ok(StorageManager { safe_dir, metadata_file, safe_files })
    }

    /// Whether an entry lies at stored path `p`.
    pub fn is_tracked(&self, p: &str) -> (r: bool)
        ensures
            r == tracks(self.safe_files@, p@),
    {
        let target = String::from_str(p);
        let n = self.safe_files.len();
        let mut i: usize = 0;
        while i < n
            invariant
                n == self.safe_files@.len(),
                0 <= i <= n,
                target@ == p@,
                forall|j: int| 0 <= j < i ==> (#[trigger] self.safe_files@[j]).moved_path@ != p@,
            decreases n - i,
        {
            if self.safe_files[i].moved_path == target {
                return true;
            }
            i = i + 1;
        }
        false
    }

    /// Whether an entry is stored under the file name `name`.
    pub fn has_name(&self, name: &str) -> (r: bool)
        ensures
            r == tracks_name(self.safe_files@, name@),
    {
        let target = String::from_str(name);
        let n = self.safe_files.len();
        let mut i: usize = 0;
        while i < n
            invariant
                n == self.safe_files@.len(),
                0 <= i <= n,
                target@ == name@,
                forall|j: int| 0 <= j < i ==> !name_matches(#[trigger] self.safe_files@[j], name@),
            decreases n - i,
        {
            if file_name_of(self.safe_files[i].moved_path.as_str()) == target {
                assert(name_matches(self.safe_files@[i as int], name@));
                return true;
            }
            i = i + 1;
        }
        false
    }

    /// Records a new entry. Fails, leaving the store as it was, when an entry
    /// is already stored under the same file name.
    pub fn add_file(&mut self, safe_file: SafeFile) -> (r: Result<(), Error>)
        requires
            old(self).wf(),
        ensures
            final(self).wf(),
            final(self).safe_dir == old(self).safe_dir,
            final(self).metadata_file == old(self).metadata_file,
            r is Ok <==> !tracks_name(old(self).safe_files@, base_name(safe_file.moved_path@)),
            r is Ok ==> final(self).safe_files@ == old(self).safe_files@.push(safe_file),
            r matches Err(e) ==> e.kind is DestinationOccupied && final(self).safe_files@ == old(
                self,
            ).safe_files@,
    {
        let name = file_name_of(safe_file.moved_path.as_str());
        if self.has_name(name.as_str()) {
            return Err(
                Error::new(
                    ErrorKind::DestinationOccupied(
                        String::from_str("an entry is already stored under this name"),
                    ),
                ),
            );
        }
        proof {
            lemma_add_keeps_paths_distinct(self.safe_files@, safe_file);
        }
        self.safe_files.push(safe_file);
        Ok(())
    }

    /// Drops every entry that lies at stored path `moved_path`.
    pub fn remove_file(&mut self, moved_path: &str)
        requires
            old(self).wf(),
        ensures
            final(self).wf(),
            final(self).safe_dir == old(self).safe_dir,
            final(self).metadata_file == old(self).metadata_file,
            final(self).safe_files@ == without_path(old(self).safe_files@, moved_path@),
    {
        let target = String::from_str(moved_path);
        let ghost files = self.safe_files@;
        let ghost flags = other_path_flags(files, moved_path@);
        let n = self.safe_files.len();
        let mut kept: Vec<SafeFile> = Vec::new();
        let mut i: usize = 0;
        assert(files.subrange(0, 0) =~= Seq::<SafeFile>::empty());
        while i < n
            invariant
                n == files.len(),
                files == self.safe_files@,
                flags == other_path_flags(files, moved_path@),
                target@ == moved_path@,
                0 <= i <= n,
                kept@ == select(files.subrange(0, i as int), flags.subrange(0, i as int)),
            decreases n - i,
        {
            proof {
                lemma_select_step(files, flags, i as int);
            }
            if self.safe_files[i].moved_path != target {
                kept.push(self.safe_files[i].duplicate());
            }
            i = i + 1;
        }
        assert(files.subrange(0, n as int) =~= files);
        assert(flags.subrange(0, n as int) =~= flags);
        self.safe_files = kept;
        proof {
            let after = self.safe_files@;
            assert forall|a: int, b: int|
                0 <= a < after.len() && 0 <= b < after.len() && a != b implies base_name(
                (#[trigger] after[a]).moved_path@,
            ) != base_name((#[trigger] after[b]).moved_path@) by {
                lemma_select_member(files, flags, a);
                lemma_select_member(files, flags, b);
                lemma_select_distinct(files, flags, a, b);
            };
        }
    }
}

/// Recording a file under a stored file name that no entry has keeps every
/// stored file name, and so every stored path, distinct.
pub proof fn lemma_add_keeps_paths_distinct(files: Seq<SafeFile>, f: SafeFile)
    requires
        distinct_names(files),
        !tracks_name(files, base_name(f.moved_path@)),
    ensures
        distinct_names(files.push(f)),
        distinct_paths(files.push(f)),
{
    let after = files.push(f);
    assert forall|i: int, j: int|
        0 <= i < after.len() && 0 <= j < after.len() && i != j implies base_name(
        (#[trigger] after[i]).moved_path@,
    ) != base_name((#[trigger] after[j]).moved_path@) by {
        if i == files.len() as int {
            assert(files[j] == after[j]);
            assert(!name_matches(files[j], base_name(f.moved_path@)));
        } else if j == files.len() as int {
            assert(files[i] == after[i]);
            assert(!name_matches(files[i], base_name(f.moved_path@)));
        }
    };
    lemma_names_give_paths(after);
}

/// Entries with distinct stored file names lie at distinct stored paths.
pub proof fn lemma_names_give_paths(files: Seq<SafeFile>)
    requires
        distinct_names(files),
    ensures
        distinct_paths(files),
{
    assert forall|i: int, j: int|
        0 <= i < files.len() && 0 <= j < files.len() && i != j implies (
        #[trigger] files[i]).moved_path@ != (#[trigger] files[j]).moved_path@ by {
        if files[i].moved_path@ == files[j].moved_path@ {
            assert(base_name(files[i].moved_path@) == base_name(files[j].moved_path@));
        }
    };
}

/// Distinct positions of a selection come from distinct positions of the source.
proof fn lemma_select_distinct(files: Seq<SafeFile>, flags: Seq<bool>, a: int, b: int)
    requires
        flags.len() == files.len(),
        distinct_names(files),
        0 <= a < select(files, flags).len(),
        0 <= b < select(files, flags).len(),
        a != b,
    ensures
        base_name(select(files, flags)[a].moved_path@) != base_name(
            select(files, flags)[b].moved_path@,
        ),
    decreases files.len(),
{
    let rest = select(files.drop_last(), flags.drop_last());
    assert(distinct_names(files.drop_last())) by {
        assert forall|i: int, j: int|
            0 <= i < files.len() - 1 && 0 <= j < files.len() - 1 && i != j implies base_name(
            (#[trigger] files.drop_last()[i]).moved_path@,
        ) != base_name((#[trigger] files.drop_last()[j]).moved_path@) by {
            assert(files[i] == files.drop_last()[i]);
            assert(files[j] == files.drop_last()[j]);
        };
    };
    if a < rest.len() && b < rest.len() {
        lemma_select_distinct(files.drop_last(), flags.drop_last(), a, b);
    } else {
        let last = files.len() - 1;
        let other = if a < rest.len() {
            a
        } else {
            b
        };
        lemma_select_member(files.drop_last(), flags.drop_last(), other);
        let i = choose|i: int|
            0 <= i < files.len() - 1 && flags.drop_last()[i] && files.drop_last()[i]
                == rest[other];
        assert(files[i] == files.drop_last()[i]);
        assert(base_name(files[i].moved_path@) != base_name(files[last].moved_path@));
    }
}

impl StorageManager {
    /// The first entry stored under the file name `file_name`.
    pub fn find_safe_file(&self, file_name: &str) -> (r: Option<&SafeFile>)
        ensures
            r matches Some(f) ==> lookup(self.safe_files@, file_name@) == Some(*f),
            r is None ==> lookup(self.safe_files@, file_name@) is None,
    {
        let target = String::from_str(file_name);
        let ghost files = self.safe_files@;
        let n = self.safe_files.len();
        let mut i: usize = 0;
        assert(files.subrange(0, n as int) =~= files);
        while i < n
            invariant
                n == files.len(),
                files == self.safe_files@,
                target@ == file_name@,
                0 <= i <= n,
                lookup(files, file_name@) == lookup(files.subrange(i as int, n as int), file_name@),
            decreases n - i,
        {
            let name = file_name_of(self.safe_files[i].moved_path.as_str());
            assert(files.subrange(i as int, n as int)[0] == files[i as int]);
            if name == target {
                return Some(&self.safe_files[i]);
            }
            assert(files.subrange(i as int, n as int).drop_first() =~= files.subrange(
                i + 1,
                n as int,
            ));
            i = i + 1;
        }
        None
    }

    /// All tracked entries, in order.
    pub fn get_safe_files(&self) -> (r: &Vec<SafeFile>)
        ensures
            r@ == self.safe_files@,
    {
        &self.safe_files
    }

    /// The file names under which the entries are stored, in order.
    pub fn stored_names(&self) -> (r: Vec<String>)
        ensures
            r@.len() == self.safe_files@.len(),
            forall|i: int|
                0 <= i < r@.len() ==> (#[trigger] r@[i])@ == base_name(self.safe_files@[i].moved_path@),
    {
        let n = self.safe_files.len();
        let mut names: Vec<String> = Vec::new();
        let mut i: usize = 0;
        while i < n
            invariant
                n == self.safe_files@.len(),
                0 <= i <= n,
                names@.len() == i,
                forall|j: int|
                    0 <= j < i ==> (#[trigger] names@[j])@ == base_name(
                        self.safe_files@[j].moved_path@,
                    ),
            decreases n - i,
        {
            names.push(file_name_of(self.safe_files[i].moved_path.as_str()));
            i = i + 1;
        }
        names
    }

    /// For each entry, whether it has expired at time `now`.
    pub fn sweep_plan(&self, now: i64) -> (r: Vec<bool>)
        ensures
            r@ == Seq::new(self.safe_files@.len(), |i: int| is_expired(self.safe_files@[i], now as int)),
    {
        let n = self.safe_files.len();
        let mut due: Vec<bool> = Vec::new();
        let mut i: usize = 0;
        while i < n
            invariant
                n == self.safe_files@.len(),
                0 <= i <= n,
                due@.len() == i,
                forall|j: int| 0 <= j < i ==> due@[j] == is_expired(self.safe_files@[j], now as int),
            decreases n - i,
        {
            due.push(now >= self.safe_files[i].deleted_at);
            i = i + 1;
        }
        assert(due@ =~= Seq::new(n as nat, |i: int| is_expired(self.safe_files@[i], now as int)));
        due
    }

    /// Completes a sweep at time `now`. `deleted[i]` tells whether the file of
    /// entry `i` was deleted from storage; it is read only for expired entries.
    /// Expired entries whose file was deleted leave the store; all others stay.
    pub fn cleanup(&mut self, now: i64, deleted: &Vec<bool>) -> (r: SweepReport)
        requires
            old(self).wf(),
            deleted@.len() == old(self).safe_files@.len(),
        ensures
            final(self).wf(),
            final(self).safe_dir == old(self).safe_dir,
            final(self).metadata_file == old(self).metadata_file,
            final(self).safe_files@ == sweep_kept(old(self).safe_files@, now as int, deleted@),
            r.purged@ == sweep_purged(old(self).safe_files@, now as int, deleted@),
            r.failed@ == sweep_failed(old(self).safe_files@, now as int, deleted@),
            r.retained@ == select(old(self).safe_files@, live_flags(old(self).safe_files@, now as int)),
    {
        let ghost files = self.safe_files@;
        let ghost t = now as int;
        let ghost kf = keep_flags(files, t, deleted@);
        let ghost pf = purge_flags(files, t, deleted@);
        let ghost ff = fail_flags(files, t, deleted@);
        let ghost lf = live_flags(files, t);
        let n = self.safe_files.len();
        let mut kept: Vec<SafeFile> = Vec::new();
        let mut purged: Vec<SafeFile> = Vec::new();
        let mut failed: Vec<SafeFile> = Vec::new();
        let mut retained: Vec<SafeFile> = Vec::new();
        let mut i: usize = 0;
        assert(files.subrange(0, 0) =~= Seq::<SafeFile>::empty());
        while i < n
            invariant
                n == files.len(),
                files == self.safe_files@,
                deleted@.len() == n,
                t == now as int,
                kf == keep_flags(files, t, deleted@),
                pf == purge_flags(files, t, deleted@),
                ff == fail_flags(files, t, deleted@),
                lf == live_flags(files, t),
                0 <= i <= n,
                kept@ == select(files.subrange(0, i as int), kf.subrange(0, i as int)),
                purged@ == select(files.subrange(0, i as int), pf.subrange(0, i as int)),
                failed@ == select(files.subrange(0, i as int), ff.subrange(0, i as int)),
                retained@ == select(files.subrange(0, i as int), lf.subrange(0, i as int)),
            decreases n - i,
        {
            proof {
                lemma_select_step(files, kf, i as int);
                lemma_select_step(files, pf, i as int);
                lemma_select_step(files, ff, i as int);
                lemma_select_step(files, lf, i as int);
            }
            let f = &self.safe_files[i];
            if now >= f.deleted_at {
                if deleted[i] {
                    purged.push(f.duplicate());
                } else {
                    failed.push(f.duplicate());
                    kept.push(f.duplicate());
                }
            } else {
                retained.push(f.duplicate());
                kept.push(f.duplicate());
            }
            i = i + 1;
        }
        assert(files.subrange(0, n as int) =~= files);
        assert(kf.subrange(0, n as int) =~= kf);
        assert(pf.subrange(0, n as int) =~= pf);
        assert(ff.subrange(0, n as int) =~= ff);
        assert(lf.subrange(0, n as int) =~= lf);
        self.safe_files = kept;
        proof {
            let after = self.safe_files@;
            assert forall|a: int, b: int|
                0 <= a < after.len() && 0 <= b < after.len() && a != b implies base_name(
                (#[trigger] after[a]).moved_path@,
            ) != base_name((#[trigger] after[b]).moved_path@) by {
                lemma_select_distinct(files, kf, a, b);
            };
        }
        SweepReport { purged, retained, failed }
    }

    /// Completes a forced clean: every entry is due, whatever its expiry.
    /// `deleted[i]` tells whether the file of entry `i` was deleted; those
    /// entries leave the store, the others stay for a later try.
    pub fn cleanup_all_files(&mut self, deleted: &Vec<bool>) -> (r: SweepReport)
        requires
            old(self).wf(),
            deleted@.len() == old(self).safe_files@.len(),
        ensures
            final(self).wf(),
            final(self).safe_dir == old(self).safe_dir,
            final(self).metadata_file == old(self).metadata_file,
            final(self).safe_files@ == select(
                old(self).safe_files@,
                Seq::new(deleted@.len(), |i: int| !deleted@[i]),
            ),
            r.purged@ == select(old(self).safe_files@, deleted@),
            r.failed@ == select(
                old(self).safe_files@,
                Seq::new(deleted@.len(), |i: int| !deleted@[i]),
            ),
            r.retained@.len() == 0,
    {
        let ghost files = self.safe_files@;
        let ghost t = i64::MAX as int;
        assert(keep_flags(files, t, deleted@) =~= Seq::new(deleted@.len(), |i: int| !deleted@[i]));
        assert(purge_flags(files, t, deleted@) =~= deleted@);
        assert(fail_flags(files, t, deleted@) =~= Seq::new(deleted@.len(), |i: int| !deleted@[i]));
        let r = self.cleanup(i64::MAX, deleted);
        proof {
            lemma_select_none(files, live_flags(files, t));
        }
        r
    }

    /// Decides a restore of the file stored under `file_name`: the entry to
    /// move back, unless none is stored under that name (`NotFound`) or
    /// something already lies at its original path (`DestinationOccupied`).
    pub fn plan_restore(&self, file_name: &str, destination_exists: bool) -> (r: Result<
        SafeFile,
        Error,
    >)
        ensures
            lookup(self.safe_files@, file_name@) is None <==> (r matches Err(e)
                && e.kind is NotFound),
            r matches Err(e) && e.kind is DestinationOccupied <==> (lookup(
                self.safe_files@,
                file_name@,
            ) is Some && destination_exists),
            r matches Ok(f) ==> !destination_exists && lookup(self.safe_files@, file_name@)
                == Some(f),
            lookup(self.safe_files@, file_name@) is Some && !destination_exists ==> r
                == Ok::<SafeFile, Error>(lookup(self.safe_files@, file_name@)->Some_0),
    {
        match self.find_safe_file(file_name) {
            None => Err(
                Error::new(ErrorKind::NotFound(String::from_str("File not found in safe storage"))),
            ),
            Some(f) => {
                if destination_exists {
                    Err(
                        Error::new(
                            ErrorKind::DestinationOccupied(
                                String::from_str("the original path is occupied"),
                            ),
                        ),
                    )
                } else {
                    Ok(f.duplicate())
                }
            },
        }
    }

    /// The stored path for the file at `original_path`, moved in at time `now`.
    /// `occupied` tells whether storage already holds a file under its plain
    /// name. The plain name is used when neither that file nor an entry has
    /// it; otherwise the time stamp is inserted before the extension. Fails
    /// when the path has no file name, or when a stamp is needed and `now` is
    /// out of the calendar's range.
    pub fn destination_for(&self, original_path: &str, occupied: bool, now: i64) -> (r: Result<
        String,
        Error,
    >)
        ensures
            base_name(original_path@).len() == 0 ==> r is Err,
            r matches Ok(p) ==> p@ == destination_path(
                self.safe_dir@,
                base_name(original_path@),
                !occupied && !tracks_name(self.safe_files@, base_name(original_path@)),
                now,
            ),
            base_name(original_path@).len() > 0 && !occupied && !tracks_name(
                self.safe_files@,
                base_name(original_path@),
            ) ==> r is Ok,
            base_name(original_path@).len() > 0 && 0 <= now <= LAST_STAMPED_SECOND ==> r is Ok,
    {
        let name = file_name_of(original_path);
        if name.as_str().unicode_len() == 0 {
            return Err(Error::new(ErrorKind::InvalidArg(String::from_str("Invalid file name"))));
        }
        let plain = join(self.safe_dir.as_str(), name.as_str());
        if !occupied && !self.has_name(name.as_str()) {
            return Ok(plain);
        }
        match format_compact(now) {
            None => Err(
                Error::new(ErrorKind::InvalidArg(String::from_str("time stamp out of range"))),
            ),
            Some(stamp) => {
                let renamed = suffixed_name(name.as_str(), stamp.as_str());
                Ok(join(self.safe_dir.as_str(), renamed.as_str()))
            },
        }
    }
}

/// The expiry time of a file moved at `now` and kept for `duration` seconds;
/// fails when it lies beyond the `i64` range.
pub fn expiry_time(now: i64, duration: u64) -> (r: Result<i64, Error>)
    ensures
        r is Ok <==> now + duration <= i64::MAX,
        r matches Ok(t) ==> t == now + duration,
{
    let total: i128 = now as i128 + duration as i128;
    if total > i64::MAX as i128 {
        Err(Error::new(ErrorKind::InvalidArg(String::from_str("expiry time out of range"))))
    } else {
        Ok(total as i64)
    }
}

/// With no flag set, `select` keeps nothing.
proof fn lemma_select_none(files: Seq<SafeFile>, flags: Seq<bool>)
    requires
        flags.len() == files.len(),
        forall|i: int| 0 <= i < flags.len() ==> !flags[i],
    ensures
        select(files, flags).len() == 0,
    decreases files.len(),
{
    if files.len() > 0 {
        lemma_select_none(files.drop_last(), flags.drop_last());
    }
}

/// Sweeping twice at the same moment: the second sweep purges only entries
/// whose deletion failed in the first, so nothing at all when the first had
/// no failure.
pub proof fn lemma_sweep_idempotent(
    files: Seq<SafeFile>,
    now: int,
    first: Seq<bool>,
    second: Seq<bool>,
)
    requires
        first.len() == files.len(),
        second.len() == sweep_kept(files, now, first).len(),
    ensures
        forall|k: int|
            0 <= k < sweep_purged(sweep_kept(files, now, first), now, second).len() ==> sweep_failed(
                files,
                now,
                first,
            ).contains(#[trigger] sweep_purged(sweep_kept(files, now, first), now, second)[k]),
        sweep_failed(files, now, first).len() == 0 ==> sweep_purged(
            sweep_kept(files, now, first),
            now,
            second,
        ).len() == 0,
{
    let kept = sweep_kept(files, now, first);
    let again = sweep_purged(kept, now, second);
    assert forall|k: int| 0 <= k < again.len() implies sweep_failed(files, now, first).contains(
        #[trigger] again[k],
    ) by {
        lemma_select_member(kept, purge_flags(kept, now, second), k);
        let i = choose|i: int|
            0 <= i < kept.len() && purge_flags(kept, now, second)[i] && kept[i] == again[k];
        lemma_select_member(files, keep_flags(files, now, first), i);
        let j = choose|j: int|
            0 <= j < files.len() && keep_flags(files, now, first)[j] && files[j] == kept[i];
        assert(fail_flags(files, now, first)[j]);
        lemma_select_contains(files, fail_flags(files, now, first), j);
    };
    if again.len() > 0 {
        assert(sweep_failed(files, now, first).contains(again[0]));
    }
}

/// Expiry never reverts: an entry expired at `t1` is expired at every later time.
pub proof fn lemma_expiry_monotone(f: SafeFile, t1: int, t2: int)
    requires
        is_expired(f, t1),
        t1 <= t2,
    ensures
        is_expired(f, t2),
{
}

/// Moving a file in and then restoring it: the new entry is the one found
/// under its stored name, and dropping it gives back the entries as they were.
pub proof fn lemma_restore_inverse(files: Seq<SafeFile>, f: SafeFile)
    requires
        distinct_names(files),
        !tracks_name(files, base_name(f.moved_path@)),
    ensures
        distinct_names(files.push(f)),
        lookup(files.push(f), base_name(f.moved_path@)) == Some(f),
        without_path(files.push(f), f.moved_path@) == files,
{
    lemma_add_keeps_paths_distinct(files, f);
    lemma_lookup_last(files, f, base_name(f.moved_path@));
    let after = files.push(f);
    let p = f.moved_path@;
    let flags = other_path_flags(after, p);
    assert(after.drop_last() =~= files);
    let rest = other_path_flags(files, p);
    assert(flags.drop_last() =~= rest);
    assert forall|i: int| 0 <= i < rest.len() implies rest[i] by {
        if files[i].moved_path@ == p {
            assert(name_matches(files[i], base_name(p)));
        }
    };
    assert forall|i: int| 0 <= i < files.len() implies !name_matches(
        #[trigger] files[i],
        base_name(f.moved_path@),
    ) by {
        if name_matches(files[i], base_name(f.moved_path@)) {
            assert(tracks_name(files, base_name(f.moved_path@)));
        }
    };
    lemma_select_all(files, rest);
    assert(!flags[after.len() - 1]);
    assert(select(after, flags) == select(after.drop_last(), flags.drop_last()));
}

/// With no earlier entry under `name`, an entry appended under it is the one found.
proof fn lemma_lookup_last(files: Seq<SafeFile>, f: SafeFile, name: Seq<char>)
    requires
        name_matches(f, name),
        forall|i: int| 0 <= i < files.len() ==> !name_matches(#[trigger] files[i], name),
    ensures
        lookup(files.push(f), name) == Some(f),
    decreases files.len(),
{
    if files.len() > 0 {
        assert(files.push(f).drop_first() =~= files.drop_first().push(f));
        assert(!name_matches(files[0], name));
        assert forall|i: int| 0 <= i < files.drop_first().len() implies !name_matches(
            #[trigger] files.drop_first()[i],
            name,
        ) by {
            assert(files.drop_first()[i] == files[i + 1]);
        };
        lemma_lookup_last(files.drop_first(), f, name);
    } else {
        assert(files.push(f)[0] == f);
    }
}

} // verus!
