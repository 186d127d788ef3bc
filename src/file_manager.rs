use vstd::prelude::*;

use crate::args::{cond_matches, FileStat, RemoveCond};
use crate::error::{Error, ErrorKind};
use crate::paths::{join, join_path};

verus! {

/// Relies on `dirs::home_dir`: the user's home directory, if one is known.
/// What it returns depends on the environment, so nothing is stated of it.
#[verifier::external_body]
fn user_home() -> (r: Option<String>) {
    match dirs::home_dir() {
        Some(p) => Some(p.to_string_lossy().into_owned()),
        None => None,
    }
}

/// One file recorded by the home-directory file manager.
#[derive(Debug)]
pub struct FileMetadata {
    /// The path the file was removed from.
    pub file_name: String,
    pub size: u64,
    /// Seconds since the Unix epoch.
    pub created_at: i64,
    /// Seconds since the Unix epoch.
    pub safe_deleted_at: i64,
    pub checksum: String,
    pub remove_condition: RemoveCond,
}

/// The paths, under `home`, of the records whose rule matches their file's
/// metadata at `now`, in order.
pub open spec fn due_paths(
    home: Seq<char>,
    records: Seq<FileMetadata>,
    stats: Seq<FileStat>,
    now: int,
) -> Seq<Seq<char>>
    decreases records.len(),
{
    if records.len() == 0 {
        Seq::empty()
    } else {
        let rest = due_paths(home, records.drop_last(), stats.drop_last(), now);
        let r = records.last();
        if cond_matches(r.remove_condition, stats[records.len() - 1], now) {
            rest.push(join_path(home, r.file_name@))
        } else {
            rest
        }
    }
}

/// The directory of the program's data, relative to the home directory.
pub open spec fn data_dir_spec(home: Seq<char>) -> Seq<char> {
    join_path(home, ".local/share/srm"@)
}

/// A file manager that keeps its trash and metadata under the user's home directory.
pub struct FileManager {
    pub home_dir: String,
}

impl FileManager {
    /// A manager rooted at the user's home directory; fails when none is known.
    pub fn new() -> (r: Result<FileManager, Error>)
        ensures
            r matches Err(e) ==> e.kind is NotFound,
    {
        match user_home() {
            Some(home_dir) => Ok(FileManager { home_dir }),
            None => Err(
                Error::new(ErrorKind::NotFound(String::from_str("Failed to get home directory"))),
            ),
        }
    }

    /// A manager rooted at `home_dir`.
    pub fn with_home(home_dir: String) -> (r: FileManager)
        ensures
            r.home_dir == home_dir,
    {
        FileManager { home_dir }
    }

    /// The directory that removed files are moved into.
    pub fn get_trash_dir(&self) -> (r: String)
        ensures
            r@ == join_path(data_dir_spec(self.home_dir@), "trash"@),
    {
        let data = join(self.home_dir.as_str(), ".local/share/srm");
        join(data.as_str(), "trash")
    }

    /// The metadata document.
    pub fn get_metadata_file_path(&self) -> (r: String)
        ensures
            r@ == join_path(data_dir_spec(self.home_dir@), "metadata.json"@),
    {
        let data = join(self.home_dir.as_str(), ".local/share/srm");
        join(data.as_str(), "metadata.json")
    }

    /// The paths of the recorded files that their rule makes eligible at
    /// `now`; `stats[i]` is the current metadata of the file of `records[i]`.
    pub fn find_files_to_remove(
        &self,
        records: &Vec<FileMetadata>,
        stats: &Vec<FileStat>,
        now: i64,
    ) -> (r: Vec<String>)
        requires
            stats@.len() == records@.len(),
        ensures
            r@.len() == due_paths(self.home_dir@, records@, stats@, now as int).len(),
            forall|i: int|
                0 <= i < r@.len() ==> (#[trigger] r@[i])@ == due_paths(
                    self.home_dir@,
                    records@,
                    stats@,
                    now as int,
                )[i],
    {
        let n = records.len();
        let mut out: Vec<String> = Vec::new();
        let mut i: usize = 0;
        assert(records@.subrange(0, 0) =~= Seq::<FileMetadata>::empty());
        while i < n
            invariant
                n == records@.len(),
                stats@.len() == n,
                0 <= i <= n,
                out@.len() == due_paths(
                    self.home_dir@,
                    records@.subrange(0, i as int),
                    stats@.subrange(0, i as int),
                    now as int,
                ).len(),
                forall|k: int|
                    0 <= k < out@.len() ==> (#[trigger] out@[k])@ == due_paths(
                        self.home_dir@,
                        records@.subrange(0, i as int),
                        stats@.subrange(0, i as int),
                        now as int,
                    )[k],
            decreases n - i,
        {
            let ghost rs = records@.subrange(0, i + 1);
            let ghost ss = stats@.subrange(0, i + 1);
            assert(rs.drop_last() =~= records@.subrange(0, i as int));
            assert(ss.drop_last() =~= stats@.subrange(0, i as int));
            assert(rs.last() == records@[i as int]);
            assert(ss[rs.len() - 1] == stats@[i as int]);
            let rec = &records[i];
            if rec.remove_condition.check(&stats[i], now) {
                out.push(join(self.home_dir.as_str(), rec.file_name.as_str()));
            }
            i = i + 1;
        }
        assert(records@.subrange(0, n as int) =~= records@);
        assert(stats@.subrange(0, n as int) =~= stats@);
        out
    }
}

} // verus!
