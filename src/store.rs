use vstd::prelude::*;
use crate::encode::LogError;
use crate::ingest::{encoded_record, log_directory, log_file, loggable, prepare_log_entry, LogEntry};
use crate::partition::{day_text, minute_text, LocalTime};
use crate::record::record_text;
use crate::encode::json_accepts;
use crate::frame::{all_frameable, decode_frames, framed, frames_of, lemma_appended_records_recoverable};

verus! {

/// The file contents after making sure that `path` exists: a missing file
/// starts empty, an existing one keeps its bytes.
pub open spec fn ensured_file(files: Map<Seq<char>, Seq<u8>>, path: Seq<char>) -> Map<
    Seq<char>,
    Seq<u8>,
> {
    if files.contains_key(path) {
        files
    } else {
        files.insert(path, Seq::empty())
    }
}

/// No two positions hold the same path.
pub open spec fn paths_unique(paths: Seq<String>) -> bool {
    forall|i: int, j: int|
        0 <= i < paths.len() && 0 <= j < paths.len() && (#[trigger] paths[i])@ == (
        #[trigger] paths[j])@ ==> i == j
}

/// Some position holds the path `p`.
pub open spec fn holds_path(paths: Seq<String>, p: Seq<char>) -> bool {
    exists|i: int| 0 <= i < paths.len() && (#[trigger] paths[i])@ == p
}

/// A position that holds the path `p`.
pub open spec fn path_index(paths: Seq<String>, p: Seq<char>) -> int {
    choose|i: int| 0 <= i < paths.len() && (#[trigger] paths[i])@ == p
}

/// Partition directories and files held in memory, with the semantics of the
/// on-disk store: creation is idempotent, files only grow by appends.
pub struct MemoryStore {
    dirs: Vec<String>,
    paths: Vec<String>,
    contents: Vec<Vec<u8>>,
}

impl MemoryStore {
    /// Each file path is held once, beside its contents.
    pub closed spec fn wf(&self) -> bool {
        &&& self.paths@.len() == self.contents@.len()
        &&& paths_unique(self.paths@)
    }

    /// The directories that exist.
    pub closed spec fn directories(&self) -> Set<Seq<char>> {
        Set::new(|d: Seq<char>| holds_path(self.dirs@, d))
    }

    /// The files that exist, with their contents.
    pub closed spec fn files(&self) -> Map<Seq<char>, Seq<u8>> {
        Map::new(
            |p: Seq<char>| holds_path(self.paths@, p),
            |p: Seq<char>| self.contents@[path_index(self.paths@, p)]@,
        )
    }

    /// A store with no directory and no file.
    pub fn new() -> (r: MemoryStore)
        ensures
            r.wf(),
            r.directories() == Set::<Seq<char>>::empty(),
            r.files() == Map::<Seq<char>, Seq<u8>>::empty(),
    {
        let r = MemoryStore { dirs: Vec::new(), paths: Vec::new(), contents: Vec::new() };
        assert(r.directories() =~= Set::<Seq<char>>::empty());
        assert(r.files() =~= Map::<Seq<char>, Seq<u8>>::empty());
        r
    }

    fn find(paths: &Vec<String>, p: &String) -> (r: Option<usize>)
        ensures
            r matches Some(i) ==> i < paths@.len() && paths@[i as int]@ == p@,
            r is None ==> !holds_path(paths@, p@),
    {
        let mut i: usize = 0;
        while i < paths.len()
            invariant
                i <= paths@.len(),
                forall|j: int| 0 <= j < i ==> (#[trigger] paths@[j])@ != p@,
            decreases paths@.len() - i,
        {
            if paths[i] == *p {
                return Some(i);
            }
            i = i + 1;
        }
        None
    }

    /// Creates the directory unless it exists; creating it again changes nothing.
    pub fn ensure_directory(&mut self, dir: &String)
        requires
            old(self).wf(),
        ensures
            final(self).wf(),
            final(self).directories() == old(self).directories().insert(dir@),
            final(self).files() == old(self).files(),
    {
        if Self::find(&self.dirs, dir).is_none() {
            self.dirs.push(dir.clone());
            assert forall|d: Seq<char>| #[trigger] holds_path(old(self).dirs@, d) implies holds_path(
                self.dirs@,
                d,
            ) by {
                let i = choose|i: int| 0 <= i < old(self).dirs@.len() && (#[trigger] old(
                    self,
                ).dirs@[i])@ == d;
                assert(self.dirs@[i] == old(self).dirs@[i]);
            }
            assert(self.dirs@[old(self).dirs@.len() as int]@ == dir@);
        }
        assert(self.directories() =~= old(self).directories().insert(dir@));
        assert(self.files() =~= old(self).files());
    }

    /// Creates the file, empty, unless it exists; an existing file keeps its bytes.
    pub fn ensure_file(&mut self, path: &String)
        requires
            old(self).wf(),
        ensures
            final(self).wf(),
            final(self).directories() == old(self).directories(),
            final(self).files() == ensured_file(old(self).files(), path@),
    {
        if Self::find(&self.paths, path).is_none() {
            let ghost n = self.paths@.len() as int;
            self.paths.push(path.clone());
            self.contents.push(Vec::new());
            assert forall|p: Seq<char>| #[trigger] holds_path(old(self).paths@, p) implies {
                &&& holds_path(self.paths@, p)
                &&& path_index(self.paths@, p) == path_index(old(self).paths@, p)
            } by {
                let i = path_index(old(self).paths@, p);
                assert(self.paths@[i] == old(self).paths@[i]);
                let k = path_index(self.paths@, p);
                assert(self.paths@[k]@ == p);
                assert(k != n);
                assert(self.paths@[k] == old(self).paths@[k]);
            }
            assert(self.paths@[n]@ == path@);
            assert(path_index(self.paths@, path@) == n);
            assert(self.files() =~= old(self).files().insert(path@, Seq::empty()));
        } else {
            assert(self.files() =~= old(self).files());
        }
        assert(self.directories() =~= old(self).directories());
    }

    fn append_bytes(dst: &mut Vec<u8>, src: &Vec<u8>)
        ensures
            final(dst)@ == old(dst)@ + src@,
    {
        let mut i: usize = 0;
        while i < src.len()
            invariant
                i <= src@.len(),
                dst@ == old(dst)@ + src@.take(i as int),
            decreases src@.len() - i,
        {
            dst.push(src[i]);
            assert(src@.take(i as int + 1) =~= src@.take(i as int).push(src@[i as int]));
            i = i + 1;
        }
        assert(src@.take(i as int) =~= src@);
    }

    /// Adds bytes at the end of an existing file and returns its path; `Io`
    /// when the file does not exist, and then nothing changes.
    pub fn append(&mut self, path: &String, bytes: &Vec<u8>) -> (r: Result<String, LogError>)
        requires
            old(self).wf(),
        ensures
            final(self).wf(),
            final(self).directories() == old(self).directories(),
            r is Ok <==> old(self).files().contains_key(path@),
            r matches Ok(p) ==> p@ == path@,
            r is Ok ==> final(self).files() == old(self).files().insert(
                path@,
                old(self).files()[path@] + bytes@,
            ),
            r is Err ==> r == Err::<String, LogError>(LogError::Io) && final(self).files() == old(
                self,
            ).files(),
    {
        match Self::find(&self.paths, path) {
            None => {
                assert(!old(self).files().contains_key(path@));
                Err(LogError::Io)
            },
            Some(i) => {
                assert(path_index(self.paths@, path@) == i as int);
                Self::append_bytes(&mut self.contents[i], bytes);
                assert forall|p: Seq<char>| #[trigger] holds_path(self.paths@, p) && p != path@ implies
                    path_index(self.paths@, p) != i by {
                }
                assert(self.files() =~= old(self).files().insert(
                    path@,
                    old(self).files()[path@] + bytes@,
                ));
                assert(self.directories() =~= old(self).directories());
                Ok(path.clone())
            },
        }
    }

    /// The contents of a file; `None` when it does not exist.
    pub fn read(&self, path: &String) -> (r: Option<Vec<u8>>)
        requires
            self.wf(),
        ensures
            r is Some <==> self.files().contains_key(path@),
            r matches Some(v) ==> v@ == self.files()[path@],
    {
        match Self::find(&self.paths, path) {
            None => None,
            Some(i) => {
                assert(path_index(self.paths@, path@) == i as int);
                Some(self.contents[i].clone())
            },
        }
    }

    /// Writes a prepared entry: makes sure of its directory and file, then
    /// appends its bytes, and returns the file's path.
    pub fn write_entry(&mut self, e: &LogEntry) -> (r: Result<String, LogError>)
        requires
            old(self).wf(),
        ensures
            final(self).wf(),
            r matches Ok(p) && p@ == e.path@,
            final(self).directories() == old(self).directories().insert(e.directory@),
            final(self).files() == ensured_file(old(self).files(), e.path@).insert(
                e.path@,
                ensured_file(old(self).files(), e.path@)[e.path@] + e.bytes@,
            ),
    {
        self.ensure_directory(&e.directory);
        self.ensure_file(&e.path);
        self.append(&e.path, &e.bytes)
    }

    /// Logs one request captured at `t` and returns the path written: its
    /// framed encoded record is appended to the minute file, which is created
    /// empty if missing, inside the day directory. When the request fails,
    /// no directory, file or byte is added.
    pub fn log_request(&mut self, headers: &Vec<(String, String)>, body: &str, t: &LocalTime) -> (r:
        Result<String, LogError>)
        requires
            old(self).wf(),
        ensures
            final(self).wf(),
            r is Ok <==> loggable(headers@, body@, *t),
            !json_accepts(record_text(headers@, body@)) ==> r == Err::<String, LogError>(
                LogError::Encoding,
            ),
            json_accepts(record_text(headers@, body@)) && !t.renderable() ==> r == Err::<
                String,
                LogError,
            >(LogError::TimeOutOfRange),
            r is Err ==> final(self).files() == old(self).files() && final(self).directories()
                == old(self).directories(),
            r matches Ok(p) ==> {
                &&& p@ == log_file(day_text(*t), minute_text(*t))
                &&& final(self).directories() == old(self).directories().insert(
                    log_directory(day_text(*t)),
                )
                &&& final(self).files() == ensured_file(old(self).files(), p@).insert(
                    p@,
                    ensured_file(old(self).files(), p@)[p@] + framed(encoded_record(headers@, body@)),
                )
            },
    {
        match prepare_log_entry(headers, body, t) {
            Err(e) => Err(e),
            Ok(entry) => self.write_entry(&entry),
        }
    }
}

/// Making sure of a file twice leaves the same files as doing it once, and
/// never alters the bytes of a file that existed.
pub proof fn lemma_ensure_file_idempotent(files: Map<Seq<char>, Seq<u8>>, path: Seq<char>)
    ensures
        ensured_file(ensured_file(files, path), path) == ensured_file(files, path),
        forall|p: Seq<char>| #[trigger] files.contains_key(p) ==> ensured_file(files, path).contains_key(p)
            && ensured_file(files, path)[p] == files[p],
{
}

/// A partition file made of framed records, or a missing one, stays made of
/// framed records after a successful log: its old bytes are kept as a prefix,
/// and it splits into its old records followed by the new one.
pub proof fn lemma_logged_file_stays_framed(
    files: Map<Seq<char>, Seq<u8>>,
    path: Seq<char>,
    records: Seq<Seq<u8>>,
    record: Seq<u8>,
)
    requires
        all_frameable(records.push(record)),
        ensured_file(files, path)[path] == frames_of(records),
    ensures
        ({
            let after = ensured_file(files, path).insert(
                path,
                ensured_file(files, path)[path] + framed(record),
            );
            &&& after[path].take(frames_of(records).len() as int) == frames_of(records)
            &&& decode_frames(after[path]) == Some(records.push(record))
        }),
{
    lemma_appended_records_recoverable(records, record);
    let old_bytes = frames_of(records);
    assert((old_bytes + framed(record)).take(old_bytes.len() as int) =~= old_bytes);
}

/// Making sure of a directory twice leaves the same directories as doing it once.
pub proof fn lemma_ensure_directory_idempotent(dirs: Set<Seq<char>>, dir: Seq<char>)
    ensures
        dirs.insert(dir).insert(dir) == dirs.insert(dir),
{
    assert(dirs.insert(dir).insert(dir) =~= dirs.insert(dir));
}

} // verus!
