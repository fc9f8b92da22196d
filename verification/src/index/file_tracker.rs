use vstd::prelude::*;

use sha2::Digest;

use crate::parser::ast::opt_view;
use crate::text::{push_str, views};

verus! {

/// What is known of an indexed file: its content hash, modification time,
/// size and number of chunks.
#[derive(Debug, Clone)]
pub struct TrackedFileInfo {
    pub relative_path: String,
    pub sha256: String,
    pub mtime_secs: u64,
    pub size_bytes: u64,
    pub chunk_count: usize,
}

/// The plain value of a `TrackedFileInfo`.
pub struct TrackedFileSpec {
    pub relative_path: Seq<char>,
    pub sha256: Seq<char>,
    pub mtime_secs: u64,
    pub size_bytes: u64,
    pub chunk_count: usize,
}

impl View for TrackedFileInfo {
    type V = TrackedFileSpec;

    open spec fn view(&self) -> TrackedFileSpec {
        TrackedFileSpec {
            relative_path: self.relative_path@,
            sha256: self.sha256@,
            mtime_secs: self.mtime_secs,
            size_bytes: self.size_bytes,
            chunk_count: self.chunk_count,
        }
    }
}

impl TrackedFileInfo {
    /// A copy of the record.
    pub fn duplicate(&self) -> (r: TrackedFileInfo)
        ensures
            r@ == self@,
    {
        TrackedFileInfo {
            relative_path: self.relative_path.clone(),
            sha256: self.sha256.clone(),
            mtime_secs: self.mtime_secs,
            size_bytes: self.size_bytes,
            chunk_count: self.chunk_count,
        }
    }
}

/// The files added, modified and deleted since the last indexing.
#[derive(Debug, Clone)]
pub struct FileChanges {
    pub added: Vec<String>,
    pub modified: Vec<String>,
    pub deleted: Vec<String>,
}

impl FileChanges {
    /// Whether nothing changed.
    pub fn is_empty(&self) -> (b: bool)
        ensures
            b == (self.added@.len() == 0 && self.modified@.len() == 0 && self.deleted@.len() == 0),
    {
        self.added.len() == 0 && self.modified.len() == 0 && self.deleted.len() == 0
    }
}

/// The views of a sequence of tracked files.
pub open spec fn tracked_views(v: Seq<TrackedFileInfo>) -> Seq<TrackedFileSpec> {
    v.map_values(|f: TrackedFileInfo| f@)
}

/// The relative paths of a sequence of tracked files.
pub open spec fn paths_of(s: Seq<TrackedFileSpec>) -> Seq<Seq<char>> {
    s.map_values(|f: TrackedFileSpec| f.relative_path)
}

/// The map from relative path to tracked file that a sequence stands for.
pub open spec fn map_of(s: Seq<TrackedFileSpec>) -> Map<Seq<char>, TrackedFileSpec>
    decreases s.len(),
{
    if s.len() == 0 {
        Map::empty()
    } else {
        map_of(s.drop_last()).insert(s.last().relative_path, s.last())
    }
}

/// The sum of the chunk counts.
pub open spec fn chunk_sum(s: Seq<TrackedFileSpec>) -> int
    decreases s.len(),
{
    if s.len() == 0 {
        0
    } else {
        chunk_sum(s.drop_last()) + s.last().chunk_count
    }
}

proof fn lemma_map_of_dom(s: Seq<TrackedFileSpec>, k: Seq<char>)
    ensures
        map_of(s).dom().contains(k) <==> paths_of(s).contains(k),
        map_of(s).dom().finite(),
    decreases s.len(),
{
    if s.len() > 0 {
        lemma_map_of_dom(s.drop_last(), k);
        let p = paths_of(s);
        let q = paths_of(s.drop_last());
        assert(p.drop_last() =~= q);
        if q.contains(k) {
            let i = choose|i: int| 0 <= i < q.len() && q[i] == k;
            assert(p[i] == k);
        }
        if p.contains(k) && !q.contains(k) {
            let i = choose|i: int| 0 <= i < p.len() && p[i] == k;
            if i < q.len() {
                assert(q[i] == k);
            }
        }
        if s.last().relative_path == k {
            assert(p[p.len() - 1] == k);
        }
    }
}

proof fn lemma_map_of_value(s: Seq<TrackedFileSpec>, i: int)
    requires
        paths_of(s).no_duplicates(),
        0 <= i < s.len(),
    ensures
        map_of(s).dom().contains(s[i].relative_path),
        map_of(s)[s[i].relative_path] == s[i],
    decreases s.len(),
{
    if i < s.len() - 1 {
        let t = s.drop_last();
        assert(paths_of(t) =~= paths_of(s).drop_last());
        assert(paths_of(s)[i] != paths_of(s)[s.len() - 1]);
        lemma_map_of_value(t, i);
    }
}

proof fn lemma_map_of_len(s: Seq<TrackedFileSpec>)
    requires
        paths_of(s).no_duplicates(),
    ensures
        map_of(s).dom().len() == s.len(),
    decreases s.len(),
{
    if s.len() > 0 {
        let t = s.drop_last();
        assert(paths_of(t) =~= paths_of(s).drop_last());
        lemma_map_of_len(t);
        lemma_map_of_dom(t, s.last().relative_path);
        assert(!paths_of(t).contains(s.last().relative_path)) by {
            if paths_of(t).contains(s.last().relative_path) {
                let j = choose|j: int| 0 <= j < paths_of(t).len() && paths_of(t)[j] == s.last().relative_path;
                assert(paths_of(s)[j] == paths_of(s)[s.len() - 1]);
            }
        }
    }
}

proof fn lemma_chunk_sum_update(s: Seq<TrackedFileSpec>, i: int, x: TrackedFileSpec)
    requires
        0 <= i < s.len(),
    ensures
        chunk_sum(s.update(i, x)) == chunk_sum(s) - s[i].chunk_count + x.chunk_count,
    decreases s.len(),
{
    if i < s.len() - 1 {
        assert(s.update(i, x).drop_last() =~= s.drop_last().update(i, x));
        lemma_chunk_sum_update(s.drop_last(), i, x);
    } else {
        assert(s.update(i, x).drop_last() =~= s.drop_last());
    }
}

proof fn lemma_chunk_sum_remove(s: Seq<TrackedFileSpec>, i: int)
    requires
        0 <= i < s.len(),
    ensures
        chunk_sum(s.remove(i)) == chunk_sum(s) - s[i].chunk_count,
    decreases s.len(),
{
    if i < s.len() - 1 {
        assert(s.remove(i).drop_last() =~= s.drop_last().remove(i));
        assert(s.remove(i).last() == s.last());
        lemma_chunk_sum_remove(s.drop_last(), i);
    } else {
        assert(s.remove(i) =~= s.drop_last());
    }
}

proof fn lemma_chunk_sum_nonneg(s: Seq<TrackedFileSpec>)
    ensures
        chunk_sum(s) >= 0,
    decreases s.len(),
{
    if s.len() > 0 {
        lemma_chunk_sum_nonneg(s.drop_last());
    }
}

/// The index of the files of a workspace, by relative path.
pub struct FileTracker {
    files: Vec<TrackedFileInfo>,
    file_path: Option<String>,
}

impl View for FileTracker {
    type V = Map<Seq<char>, TrackedFileSpec>;

    closed spec fn view(&self) -> Map<Seq<char>, TrackedFileSpec> {
        map_of(tracked_views(self.files@))
    }
}

impl FileTracker {
    #[verifier::type_invariant]
    spec fn wf(self) -> bool {
        paths_of(tracked_views(self.files@)).no_duplicates()
    }

    /// The sum of the chunk counts of the tracked files.
    pub closed spec fn chunk_total(self) -> int {
        chunk_sum(tracked_views(self.files@))
    }

    /// The file the tracker is saved to, if any.
    pub closed spec fn storage(self) -> Option<Seq<char>> {
        opt_view(self.file_path)
    }

    /// The tracked files, in the order they were first recorded.
    pub closed spec fn entries(self) -> Seq<TrackedFileSpec> {
        tracked_views(self.files@)
    }

    /// An empty tracker, saved to `file_path` where given.
    pub fn new(file_path: Option<String>) -> (t: FileTracker)
        ensures
            t@ == Map::<Seq<char>, TrackedFileSpec>::empty(),
            t@.dom().finite(),
            t.chunk_total() == 0,
            t.storage() == opt_view(file_path),
    {
        let t = FileTracker { files: Vec::new(), file_path };
        assert(tracked_views(t.files@) =~= Seq::<TrackedFileSpec>::empty());
        assert(paths_of(tracked_views(t.files@)) =~= Seq::<Seq<char>>::empty());
        t
    }

    fn position(&self, relative_path: &str) -> (r: Option<usize>)
        ensures
            match r {
                Some(i) => i < self.files@.len() && self.files@[i as int].relative_path@ == relative_path@,
                None => !paths_of(tracked_views(self.files@)).contains(relative_path@),
            },
    {
        let mut rel = String::new();
        push_str(&mut rel, relative_path);
        let n = self.files.len();
        let mut i: usize = 0;
        while i < n
            invariant
                i <= n,
                n == self.files@.len(),
                rel@ == relative_path@,
                forall|k: int| 0 <= k < i ==> self.files@[k].relative_path@ != relative_path@,
            decreases n - i,
        {
            if self.files[i].relative_path == rel {
                return Some(i);
            }
            i = i + 1;
        }
        proof {
            let p = paths_of(tracked_views(self.files@));
            if p.contains(relative_path@) {
                let k = choose|k: int| 0 <= k < p.len() && p[k] == relative_path@;
                assert(self.files@[k].relative_path@ != relative_path@);
            }
        }
        None
    }

    /// Records a file, in place of what was recorded under its path.
    pub fn record_file(&mut self, relative_path: &str, sha256: String, mtime_secs: u64, size_bytes: u64, chunk_count: usize)
        ensures
            final(self)@ == old(self)@.insert(relative_path@, TrackedFileSpec {
                relative_path: relative_path@,
                sha256: sha256@,
                mtime_secs,
                size_bytes,
                chunk_count,
            }),
            final(self).chunk_total() == old(self).chunk_total() + chunk_count - if old(self)@.dom().contains(relative_path@) {
                old(self)@[relative_path@].chunk_count as int
            } else {
                0
            },
            final(self).storage() == old(self).storage(),
            final(self)@.dom().finite(),
    {
        proof {
            use_type_invariant(&*self);
        }
        let ghost s = tracked_views(self.files@);
        let mut rel = String::new();
        push_str(&mut rel, relative_path);
        let info = TrackedFileInfo { relative_path: rel, sha256, mtime_secs, size_bytes, chunk_count };
        let ghost x = info@;
        proof {
            lemma_map_of_dom(s, relative_path@);
        }
        match self.position(relative_path) {
            Some(i) => {
                proof {
                    lemma_map_of_value(s, i as int);
                    lemma_chunk_sum_update(s, i as int, x);
                    let s2 = s.update(i as int, x);
                    assert(paths_of(s2) =~= paths_of(s));
                    assert(map_of(s2) =~= map_of(s).insert(relative_path@, x)) by {
                        assert forall|k: Seq<char>| #[trigger] map_of(s2).dom().contains(k) <==> map_of(s).insert(relative_path@, x).dom().contains(k) by {
                            lemma_map_of_dom(s2, k);
                            lemma_map_of_dom(s, k);
                        }
                        assert forall|k: Seq<char>| #[trigger] map_of(s2).dom().contains(k) implies map_of(s2)[k] == map_of(s).insert(relative_path@, x)[k] by {
                            lemma_map_of_dom(s2, k);
                            let j = choose|j: int| 0 <= j < paths_of(s2).len() && paths_of(s2)[j] == k;
                            lemma_map_of_value(s2, j);
                            lemma_map_of_value(s, j);
                            assert(paths_of(s)[i as int] == relative_path@);
                            if j != i {
                                assert(paths_of(s)[j] != paths_of(s)[i as int]);
                            }
                        }
                    }
                }
                let mut files: Vec<TrackedFileInfo> = Vec::new();
                std::mem::swap(&mut files, &mut self.files);
                files.set(i, info);
                proof {
                    assert(tracked_views(files@) =~= s.update(i as int, x));
                }
                self.files = files;
            },
            None => {
                proof {
                    assert(paths_of(s.push(x)) =~= paths_of(s).push(relative_path@));
                    assert(s.push(x).drop_last() =~= s);
                }
                let mut files: Vec<TrackedFileInfo> = Vec::new();
                std::mem::swap(&mut files, &mut self.files);
                files.push(info);
                proof {
                    assert(tracked_views(files@) =~= s.push(x));
                }
                self.files = files;
            },
        }
        proof {
            lemma_map_of_dom(tracked_views(self.files@), relative_path@);
        }
    }

    /// Forgets the file recorded under a path.
    pub fn remove_file(&mut self, relative_path: &str)
        ensures
            final(self)@ == old(self)@.remove(relative_path@),
            final(self).chunk_total() == old(self).chunk_total() - if old(self)@.dom().contains(relative_path@) {
                old(self)@[relative_path@].chunk_count as int
            } else {
                0
            },
            final(self).storage() == old(self).storage(),
            final(self)@.dom().finite(),
    {
        proof {
            use_type_invariant(&*self);
        }
        let ghost s = tracked_views(self.files@);
        proof {
            lemma_map_of_dom(s, relative_path@);
        }
        match self.position(relative_path) {
            Some(i) => {
                proof {
                    lemma_map_of_value(s, i as int);
                    lemma_chunk_sum_remove(s, i as int);
                    let s2 = s.remove(i as int);
                    assert(paths_of(s2) =~= paths_of(s).remove(i as int));
                    assert forall|a: int, b: int| 0 <= a < b < paths_of(s2).len() implies paths_of(s2)[a] != paths_of(s2)[b] by {
                        let a2 = if a < i { a } else { a + 1 };
                        let b2 = if b < i { b } else { b + 1 };
                        assert(paths_of(s2)[a] == paths_of(s)[a2]);
                        assert(paths_of(s2)[b] == paths_of(s)[b2]);
                    }
                    assert(map_of(s2) =~= map_of(s).remove(relative_path@)) by {
                        assert forall|k: Seq<char>| #[trigger] map_of(s2).dom().contains(k) <==> map_of(s).remove(relative_path@).dom().contains(k) by {
                            lemma_map_of_dom(s2, k);
                            lemma_map_of_dom(s, k);
                            if paths_of(s).contains(k) && k != relative_path@ {
                                let j = choose|j: int| 0 <= j < paths_of(s).len() && paths_of(s)[j] == k;
                                assert(j != i);
                                let j2 = if j < i { j } else { j - 1 };
                                assert(paths_of(s2)[j2] == k);
                            }
                            if paths_of(s2).contains(k) {
                                let j = choose|j: int| 0 <= j < paths_of(s2).len() && paths_of(s2)[j] == k;
                                let j2 = if j < i { j } else { j + 1 };
                                assert(paths_of(s)[j2] == k);
                                assert(j2 != i);
                                assert(paths_of(s)[i as int] == relative_path@);
                                assert(paths_of(s)[j2] != paths_of(s)[i as int]);
                            }
                        }
                        assert forall|k: Seq<char>| #[trigger] map_of(s2).dom().contains(k) implies map_of(s2)[k] == map_of(s).remove(relative_path@)[k] by {
                            lemma_map_of_dom(s2, k);
                            let j = choose|j: int| 0 <= j < paths_of(s2).len() && paths_of(s2)[j] == k;
                            let j2 = if j < i { j } else { j + 1 };
                            lemma_map_of_value(s2, j);
                            lemma_map_of_value(s, j2);
                        }
                    }
                }
                let mut files: Vec<TrackedFileInfo> = Vec::new();
                std::mem::swap(&mut files, &mut self.files);
                files.remove(i);
                proof {
                    assert(tracked_views(files@) =~= s.remove(i as int));
                }
                self.files = files;
            },
            None => {
                proof {
                    assert(map_of(s).remove(relative_path@) =~= map_of(s));
                }
            },
        }
        proof {
            lemma_map_of_dom(tracked_views(self.files@), relative_path@);
        }
    }

    /// The number of tracked files.
    pub fn count(&self) -> (n: usize)
        ensures
            n == self@.dom().len(),
    {
        proof {
            use_type_invariant(self);
            lemma_map_of_len(tracked_views(self.files@));
        }
        self.files.len()
    }

    /// The sum of the chunk counts of the tracked files.
    pub fn total_chunks(&self) -> (n: usize)
        requires
            self.chunk_total() <= usize::MAX,
        ensures
            n == self.chunk_total(),
    {
        let ghost s = tracked_views(self.files@);
        let mut total: usize = 0;
        let mut i: usize = 0;
        proof {
            assert(s.subrange(0, 0) =~= Seq::<TrackedFileSpec>::empty());
        }
        while i < self.files.len()
            invariant
                i <= s.len(),
                s == tracked_views(self.files@),
                chunk_sum(s) <= usize::MAX,
                total == chunk_sum(s.subrange(0, i as int)),
            decreases s.len() - i,
        {
            proof {
                assert(s.subrange(0, i + 1).drop_last() =~= s.subrange(0, i as int));
                assert(s =~= s.subrange(0, i + 1) + s.subrange(i + 1, s.len() as int));
                lemma_chunk_sum_append(s.subrange(0, i + 1), s.subrange(i + 1, s.len() as int));
                lemma_chunk_sum_nonneg(s.subrange(i + 1, s.len() as int));
            }
            total = total + self.files[i].chunk_count;
            i = i + 1;
        }
        proof {
            assert(s.subrange(0, s.len() as int) =~= s);
        }
        total
    }
}

impl FileTracker {
    /// The sum of the chunk counts of the tracked files, where it fits in `usize`.
    pub fn total_chunks_checked(&self) -> (r: Option<usize>)
        ensures
            match r {
                Some(n) => n == self.chunk_total(),
                None => self.chunk_total() > usize::MAX,
            },
    {
        let ghost s = tracked_views(self.files@);
        let mut total: usize = 0;
        let mut i: usize = 0;
        proof {
            assert(s.subrange(0, 0) =~= Seq::<TrackedFileSpec>::empty());
        }
        while i < self.files.len()
            invariant
                i <= s.len(),
                s == tracked_views(self.files@),
                total == chunk_sum(s.subrange(0, i as int)),
            decreases s.len() - i,
        {
            proof {
                assert(s.subrange(0, i + 1).drop_last() =~= s.subrange(0, i as int));
                assert(s =~= s.subrange(0, i + 1) + s.subrange(i + 1, s.len() as int));
                lemma_chunk_sum_append(s.subrange(0, i + 1), s.subrange(i + 1, s.len() as int));
                lemma_chunk_sum_nonneg(s.subrange(i + 1, s.len() as int));
            }
            let c = self.files[i].chunk_count;
            if c > usize::MAX - total {
                return None;
            }
            total = total + c;
            i = i + 1;
        }
        proof {
            assert(s.subrange(0, s.len() as int) =~= s);
        }
        Some(total)
    }
}

impl FileTracker {
    /// The file the tracker is saved to, if any.
    pub fn file_path(&self) -> (p: &Option<String>)
        ensures
            opt_view(*p) == self.storage(),
    {
        &self.file_path
    }
}

/// The tracker's map from path to record always has finitely many paths,
/// so its size is known after each change (`count`).
pub proof fn lemma_tracker_finite(t: FileTracker)
    ensures
        t@.dom().finite(),
{
    lemma_map_of_dom(tracked_views(t.files@), Seq::empty());
}

/// Recording a path adds one tracked file exactly when the path was not
/// tracked; removing one takes one away exactly when it was.
pub proof fn law_count_after_record_and_remove(t: FileTracker, p: Seq<char>, x: TrackedFileSpec)
    ensures
        t@.insert(p, x).dom().len() == t@.dom().len() + if t@.dom().contains(p) { 0int } else { 1int },
        t@.remove(p).dom().len() == t@.dom().len() - if t@.dom().contains(p) { 1int } else { 0int },
{
    lemma_tracker_finite(t);
    if t@.dom().contains(p) {
        assert(t@.insert(p, x).dom() =~= t@.dom());
    }
}

impl Default for FileTracker {
    /// An empty tracker that is saved nowhere.
    fn default() -> (t: Self)
        ensures
            t@ == Map::<Seq<char>, TrackedFileSpec>::empty(),
            t@.dom().finite(),
            t.chunk_total() == 0,
            t.storage() is None,
    {
        FileTracker::new(None)
    }
}

impl Default for FileChanges {
    /// No changes.
    fn default() -> (c: Self)
        ensures
            c.added@.len() == 0,
            c.modified@.len() == 0,
            c.deleted@.len() == 0,
    {
        FileChanges { added: Vec::new(), modified: Vec::new(), deleted: Vec::new() }
    }
}

proof fn lemma_chunk_sum_append(a: Seq<TrackedFileSpec>, b: Seq<TrackedFileSpec>)
    ensures
        chunk_sum(a + b) == chunk_sum(a) + chunk_sum(b),
    decreases b.len(),
{
    if b.len() > 0 {
        assert((a + b).drop_last() =~= a + b.drop_last());
        lemma_chunk_sum_append(a, b.drop_last());
    } else {
        assert(a + b =~= a);
    }
}


/// The SHA-256 digest of a byte sequence.
pub uninterp spec fn sha256_digest(data: Seq<u8>) -> Seq<u8>;

/// The lower-case hexadecimal digit for a value below 16.
pub open spec fn hex_digit(d: int) -> char {
    if d < 10 {
        (('0' as int) + d) as char
    } else {
        (('a' as int) + d - 10) as char
    }
}

/// Lower-case hexadecimal notation of bytes: two digits per byte, high half first.
pub open spec fn lower_hex(data: Seq<u8>) -> Seq<char>
    decreases data.len(),
{
    if data.len() == 0 {
        Seq::empty()
    } else {
        lower_hex(data.drop_last()) + seq![hex_digit(data.last() as int / 16), hex_digit(data.last() as int % 16)]
    }
}

/// The SHA-256 digest of `content`, through `sha2::Sha256` (`Digest::new`, `update`,
/// `finalize`). The digest is named, not described; it is 32 bytes long.
#[verifier::external_body]
pub(crate) fn sha256_bytes(content: &[u8]) -> (d: Vec<u8>)
    ensures
        d@ == sha256_digest(content@),
        d@.len() == 32,
{
    let mut hasher = sha2::Sha256::new();
    hasher.update(content);
    hasher.finalize().to_vec()
}

/// `hex::encode`: each byte as two lower-case hexadecimal digits, high half first.
#[verifier::external_body]
fn hex_encode(data: &[u8]) -> (s: String)
    ensures
        s@ == lower_hex(data@),
{
    hex::encode(data)
}

impl FileTracker {
    /// The hexadecimal SHA-256 digest of a file's content.
    pub fn compute_sha256(content: &[u8]) -> (h: String)
        ensures
            h@ == lower_hex(sha256_digest(content@)),
    {
        let d = sha256_bytes(content);
        hex_encode(d.as_slice())
    }
}


/// A file's modification time and size, as the file system reports them.
#[derive(Debug, Clone, Copy, PartialEq, Eq, Structural)]
pub struct FileStat {
    pub mtime_secs: u64,
    pub size_bytes: u64,
}

/// A file of the workspace as it is now: its path, its path relative to the
/// project root, its modification time and size where they could be read, and
/// its content where it was read.
#[derive(Debug, Clone)]
pub struct ObservedFile {
    pub path: String,
    pub relative_path: String,
    pub stat: Option<FileStat>,
    pub content: Option<Vec<u8>>,
}

/// The plain value of an `ObservedFile`.
pub struct ObservedSpec {
    pub path: Seq<char>,
    pub relative_path: Seq<char>,
    pub stat: Option<FileStat>,
    pub content: Option<Seq<u8>>,
}

impl View for ObservedFile {
    type V = ObservedSpec;

    open spec fn view(&self) -> ObservedSpec {
        ObservedSpec {
            path: self.path@,
            relative_path: self.relative_path@,
            stat: self.stat,
            content: match self.content {
                Some(c) => Some(c@),
                None => None,
            },
        }
    }
}

/// The views of a sequence of observed files.
pub open spec fn observed_views(v: Seq<ObservedFile>) -> Seq<ObservedSpec> {
    v.map_values(|o: ObservedFile| o@)
}

/// A file whose content was needed to tell whether it changed, and was not given.
#[derive(Debug, Clone)]
pub struct UnreadFile {
    pub path: String,
}

/// Whether a tracked file's recorded time or size differs from `stat`.
pub open spec fn stat_differs(m: Map<Seq<char>, TrackedFileSpec>, relative_path: Seq<char>, stat: FileStat) -> bool {
    m.dom().contains(relative_path) && (m[relative_path].mtime_secs != stat.mtime_secs
        || m[relative_path].size_bytes != stat.size_bytes)
}

/// An observed file that exists and is not tracked.
pub open spec fn is_added(m: Map<Seq<char>, TrackedFileSpec>, o: ObservedSpec) -> bool {
    o.stat is Some && !m.dom().contains(o.relative_path)
}

/// An observed file whose content must be hashed to tell whether it changed.
pub open spec fn content_needed(m: Map<Seq<char>, TrackedFileSpec>, o: ObservedSpec) -> bool {
    o.stat matches Some(st) && stat_differs(m, o.relative_path, st)
}

/// An observed file whose time or size changed and whose content hash changed.
pub open spec fn is_modified(m: Map<Seq<char>, TrackedFileSpec>, o: ObservedSpec) -> bool {
    &&& content_needed(m, o)
    &&& o.content matches Some(c) && lower_hex(sha256_digest(c)) != m[o.relative_path].sha256
}

/// The paths of the added files, in the order observed.
pub open spec fn added_paths(m: Map<Seq<char>, TrackedFileSpec>, obs: Seq<ObservedSpec>) -> Seq<Seq<char>>
    decreases obs.len(),
{
    if obs.len() == 0 {
        Seq::empty()
    } else {
        let r = added_paths(m, obs.drop_last());
        if is_added(m, obs.last()) { r.push(obs.last().path) } else { r }
    }
}

/// The paths of the modified files, in the order observed.
pub open spec fn modified_paths(m: Map<Seq<char>, TrackedFileSpec>, obs: Seq<ObservedSpec>) -> Seq<Seq<char>>
    decreases obs.len(),
{
    if obs.len() == 0 {
        Seq::empty()
    } else {
        let r = modified_paths(m, obs.drop_last());
        if is_modified(m, obs.last()) { r.push(obs.last().path) } else { r }
    }
}

/// The relative paths of the tracked entries that were not observed, in entry order.
pub open spec fn deleted_paths(entries: Seq<TrackedFileSpec>, seen: Seq<Seq<char>>) -> Seq<Seq<char>>
    decreases entries.len(),
{
    if entries.len() == 0 {
        Seq::empty()
    } else {
        let r = deleted_paths(entries.drop_last(), seen);
        if seen.contains(entries.last().relative_path) { r } else { r.push(entries.last().relative_path) }
    }
}

/// The relative paths of the observed files.
pub open spec fn observed_paths(obs: Seq<ObservedSpec>) -> Seq<Seq<char>> {
    obs.map_values(|o: ObservedSpec| o.relative_path)
}

fn contains_string(v: &Vec<String>, s: &String) -> (b: bool)
    ensures
        b == views(v@).contains(s@),
{
    let mut i: usize = 0;
    while i < v.len()
        invariant
            i <= v@.len(),
            forall|k: int| 0 <= k < i ==> v@[k]@ != s@,
        decreases v@.len() - i,
    {
        if v[i] == *s {
            assert(views(v@)[i as int] == s@);
            return true;
        }
        i = i + 1;
    }
    proof {
        if views(v@).contains(s@) {
            let k = choose|k: int| 0 <= k < views(v@).len() && views(v@)[k] == s@;
            assert(v@[k]@ == s@);
        }
    }
    false
}

impl FileTracker {
    /// Whether the content of a file with this relative path, time and size
    /// must be read to tell whether it changed.
    pub fn needs_content(&self, relative_path: &str, stat: FileStat) -> (b: bool)
        ensures
            b == stat_differs(self@, relative_path@, stat),
    {
        proof {
            use_type_invariant(self);
            lemma_map_of_dom(tracked_views(self.files@), relative_path@);
        }
        match self.position(relative_path) {
            Some(i) => {
                proof {
                    lemma_map_of_value(tracked_views(self.files@), i as int);
                }
                self.files[i].mtime_secs != stat.mtime_secs || self.files[i].size_bytes != stat.size_bytes
            },
            None => false,
        }
    }

    /// The files added, modified and deleted since they were recorded. A file
    /// that exists and is not tracked is added. A tracked file whose time or
    /// size changed is modified when the hash of its content differs from the
    /// recorded one. A tracked file that was not observed is deleted. A file
    /// whose content was needed and not given stops the comparison.
    pub fn detect_changes(&self, current: &[ObservedFile]) -> (r: Result<FileChanges, UnreadFile>)
        ensures
            match r {
                Ok(c) => {
                    &&& forall|i: int| 0 <= i < current@.len() ==> !(content_needed(self@, #[trigger] current@[i]@) && current@[i].content is None)
                    &&& views(c.added@) == added_paths(self@, observed_views(current@))
                    &&& views(c.modified@) == modified_paths(self@, observed_views(current@))
                    &&& views(c.deleted@) == deleted_paths(self.entries(), observed_paths(observed_views(current@)))
                },
                Err(e) => exists|i: int| {
                    &&& 0 <= i < current@.len()
                    &&& content_needed(self@, #[trigger] current@[i]@)
                    &&& current@[i].content is None
                    &&& e.path@ == current@[i].path@
                    &&& forall|j: int| 0 <= j < i ==> !(content_needed(self@, #[trigger] current@[j]@) && current@[j].content is None)
                },
            },
    {
        proof {
            use_type_invariant(self);
        }
        let ghost m = self@;
        let ghost obs = observed_views(current@);
        let mut added: Vec<String> = Vec::new();
        let mut modified: Vec<String> = Vec::new();
        let mut seen: Vec<String> = Vec::new();
        let mut i: usize = 0;
        while i < current.len()
            invariant
                i <= current@.len(),
                m == self@,
                obs == observed_views(current@),
                paths_of(tracked_views(self.files@)).no_duplicates(),
                views(added@) == added_paths(m, obs.subrange(0, i as int)),
                views(modified@) == modified_paths(m, obs.subrange(0, i as int)),
                views(seen@) == observed_paths(obs.subrange(0, i as int)),
                forall|j: int| 0 <= j < i ==> !(content_needed(m, #[trigger] current@[j]@) && current@[j].content is None),
            decreases current@.len() - i,
        {
            let o = &current[i];
            let ghost pre = obs.subrange(0, i as int);
            let ghost next = obs.subrange(0, i + 1);
            proof {
                assert(next.drop_last() =~= pre);
                assert(next.last() == o@);
                assert(observed_paths(next) =~= observed_paths(pre).push(o.relative_path@));
                lemma_map_of_dom(tracked_views(self.files@), o.relative_path@);
            }
            seen.push(o.relative_path.clone());
            match o.stat {
                None => {},
                Some(st) => {
                    match self.position(o.relative_path.as_str()) {
                        None => {
                            added.push(o.path.clone());
                        },
                        Some(k) => {
                            proof {
                                lemma_map_of_value(tracked_views(self.files@), k as int);
                            }
                            let tracked_file = &self.files[k];
                            if tracked_file.mtime_secs != st.mtime_secs || tracked_file.size_bytes != st.size_bytes {
                                match &o.content {
                                    None => {
                                        return Err(UnreadFile { path: o.path.clone() });
                                    },
                                    Some(c) => {
                                        let hash = FileTracker::compute_sha256(c.as_slice());
                                        if hash != tracked_file.sha256 {
                                            modified.push(o.path.clone());
                                        }
                                    },
                                }
                            }
                        },
                    }
                },
            }
            proof {
                assert(views(added@) =~= added_paths(m, next));
                assert(views(modified@) =~= modified_paths(m, next));
                assert(views(seen@) =~= observed_paths(next));
            }
            i = i + 1;
        }
        proof {
            assert(obs.subrange(0, current@.len() as int) =~= obs);
        }
        let ghost entries = tracked_views(self.files@);
        let ghost seen_paths = observed_paths(obs);
        let mut deleted: Vec<String> = Vec::new();
        let mut k: usize = 0;
        while k < self.files.len()
            invariant
                k <= entries.len(),
                entries == tracked_views(self.files@),
                views(seen@) == seen_paths,
                views(deleted@) == deleted_paths(entries.subrange(0, k as int), seen_paths),
            decreases entries.len() - k,
        {
            proof {
                assert(entries.subrange(0, k + 1).drop_last() =~= entries.subrange(0, k as int));
            }
            if !contains_string(&seen, &self.files[k].relative_path) {
                deleted.push(self.files[k].relative_path.clone());
            }
            proof {
                assert(views(deleted@) =~= deleted_paths(entries.subrange(0, k + 1), seen_paths));
            }
            k = k + 1;
        }
        proof {
            assert(entries.subrange(0, entries.len() as int) =~= entries);
        }
        Ok(FileChanges { added, modified, deleted })
    }

    /// The tracked files, in the order they were first recorded.
    pub fn files(&self) -> (v: Vec<TrackedFileInfo>)
        ensures
            tracked_views(v@) == self.entries(),
    {
        let mut v: Vec<TrackedFileInfo> = Vec::new();
        let mut i: usize = 0;
        while i < self.files.len()
            invariant
                i <= self.files@.len(),
                v@.len() == i,
                tracked_views(v@) == tracked_views(self.files@).subrange(0, i as int),
            decreases self.files@.len() - i,
        {
            let d = self.files[i].duplicate();
            let ghost before = v@;
            v.push(d);
            proof {
                assert(v@ == before.push(d));
                assert forall|j: int| 0 <= j < v@.len() implies #[trigger] tracked_views(v@)[j] == tracked_views(self.files@).subrange(0, i + 1)[j] by {
                    if j < before.len() {
                        assert(tracked_views(before)[j] == tracked_views(self.files@).subrange(0, i as int)[j]);
                    }
                }
                assert(tracked_views(v@) =~= tracked_views(self.files@).subrange(0, i + 1));
            }
            i = i + 1;
        }
        assert(tracked_views(self.files@).subrange(0, i as int) =~= tracked_views(self.files@));
        v
    }

    /// A tracker holding the given files, the later of two with one path
    /// taking its place, saved to `file_path` where given.
    pub fn from_entries(files: Vec<TrackedFileInfo>, file_path: Option<String>) -> (t: FileTracker)
        ensures
            t@ == map_of(tracked_views(files@)),
            t@.dom().finite(),
            t.storage() == opt_view(file_path),
    {
        let mut t = FileTracker::new(file_path);
        let mut i: usize = 0;
        while i < files.len()
            invariant
                i <= files@.len(),
                t@ == map_of(tracked_views(files@).subrange(0, i as int)),
                t.storage() == opt_view(file_path),
            decreases files@.len() - i,
        {
            let f = &files[i];
            t.record_file(f.relative_path.as_str(), f.sha256.clone(), f.mtime_secs, f.size_bytes, f.chunk_count);
            proof {
                let s = tracked_views(files@);
                assert(s.subrange(0, i + 1).drop_last() =~= s.subrange(0, i as int));
                assert(s.subrange(0, i + 1).last() == f@);
            }
            i = i + 1;
        }
        assert(tracked_views(files@).subrange(0, i as int) =~= tracked_views(files@));
        proof {
            lemma_map_of_dom(tracked_views(files@), Seq::empty());
        }
        t
    }
}


/// Whether every observed file that exists is tracked with its current time and size.
pub open spec fn all_unchanged(m: Map<Seq<char>, TrackedFileSpec>, obs: Seq<ObservedSpec>) -> bool {
    forall|i: int| 0 <= i < obs.len() ==> unchanged(m, #[trigger] obs[i])
}

/// Whether an observed file is missing or tracked with its current time and size.
pub open spec fn unchanged(m: Map<Seq<char>, TrackedFileSpec>, o: ObservedSpec) -> bool {
    match o.stat {
        Some(st) => {
            &&& m.dom().contains(o.relative_path)
            &&& m[o.relative_path].mtime_secs == st.mtime_secs
            &&& m[o.relative_path].size_bytes == st.size_bytes
        },
        None => true,
    }
}

/// Recording a file that was not tracked and then removing it leaves the
/// tracker as it was.
pub proof fn law_record_then_remove(m: Map<Seq<char>, TrackedFileSpec>, p: Seq<char>, x: TrackedFileSpec)
    requires
        !m.dom().contains(p),
    ensures
        m.insert(p, x).remove(p) == m,
{
    assert(m.insert(p, x).remove(p) =~= m);
}

/// A tracked file whose recorded hash is that of its current content is
/// never reported as modified.
pub proof fn law_same_hash_not_modified(m: Map<Seq<char>, TrackedFileSpec>, o: ObservedSpec, content: Seq<u8>)
    requires
        o.content == Some(content),
        m.dom().contains(o.relative_path),
        m[o.relative_path].sha256 == lower_hex(sha256_digest(content)),
    ensures
        !is_modified(m, o),
{
}

/// When every observed file is tracked with its current time and size, and
/// every tracked file is observed, nothing is added, modified or deleted, and
/// no content is needed.
pub proof fn law_unchanged_workspace_has_no_changes(entries: Seq<TrackedFileSpec>, obs: Seq<ObservedSpec>)
    requires
        paths_of(entries).no_duplicates(),
        all_unchanged(map_of(entries), obs),
        forall|i: int| 0 <= i < entries.len() ==> observed_paths(obs).contains(#[trigger] entries[i].relative_path),
    ensures
        added_paths(map_of(entries), obs) == Seq::<Seq<char>>::empty(),
        modified_paths(map_of(entries), obs) == Seq::<Seq<char>>::empty(),
        deleted_paths(entries, observed_paths(obs)) == Seq::<Seq<char>>::empty(),
        forall|i: int| 0 <= i < obs.len() ==> !content_needed(map_of(entries), #[trigger] obs[i]),
{
    let m = map_of(entries);
    lemma_no_added_or_modified(m, obs);
    lemma_none_deleted(entries, observed_paths(obs));
    assert forall|i: int| 0 <= i < obs.len() implies !content_needed(m, #[trigger] obs[i]) by {
        assert(unchanged(m, obs[i]));
    }
}

proof fn lemma_no_added_or_modified(m: Map<Seq<char>, TrackedFileSpec>, obs: Seq<ObservedSpec>)
    requires
        all_unchanged(m, obs),
    ensures
        added_paths(m, obs) == Seq::<Seq<char>>::empty(),
        modified_paths(m, obs) == Seq::<Seq<char>>::empty(),
    decreases obs.len(),
{
    if obs.len() > 0 {
        let t = obs.drop_last();
        assert forall|i: int| 0 <= i < t.len() implies unchanged(m, #[trigger] t[i]) by {
            assert(t[i] == obs[i]);
        }
        lemma_no_added_or_modified(m, t);
        assert(obs.last() == obs[obs.len() - 1]);
    }
}

proof fn lemma_none_deleted(entries: Seq<TrackedFileSpec>, seen: Seq<Seq<char>>)
    requires
        forall|i: int| 0 <= i < entries.len() ==> seen.contains(#[trigger] entries[i].relative_path),
    ensures
        deleted_paths(entries, seen) == Seq::<Seq<char>>::empty(),
    decreases entries.len(),
{
    if entries.len() > 0 {
        let t = entries.drop_last();
        assert forall|i: int| 0 <= i < t.len() implies seen.contains(#[trigger] t[i].relative_path) by {
            assert(t[i] == entries[i]);
        }
        lemma_none_deleted(t, seen);
        assert(entries.last() == entries[entries.len() - 1]);
    }
}


/// Whether indexing records an observed file again: it is new, or modified.
pub open spec fn reindexed(m: Map<Seq<char>, TrackedFileSpec>, o: ObservedSpec) -> bool {
    is_added(m, o) || is_modified(m, o)
}

/// The tracked files whose paths were observed; the others are forgotten.
pub open spec fn forget_unseen(m: Map<Seq<char>, TrackedFileSpec>, seen: Seq<Seq<char>>) -> Map<Seq<char>, TrackedFileSpec> {
    Map::new(|k: Seq<char>| m.dom().contains(k) && seen.contains(k), |k: Seq<char>| m[k])
}

/// `acc` with the records `recs[i]` of the first `n` observed files that
/// indexing records again (judged against `m`).
pub open spec fn record_reindexed(
    acc: Map<Seq<char>, TrackedFileSpec>,
    m: Map<Seq<char>, TrackedFileSpec>,
    obs: Seq<ObservedSpec>,
    recs: Seq<TrackedFileSpec>,
    n: int,
) -> Map<Seq<char>, TrackedFileSpec>
    decreases n,
{
    if n <= 0 {
        acc
    } else {
        let a = record_reindexed(acc, m, obs, recs, n - 1);
        if reindexed(m, obs[n - 1]) { a.insert(obs[n - 1].relative_path, recs[n - 1]) } else { a }
    }
}

/// The tracked files after indexing the changes found against `m`: the
/// deleted files are forgotten, the added and modified ones (forgotten and
/// then) recorded, `obs[i]` with `recs[i]`, and the others kept.
pub open spec fn after_indexing(m: Map<Seq<char>, TrackedFileSpec>, obs: Seq<ObservedSpec>, recs: Seq<TrackedFileSpec>) -> Map<Seq<char>, TrackedFileSpec> {
    record_reindexed(forget_unseen(m, observed_paths(obs)), m, obs, recs, obs.len() as int)
}

proof fn lemma_record_reindexed_hit(
    acc: Map<Seq<char>, TrackedFileSpec>,
    m: Map<Seq<char>, TrackedFileSpec>,
    obs: Seq<ObservedSpec>,
    recs: Seq<TrackedFileSpec>,
    n: int,
    j: int,
)
    requires
        observed_paths(obs).no_duplicates(),
        0 <= j < n <= obs.len(),
        reindexed(m, obs[j]),
    ensures
        record_reindexed(acc, m, obs, recs, n).dom().contains(obs[j].relative_path),
        record_reindexed(acc, m, obs, recs, n)[obs[j].relative_path] == recs[j],
    decreases n,
{
    if j < n - 1 {
        lemma_record_reindexed_hit(acc, m, obs, recs, n - 1, j);
        assert(observed_paths(obs)[j] != observed_paths(obs)[n - 1]);
    }
}

proof fn lemma_record_reindexed_miss(
    acc: Map<Seq<char>, TrackedFileSpec>,
    m: Map<Seq<char>, TrackedFileSpec>,
    obs: Seq<ObservedSpec>,
    recs: Seq<TrackedFileSpec>,
    n: int,
    k: Seq<char>,
)
    requires
        n <= obs.len(),
        forall|j: int| 0 <= j < n && (#[trigger] obs[j]).relative_path == k ==> !reindexed(m, obs[j]),
    ensures
        record_reindexed(acc, m, obs, recs, n).dom().contains(k) == acc.dom().contains(k),
        acc.dom().contains(k) ==> record_reindexed(acc, m, obs, recs, n)[k] == acc[k],
    decreases n,
{
    if n > 0 {
        lemma_record_reindexed_miss(acc, m, obs, recs, n - 1, k);
    }
}

proof fn lemma_record_reindexed_dom(
    acc: Map<Seq<char>, TrackedFileSpec>,
    m: Map<Seq<char>, TrackedFileSpec>,
    obs: Seq<ObservedSpec>,
    recs: Seq<TrackedFileSpec>,
    n: int,
    k: Seq<char>,
)
    requires
        n <= obs.len(),
        record_reindexed(acc, m, obs, recs, n).dom().contains(k),
    ensures
        acc.dom().contains(k) || exists|j: int| 0 <= j < n && (#[trigger] obs[j]).relative_path == k,
    decreases n,
{
    if n > 0 {
        let a = record_reindexed(acc, m, obs, recs, n - 1);
        if a.dom().contains(k) {
            lemma_record_reindexed_dom(acc, m, obs, recs, n - 1, k);
        } else {
            assert(obs[n - 1].relative_path == k);
        }
    }
}

proof fn lemma_nothing_added_or_modified(m: Map<Seq<char>, TrackedFileSpec>, obs: Seq<ObservedSpec>)
    requires
        forall|i: int| 0 <= i < obs.len() ==> !is_added(m, #[trigger] obs[i]) && !is_modified(m, obs[i]),
    ensures
        added_paths(m, obs) == Seq::<Seq<char>>::empty(),
        modified_paths(m, obs) == Seq::<Seq<char>>::empty(),
    decreases obs.len(),
{
    if obs.len() > 0 {
        let t = obs.drop_last();
        assert forall|i: int| 0 <= i < t.len() implies !is_added(m, #[trigger] t[i]) && !is_modified(m, t[i]) by {
            assert(t[i] == obs[i]);
        }
        lemma_nothing_added_or_modified(m, t);
        assert(obs.last() == obs[obs.len() - 1]);
    }
}

/// Incremental indexing settles the workspace: after the changes that
/// `detect_changes` found against the tracked files `m` are indexed (deleted
/// files forgotten, added and modified files recorded with their current time
/// and size), detecting changes again on the same files finds nothing to
/// add, modify or delete.
pub proof fn law_indexing_then_detect_finds_nothing(
    m: Map<Seq<char>, TrackedFileSpec>,
    obs: Seq<ObservedSpec>,
    recs: Seq<TrackedFileSpec>,
    entries: Seq<TrackedFileSpec>,
)
    requires
        observed_paths(obs).no_duplicates(),
        recs.len() == obs.len(),
        forall|i: int| 0 <= i < obs.len() && reindexed(m, #[trigger] obs[i]) ==> (obs[i].stat matches Some(st)
            && recs[i].mtime_secs == st.mtime_secs && recs[i].size_bytes == st.size_bytes),
        forall|i: int| 0 <= i < obs.len() ==> !(content_needed(m, #[trigger] obs[i]) && obs[i].content is None),
        paths_of(entries).no_duplicates(),
        map_of(entries) == after_indexing(m, obs, recs),
    ensures
        added_paths(map_of(entries), obs) == Seq::<Seq<char>>::empty(),
        modified_paths(map_of(entries), obs) == Seq::<Seq<char>>::empty(),
        deleted_paths(entries, observed_paths(obs)) == Seq::<Seq<char>>::empty(),
{
    let seen = observed_paths(obs);
    let acc = forget_unseen(m, seen);
    let m2 = after_indexing(m, obs, recs);
    let n = obs.len() as int;
    assert forall|i: int| 0 <= i < obs.len() implies !is_added(m2, #[trigger] obs[i]) && !is_modified(m2, obs[i]) by {
        let o = obs[i];
        if o.stat is Some {
            if reindexed(m, o) {
                lemma_record_reindexed_hit(acc, m, obs, recs, n, i);
            } else {
                assert(m.dom().contains(o.relative_path));
                assert(seen[i] == o.relative_path);
                assert(acc.dom().contains(o.relative_path));
                assert forall|j: int| 0 <= j < n && (#[trigger] obs[j]).relative_path == o.relative_path implies !reindexed(m, obs[j]) by {
                    if j != i {
                        assert(seen[j] == obs[j].relative_path);
                        assert(seen[j] != seen[i]);
                    }
                }
                lemma_record_reindexed_miss(acc, m, obs, recs, n, o.relative_path);
                assert(m2[o.relative_path] == m[o.relative_path]);
            }
        }
    }
    lemma_nothing_added_or_modified(m2, obs);
    assert forall|i: int| 0 <= i < entries.len() implies seen.contains(#[trigger] entries[i].relative_path) by {
        let k = entries[i].relative_path;
        assert(paths_of(entries)[i] == k);
        lemma_map_of_dom(entries, k);
        lemma_record_reindexed_dom(acc, m, obs, recs, n, k);
        if !acc.dom().contains(k) {
            let j = choose|j: int| 0 <= j < n && (#[trigger] obs[j]).relative_path == k;
            assert(seen[j] == k);
        }
    }
    lemma_none_deleted(entries, seen);
}

} // verus!
