//! The live cache: one entry per known file, each holding the modification
//! time last observed and the records parsed from the file at that time.
//!
//! The cache's view is a map from path to (modification time, records); an
//! entry is always replaced or removed wholesale, never patched, so a reader
//! can never see a modification time paired with another snapshot's records.
//! Reading and stat'ing files is the caller's business: writes take the
//! file text and modification time as plain values.

use vstd::prelude::*;
use crate::types::{LogEntry, LogEntryModel};
use crate::json::{parse_jsonl_file, spec_parse_jsonl};

verus! {

/// What a scan of one file yielded: its path, its modification time in
/// milliseconds, and its full text.
pub struct FileScan {
    pub path: String,
    pub modified_millis: u64,
    pub content: String,
}

/// One observed change: the file at `path` now has the given snapshot
/// (modification time and text), or is gone.
pub struct PathChange {
    pub path: String,
    pub snapshot: Option<(u64, String)>,
}

/// One cached file.
pub struct CachedFile {
    pub path: String,
    pub modified_time: u64,
    pub entries: Vec<LogEntry>,
}

/// Mathematical image of a cached file.
pub struct CachedFileModel {
    pub modified_time: u64,
    pub entries: Seq<LogEntryModel>,
}

impl View for CachedFile {
    type V = CachedFileModel;

    open spec fn view(&self) -> CachedFileModel {
        CachedFileModel {
            modified_time: self.modified_time,
            entries: self.entries@.map_values(|e: LogEntry| e@),
        }
    }
}

/// The model a snapshot deposits in the cache: the snapshot's modification
/// time, paired with the parse of the snapshot's own text.
pub open spec fn snapshot_model(modified_millis: u64, content: Seq<char>) -> CachedFileModel {
    CachedFileModel { modified_time: modified_millis, entries: spec_parse_jsonl(content) }
}

/// The cache as a map from path to cached file.
pub open spec fn cache_map_of(files: Seq<CachedFile>) -> Map<Seq<char>, CachedFileModel>
    decreases files.len(),
{
    if files.len() == 0 {
        Map::empty()
    } else {
        cache_map_of(files.drop_last()).insert(files.last().path@, files.last()@)
    }
}

/// Paths are distinct, and every cached record carries a usage block.
pub open spec fn files_wf(files: Seq<CachedFile>) -> bool {
    (forall|i: int, j: int|
        0 <= i < j < files.len() ==> (#[trigger] files[i]).path@ != (#[trigger] files[j]).path@)
        && (forall|i: int, k: int|
        0 <= i < files.len() && 0 <= k < (#[trigger] files[i]).entries@.len()
            ==> (#[trigger] files[i].entries@[k]).message.usage is Some)
}

/// The live cache.
pub struct EntryCache {
    pub files: Vec<CachedFile>,
}

impl View for EntryCache {
    type V = Map<Seq<char>, CachedFileModel>;

    open spec fn view(&self) -> Map<Seq<char>, CachedFileModel> {
        cache_map_of(self.files@)
    }
}

proof fn lemma_cache_map_membership(files: Seq<CachedFile>, p: Seq<char>)
    ensures
        cache_map_of(files).contains_key(p) <==> exists|i: int|
            0 <= i < files.len() && (#[trigger] files[i]).path@ == p,
    decreases files.len(),
{
    if files.len() > 0 {
        lemma_cache_map_membership(files.drop_last(), p);
        if cache_map_of(files).contains_key(p) {
            if files.last().path@ == p {
                assert(files[files.len() - 1].path@ == p);
            } else {
                let i = choose|i: int|
                    0 <= i < files.drop_last().len() && (#[trigger] files.drop_last()[i]).path@
                        == p;
                assert(files[i].path@ == p);
            }
        }
        if exists|i: int| 0 <= i < files.len() && (#[trigger] files[i]).path@ == p {
            let i = choose|i: int| 0 <= i < files.len() && (#[trigger] files[i]).path@ == p;
            if i < files.len() - 1 {
                assert(files.drop_last()[i].path@ == p);
            }
        }
    }
}

proof fn lemma_cache_map_update(files: Seq<CachedFile>, i: int, cf: CachedFile)
    requires
        0 <= i < files.len(),
        cf.path@ == files[i].path@,
        forall|a: int, b: int|
            0 <= a < b < files.len() ==> (#[trigger] files[a]).path@ != (
            #[trigger] files[b]).path@,
    ensures
        cache_map_of(files.update(i, cf)) == cache_map_of(files).insert(cf.path@, cf@),
    decreases files.len(),
{
    let uf = files.update(i, cf);
    if i == files.len() - 1 {
        assert(uf.drop_last() =~= files.drop_last());
        assert(uf.last() == cf);
        assert(cache_map_of(uf) =~= cache_map_of(files).insert(cf.path@, cf@));
    } else {
        assert(uf.drop_last() =~= files.drop_last().update(i, cf));
        assert(uf.last() == files.last());
        lemma_cache_map_update(files.drop_last(), i, cf);
        assert(files.last().path@ != cf.path@) by {
            assert(files[i].path@ != files[files.len() - 1].path@);
        }
        assert(cache_map_of(uf) =~= cache_map_of(files).insert(cf.path@, cf@));
    }
}

proof fn lemma_cache_map_remove(files: Seq<CachedFile>, i: int)
    requires
        0 <= i < files.len(),
        forall|a: int, b: int|
            0 <= a < b < files.len() ==> (#[trigger] files[a]).path@ != (
            #[trigger] files[b]).path@,
    ensures
        cache_map_of(files.remove(i)) == cache_map_of(files).remove(files[i].path@),
    decreases files.len(),
{
    let rf = files.remove(i);
    if i == files.len() - 1 {
        assert(rf =~= files.drop_last());
        lemma_cache_map_membership(files.drop_last(), files[i].path@);
        assert(forall|a: int|
            0 <= a < files.len() - 1 ==> (#[trigger] files[a]).path@ != files[i].path@);
        assert(!cache_map_of(files.drop_last()).contains_key(files[i].path@));
        assert(cache_map_of(rf) =~= cache_map_of(files).remove(files[i].path@));
    } else {
        assert(rf.drop_last() =~= files.drop_last().remove(i));
        assert(rf.last() == files.last());
        lemma_cache_map_remove(files.drop_last(), i);
        assert(files[i].path@ != files.last().path@);
        assert(cache_map_of(rf) =~= cache_map_of(files).remove(files[i].path@));
    }
}

/// All records across the cache, in file order.
pub open spec fn all_entries_of(files: Seq<CachedFile>) -> Seq<LogEntryModel>
    decreases files.len(),
{
    if files.len() == 0 {
        Seq::empty()
    } else {
        all_entries_of(files.drop_last()) + files.last()@.entries
    }
}

/// Finds a path's position, or the length if absent.
fn find_path(files: &Vec<CachedFile>, path: &str) -> (r: usize)
    ensures
        r <= files@.len(),
        r < files@.len() ==> files@[r as int].path@ == path@,
        r == files@.len() ==> forall|i: int|
            0 <= i < files@.len() ==> (#[trigger] files@[i]).path@ != path@,
{
    let mut i: usize = 0;
    while i < files.len() && !crate::text::str_eq(files[i].path.as_str(), path)
        invariant
            i <= files@.len(),
            forall|t: int| 0 <= t < i ==> (#[trigger] files@[t]).path@ != path@,
        decreases files@.len() - i,
    {
        i = i + 1;
    }
    i
}

/// Inserts or replaces the entry for `cf.path`.
fn upsert(files: &mut Vec<CachedFile>, cf: CachedFile)
    requires
        files_wf(old(files)@),
        forall|k: int|
            0 <= k < cf.entries@.len() ==> (#[trigger] cf.entries@[k]).message.usage is Some,
    ensures
        files_wf(final(files)@),
        cache_map_of(final(files)@) == cache_map_of(old(files)@).insert(cf.path@, cf@),
{
    let ghost pre = files@;
    let i = find_path(files, cf.path.as_str());
    if i < files.len() {
        let ghost cfg = cf;
        files[i] = cf;
        proof {
            assert(files@ =~= pre.update(i as int, cfg));
            lemma_cache_map_update(pre, i as int, cfg);
        }
    } else {
        let ghost cfg = cf;
        files.push(cf);
        proof {
            assert(files@.drop_last() =~= pre);
            assert(files@.last() == cfg);
            assert(cache_map_of(files@) =~= cache_map_of(pre).insert(cfg.path@, cfg@));
            assert forall|a: int, b: int| 0 <= a < b < files@.len() implies (
            #[trigger] files@[a]).path@ != (#[trigger] files@[b]).path@ by {
                if b == files@.len() - 1 {
                    assert(files@[a] == pre[a]);
                }
            }
        }
    }
}

/// Removes the entry for `path`, if present.
fn remove_path(files: &mut Vec<CachedFile>, path: &str)
    requires
        files_wf(old(files)@),
    ensures
        files_wf(final(files)@),
        cache_map_of(final(files)@) == cache_map_of(old(files)@).remove(path@),
{
    let ghost pre = files@;
    let i = find_path(files, path);
    if i < files.len() {
        files.remove(i);
        proof {
            assert(files@ =~= pre.remove(i as int));
            lemma_cache_map_remove(pre, i as int);
            assert(pre[i as int].path@ == path@);
            assert forall|a: int, b: int| 0 <= a < b < files@.len() implies (
            #[trigger] files@[a]).path@ != (#[trigger] files@[b]).path@ by {
                if a < i as int {
                    assert(files@[a] == pre[a]);
                } else {
                    assert(files@[a] == pre[a + 1]);
                }
                if b < i as int {
                    assert(files@[b] == pre[b]);
                } else {
                    assert(files@[b] == pre[b + 1]);
                }
            }
            assert forall|a: int, k: int|
                0 <= a < files@.len() && 0 <= k < (#[trigger] files@[a]).entries@.len() implies (
            #[trigger] files@[a].entries@[k]).message.usage is Some by {
                if a < i as int {
                    assert(files@[a] == pre[a]);
                } else {
                    assert(files@[a] == pre[a + 1]);
                }
            }
        }
    } else {
        proof {
            lemma_cache_map_membership(pre, path@);
            assert(!cache_map_of(pre).contains_key(path@));
            assert(cache_map_of(files@) =~= cache_map_of(pre).remove(path@));
        }
    }
}

/// What one change does to the cache's map.
pub open spec fn apply_change(
    m: Map<Seq<char>, CachedFileModel>,
    c: PathChange,
) -> Map<Seq<char>, CachedFileModel> {
    match c.snapshot {
        Option::None => m.remove(c.path@),
        Option::Some(s) => m.insert(c.path@, snapshot_model(s.0, s.1@)),
    }
}

/// What a batch of changes does, applied in order.
pub open spec fn apply_changes(
    m: Map<Seq<char>, CachedFileModel>,
    cs: Seq<PathChange>,
) -> Map<Seq<char>, CachedFileModel>
    decreases cs.len(),
{
    if cs.len() == 0 {
        m
    } else {
        apply_change(apply_changes(m, cs.drop_last()), cs.last())
    }
}

impl Default for EntryCache {
    fn default() -> (r: Self)
        ensures
            r.wf(),
            r@ == Map::<Seq<char>, CachedFileModel>::empty(),
    {
        EntryCache::new()
    }
}

impl EntryCache {
    pub open spec fn wf(self) -> bool {
        files_wf(self.files@)
    }

    /// An empty cache.
    pub fn new() -> (r: Self)
        ensures
            r.wf(),
            r@ == Map::<Seq<char>, CachedFileModel>::empty(),
            r.files@.len() == 0,
    {
        EntryCache { files: Vec::new() }
    }

    /// Full rebuild from a fresh scan: afterwards the cache holds exactly
    /// one entry per scanned path (a later scan of the same path wins), each
    /// carrying the parse of that scan's text at that scan's modification
    /// time.
    pub fn initialize(&mut self, scans: Vec<FileScan>)
        requires
            old(self).wf(),
        ensures
            final(self).wf(),
            final(self)@ == scans_map(scans@),
    {
        self.files = Vec::new();
        let mut j: usize = 0;
        proof {
            assert(scans@.subrange(0, 0) =~= Seq::<FileScan>::empty());
        }
        while j < scans.len()
            invariant
                j <= scans@.len(),
                files_wf(self.files@),
                cache_map_of(self.files@) == scans_map(scans@.subrange(0, j as int)),
            decreases scans@.len() - j,
        {
            proof {
                assert(scans@.subrange(0, j as int + 1).drop_last() =~= scans@.subrange(
                    0,
                    j as int,
                ));
                assert(scans@.subrange(0, j as int + 1).last() == scans@[j as int]);
            }
            let entries = parse_jsonl_file(scans[j].content.as_str());
            let cf = CachedFile {
                path: scans[j].path.clone(),
                modified_time: scans[j].modified_millis,
                entries,
            };
            proof {
                assert(cf@.entries == spec_parse_jsonl(scans@[j as int].content@));
                assert(cf@ == snapshot_model(
                    scans@[j as int].modified_millis,
                    scans@[j as int].content@,
                ));
            }
            upsert(&mut self.files, cf);
            j = j + 1;
        }
        proof {
            assert(scans@.subrange(0, scans@.len() as int) =~= scans@);
        }
    }

    /// Every record currently cached, concatenated in the cache's file
    /// order. Callers needing a total order sort for themselves. Every
    /// returned record carries a usage block.
    pub fn get_all_entries(&self) -> (r: Vec<LogEntry>)
        requires
            self.wf(),
        ensures
            r@.map_values(|e: LogEntry| e@) == all_entries_of(self.files@),
            forall|k: int| 0 <= k < r@.len() ==> (#[trigger] r@[k]).message.usage is Some,
    {
        let mut out: Vec<LogEntry> = Vec::new();
        let mut i: usize = 0;
        proof {
            assert(self.files@.subrange(0, 0) =~= Seq::<CachedFile>::empty());
            assert(out@.map_values(|e: LogEntry| e@) =~= all_entries_of(
                self.files@.subrange(0, 0),
            ));
        }
        while i < self.files.len()
            invariant
                i <= self.files@.len(),
                files_wf(self.files@),
                out@.map_values(|e: LogEntry| e@) == all_entries_of(
                    self.files@.subrange(0, i as int),
                ),
                forall|k: int| 0 <= k < out@.len() ==> (#[trigger] out@[k]).message.usage is Some,
            decreases self.files@.len() - i,
        {
            let mut t: usize = 0;
            let n = self.files[i].entries.len();
            while t < n
                invariant
                    i < self.files@.len(),
                    files_wf(self.files@),
                    t <= n,
                    n == self.files@[i as int].entries@.len(),
                    out@.map_values(|e: LogEntry| e@) == all_entries_of(
                        self.files@.subrange(0, i as int),
                    ) + self.files@[i as int]@.entries.subrange(0, t as int),
                    forall|k: int|
                        0 <= k < out@.len() ==> (#[trigger] out@[k]).message.usage is Some,
                decreases n - t,
            {
                let ghost old_out = out@;
                out.push(self.files[i].entries[t].clone());
                t = t + 1;
                proof {
                    let f = |e: LogEntry| e@;
                    assert(out@ =~= old_out.push(self.files@[i as int].entries@[t as int - 1]));
                    assert(out@.map_values(f) =~= old_out.map_values(f).push(
                        self.files@[i as int].entries@[t as int - 1]@,
                    ));
                    assert(self.files@[i as int]@.entries[t as int - 1] == self.files@[i as int]
                        .entries@[t as int - 1]@);
                    assert(self.files@[i as int]@.entries.subrange(0, t as int)
                        =~= self.files@[i as int]@.entries.subrange(0, t as int - 1).push(
                        self.files@[i as int]@.entries[t as int - 1],
                    ));
                    assert(out@.map_values(f) =~= all_entries_of(
                        self.files@.subrange(0, i as int),
                    ) + self.files@[i as int]@.entries.subrange(0, t as int));
                }
            }
            i = i + 1;
            proof {
                assert(self.files@.subrange(0, i as int).drop_last() =~= self.files@.subrange(
                    0,
                    i as int - 1,
                ));
                assert(self.files@.subrange(0, i as int).last() == self.files@[i as int - 1]);
                assert(self.files@[i as int - 1]@.entries.subrange(
                    0,
                    self.files@[i as int - 1].entries@.len() as int,
                ) =~= self.files@[i as int - 1]@.entries);
                assert(out@.map_values(|e: LogEntry| e@) =~= all_entries_of(
                    self.files@.subrange(0, i as int),
                ));
            }
        }
        proof {
            assert(self.files@.subrange(0, self.files@.len() as int) =~= self.files@);
        }
        out
    }

    /// Targeted refresh: each listed path is re-read from its snapshot, or
    /// dropped if it is gone; paths not listed keep their entries untouched.
    /// Each refreshed entry carries the modification time and the parsed
    /// records of one snapshot, never a mixture.
    pub fn invalidate_paths(&mut self, changes: Vec<PathChange>)
        requires
            old(self).wf(),
        ensures
            final(self).wf(),
            final(self)@ == apply_changes(old(self)@, changes@),
    {
        let mut j: usize = 0;
        proof {
            assert(changes@.subrange(0, 0) =~= Seq::<PathChange>::empty());
        }
        while j < changes.len()
            invariant
                j <= changes@.len(),
                files_wf(self.files@),
                cache_map_of(self.files@) == apply_changes(
                    cache_map_of(old(self).files@),
                    changes@.subrange(0, j as int),
                ),
            decreases changes@.len() - j,
        {
            proof {
                assert(changes@.subrange(0, j as int + 1).drop_last() =~= changes@.subrange(
                    0,
                    j as int,
                ));
                assert(changes@.subrange(0, j as int + 1).last() == changes@[j as int]);
            }
            match &changes[j].snapshot {
                Option::Some(s) => {
                    let entries = parse_jsonl_file(s.1.as_str());
                    let cf = CachedFile {
                        path: changes[j].path.clone(),
                        modified_time: s.0,
                        entries,
                    };
                    proof {
                        assert(cf@ == snapshot_model(s.0, s.1@));
                    }
                    upsert(&mut self.files, cf);
                },
                Option::None => {
                    remove_path(&mut self.files, changes[j].path.as_str());
                },
            }
            j = j + 1;
        }
        proof {
            assert(changes@.subrange(0, changes@.len() as int) =~= changes@);
        }
    }
}

/// The map a fresh scan builds: one entry per path, later scans winning.
pub open spec fn scans_map(scans: Seq<FileScan>) -> Map<Seq<char>, CachedFileModel>
    decreases scans.len(),
{
    if scans.len() == 0 {
        Map::empty()
    } else {
        scans_map(scans.drop_last()).insert(
            scans.last().path@,
            snapshot_model(scans.last().modified_millis, scans.last().content@),
        )
    }
}

/// Invalidating a deleted path removes it from the cache; a later change
/// carrying a fresh snapshot restores that path with exactly the records
/// parsed from the snapshot's text. Other paths are untouched by both.
pub proof fn lemma_remove_then_restore(
    m: Map<Seq<char>, CachedFileModel>,
    gone: PathChange,
    back: PathChange,
)
    requires
        gone.snapshot is None,
        back.snapshot is Some,
        back.path@ == gone.path@,
    ensures
        !apply_changes(m, seq![gone]).contains_key(gone.path@),
        apply_changes(apply_changes(m, seq![gone]), seq![back]).contains_key(back.path@),
        apply_changes(apply_changes(m, seq![gone]), seq![back])[back.path@] == snapshot_model(
            (back.snapshot->0).0,
            (back.snapshot->0).1@,
        ),
        forall|q: Seq<char>|
            q != gone.path@ ==> (#[trigger] apply_changes(m, seq![gone]).contains_key(q)
                == m.contains_key(q) && (m.contains_key(q) ==> apply_changes(m, seq![gone])[q]
                == m[q])),
{
    assert(seq![gone].drop_last() =~= Seq::<PathChange>::empty());
    assert(seq![gone].last() == gone);
    assert(seq![back].drop_last() =~= Seq::<PathChange>::empty());
    assert(seq![back].last() == back);
    assert(seq![gone].len() == 1);
    assert(apply_changes(m, seq![gone]) == apply_change(
        apply_changes(m, seq![gone].drop_last()),
        gone,
    ));
    assert(apply_changes(m, seq![gone].drop_last()) == m);
    assert(apply_changes(m, seq![gone]) =~= m.remove(gone.path@));
    assert forall|q: Seq<char>| q != gone.path@ implies (#[trigger] apply_changes(
        m,
        seq![gone],
    ).contains_key(q) == m.contains_key(q) && (m.contains_key(q) ==> apply_changes(
        m,
        seq![gone],
    )[q] == m[q])) by {
        assert(m.remove(gone.path@).contains_key(q) == m.contains_key(q));
    }
}

/// No torn entries: after a batch of changes, every path's entry either is
/// exactly what the cache held before, or is exactly the model of one
/// change's snapshot — modification time and records from the same snapshot.
pub proof fn lemma_no_torn_entries(m: Map<Seq<char>, CachedFileModel>, cs: Seq<PathChange>)
    ensures
        forall|p: Seq<char>|
            #[trigger] apply_changes(m, cs).contains_key(p) ==> ((m.contains_key(p)
                && apply_changes(m, cs)[p] == m[p]) || exists|k: int|
                0 <= k < cs.len() && (#[trigger] cs[k]).snapshot is Some && apply_changes(
                    m,
                    cs,
                )[p] == snapshot_model((cs[k].snapshot->0).0, (cs[k].snapshot->0).1@)),
    decreases cs.len(),
{
    if cs.len() > 0 {
        lemma_no_torn_entries(m, cs.drop_last());
        let prev = apply_changes(m, cs.drop_last());
        let c = cs.last();
        assert forall|p: Seq<char>| #[trigger] apply_changes(m, cs).contains_key(p) implies ((
        m.contains_key(p) && apply_changes(m, cs)[p] == m[p]) || exists|k: int|
            0 <= k < cs.len() && (#[trigger] cs[k]).snapshot is Some && apply_changes(m, cs)[p]
                == snapshot_model((cs[k].snapshot->0).0, (cs[k].snapshot->0).1@)) by {
            let cur = apply_changes(m, cs);
            if c.snapshot is Some && p == c.path@ {
                assert(cs[cs.len() - 1].snapshot is Some && cur[p] == snapshot_model(
                    (cs[cs.len() - 1].snapshot->0).0,
                    (cs[cs.len() - 1].snapshot->0).1@,
                ));
            } else {
                assert(prev.contains_key(p) && cur[p] == prev[p]);
                if !(m.contains_key(p) && prev[p] == m[p]) {
                    let k = choose|k: int|
                        0 <= k < cs.drop_last().len() && (#[trigger] cs.drop_last()[k]).snapshot
                            is Some && prev[p] == snapshot_model(
                            (cs.drop_last()[k].snapshot->0).0,
                            (cs.drop_last()[k].snapshot->0).1@,
                        );
                    assert(cs[k] == cs.drop_last()[k]);
                    assert(0 <= k < cs.len() && cs[k].snapshot is Some && cur[p]
                        == snapshot_model((cs[k].snapshot->0).0, (cs[k].snapshot->0).1@));
                }
            }
        }
    }
}

} // verus!
