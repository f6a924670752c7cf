//! The functions of a crate grouped by the file they stand in, and the
//! visitor step that records one function.

use crate::fn_info::{FnInfo, sort_by_start, sorted_by_start};
use crate::path::{path_key, same_path};
use vstd::prelude::*;

verus! {

/// The functions recorded for one file.
pub struct FileFns {
    pub file: String,
    pub fns: Vec<FnInfo>,
}

impl FileFns {
    /// The file as a path: its components.
    pub open spec fn key(&self) -> Seq<Seq<char>> {
        path_key(self.file@)
    }
}

/// The file of a function as a path: its components.
pub open spec fn file_key(f: FnInfo) -> Seq<Seq<char>> {
    path_key(f.file@)
}

/// Functions grouped by file: each file occurs once, and each function is
/// kept under the file it stands in. Files are compared as paths, by their
/// components, so `src//main.rs` and `src/./main.rs` are `src/main.rs`.
pub struct FnMap {
    entries: Vec<FileFns>,
}

/// No two entries name the same file, and every function of an entry
/// stands in that entry's file, files compared by their components.
pub open spec fn entries_wf(entries: Seq<FileFns>) -> bool {
    &&& forall|i: int, j: int|
        0 <= i < j < entries.len() ==> #[trigger] entries[i].key() != #[trigger] entries[j].key()
    &&& forall|i: int, k: int|
        0 <= i < entries.len() && 0 <= k < entries[i].fns@.len() ==> file_key(#[trigger] entries[i].fns@[k])
            == entries[i].key()
}

/// The position of the entry for `file`.
pub open spec fn entry_index(entries: Seq<FileFns>, file: Seq<Seq<char>>) -> int {
    choose|i: int| 0 <= i < entries.len() && entries[i].key() == file
}

/// The map from file to its functions that a list of entries stands for.
pub open spec fn entries_map(entries: Seq<FileFns>) -> Map<Seq<Seq<char>>, Seq<FnInfo>> {
    Map::new(
        |file: Seq<Seq<char>>| exists|i: int| 0 <= i < entries.len() && entries[i].key() == file,
        |file: Seq<Seq<char>>| entries[entry_index(entries, file)].fns@,
    )
}

/// The functions recorded for `file`, none where it has no entry.
pub open spec fn fns_under(m: Map<Seq<Seq<char>>, Seq<FnInfo>>, file: Seq<Seq<char>>) -> Seq<FnInfo> {
    if m.dom().contains(file) {
        m[file]
    } else {
        seq![]
    }
}

/// Recording a function puts it after the functions already recorded for
/// its file, and leaves the functions of every other file as they were.
pub proof fn lemma_record_keeps_other_files(
    m: Map<Seq<Seq<char>>, Seq<FnInfo>>,
    info: FnInfo,
    other: Seq<Seq<char>>,
)
    ensures
        ({
            let recorded = m.insert(file_key(info), fns_under(m, file_key(info)).push(info));
            &&& fns_under(recorded, file_key(info)) == fns_under(m, file_key(info)).push(info)
            &&& fns_under(recorded, file_key(info)).len() == fns_under(m, file_key(info)).len() + 1
            &&& other != file_key(info) ==> fns_under(recorded, other) == fns_under(m, other)
        }),
{
}

impl View for FnMap {
    type V = Map<Seq<Seq<char>>, Seq<FnInfo>>;

    /// The map from each file, as its components, to the functions recorded
    /// for it, in the order they were recorded.
    closed spec fn view(&self) -> Map<Seq<Seq<char>>, Seq<FnInfo>> {
        entries_map(self.entries@)
    }
}

impl FnMap {
    #[verifier::type_invariant]
    spec fn inv(self) -> bool {
        entries_wf(self.entries@)
    }

    /// An empty map.
    pub fn new() -> (res: FnMap)
        ensures
            res@ == Map::<Seq<Seq<char>>, Seq<FnInfo>>::empty(),
    {
        let res = FnMap { entries: Vec::new() };
        assert(res@ =~= Map::<Seq<Seq<char>>, Seq<FnInfo>>::empty());
        res
    }

    /// Appends a function to the list of its file, which is created where
    /// the file had none.
    pub fn push_fn(&mut self, info: FnInfo)
        ensures
            final(self)@ == old(self)@.insert(
                file_key(info),
                fns_under(old(self)@, file_key(info)).push(info),
            ),
    {
        proof {
            use_type_invariant(&*self);
        }
        let ghost old_entries = self.entries@;
        let mut entries: Vec<FileFns> = Vec::new();
        std::mem::swap(&mut entries, &mut self.entries);
        assert(entries@ == old_entries);
        let n = entries.len();
        let mut i: usize = 0;
        while i < n
            invariant
                n == entries@.len(),
                entries@ == old_entries,
                i <= n,
                forall|j: int| 0 <= j < i ==> entries@[j].key() != file_key(info),
            ensures
                i <= n,
                forall|j: int| 0 <= j < i ==> entries@[j].key() != file_key(info),
                i < n ==> entries@[i as int].key() == file_key(info),
            decreases n - i,
        {
            if same_path(entries[i].file.as_str(), info.file.as_str()) {
                break;
            }
            i = i + 1;
        }
        let ghost key = file_key(info);
        if i < n {
            assert(entries@[i as int].key() == key);
            let mut entry = entries.remove(i);
            let ghost old_fns = entry.fns@;
            entry.fns.push(info);
            entries.insert(i, entry);
            let ghost new_entries = old_entries.update(i as int, entries@[i as int]);
            assert(entries@ == new_entries);
            assert(entries_map(old_entries).dom().contains(key));
            assert(entry_index(old_entries, key) == i);
            assert(entries_wf(entries@));
            assert(entries_map(entries@) =~= entries_map(old_entries).insert(key, old_fns.push(info))) by {
                assert forall|f: Seq<Seq<char>>| #[trigger] entries_map(entries@).dom().contains(f)
                    implies entries_map(entries@)[f] == entries_map(old_entries).insert(key, old_fns.push(info))[f] by {
                    let a = entry_index(entries@, f);
                    if f != key {
                        let b = entry_index(old_entries, f);
                        assert(a != i);
                        assert(entries@[a] == old_entries[a]);
                        assert(old_entries[a].key() == f);
                        assert(a == b);
                    } else {
                        assert(a == i);
                    }
                }
                assert forall|f: Seq<Seq<char>>| entries_map(old_entries).insert(key, old_fns.push(info)).dom().contains(f)
                    implies #[trigger] entries_map(entries@).dom().contains(f) by {
                    if f != key {
                        let b = entry_index(old_entries, f);
                        assert(entries@[b].key() == f);
                    } else {
                        assert(entries@[i as int].key() == f);
                    }
                }
            }
        } else {
            let file = info.file.clone();
            let mut fns: Vec<FnInfo> = Vec::new();
            fns.push(info);
            entries.push(FileFns { file, fns });
            assert(!entries_map(old_entries).dom().contains(key));
            assert(entries_wf(entries@));
            assert(entries_map(entries@) =~= entries_map(old_entries).insert(key, seq![info])) by {
                assert forall|f: Seq<Seq<char>>| #[trigger] entries_map(entries@).dom().contains(f)
                    implies entries_map(entries@)[f] == entries_map(old_entries).insert(key, seq![info])[f] by {
                    let a = entry_index(entries@, f);
                    if f != key {
                        let b = entry_index(old_entries, f);
                        assert(a != n);
                        assert(entries@[a] == old_entries[a]);
                        assert(entries@[b] == old_entries[b]);
                        assert(a == b);
                    } else {
                        assert(a == n);
                    }
                }
                assert forall|f: Seq<Seq<char>>| entries_map(old_entries).insert(key, seq![info]).dom().contains(f)
                    implies #[trigger] entries_map(entries@).dom().contains(f) by {
                    if f != key {
                        let b = entry_index(old_entries, f);
                        assert(entries@[b].key() == f);
                    } else {
                        assert(entries@[n as int].key() == f);
                    }
                }
            }
        }
        self.entries = entries;
    }
}


impl FnMap {
    /// The functions recorded for `path`, if any; each of them names a path
    /// with the same components as `path` as its file.
    pub fn get(&self, path: &String) -> (res: Option<&Vec<FnInfo>>)
        ensures
            match res {
                Some(fns) => {
                    &&& self@.dom().contains(path_key(path@))
                    &&& fns@ == self@[path_key(path@)]
                    &&& forall|k: int| 0 <= k < fns@.len() ==> file_key(#[trigger] fns@[k]) == path_key(path@)
                },
                None => !self@.dom().contains(path_key(path@)),
            },
    {
        proof {
            use_type_invariant(self);
        }
        let n = self.entries.len();
        for i in 0..n
            invariant
                n == self.entries@.len(),
                entries_wf(self.entries@),
                forall|j: int| 0 <= j < i ==> self.entries@[j].key() != path_key(path@),
        {
            if same_path(self.entries[i].file.as_str(), path.as_str()) {
                assert(self.entries@[i as int].key() == path_key(path@));
                assert(entry_index(self.entries@, path_key(path@)) == i);
                return Some(&self.entries[i].fns);
            }
        }
        None
    }

    /// Sorts the functions of every file by the line on which they start.
    /// The files stay the same, and so do the functions of each, each as
    /// often as before.
    pub fn sort_each(&mut self)
        ensures
            final(self)@.dom() == old(self)@.dom(),
            forall|file: Seq<Seq<char>>| #[trigger] final(self)@.dom().contains(file) ==> {
                &&& sorted_by_start(final(self)@[file])
                &&& final(self)@[file].to_multiset() == old(self)@[file].to_multiset()
            },
    {
        proof {
            use_type_invariant(&*self);
        }
        let ghost old_entries = self.entries@;
        let mut entries: Vec<FileFns> = Vec::new();
        std::mem::swap(&mut entries, &mut self.entries);
        let n = entries.len();
        for i in 0..n
            invariant
                n == entries@.len(),
                n == old_entries.len(),
                entries_wf(old_entries),
                entries_wf(entries@),
                forall|j: int| 0 <= j < n ==> #[trigger] entries@[j].key() == old_entries[j].key(),
                forall|j: int| 0 <= j < i ==> sorted_by_start(#[trigger] entries@[j].fns@),
                forall|j: int| 0 <= j < n ==> (#[trigger] entries@[j]).fns@.to_multiset()
                    == old_entries[j].fns@.to_multiset(),
                forall|j: int| i <= j < n ==> #[trigger] entries@[j] == old_entries[j],
        {
            let mut entry = entries.remove(i);
            sort_by_start(&mut entry.fns);
            proof {
                broadcast use vstd::seq_lib::group_to_multiset_ensures;
                assert forall|k: int| 0 <= k < entry.fns@.len() implies file_key(#[trigger] entry.fns@[k])
                    == entry.key() by {
                    assert(entry.fns@.to_multiset().count(entry.fns@[k]) > 0);
                    assert(old_entries[i as int].fns@.contains(entry.fns@[k]));
                }
            }
            let ghost before = entries@;
            entries.insert(i, entry);
            proof {
                assert forall|j: int| 0 <= j < n implies #[trigger] entries@[j].key()
                    == old_entries[j].key() by {
                    if j < i {
                        assert(entries@[j] == before[j]);
                    } else if j > i {
                        assert(entries@[j] == before[j - 1]);
                    }
                }
                assert forall|a: int, k: int|
                    0 <= a < n && 0 <= k < entries@[a].fns@.len() implies file_key(
                    #[trigger] entries@[a].fns@[k],
                ) == entries@[a].key() by {
                    if a < i {
                        assert(entries@[a] == before[a]);
                    } else if a > i {
                        assert(entries@[a] == before[a - 1]);
                    }
                }
            }
        }
        proof {
            assert forall|file: Seq<Seq<char>>| #[trigger] entries_map(entries@).dom().contains(file)
                implies entries_map(old_entries).dom().contains(file) && entry_index(entries@, file)
                == entry_index(old_entries, file) by {
                let a = entry_index(entries@, file);
                assert(old_entries[a].key() == file);
                let b = entry_index(old_entries, file);
                assert(entries@[b].key() == file);
            }
            assert forall|file: Seq<Seq<char>>| #[trigger] entries_map(old_entries).dom().contains(file)
                implies entries_map(entries@).dom().contains(file) by {
                let b = entry_index(old_entries, file);
                assert(entries@[b].key() == file);
            }
            assert(entries_map(entries@).dom() =~= entries_map(old_entries).dom());
        }
        self.entries = entries;
    }
}


/// What kind of function the visitor met, with its name where it has one.
pub enum FnKind {
    ItemFn(String),
    Method(String),
    Closure,
}

/// The name of the file that a span points into: a real path, or a
/// source that is no file on disk.
pub enum SourceFile {
    Real(String),
    Other,
}

/// The name recorded for a function of the given kind.
pub open spec fn kind_name(kind: FnKind) -> Option<String> {
    match kind {
        FnKind::ItemFn(name) => Some(name),
        FnKind::Method(name) => Some(name),
        FnKind::Closure => None,
    }
}

/// Collects the functions of a crate as a visitor meets them.
pub struct FunctionExtractor {
    pub fns: FnMap,
}

impl FunctionExtractor {
    /// An extractor that has recorded nothing yet.
    pub fn new() -> (res: FunctionExtractor)
        ensures
            res.fns@ == Map::<Seq<Seq<char>>, Seq<FnInfo>>::empty(),
    {
        FunctionExtractor { fns: FnMap::new() }
    }

    /// Records a function whose span runs from line `lo_line` to line
    /// `hi_line` of a real file: it is appended to the functions of that
    /// file, named unless it is a closure.
    pub fn visit_fn(&mut self, kind: FnKind, file: SourceFile, lo_line: usize, hi_line: usize)
        requires
            file is Real,
        ensures
            ({
                let path = file->Real_0;
                let info = FnInfo { name: kind_name(kind), file: path, lo_line, hi_line };
                final(self).fns@ == old(self).fns@.insert(
                    path_key(path@),
                    fns_under(old(self).fns@, path_key(path@)).push(info),
                )
            }),
    {
        let name = match kind {
            FnKind::ItemFn(name) => Some(name),
            FnKind::Method(name) => Some(name),
            FnKind::Closure => None,
        };
        let path = match file {
            SourceFile::Real(path) => path,
            SourceFile::Other => unreached(),
        };
        let info = FnInfo { name, file: path.clone(), lo_line, hi_line };
        self.fns.push_fn(info);
    }
}

/// The functions that extraction found, by file.
pub struct ExtractionResult {
    pub fns: FnMap,
}

} // verus!
