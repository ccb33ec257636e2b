use vstd::prelude::*;
use vstd::string::*;

use crate::paths::{
    file_name_of, file_name_seq, has_hidden_segment, hidden_segment_seq, is_md_name, joined_under,
    join_seq, lemma_rel_round_trip, lemma_title_restores_name, md_name_seq, rel_seq, relative_of,
    title_of, title_seq,
};

verus! {

/// One markdown file found beneath the scanned root.
#[derive(Debug)]
pub struct MarkdownFile {
    /// The file's path as the walk encountered it.
    pub path: String,
    /// The file name without the `.md` extension.
    pub title: String,
    /// The path relative to the scanned root.
    pub relative_path: String,
}

/// The mathematical content of a `MarkdownFile`: its three fields as
/// character sequences.
#[verifier::ext_equal]
pub ghost struct MarkdownFileView {
    pub path: Seq<char>,
    pub title: Seq<char>,
    pub relative_path: Seq<char>,
}

impl View for MarkdownFile {
    type V = MarkdownFileView;

    open spec fn view(&self) -> MarkdownFileView {
        MarkdownFileView { path: self.path@, title: self.title@, relative_path: self.relative_path@ }
    }
}

/// One entry handed back by the directory walk: its path and whether it is a
/// regular file (for a symlink, whether its target is).
pub struct WalkEntry {
    pub path: String,
    pub is_file: bool,
}

/// The mathematical content of a `WalkEntry`.
#[verifier::ext_equal]
pub ghost struct WalkEntryView {
    pub path: Seq<char>,
    pub is_file: bool,
}

impl View for WalkEntry {
    type V = WalkEntryView;

    open spec fn view(&self) -> WalkEntryView {
        WalkEntryView { path: self.path@, is_file: self.is_file }
    }
}

/// Why a scan of a root path failed.
#[derive(Debug)]
pub enum ScanError {
    /// The root does not exist; carries the root path.
    NotFound(String),
    /// The root exists but is not a directory; carries the root path.
    NotADirectory(String),
}

impl ScanError {
    /// The human-readable message for this error; it names the root path.
    pub fn message(&self) -> (m: String)
        ensures
            self matches ScanError::NotFound(p) ==> m@ == "Vault path does not exist: "@ + p@,
            self matches ScanError::NotADirectory(p) ==> m@ == "Vault path is not a directory: "@
                + p@,
    {
        match self {
            ScanError::NotFound(p) => String::from_str("Vault path does not exist: ").concat(
                p.as_str(),
            ),
            ScanError::NotADirectory(p) => String::from_str(
                "Vault path is not a directory: ",
            ).concat(p.as_str()),
        }
    }
}

/// The views of a sequence of scan results.
pub open spec fn file_views(files: Seq<MarkdownFile>) -> Seq<MarkdownFileView> {
    files.map_values(|m: MarkdownFile| m@)
}

/// The views of a sequence of walk entries.
pub open spec fn entry_views(es: Seq<WalkEntry>) -> Seq<WalkEntryView> {
    es.map_values(|e: WalkEntry| e@)
}

/// Whether a walk entry is reported by a scan rooted at `root`: it is a
/// regular file, its name ends in `.md`, and no segment of its path relative
/// to the root starts with `.`.
pub open spec fn emits(root: Seq<char>, e: WalkEntryView) -> bool {
    e.is_file && md_name_seq(file_name_seq(e.path)) && !hidden_segment_seq(rel_seq(root, e.path))
}

/// The scan result built from one walk entry.
pub open spec fn md_of(root: Seq<char>, e: WalkEntryView) -> MarkdownFileView {
    MarkdownFileView {
        path: e.path,
        title: title_seq(file_name_seq(e.path)),
        relative_path: rel_seq(root, e.path),
    }
}

/// The scan results for a sequence of walk entries, in walk order.
pub open spec fn scan_seq(root: Seq<char>, es: Seq<WalkEntryView>) -> Seq<MarkdownFileView>
    decreases es.len(),
{
    if es.len() == 0 {
        Seq::empty()
    } else {
        scan_seq(root, es.drop_last()) + if emits(root, es.last()) {
            seq![md_of(root, es.last())]
        } else {
            Seq::empty()
        }
    }
}

/// `m` is the result built from some walk entry of `es` that the scan
/// accepts.
pub open spec fn sourced(root: Seq<char>, es: Seq<WalkEntryView>, m: MarkdownFileView) -> bool {
    exists|j: int| 0 <= j < es.len() && emits(root, #[trigger] es[j]) && m == md_of(root, es[j])
}

/// Every scan result comes from some walk entry that the scan accepts.
pub proof fn lemma_scan_seq_source(root: Seq<char>, es: Seq<WalkEntryView>)
    ensures
        forall|k: int|
            0 <= k < scan_seq(root, es).len() ==> sourced(
                root,
                es,
                #[trigger] scan_seq(root, es)[k],
            ),
    decreases es.len(),
{
    if es.len() == 0 {
    } else {
        lemma_scan_seq_source(root, es.drop_last());
        let pre = scan_seq(root, es.drop_last());
        assert forall|k: int| 0 <= k < scan_seq(root, es).len() implies sourced(
            root,
            es,
            scan_seq(root, es)[k],
        ) by {
            if k < pre.len() {
                let j = choose|j: int|
                    0 <= j < es.drop_last().len() && emits(root, es.drop_last()[j]) && pre[k]
                        == md_of(root, es.drop_last()[j]);
                assert(es.drop_last()[j] == es[j]);
                assert(scan_seq(root, es)[k] == pre[k]);
                assert(emits(root, es[j]) && scan_seq(root, es)[k] == md_of(root, es[j]));
            } else {
                let j: int = es.len() - 1;
                assert(emits(root, es[j]) && scan_seq(root, es)[k] == md_of(root, es[j]));
            }
        }
    }
}

/// The scan reports the result built from each walk entry it accepts.
pub proof fn lemma_scan_seq_contains(root: Seq<char>, es: Seq<WalkEntryView>, j: int)
    requires
        0 <= j < es.len(),
        emits(root, es[j]),
    ensures
        scan_seq(root, es).contains(md_of(root, es[j])),
    decreases es.len(),
{
    let pre = scan_seq(root, es.drop_last());
    if j == es.len() - 1 {
        assert(scan_seq(root, es)[pre.len() as int] == md_of(root, es[j]));
    } else {
        assert(es.drop_last()[j] == es[j]);
        lemma_scan_seq_contains(root, es.drop_last(), j);
        let k = choose|k: int| 0 <= k < pre.len() && pre[k] == md_of(root, es.drop_last()[j]);
        assert(scan_seq(root, es)[k] == md_of(root, es[j]));
    }
}

/// Entries drawn from a larger set give at most the results of that set.
proof fn lemma_scan_seq_monotone(root: Seq<char>, es1: Seq<WalkEntryView>, es2: Seq<WalkEntryView>)
    requires
        forall|e: WalkEntryView| es1.contains(e) ==> es2.contains(e),
    ensures
        forall|m: MarkdownFileView|
            scan_seq(root, es1).contains(m) ==> scan_seq(root, es2).contains(m),
{
    assert forall|m: MarkdownFileView|
        scan_seq(root, es1).contains(m) implies scan_seq(root, es2).contains(m) by {
        let k = choose|k: int| 0 <= k < scan_seq(root, es1).len() && scan_seq(root, es1)[k] == m;
        lemma_scan_seq_source(root, es1);
        let j = choose|j: int|
            0 <= j < es1.len() && emits(root, es1[j]) && scan_seq(root, es1)[k] == md_of(
                root,
                es1[j],
            );
        assert(es1.contains(es1[j]));
        let j2 = choose|j2: int| 0 <= j2 < es2.len() && es2[j2] == es1[j];
        lemma_scan_seq_contains(root, es2, j2);
    }
}

/// Scanning two walks of the same tree gives the same set of results: walks
/// that yield the same entries, in whatever order, scan to the same set of
/// markdown files.
pub proof fn lemma_scan_same_entry_set(
    root: Seq<char>,
    es1: Seq<WalkEntryView>,
    es2: Seq<WalkEntryView>,
)
    requires
        forall|e: WalkEntryView| es1.contains(e) <==> es2.contains(e),
    ensures
        forall|m: MarkdownFileView|
            scan_seq(root, es1).contains(m) <==> scan_seq(root, es2).contains(m),
{
    lemma_scan_seq_monotone(root, es1, es2);
    lemma_scan_seq_monotone(root, es2, es1);
}

/// What a scan rooted at `root` guarantees of each reported file: the name
/// ends in `.md`; the title is the name with that suffix removed exactly
/// once; the relative path is the path with the root prefix stripped and has
/// no segment starting with `.`.
pub open spec fn good_result(root: Seq<char>, m: MarkdownFileView) -> bool {
    &&& md_name_seq(file_name_seq(m.path))
    &&& m.title == title_seq(file_name_seq(m.path))
    &&& m.title + seq!['.', 'm', 'd'] == file_name_seq(m.path)
    &&& m.relative_path == rel_seq(root, m.path)
    &&& !hidden_segment_seq(m.relative_path)
}

/// Every scan result is well formed in the sense of `good_result`.
pub proof fn lemma_scan_seq_well_formed(root: Seq<char>, es: Seq<WalkEntryView>)
    ensures
        forall|k: int|
            0 <= k < scan_seq(root, es).len() ==> good_result(root, scan_seq(root, es)[k]),
{
    lemma_scan_seq_source(root, es);
    assert forall|k: int|
        0 <= k < scan_seq(root, es).len() implies good_result(root, scan_seq(root, es)[k]) by {
        let j = choose|j: int|
            0 <= j < es.len() && emits(root, es[j]) && scan_seq(root, es)[k] == md_of(
                root,
                es[j],
            );
        lemma_title_restores_name(file_name_seq(es[j].path));
    }
}

/// For walk entries that lie under the root the way a walk builds paths,
/// joining each result's relative path back onto the root reproduces the
/// result's path.
pub proof fn lemma_scan_seq_round_trip(root: Seq<char>, es: Seq<WalkEntryView>)
    requires
        forall|j: int| 0 <= j < es.len() ==> joined_under(root, es[j].path),
    ensures
        forall|k: int|
            0 <= k < scan_seq(root, es).len() ==> join_seq(
                root,
                scan_seq(root, es)[k].relative_path,
            ) == scan_seq(root, es)[k].path,
    decreases es.len(),
{
    lemma_scan_seq_source(root, es);
    assert forall|k: int| 0 <= k < scan_seq(root, es).len() implies join_seq(
        root,
        scan_seq(root, es)[k].relative_path,
    ) == scan_seq(root, es)[k].path by {
        let j = choose|j: int|
            0 <= j < es.len() && emits(root, es[j]) && scan_seq(root, es)[k] == md_of(
                root,
                es[j],
            );
        lemma_rel_round_trip(root, es[j].path);
    }
}

/// Relies on std::path::Path::exists: whether the path points at an existing
/// entity on the filesystem. The answer depends on the filesystem, so nothing
/// is promised of it.
#[verifier::external_body]
fn fs_path_exists(path: &str) -> bool {
    std::path::Path::new(path).exists()
}

/// Relies on std::path::Path::is_dir: whether the path points at a directory
/// on the filesystem. The answer depends on the filesystem, so nothing is
/// promised of it.
#[verifier::external_body]
fn fs_path_is_dir(path: &str) -> bool {
    std::path::Path::new(path).is_dir()
}

/// Relies on walkdir::WalkDir: walks the tree rooted at `root` depth-first,
/// following symlinks (a directory reached through a link is descended into),
/// pruning entries whose name starts with `.` together with everything
/// beneath them, and dropping entries whose read failed. A symlink loop is
/// detected by walkdir and yielded as an error, so the walk terminates; the
/// error is dropped like any other. Which entries come back depends on the
/// filesystem; all that is claimed is what walkdir documents of every entry:
/// its path is built by joining the root with the entry names on the way
/// down to it.
#[verifier::external_body]
fn walk_tree(root: &str) -> (entries: Vec<WalkEntry>)
    ensures
        forall|i: int| 0 <= i < entries@.len() ==> joined_under(root@, entries@[i]@.path),
{
    walkdir::WalkDir::new(root)
        .follow_links(true)
        .into_iter()
        .filter_entry(|e| match e.file_name().to_str() {
            Some(name) => crate::paths::keep_name(name),
            None => true,
        })
        .filter_map(|e| e.ok())
        .map(|e| WalkEntry {
            path: e.path().to_string_lossy().into_owned(),
            is_file: e.file_type().is_file(),
        })
        .collect()
}

/// The scan's decisions, on plain values: given whether the root exists and
/// is a directory, and the entries a walk of it yielded, reject a missing or
/// non-directory root with the matching error, and otherwise report exactly
/// the entries that `emits` accepts, each as `md_of` builds it.
pub fn scan_from(vault_path: &str, exists: bool, is_dir: bool, entries: Vec<WalkEntry>) -> (r:
    Result<Vec<MarkdownFile>, ScanError>)
    ensures
        !exists ==> (r matches Err(e) && e matches ScanError::NotFound(p) && p@ == vault_path@),
        exists && !is_dir ==> (r matches Err(e) && e matches ScanError::NotADirectory(p) && p@
            == vault_path@),
        exists && is_dir ==> (r matches Ok(files) && file_views(files@) == scan_seq(
            vault_path@,
            entry_views(entries@),
        )),
{
    if !exists {
        return Err(ScanError::NotFound(vault_path.to_owned()));
    }
    if !is_dir {
        return Err(ScanError::NotADirectory(vault_path.to_owned()));
    }
    let ghost evs = entry_views(entries@);
    let mut files: Vec<MarkdownFile> = Vec::new();
    let n: usize = entries.len();
    let mut i: usize = 0;
    while i < n
        invariant
            i <= n,
            n == entries@.len(),
            evs == entry_views(entries@),
            file_views(files@) == scan_seq(vault_path@, evs.take(i as int)),
        decreases n - i,
    {
        let e = &entries[i];
        if e.is_file {
            let name = file_name_of(e.path.as_str());
            if is_md_name(name.as_str()) {
                let rel = relative_of(vault_path, e.path.as_str());
                if !has_hidden_segment(rel.as_str()) {
                    let title = title_of(name.as_str());
                    files.push(
                        MarkdownFile { path: e.path.clone(), title, relative_path: rel },
                    );
                }
            }
        }
        proof {
            assert(evs.take(i + 1).drop_last() =~= evs.take(i as int));
            assert(evs.take(i + 1).last() == evs[i as int]);
            assert(file_views(files@) =~= scan_seq(vault_path@, evs.take(i + 1)));
        }
        i = i + 1;
    }
    proof {
        assert(evs.take(n as int) =~= evs);
    }
    Ok(files)
}

/// Scan `vault_path` for markdown files. The root must exist and be a
/// directory, or the matching error (carrying the root path) is returned;
/// the walk follows symlinks, skips hidden directories, and drops unreadable
/// entries. Whatever the filesystem held, every reported file is well formed
/// in the sense of `good_result`, and its relative path joined back onto the
/// root gives its path.
pub fn scan_vault(vault_path: String) -> (r: Result<Vec<MarkdownFile>, ScanError>)
    ensures
        r matches Err(e) ==> ({
            ||| (e matches ScanError::NotFound(p) && p@ == vault_path@)
            ||| (e matches ScanError::NotADirectory(p) && p@ == vault_path@)
        }),
        r matches Ok(files) ==> forall|k: int|
            0 <= k < files@.len() ==> good_result(vault_path@, files@[k]@) && join_seq(
                vault_path@,
                files@[k]@.relative_path,
            ) == files@[k]@.path,
{
    let exists = fs_path_exists(vault_path.as_str());
    let is_dir = fs_path_is_dir(vault_path.as_str());
    let entries = if exists && is_dir {
        walk_tree(vault_path.as_str())
    } else {
        Vec::new()
    };
    let ghost evs = entry_views(entries@);
    let r = scan_from(vault_path.as_str(), exists, is_dir, entries);
    if let Ok(files) = &r {
        proof {
            lemma_scan_seq_well_formed(vault_path@, evs);
            lemma_scan_seq_round_trip(vault_path@, evs);
            assert forall|k: int| 0 <= k < files@.len() implies good_result(
                vault_path@,
                files@[k]@,
            ) && join_seq(vault_path@, files@[k]@.relative_path) == files@[k]@.path by {
                assert(files@[k]@ == file_views(files@)[k]);
            }
        }
    }
    r
}

} // verus!
