//! A workspace: a tree of folders that hold files.
//!
//! Nothing here reads a disk. Whoever scans one builds this tree and hands
//! it over; the library walks it.

use crate::entries::{
    entries_clone, entries_new, map_entries, path_entries, paths_clone, paths_insert, paths_new,
    paths_put,
};
use crate::model::{is_random_id, random_id, HeadingId, OrgFileId};
use crate::tags::{Tag, TagSet};
use crate::text::{chars_of, push_char, skip_back, skip_class_back, string_of, CharClass};
use crate::tree::OrgFile;
use indexmap::IndexMap;
use std::collections::BTreeMap;
use std::path::PathBuf;
use vstd::prelude::*;
use vstd::string::*;

verus! {

/* ------------------------------- Identities ------------------------------- */

/// The identity of a workspace.
#[derive(Debug, Clone, Copy, PartialEq, Eq, Structural, PartialOrd, Ord, Hash)]
pub struct WorkspaceId(pub u128);

impl WorkspaceId {
    /// A fresh identity, drawn at random.
    pub fn new() -> (r: WorkspaceId)
        ensures
            is_random_id(r.0),
    {
        WorkspaceId(random_id())
    }
}

/// The identity of a folder.
#[derive(Debug, Clone, Copy, PartialEq, Eq, Structural, PartialOrd, Ord, Hash)]
pub struct FolderId(pub u128);

impl FolderId {
    /// A fresh identity, drawn at random.
    pub fn new() -> (r: FolderId)
        ensures
            is_random_id(r.0),
    {
        FolderId(random_id())
    }
}

/* --------------------------------- Paths --------------------------------- */

/// A path relative to the root of a workspace, with `/` between its
/// segments and none in front. The root itself is the empty path.
#[derive(Debug, PartialEq, Eq, PartialOrd, Ord, Hash)]
pub struct RelPath(pub String);

impl View for RelPath {
    type V = Seq<char>;

    open spec fn view(&self) -> Seq<char> {
        self.0@
    }
}

impl Clone for RelPath {
    fn clone(&self) -> (r: RelPath)
        ensures
            r@ == self@,
    {
        RelPath(self.0.clone())
    }
}

/// Where the last segment of a path starts: behind its last `/`, or at its
/// start if it has none.
pub open spec fn name_start(s: Seq<char>) -> int {
    skip_class_back(s, 0, s.len() as int, CharClass::Except('/'))
}

/// A path with one more segment.
pub open spec fn joined(base: Seq<char>, segment: Seq<char>) -> Seq<char> {
    if base.len() == 0 {
        segment
    } else {
        base.push('/') + segment
    }
}

/// A path without its last segment; nothing for the root.
pub open spec fn parent_of(s: Seq<char>) -> Option<Seq<char>> {
    if s.len() == 0 {
        None
    } else if name_start(s) > 0 {
        Some(s.subrange(0, name_start(s) - 1))
    } else {
        Some(Seq::empty())
    }
}

/// The last segment of a path; nothing for the root.
pub open spec fn file_name_of(s: Seq<char>) -> Option<Seq<char>> {
    if s.len() == 0 {
        None
    } else {
        Some(s.subrange(name_start(s), s.len() as int))
    }
}

impl RelPath {
    /// The root: the empty path.
    pub fn root() -> (r: RelPath)
        ensures
            r@ == Seq::<char>::empty(),
    {
        RelPath(String::new())
    }

    /// This path with one more segment.
    pub fn join(&self, segment: &str) -> (r: RelPath)
        ensures
            r@ == joined(self@, segment@),
    {
        if self.0.as_str().unicode_len() == 0 {
            RelPath(segment.to_owned())
        } else {
            let mut s = self.0.clone();
            push_char(&mut s, '/');
            s.append(segment);
            RelPath(s)
        }
    }

    /// This path without its last segment; nothing for the root.
    pub fn parent(&self) -> (r: Option<RelPath>)
        ensures
            match r {
                Some(p) => parent_of(self@) == Some(p@),
                None => parent_of(self@) is None,
            },
    {
        let text = chars_of(self.0.as_str());
        if text.len() == 0 {
            None
        } else {
            let k = skip_back(&text, 0, text.len(), CharClass::Except('/'));
            if k > 0 {
                Some(RelPath(string_of(&text, 0, k - 1)))
            } else {
                Some(RelPath(String::new()))
            }
        }
    }

    /// The last segment of this path; nothing for the root.
    pub fn file_name(&self) -> (r: Option<&str>)
        ensures
            match r {
                Some(name) => file_name_of(self@) == Some(name@),
                None => file_name_of(self@) is None,
            },
    {
        let text = chars_of(self.0.as_str());
        if text.len() == 0 {
            None
        } else {
            let k = skip_back(&text, 0, text.len(), CharClass::Except('/'));
            Some(self.0.as_str().substring_char(k, text.len()))
        }
    }
}

/* --------------------------------- Files --------------------------------- */

/// A moment in time, as seconds and nanoseconds since 1970 in UTC.
#[derive(Debug, Clone, Copy, PartialEq, Eq, Structural, PartialOrd, Ord, Hash)]
pub struct UtcInstant {
    pub seconds: i64,
    pub nanos: u32,
}

/// What is known of a file without reading it.
#[derive(Debug, Clone, Copy, PartialEq, Eq, Structural)]
pub struct FileStats {
    pub size_bytes: Option<u64>,
    pub modified_utc: Option<UtcInstant>,
    pub is_symlink: bool,
}

/// The rules by which a workspace was scanned.
#[derive(Debug, Clone, PartialEq, Eq)]
pub struct ScanPolicy {
    /// Patterns of paths to pass over.
    pub ignore_globs: Vec<String>,
    /// Patterns of paths to take.
    pub include_globs: Vec<String>,
    pub follow_symlinks: bool,
}

/// The patterns that a scan passes over unless told otherwise.
pub open spec fn default_ignore_globs() -> Seq<Seq<char>> {
    seq!["**/.git/**"@, "**/.direnv/**"@, "**/target/**"@]
}

impl Default for ScanPolicy {
    fn default() -> (r: ScanPolicy)
        ensures
            crate::model::strings_view(r.ignore_globs@) == default_ignore_globs(),
            crate::model::strings_view(r.include_globs@) == seq!["**/*.org"@],
            !r.follow_symlinks,
    {
        let mut ignore_globs: Vec<String> = Vec::new();
        ignore_globs.push("**/.git/**".to_owned());
        ignore_globs.push("**/.direnv/**".to_owned());
        ignore_globs.push("**/target/**".to_owned());
        let mut include_globs: Vec<String> = Vec::new();
        include_globs.push("**/*.org".to_owned());
        assert(crate::model::strings_view(ignore_globs@) =~= default_ignore_globs());
        assert(crate::model::strings_view(include_globs@) =~= seq!["**/*.org"@]);
        ScanPolicy { ignore_globs, include_globs, follow_symlinks: false }
    }
}

/// Whether the content of a file is in memory.
#[derive(Debug, Clone, PartialEq, Eq)]
pub enum FileContent {
    /// Only what is known without reading the file.
    Stub,
    /// The parsed file.
    Loaded(Box<OrgFile>),
}

/// A file in a folder.
#[derive(Debug, Clone, PartialEq, Eq)]
pub struct OrgFileEntry {
    pub file_id: OrgFileId,
    pub rel_path: RelPath,
    /// The last segment of the path.
    pub file_name: String,
    pub stats: FileStats,
    pub title_hint: Option<String>,
    pub file_tags: TagSet,
    pub content: FileContent,
}

impl OrgFileEntry {
    /// Whether the content of the file is in memory.
    pub fn is_loaded(&self) -> (b: bool)
        ensures
            b == (self.content is Loaded),
    {
        match &self.content {
            FileContent::Loaded(_) => true,
            FileContent::Stub => false,
        }
    }

    /// The parsed file, if it is in memory.
    pub fn loaded(&self) -> (r: Option<&OrgFile>)
        ensures
            match r {
                Some(file) => self.content == FileContent::Loaded(Box::new(*file)),
                None => self.content is Stub,
            },
    {
        match &self.content {
            FileContent::Loaded(x) => Some(&**x),
            FileContent::Stub => None,
        }
    }

    /// The parsed file, if it is in memory, to be changed in place. What
    /// the caller makes of it is the content of the entry afterwards;
    /// nothing else of the entry changes.
    pub fn loaded_mut(&mut self) -> (r: Option<&mut OrgFile>)
        ensures
            match r {
                Some(file) => old(self).content == FileContent::Loaded(Box::new(*file))
                    && *final(self) == (OrgFileEntry {
                    content: FileContent::Loaded(Box::new(*final(file))),
                    ..*old(self)
                }),
                None => old(self).content is Stub && *final(self) == *old(self),
            },
    {
        match &mut self.content {
            FileContent::Loaded(x) => Some(&mut **x),
            FileContent::Stub => None,
        }
    }
}

/* -------------------------------- Folders -------------------------------- */

/// A folder: files, and folders under it.
#[derive(Debug, PartialEq, Eq)]
pub struct Folder {
    pub id: FolderId,
    /// The last segment of the path; empty for the root.
    pub name: String,
    pub rel_path: RelPath,
    /// The files in this folder itself.
    pub files: Vec<OrgFileEntry>,
    pub subdirs: Vec<Folder>,
    pub meta: IndexMap<String, String>,
}

/// The folder and every folder under it, each folder before those under
/// it, in the order in which they stand.
pub open spec fn folders_in(f: Folder) -> Seq<Folder>
    decreases f,
{
    seq![f] + folders_in_all(f.subdirs@)
}

/// The folders of `v` with every folder under them, in order.
pub open spec fn folders_in_all(v: Seq<Folder>) -> Seq<Folder>
    decreases v,
{
    if v.len() == 0 {
        Seq::empty()
    } else {
        folders_in_all(v.drop_last()) + folders_in(v.last())
    }
}

/// The files of the folder and of every folder under it: a folder's own
/// files before those of the folders under it.
pub open spec fn files_in(f: Folder) -> Seq<OrgFileEntry>
    decreases f,
{
    f.files@ + files_in_all(f.subdirs@)
}

/// The files of the folders of `v` and of every folder under them.
pub open spec fn files_in_all(v: Seq<Folder>) -> Seq<OrgFileEntry>
    decreases v,
{
    if v.len() == 0 {
        Seq::empty()
    } else {
        files_in_all(v.drop_last()) + files_in(v.last())
    }
}

/// What the references of a sequence point at.
pub open spec fn pointed_at<T>(refs: Seq<&T>) -> Seq<T> {
    Seq::new(refs.len(), |i: int| *refs[i])
}

/// The first folder of `v` with the given path.
pub open spec fn first_with_path(v: Seq<Folder>, path: Seq<char>) -> Option<Folder>
    decreases v.len(),
{
    if v.len() == 0 {
        None
    } else if v[0].rel_path@ == path {
        Some(v[0])
    } else {
        first_with_path(v.drop_first(), path)
    }
}

proof fn lemma_first_with_path_concat(a: Seq<Folder>, b: Seq<Folder>, path: Seq<char>)
    ensures
        first_with_path(a + b, path) == match first_with_path(a, path) {
            Some(f) => Some(f),
            None => first_with_path(b, path),
        },
    decreases a.len(),
{
    if a.len() == 0 {
        assert(a + b =~= b);
    } else {
        assert((a + b)[0] == a[0]);
        assert((a + b).drop_first() =~= a.drop_first() + b);
        lemma_first_with_path_concat(a.drop_first(), b, path);
    }
}

impl Clone for Folder {
    fn clone(&self) -> (r: Folder)
        ensures
            r.id == self.id,
            r.rel_path@ == self.rel_path@,
            r.name@ == self.name@,
    {
        clone_folder(self)
    }
}

/// A copy of a folder and of everything under it.
pub fn clone_folder(f: &Folder) -> (r: Folder)
    ensures
        r.id == f.id,
        r.rel_path@ == f.rel_path@,
        r.name@ == f.name@,
    decreases f,
{
    let mut subdirs: Vec<Folder> = Vec::new();
    let mut i: usize = 0;
    while i < f.subdirs.len()
        invariant
            i <= f.subdirs@.len(),
        decreases f.subdirs@.len() - i,
    {
        subdirs.push(clone_folder(&f.subdirs[i]));
        i = i + 1;
    }
    Folder {
        id: f.id,
        name: f.name.clone(),
        rel_path: f.rel_path.clone(),
        files: f.files.clone(),
        subdirs,
        meta: entries_clone(&f.meta),
    }
}

impl Folder {
    /// The root folder of a workspace, with a fresh identity and nothing
    /// in it.
    pub fn new_root() -> (r: Folder)
        ensures
            r.name@ == Seq::<char>::empty(),
            r.rel_path@ == Seq::<char>::empty(),
            r.files@.len() == 0,
            r.subdirs@.len() == 0,
            map_entries(r.meta) == Seq::<(Seq<char>, Seq<char>)>::empty(),
    {
        Folder {
            id: FolderId::new(),
            name: String::new(),
            rel_path: RelPath::root(),
            files: Vec::new(),
            subdirs: Vec::new(),
            meta: entries_new(),
        }
    }

    /// A folder of the given name under `parent`, with a fresh identity and
    /// nothing in it.
    pub fn new_child(parent: &RelPath, name: String) -> (r: Folder)
        ensures
            r.name@ == name@,
            r.rel_path@ == joined(parent@, name@),
            r.files@.len() == 0,
            r.subdirs@.len() == 0,
            map_entries(r.meta) == Seq::<(Seq<char>, Seq<char>)>::empty(),
    {
        let rel_path = parent.join(name.as_str());
        Folder {
            id: FolderId::new(),
            name,
            rel_path,
            files: Vec::new(),
            subdirs: Vec::new(),
            meta: entries_new(),
        }
    }

    /// Adds this folder and every folder under it to `out`, each folder
    /// before those under it.
    pub fn walk<'a>(&'a self, out: &mut Vec<&'a Folder>)
        ensures
            pointed_at(final(out)@) == pointed_at(old(out)@) + folders_in(*self),
        decreases self,
    {
        let ghost before = pointed_at(out@);
        out.push(self);
        assert(pointed_at(out@) =~= before + seq![*self]);
        let mut i: usize = 0;
        assert(self.subdirs@.subrange(0, 0) =~= Seq::<Folder>::empty());
        assert(pointed_at(out@) =~= before + (seq![*self] + folders_in_all(
            self.subdirs@.subrange(0, 0),
        )));
        while i < self.subdirs.len()
            invariant
                i <= self.subdirs@.len(),
                pointed_at(out@) == before + (seq![*self] + folders_in_all(
                    self.subdirs@.subrange(0, i as int),
                )),
            decreases self.subdirs@.len() - i,
        {
            proof {
                let upto = self.subdirs@.subrange(0, i + 1);
                assert(upto.drop_last() =~= self.subdirs@.subrange(0, i as int));
                assert(upto.last() == self.subdirs@[i as int]);
            }
            let ghost mid = pointed_at(out@);
            self.subdirs[i].walk(out);
            assert(pointed_at(out@) =~= before + (seq![*self] + folders_in_all(
                self.subdirs@.subrange(0, i + 1),
            )));
            i = i + 1;
        }
        assert(self.subdirs@.subrange(0, self.subdirs@.len() as int) =~= self.subdirs@);
    }

    /// The first folder with the given path among this folder and those
    /// under it, each folder coming before those under it.
    #[verifier::loop_isolation(false)]
    pub fn find_dir<'a>(&'a self, rel: &RelPath) -> (r: Option<&'a Folder>)
        ensures
            match r {
                Some(f) => first_with_path(folders_in(*self), rel@) == Some(*f),
                None => first_with_path(folders_in(*self), rel@) is None,
            },
        decreases self,
    {
        proof {
            lemma_first_with_path_concat(seq![*self], folders_in_all(self.subdirs@), rel@);
            assert(seq![*self].drop_first() =~= Seq::<Folder>::empty());
            assert(first_with_path(Seq::<Folder>::empty(), rel@) is None);
        }
        if self.rel_path.0 == rel.0 {
            return Some(self);
        }
        let mut i: usize = 0;
        assert(self.subdirs@.subrange(0, 0) =~= Seq::<Folder>::empty());
        while i < self.subdirs.len()
            invariant
                i <= self.subdirs@.len(),
                first_with_path(folders_in_all(self.subdirs@.subrange(0, i as int)), rel@) is None,
            decreases self.subdirs@.len() - i,
        {
            proof {
                let upto = self.subdirs@.subrange(0, i + 1);
                assert(upto.drop_last() =~= self.subdirs@.subrange(0, i as int));
                assert(upto.last() == self.subdirs@[i as int]);
                lemma_first_with_path_concat(
                    folders_in_all(upto.drop_last()),
                    folders_in(upto.last()),
                    rel@,
                );
            }
            match self.subdirs[i].find_dir(rel) {
                Some(hit) => {
                    proof {
                        let upto = self.subdirs@.subrange(0, i + 1);
                        let rest = self.subdirs@.subrange(i + 1, self.subdirs@.len() as int);
                        assert(self.subdirs@ =~= upto + rest);
                        lemma_folders_in_all_concat(upto, rest);
                        lemma_first_with_path_concat(
                            folders_in_all(upto),
                            folders_in_all(rest),
                            rel@,
                        );
                    }
                    return Some(hit);
                },
                None => {},
            }
            i = i + 1;
        }
        assert(self.subdirs@.subrange(0, self.subdirs@.len() as int) =~= self.subdirs@);
        None
    }

    /// Adds the files of this folder and of every folder under it to
    /// `out`: a folder's own files before those of the folders under it.
    pub fn collect_files<'a>(&'a self, out: &mut Vec<&'a OrgFileEntry>)
        ensures
            pointed_at(final(out)@) == pointed_at(old(out)@) + files_in(*self),
        decreases self,
    {
        let ghost before = pointed_at(out@);
        let mut k: usize = 0;
        assert(pointed_at(out@) =~= before + self.files@.subrange(0, 0));
        while k < self.files.len()
            invariant
                k <= self.files@.len(),
                pointed_at(out@) == before + self.files@.subrange(0, k as int),
            decreases self.files@.len() - k,
        {
            let ghost had = out@;
            out.push(&self.files[k]);
            proof {
                lemma_pointed_at_push(had, &self.files[k as int]);
                assert(self.files@.subrange(0, k + 1) =~= self.files@.subrange(0, k as int).push(
                    self.files@[k as int],
                ));
                assert(pointed_at(out@) =~= before + self.files@.subrange(0, k + 1));
            }
            k = k + 1;
        }
        assert(self.files@.subrange(0, self.files@.len() as int) =~= self.files@);
        let mut i: usize = 0;
        assert(self.subdirs@.subrange(0, 0) =~= Seq::<Folder>::empty());
        assert(pointed_at(out@) =~= before + (self.files@ + files_in_all(
            self.subdirs@.subrange(0, 0),
        )));
        while i < self.subdirs.len()
            invariant
                i <= self.subdirs@.len(),
                pointed_at(out@) == before + (self.files@ + files_in_all(
                    self.subdirs@.subrange(0, i as int),
                )),
            decreases self.subdirs@.len() - i,
        {
            proof {
                let upto = self.subdirs@.subrange(0, i + 1);
                assert(upto.drop_last() =~= self.subdirs@.subrange(0, i as int));
                assert(upto.last() == self.subdirs@[i as int]);
            }
            self.subdirs[i].collect_files(out);
            assert(pointed_at(out@) =~= before + (self.files@ + files_in_all(
                self.subdirs@.subrange(0, i + 1),
            )));
            i = i + 1;
        }
        assert(self.subdirs@.subrange(0, self.subdirs@.len() as int) =~= self.subdirs@);
    }
}

proof fn lemma_pointed_at_push<T>(refs: Seq<&T>, x: &T)
    ensures
        pointed_at(refs.push(x)) == pointed_at(refs).push(*x),
{
    assert(pointed_at(refs.push(x)) =~= pointed_at(refs).push(*x));
}

proof fn lemma_folders_in_all_concat(a: Seq<Folder>, b: Seq<Folder>)
    ensures
        folders_in_all(a + b) == folders_in_all(a) + folders_in_all(b),
    decreases b.len(),
{
    if b.len() == 0 {
        assert(a + b =~= a);
        assert(folders_in_all(a) + folders_in_all(b) =~= folders_in_all(a));
    } else {
        lemma_folders_in_all_concat(a, b.drop_last());
        assert((a + b).drop_last() =~= a + b.drop_last());
        assert((a + b).last() == b.last());
        assert(folders_in_all(a + b) =~= folders_in_all(a) + folders_in_all(b));
    }
}

/* ------------------------------- Workspaces ------------------------------- */

/// Calls `Path::join`, which makes the path of `segment` under `base`.
/// Paths are not looked into here, so nothing is said of the result.
#[verifier::external_body]
fn path_join(base: &PathBuf, segment: &str) -> PathBuf {
    base.join(segment)
}

/// Look-up tables over a workspace.
#[derive(Debug, PartialEq, Eq)]
pub struct WorkspaceIndexes {
    /// From the path of a file to its identity, as a number.
    pub files_by_relpath: IndexMap<String, u128>,
    /// From the id that a heading gives itself to where the heading is.
    pub id_index: BTreeMap<String, (OrgFileId, HeadingId)>,
    /// From a tag to the headings that carry it.
    pub tag_index: BTreeMap<Tag, Vec<(OrgFileId, HeadingId)>>,
}

impl Default for WorkspaceIndexes {
    fn default() -> (r: WorkspaceIndexes)
        ensures
            path_entries(r.files_by_relpath) == Seq::<(Seq<char>, u128)>::empty(),
    {
        WorkspaceIndexes {
            files_by_relpath: paths_new(),
            id_index: BTreeMap::new(),
            tag_index: BTreeMap::new(),
        }
    }
}

impl Clone for WorkspaceIndexes {
    fn clone(&self) -> (r: WorkspaceIndexes)
        ensures
            path_entries(r.files_by_relpath) == path_entries(self.files_by_relpath),
    {
        WorkspaceIndexes {
            files_by_relpath: paths_clone(&self.files_by_relpath),
            id_index: self.id_index.clone(),
            tag_index: self.tag_index.clone(),
        }
    }
}

/// A workspace: a directory on disk, as a tree of folders.
#[derive(Debug, Clone, PartialEq, Eq)]
pub struct OrgWorkspace {
    pub id: WorkspaceId,
    /// The directory on disk.
    pub root_abs: PathBuf,
    /// The root folder; its path is empty.
    pub root: Folder,
    pub scan_policy: ScanPolicy,
    pub indexes: WorkspaceIndexes,
}

/// The first file of `v` with the given identity.
pub open spec fn first_with_id(v: Seq<OrgFileEntry>, id: OrgFileId) -> Option<OrgFileEntry>
    decreases v.len(),
{
    if v.len() == 0 {
        None
    } else if v[0].file_id == id {
        Some(v[0])
    } else {
        first_with_id(v.drop_first(), id)
    }
}

/// The index after each file of `v` was put in, first to last.
pub open spec fn paths_put_all(acc: Seq<(Seq<char>, u128)>, v: Seq<OrgFileEntry>) -> Seq<
    (Seq<char>, u128),
>
    decreases v.len(),
{
    if v.len() == 0 {
        acc
    } else {
        paths_put(paths_put_all(acc, v.drop_last()), v.last().rel_path@, v.last().file_id.0)
    }
}

impl OrgWorkspace {
    /// A workspace at the given directory, with a fresh identity, an empty
    /// root folder and the usual rules for scanning.
    pub fn new(root_abs: PathBuf) -> (r: OrgWorkspace)
        ensures
            r.root_abs == root_abs,
            files_in(r.root) == Seq::<OrgFileEntry>::empty(),
            path_entries(r.indexes.files_by_relpath) == Seq::<(Seq<char>, u128)>::empty(),
    {
        let r = OrgWorkspace {
            id: WorkspaceId::new(),
            root_abs,
            root: Folder::new_root(),
            scan_policy: ScanPolicy::default(),
            indexes: WorkspaceIndexes::default(),
        };
        assert(r.root.subdirs@ =~= Seq::<Folder>::empty());
        assert(files_in(r.root) =~= Seq::<OrgFileEntry>::empty());
        r
    }

    /// The place on disk of a path of the workspace. The root is the
    /// workspace's directory itself.
    pub fn abs_path(&self, rel: &RelPath) -> (r: PathBuf)
        ensures
            rel@.len() == 0 ==> r == self.root_abs,
    {
        if rel.0.as_str().is_empty() {
            self.root_abs.clone()
        } else {
            path_join(&self.root_abs, rel.0.as_str())
        }
    }

    /// Every file of the workspace: a folder's own files before those of
    /// the folders under it.
    pub fn all_files(&self) -> (r: Vec<&OrgFileEntry>)
        ensures
            pointed_at(r@) == files_in(self.root),
    {
        let mut v: Vec<&OrgFileEntry> = Vec::new();
        assert(pointed_at(v@) =~= Seq::<OrgFileEntry>::empty());
        self.root.collect_files(&mut v);
        assert(pointed_at(v@) =~= files_in(self.root));
        v
    }

    /// The first file of the workspace with the given identity.
    #[verifier::loop_isolation(false)]
    pub fn find_file_by_id(&self, id: OrgFileId) -> (r: Option<&OrgFileEntry>)
        ensures
            match r {
                Some(entry) => first_with_id(files_in(self.root), id) == Some(*entry),
                None => first_with_id(files_in(self.root), id) is None,
            },
    {
        let files = self.all_files();
        let ghost all = files_in(self.root);
        let mut i: usize = 0;
        assert(all.subrange(0, all.len() as int) =~= all);
        while i < files.len()
            invariant
                i <= files@.len(),
                all == pointed_at(files@),
                first_with_id(all, id) == first_with_id(
                    all.subrange(i as int, all.len() as int),
                    id,
                ),
            decreases files@.len() - i,
        {
            proof {
                let rest = all.subrange(i as int, all.len() as int);
                assert(rest[0] == *files@[i as int]);
                assert(rest.drop_first() =~= all.subrange(i + 1, all.len() as int));
            }
            if files[i].file_id == id {
                return Some(files[i]);
            }
            i = i + 1;
        }
        None
    }

    /// Builds the index from paths to files anew: every file of the
    /// workspace is put into an empty index, in the order of `all_files`.
    pub fn rebuild_path_index(&mut self)
        ensures
            final(self).root == old(self).root,
            final(self).id == old(self).id,
            path_entries(final(self).indexes.files_by_relpath) == paths_put_all(
                Seq::empty(),
                files_in(old(self).root),
            ),
    {
        let ghost all = files_in(self.root);
        let mut index = paths_new();
        let files = self.all_files();
        let mut i: usize = 0;
        assert(all.subrange(0, 0) =~= Seq::<OrgFileEntry>::empty());
        while i < files.len()
            invariant
                i <= files@.len(),
                all == pointed_at(files@),
                path_entries(index) == paths_put_all(Seq::empty(), all.subrange(0, i as int)),
            decreases files@.len() - i,
        {
            proof {
                let upto = all.subrange(0, i + 1);
                assert(upto.drop_last() =~= all.subrange(0, i as int));
                assert(upto.last() == *files@[i as int]);
            }
            paths_insert(&mut index, files[i].rel_path.0.clone(), files[i].file_id.0);
            i = i + 1;
        }
        assert(all.subrange(0, all.len() as int) =~= all);
        core::mem::swap(&mut self.indexes.files_by_relpath, &mut index);
    }
}

/// Makes the entry of a file. With its content the entry takes the
/// identity of that content; without, a fresh one.
pub fn make_file_entry(
    root: &OrgWorkspace,
    rel: RelPath,
    stats: FileStats,
    title_hint: Option<String>,
    file_tags: TagSet,
    content: Option<OrgFile>,
) -> (r: OrgFileEntry)
    ensures
        r.rel_path == rel,
        r.file_name@ == match file_name_of(rel@) {
            Some(name) => name,
            None => Seq::empty(),
        },
        r.stats == stats,
        r.title_hint == title_hint,
        r.file_tags == file_tags,
        match content {
            Some(file) => r.file_id == file.id && r.content == FileContent::Loaded(Box::new(file)),
            None => r.content is Stub,
        },
{
    let (file_id, content_state) = match content {
        Some(org) => (org.id, FileContent::Loaded(Box::new(org))),
        None => (OrgFileId::new(), FileContent::Stub),
    };
    let file_name = match rel.file_name() {
        Some(name) => name.to_owned(),
        None => String::new(),
    };
    OrgFileEntry {
        file_id,
        rel_path: rel,
        file_name,
        stats,
        title_hint,
        file_tags,
        content: content_state,
    }
}

/* ------------------------------ Common folders ------------------------------ */

/// Whether the segments of `prefix` are the first segments of `path`.
pub open spec fn leads_to(prefix: Seq<Seq<char>>, path: Seq<Seq<char>>) -> bool {
    prefix.len() <= path.len() && path.subrange(0, prefix.len() as int) == prefix
}

/// Whether a path has a folder above it. The empty path and the root `/`
/// have none.
pub open spec fn has_parent(path: Seq<Seq<char>>) -> bool {
    !(path.len() == 0 || (path.len() == 1 && path[0] == "/"@))
}

/// The longest start of `prefix` that leads to `path`, found by going up
/// from `prefix` folder by folder. Nothing where going up ends at a folder
/// that has none above it.
pub open spec fn narrowed(prefix: Seq<Seq<char>>, path: Seq<Seq<char>>) -> Option<Seq<Seq<char>>>
    decreases prefix.len(),
{
    if leads_to(prefix, path) {
        Some(prefix)
    } else if has_parent(prefix) {
        narrowed(prefix.drop_last(), path)
    } else {
        None
    }
}

/// The folder that holds all of the first `n` paths, found by narrowing
/// the first path by each of the others in turn.
pub open spec fn common_directory(paths: Seq<Seq<Seq<char>>>, n: int) -> Option<Seq<Seq<char>>>
    decreases n,
{
    if n <= 0 || paths.len() == 0 {
        None
    } else if n == 1 {
        Some(paths[0])
    } else {
        match common_directory(paths, n - 1) {
            Some(prefix) => narrowed(prefix, paths[n - 1]),
            None => None,
        }
    }
}

/// A start of a start of a path is a start of that path.
proof fn lemma_leads_on(a: Seq<Seq<char>>, b: Seq<Seq<char>>, c: Seq<Seq<char>>)
    requires
        leads_to(a, b),
        leads_to(b, c),
    ensures
        leads_to(a, c),
{
    assert forall|k: int| 0 <= k < a.len() implies c[k] == a[k] by {
        assert(b.subrange(0, a.len() as int)[k] == a[k]);
        assert(c.subrange(0, b.len() as int)[k] == b[k]);
    }
    assert(c.subrange(0, a.len() as int) =~= a);
}

/// Of two starts of one path the shorter is a start of the longer.
proof fn lemma_starts_of_one_path(a: Seq<Seq<char>>, b: Seq<Seq<char>>, path: Seq<Seq<char>>)
    requires
        leads_to(a, path),
        leads_to(b, path),
        a.len() <= b.len(),
    ensures
        leads_to(a, b),
{
    assert forall|k: int| 0 <= k < a.len() implies b[k] == a[k] by {
        assert(path.subrange(0, a.len() as int)[k] == a[k]);
        assert(path.subrange(0, b.len() as int)[k] == b[k]);
    }
    assert(b.subrange(0, a.len() as int) =~= a);
}

/// What narrowing gives is a start of `prefix` that leads to `path`, and
/// no start of `prefix` that leads to `path` is longer.
proof fn lemma_narrowed(prefix: Seq<Seq<char>>, path: Seq<Seq<char>>, q: Seq<Seq<char>>)
    requires
        narrowed(prefix, path) is Some,
    ensures
        leads_to(narrowed(prefix, path)->0, prefix),
        leads_to(narrowed(prefix, path)->0, path),
        leads_to(q, prefix) && leads_to(q, path) ==> q.len() <= narrowed(prefix, path)->0.len(),
    decreases prefix.len(),
{
    if leads_to(prefix, path) {
        assert(prefix.subrange(0, prefix.len() as int) =~= prefix);
    } else {
        let up = prefix.drop_last();
        lemma_narrowed(up, path, q);
        assert(prefix.subrange(0, up.len() as int) =~= up);
        assert(leads_to(up, prefix));
        lemma_leads_on(narrowed(up, path)->0, up, prefix);
        if leads_to(q, prefix) && leads_to(q, path) {
            if q.len() == prefix.len() {
                assert(prefix.subrange(0, prefix.len() as int) =~= prefix);
                assert(q == prefix);
            }
            assert forall|k: int| 0 <= k < q.len() implies up[k] == q[k] by {
                assert(prefix.subrange(0, q.len() as int)[k] == q[k]);
            }
            assert(up.subrange(0, q.len() as int) =~= q);
        }
    }
}

/// The common folder of paths leads to every one of them, and it is the
/// longest start of the first path that does: no path `q` that leads to
/// every one of them is longer.
pub proof fn lemma_common_directory(paths: Seq<Seq<Seq<char>>>, n: int, q: Seq<Seq<char>>)
    requires
        1 <= n <= paths.len(),
        common_directory(paths, n) is Some,
    ensures
        forall|i: int| 0 <= i < n ==> leads_to(common_directory(paths, n)->0, #[trigger] paths[i]),
        (forall|i: int| 0 <= i < n ==> leads_to(q, #[trigger] paths[i])) ==> q.len()
            <= common_directory(paths, n)->0.len(),
    decreases n,
{
    let d = common_directory(paths, n)->0;
    if n == 1 {
        assert(paths[0].subrange(0, paths[0].len() as int) =~= paths[0]);
        assert forall|i: int| 0 <= i < n implies leads_to(d, #[trigger] paths[i]) by {
            assert(i == 0);
        }
        if forall|i: int| 0 <= i < n ==> leads_to(q, #[trigger] paths[i]) {
            assert(leads_to(q, paths[0]));
        }
    } else {
        let c = common_directory(paths, n - 1)->0;
        let last = paths[n - 1];
        lemma_common_directory(paths, n - 1, q);
        lemma_narrowed(c, last, q);
        assert forall|i: int| 0 <= i < n implies leads_to(d, #[trigger] paths[i]) by {
            if i < n - 1 {
                assert(leads_to(c, paths[i]));
                lemma_leads_on(d, c, paths[i]);
            }
        }
        if forall|i: int| 0 <= i < n ==> leads_to(q, #[trigger] paths[i]) {
            assert(leads_to(q, paths[0]));
            assert(leads_to(q, last));
            assert(leads_to(c, paths[0]));
            assert forall|i: int| 0 <= i < n - 1 implies leads_to(q, #[trigger] paths[i]) by {}
            lemma_starts_of_one_path(q, c, paths[0]);
        }
    }
}

/// The segments of each path.
pub open spec fn paths_view(paths: Seq<Vec<String>>) -> Seq<Seq<Seq<char>>> {
    Seq::new(paths.len(), |i: int| crate::model::strings_view(paths[i]@))
}

/// Whether the segments of `prefix` are the first segments of `path`.
fn is_lead(prefix: &Vec<String>, path: &Vec<String>) -> (b: bool)
    ensures
        b == leads_to(crate::model::strings_view(prefix@), crate::model::strings_view(path@)),
{
    let ghost p = crate::model::strings_view(prefix@);
    let ghost q = crate::model::strings_view(path@);
    if prefix.len() > path.len() {
        return false;
    }
    let mut i: usize = 0;
    while i < prefix.len()
        invariant
            i <= prefix@.len() <= path@.len(),
            p == crate::model::strings_view(prefix@),
            q == crate::model::strings_view(path@),
            forall|k: int| 0 <= k < i ==> p[k] == q[k],
        decreases prefix@.len() - i,
    {
        if prefix[i] != path[i] {
            assert(q.subrange(0, p.len() as int)[i as int] != p[i as int]);
            return false;
        }
        i = i + 1;
    }
    assert(q.subrange(0, p.len() as int) =~= p);
    true
}

/// The lowest folder that holds every one of the paths. Each path is given
/// by its segments, the root `/` counting as a segment of its own. Nothing
/// comes back for no paths, and where the paths have no folder in common.
pub fn lowest_common_directory(paths: &Vec<Vec<String>>) -> (r: Option<Vec<String>>)
    ensures
        match r {
            Some(dir) => common_directory(paths_view(paths@), paths@.len() as int) == Some(
                crate::model::strings_view(dir@),
            ),
            None => common_directory(paths_view(paths@), paths@.len() as int) is None,
        },
{
    let ghost all = paths_view(paths@);
    if paths.len() == 0 {
        return None;
    }
    let mut prefix = crate::model::clone_strings(&paths[0]);
    assert(all[0] == crate::model::strings_view(paths@[0]@));
    let mut n: usize = 1;
    while n < paths.len()
        invariant
            1 <= n <= paths@.len(),
            all == paths_view(paths@),
            common_directory(all, n as int) == Some(crate::model::strings_view(prefix@)),
        decreases paths@.len() - n,
    {
        let path = &paths[n];
        assert(all[n as int] == crate::model::strings_view(path@));
        let ghost start = crate::model::strings_view(prefix@);
        loop
            invariant
                n < paths@.len(),
                all == paths_view(paths@),
                all[n as int] == crate::model::strings_view(path@),
                narrowed(start, all[n as int]) == narrowed(
                    crate::model::strings_view(prefix@),
                    all[n as int],
                ),
                common_directory(all, n as int) == Some(start),
            ensures
                narrowed(start, all[n as int]) == Some(crate::model::strings_view(prefix@)),
            decreases prefix@.len(),
        {
            if is_lead(&prefix, path) {
                break ;
            }
            let ghost cur = crate::model::strings_view(prefix@);
            if prefix.len() == 0 || (prefix.len() == 1 && crate::text::chars_are(
                &crate::text::chars_of(prefix[0].as_str()),
                "/",
            )) {
                proof {
                    lemma_common_fails_on(all, n + 1);
                }
                return None;
            }
            prefix.pop();
            assert(crate::model::strings_view(prefix@) =~= cur.drop_last());
        }
        n = n + 1;
    }
    Some(prefix)
}

/// Where the first `n` paths have no folder in common, all of them have
/// none.
proof fn lemma_common_fails_on(paths: Seq<Seq<Seq<char>>>, n: int)
    requires
        1 <= n <= paths.len(),
        common_directory(paths, n) is None,
    ensures
        common_directory(paths, paths.len() as int) is None,
    decreases paths.len() - n,
{
    if n < paths.len() {
        lemma_common_fails_on(paths, n + 1);
    }
}

} // verus!
