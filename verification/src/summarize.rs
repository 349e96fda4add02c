//! Gathering files for a summary, and what the model is asked of them.

use crate::json::{members, Member, Tree};
use crate::paths::{extension, extension_of, relative, relative_to};
use crate::text::{
    begins, cat, cat3, cat5, chars_of, decimal, decimal_of, has_text, is_order, join, joined,
    lemma_has_text, lemma_in_longer, lemma_within, lines, lines_of, lowercase, sort_order, starts_with, str_eq, string_of, text_opt, texts,
};
use ignore::gitignore::{Gitignore, GitignoreBuilder};
use crate::tools::{bare_tool, plain_tool, tool_models, Tool, ToolModel};
use vstd::prelude::*;
use vstd::string::*;

verus! {

/// The most bytes that a file may have; larger ones are left out.
pub const MAX_FILE_SIZE: u64 = 102400;

/// The most bytes that all files may have together.
pub const MAX_TOTAL_SIZE: u64 = 1048576;

// ---------------------------------------------------------------------------
// Which files
// ---------------------------------------------------------------------------

/// Whether lines in the form of a `.gitignore` file below a root leave a path out.
pub uninterp spec fn lines_ignore(
    root: Seq<char>,
    lines: Seq<Seq<char>>,
    path: Seq<char>,
    is_dir: bool,
) -> bool;

/// `ignore::gitignore::GitignoreBuilder::add_line`, `GitignoreBuilder::build` and
/// `Gitignore::matched`: whether the lines leave the path out depends on the root, the lines, the
/// path and whether it is a directory alone, on a system that separates the parts of a path by
/// `/`. A line that is no pattern is passed over.
#[verifier::external_body]
fn lines_match(root: &str, lines: &Vec<String>, path: &str, is_dir: bool) -> (r: bool)
    ensures
        r == lines_ignore(root@, texts(lines@), path@, is_dir),
{
    let mut builder = GitignoreBuilder::new(root);
    for line in lines {
        let _ = builder.add_line(None, line);
    }
    let set = builder.build().unwrap_or_else(|_| Gitignore::empty());
    set.matched(path, is_dir).is_ignore()
}

/// A text without byte order marks at its beginning.
pub open spec fn without_marks(s: Seq<char>) -> Seq<char>
    decreases s.len(),
{
    if s.len() > 0 && s[0] == '\u{feff}' {
        without_marks(s.skip(1))
    } else {
        s
    }
}

/// The lines of a `.gitignore` file, where there is one, and a last one for the directory of git
/// itself.
pub open spec fn ignore_lines(file: Option<Seq<char>>) -> Seq<Seq<char>> {
    (match file {
        Some(s) => {
            let all = lines_of(s);
            if all.len() > 0 {
                all.update(0, without_marks(all[0]))
            } else {
                all
            }
        },
        None => Seq::empty(),
    }).push(".git/"@)
}

fn strip_marks(s: &str) -> (r: String)
    ensures
        r@ == without_marks(s@),
{
    let v = chars_of(s);
    let n: usize = v.len();
    let mut i: usize = 0;
    assert(v@.skip(0) =~= v@);
    while i < n && v[i] == '\u{feff}'
        invariant
            n == v@.len(),
            v@ == s@,
            i <= n,
            without_marks(s@) == without_marks(s@.skip(i as int)),
        decreases n - i,
    {
        assert(s@.skip(i as int)[0] == v@[i as int]);
        assert(s@.skip(i as int).skip(1) =~= s@.skip(i + 1));
        i = i + 1;
    }
    if i < n {
        assert(s@.skip(i as int)[0] == v@[i as int]);
    }
    let r = string_of(&v, i, n);
    assert(r@ =~= s@.skip(i as int));
    r
}

/// The lines by which files are left out: those of a `.gitignore` file, where there is one, and
/// one for the directory of git itself.
pub fn build_gitignore(file: &Option<String>) -> (r: Vec<String>)
    ensures
        texts(r@) == ignore_lines(text_opt(*file)),
{
    let mut out: Vec<String> = Vec::new();
    assert(texts(out@) =~= Seq::empty());
    if let Some(s) = file {
        out = lines(s.as_str());
        let ghost all = texts(out@);
        if out.len() > 0 {
            let first = strip_marks(out[0].as_str());
            out.set(0, first);
            assert(texts(out@) =~= all.update(0, without_marks(all[0])));
        }
    }
    let ghost head = texts(out@);
    out.push(".git/".to_owned());
    assert(texts(out@) =~= head.push(".git/"@));
    out
}

/// Whether a file has one of the wanted extensions, whatever their case; each has, where none is
/// named.
pub open spec fn wanted_extension(path: Seq<char>, wanted: Option<Seq<Seq<char>>>) -> bool {
    match wanted {
        None => true,
        Some(w) => match extension_of(path) {
            None => false,
            Some(e) => names_lowered(w, lowercase(e)),
        },
    }
}

/// Whether one of the texts is the given one in lower case.
pub open spec fn names_lowered(w: Seq<Seq<char>>, low: Seq<char>) -> bool {
    exists|i: int| 0 <= i < w.len() && lowercase(#[trigger] w[i]) == low
}

fn has_lowered(w: &Vec<String>, low: &str) -> (r: bool)
    ensures
        r == names_lowered(texts(w@), low@),
{
    let ghost wm = texts(w@);
    let mut i: usize = 0;
    while i < w.len()
        invariant
            wm == texts(w@),
            i <= w@.len(),
            forall|j: int| 0 <= j < i ==> lowercase(#[trigger] wm[j]) != low@,
        decreases w@.len() - i,
    {
        assert(wm[i as int] == w@[i as int]@);
        let other = w[i].as_str().to_lowercase();
        if str_eq(other.as_str(), low) {
            return true;
        }
        i = i + 1;
    }
    assert(wm.len() == w@.len());
    false
}

pub open spec fn wanted_models(w: Option<Vec<String>>) -> Option<Seq<Seq<char>>> {
    match w {
        Some(v) => Some(texts(v@)),
        None => None,
    }
}

/// Whether a file has one of the wanted extensions.
pub fn should_include_file(path: &str, extensions: &Option<Vec<String>>) -> (r: bool)
    ensures
        r == wanted_extension(path@, wanted_models(*extensions)),
{
    match extensions {
        None => true,
        Some(w) => match extension(path) {
            None => false,
            Some(e) => {
                let low = e.as_str().to_lowercase();
                has_lowered(w, low.as_str())
            },
        },
    }
}

// ---------------------------------------------------------------------------
// Collecting
// ---------------------------------------------------------------------------

/// What a path leads to.
#[derive(Clone, Copy, PartialEq, Eq, Structural, Debug)]
pub enum EntryKind {
    File,
    Directory,
    Link,
    Other,
}

/// An entry of a directory. Where nothing can be found out about it, its kind is missing.
#[derive(Debug, PartialEq, Eq)]
pub struct DirEntry {
    pub name: String,
    pub path: String,
    pub kind: Option<EntryKind>,
}

/// A file with what it holds.
#[derive(Debug, PartialEq, Eq)]
pub struct FileContent {
    pub path: String,
    pub content: String,
}

pub open spec fn file_models(v: Seq<FileContent>) -> Seq<(Seq<char>, Seq<char>)> {
    Seq::new(v.len(), |i: int| (v[i].path@, v[i].content@))
}

/// Something that is still to be looked at.
#[derive(Debug, PartialEq, Eq)]
pub enum Work {
    Directory(String),
    File(String),
}

#[verifier::ext_equal]
pub enum WorkModel {
    Directory(Seq<char>),
    File(Seq<char>),
}

impl Work {
    pub open spec fn view(&self) -> WorkModel {
        match self {
            Work::Directory(p) => WorkModel::Directory(p@),
            Work::File(p) => WorkModel::File(p@),
        }
    }
}

pub open spec fn work_models(v: Seq<Work>) -> Seq<WorkModel> {
    Seq::new(v.len(), |i: int| v[i]@)
}

/// The bytes of a character.
pub open spec fn char_bytes(c: char) -> nat {
    if c <= '\u{7f}' {
        1
    } else if c <= '\u{7ff}' {
        2
    } else if c <= '\u{ffff}' {
        3
    } else {
        4
    }
}

/// The bytes of a text.
pub open spec fn text_bytes(s: Seq<char>) -> nat
    decreases s.len(),
{
    if s.len() == 0 {
        0
    } else {
        text_bytes(s.drop_last()) + char_bytes(s.last())
    }
}

/// The bytes of a text. No text has more bytes than half the addresses there are.
fn count_bytes(s: &str) -> (r: u64)
    requires
        text_bytes(s@) <= isize::MAX,
    ensures
        r == text_bytes(s@),
{
    let v = chars_of(s);
    let mut n: u64 = 0;
    let mut i: usize = 0;
    assert(text_bytes(s@.take(0)) == 0);
    while i < v.len()
        invariant
            v@ == s@,
            text_bytes(s@) <= isize::MAX,
            i <= v@.len(),
            n == text_bytes(s@.take(i as int)),
        decreases v@.len() - i,
    {
        assert(s@.take(i + 1).drop_last() =~= s@.take(i as int));
        proof {
            lemma_bytes_grow(s@, i + 1);
        }
        let c = v[i];
        let width: u64 = if c <= '\u{7f}' {
            1
        } else if c <= '\u{7ff}' {
            2
        } else if c <= '\u{ffff}' {
            3
        } else {
            4
        };
        n = n + width;
        i = i + 1;
    }
    assert(s@.take(i as int) =~= s@);
    n
}

proof fn lemma_bytes_grow(s: Seq<char>, k: int)
    requires
        0 <= k <= s.len(),
    ensures
        text_bytes(s.take(k)) <= text_bytes(s),
    decreases s.len() - k,
{
    if k < s.len() {
        lemma_bytes_grow(s, k + 1);
        assert(s.take(k + 1).drop_last() =~= s.take(k));
    } else {
        assert(s.take(k) =~= s);
    }
}

/// The bytes of some files.
pub open spec fn files_bytes(v: Seq<(Seq<char>, Seq<char>)>) -> nat
    decreases v.len(),
{
    if v.len() == 0 {
        0
    } else {
        files_bytes(v.drop_last()) + text_bytes(v.last().1)
    }
}

/// What is gathered of some paths. The work that comes next stands last.
#[derive(Debug, PartialEq, Eq)]
pub struct Collector {
    pub root: String,
    pub ignore: Vec<String>,
    pub extensions: Option<Vec<String>>,
    pub work: Vec<Work>,
    pub files: Vec<FileContent>,
    pub total_size: u64,
}

#[verifier::ext_equal]
pub struct CollectorModel {
    pub root: Seq<char>,
    pub ignore: Seq<Seq<char>>,
    pub extensions: Option<Seq<Seq<char>>>,
    pub work: Seq<WorkModel>,
    pub files: Seq<(Seq<char>, Seq<char>)>,
    pub total_size: nat,
}

/// What is known of a path that is asked for: the path below the base directory, whether anything
/// is there, its true path or why that cannot be told, whether that lies below the base, and what
/// it leads to.
#[derive(Debug, PartialEq, Eq)]
pub struct ResolvedPath {
    pub joined: String,
    pub exists: bool,
    pub canonical: Result<String, String>,
    pub inside: bool,
    pub kind: EntryKind,
}

/// The error where a path is not to be read.
pub open spec fn path_error(asked: Seq<char>, r: ResolvedPath) -> Option<Seq<char>> {
    if begins(asked, "/"@) {
        Some("Absolute paths are not allowed: "@ + asked)
    } else if !r.exists {
        Some("Path does not exist: "@ + r.joined@)
    } else {
        match r.canonical {
            Err(e) => Some("Failed to canonicalize path "@ + r.joined@ + ": "@ + e@),
            Ok(_) => if !r.inside {
                Some("Path escapes working directory: "@ + r.joined@)
            } else {
                None
            },
        }
    }
}

/// What is gathered after a path that may be read was asked for: a directory becomes work, and so
/// does a file with a wanted extension.
pub open spec fn path_added(
    c: CollectorModel,
    path: Seq<char>,
    kind: EntryKind,
) -> CollectorModel {
    CollectorModel {
        work: if kind == EntryKind::Directory {
            c.work.push(WorkModel::Directory(path))
        } else if kind == EntryKind::File && wanted_extension(path, c.extensions) {
            c.work.push(WorkModel::File(path))
        } else {
            c.work
        },
        ..c
    }
}

/// What is gathered after a file of some size was read, or the error where all are too large
/// together. A file that is too large, or that holds no text, is passed over.
pub open spec fn file_added(
    c: CollectorModel,
    path: Seq<char>,
    size: u64,
    content: Option<Seq<char>>,
) -> Result<CollectorModel, Seq<char>> {
    match content {
        Some(s) => if size > MAX_FILE_SIZE {
            Ok(c)
        } else if c.total_size + text_bytes(s) > MAX_TOTAL_SIZE {
            Err(size_limit_text((c.total_size + text_bytes(s) - MAX_TOTAL_SIZE) as nat))
        } else {
            Ok(
                CollectorModel {
                    files: c.files.push((path, s)),
                    total_size: c.total_size + text_bytes(s),
                    ..c
                },
            )
        },
        None => Ok(c),
    }
}

/// The work for an entry of a directory: none for a link, for what is left out, and for a file
/// without a wanted extension.
pub open spec fn entry_work(
    c: CollectorModel,
    e: DirEntry,
) -> Option<WorkModel> {
    match e.kind {
        Some(EntryKind::Directory) => if lines_ignore(c.root, c.ignore, e.path@, true) {
            None
        } else {
            Some(WorkModel::Directory(e.path@))
        },
        Some(EntryKind::File) => if lines_ignore(c.root, c.ignore, e.path@, false)
            || !wanted_extension(e.path@, c.extensions) {
            None
        } else {
            Some(WorkModel::File(e.path@))
        },
        _ => None,
    }
}

/// The work for the entries of a directory in an order, the last first.
pub open spec fn entries_work(
    c: CollectorModel,
    entries: Seq<DirEntry>,
    order: Seq<usize>,
) -> Seq<WorkModel>
    decreases order.len(),
{
    if order.len() == 0 {
        Seq::empty()
    } else {
        let tail = entries_work(c, entries, order.skip(1));
        match entry_work(c, entries[order[0] as int]) {
            Some(w) => tail.push(w),
            None => tail,
        }
    }
}

pub open spec fn entry_names(v: Seq<DirEntry>) -> Seq<Seq<char>> {
    Seq::new(v.len(), |i: int| v[i].name@)
}

impl Collector {
    pub open spec fn view(&self) -> CollectorModel {
        CollectorModel {
            root: self.root@,
            ignore: texts(self.ignore@),
            extensions: wanted_models(self.extensions),
            work: work_models(self.work@),
            files: file_models(self.files@),
            total_size: self.total_size as nat,
        }
    }

    /// Whether the size is that of the files, and they are not too large together.
    pub open spec fn wf(&self) -> bool {
        &&& self@.total_size == files_bytes(self@.files)
        &&& self@.total_size <= MAX_TOTAL_SIZE
    }

    /// Nothing gathered yet.
    pub fn new(root: String, ignore: Vec<String>, extensions: Option<Vec<String>>) -> (r: Collector)
        ensures
            r.wf(),
            r@ == (CollectorModel {
                root: root@,
                ignore: texts(ignore@),
                extensions: wanted_models(extensions),
                work: Seq::empty(),
                files: Seq::empty(),
                total_size: 0,
            }),
    {
        let r = Collector {
            root,
            ignore,
            extensions,
            work: Vec::new(),
            files: Vec::new(),
            total_size: 0,
        };
        assert(work_models(r.work@) =~= Seq::empty());
        assert(file_models(r.files@) =~= Seq::empty());
        r
    }

    /// The next thing to look at, which is then no longer work.
    pub fn next_work(&mut self) -> (r: Option<Work>)
        requires
            old(self).wf(),
        ensures
            final(self).wf(),
            match r {
                Some(w) => old(self)@.work.len() > 0 && w@ == old(self)@.work.last() && final(self)@
                    == (CollectorModel { work: old(self)@.work.drop_last(), ..old(self)@ }),
                None => old(self)@.work.len() == 0 && final(self)@ == old(self)@,
            },
    {
        let ghost before = work_models(self.work@);
        let r = self.work.pop();
        if r.is_some() {
            assert(work_models(self.work@) =~= before.drop_last());
        }
        r
    }

    /// A path that is asked for becomes work: a directory, or a file with a wanted extension.
    pub fn add_path(&mut self, asked: &str, path: ResolvedPath) -> (r: Result<(), String>)
        requires
            old(self).wf(),
        ensures
            final(self).wf(),
            match path_error(asked@, path) {
                Some(m) => r matches Err(e) && e@ == m && final(self)@ == old(self)@,
                None => r is Ok && final(self)@ == path_added(
                    old(self)@,
                    path.canonical->Ok_0@,
                    path.kind,
                ),
            },
    {
        if starts_with(asked, "/") {
            return Err(cat("Absolute paths are not allowed: ", asked));
        }
        if !path.exists {
            return Err(cat("Path does not exist: ", path.joined.as_str()));
        }
        let canonical = match path.canonical {
            Ok(p) => p,
            Err(e) => {
                let mut text = cat3("Failed to canonicalize path ", path.joined.as_str(), ": ");
                text.append(e.as_str());
                return Err(text);
            },
        };
        if !path.inside {
            return Err(cat("Path escapes working directory: ", path.joined.as_str()));
        }
        let ghost before = work_models(self.work@);
        let ghost cm = canonical@;
        if path.kind == EntryKind::Directory {
            self.work.push(Work::Directory(canonical));
            assert(work_models(self.work@) =~= before.push(WorkModel::Directory(cm)));
        } else if path.kind == EntryKind::File && should_include_file(
            canonical.as_str(),
            &self.extensions,
        ) {
            self.work.push(Work::File(canonical));
            assert(work_models(self.work@) =~= before.push(WorkModel::File(cm)));
        }
        Ok(())
    }

    fn work_for(&self, e: &DirEntry) -> (r: Option<Work>)
        ensures
            match r {
                Some(w) => entry_work(self@, *e) == Some(w@),
                None => entry_work(self@, *e) is None,
            },
    {
        match e.kind {
            Some(EntryKind::Directory) => if lines_match(
                self.root.as_str(),
                &self.ignore,
                e.path.as_str(),
                true,
            ) {
                None
            } else {
                Some(Work::Directory(e.path.clone()))
            },
            Some(EntryKind::File) => if lines_match(
                self.root.as_str(),
                &self.ignore,
                e.path.as_str(),
                false,
            ) || !should_include_file(e.path.as_str(), &self.extensions) {
                None
            } else {
                Some(Work::File(e.path.clone()))
            },
            _ => None,
        }
    }

    /// The entries of a directory become work, in the order of their names.
    pub fn add_entries(&mut self, entries: Result<Vec<DirEntry>, String>) -> (r: Result<(), String>)
        requires
            old(self).wf(),
        ensures
            final(self).wf(),
            match entries {
                Err(e) => r matches Err(m) && m@ == "Failed to read directory: "@ + e@
                    && final(self)@ == old(self)@,
                Ok(v) => r is Ok && exists|order: Seq<usize>|
                    #[trigger] is_order(entry_names(v@), order) && final(self)@
                        == (CollectorModel {
                        work: old(self)@.work + entries_work(old(self)@, v@, order),
                        ..old(self)@
                    }),
            },
    {
        let v = match entries {
            Ok(v) => v,
            Err(e) => {
                return Err(cat("Failed to read directory: ", e.as_str()));
            },
        };
        let mut names: Vec<String> = Vec::new();
        let mut i: usize = 0;
        while i < v.len()
            invariant
                i <= v@.len(),
                names@.len() == i,
                forall|j: int| 0 <= j < i ==> (#[trigger] names@[j])@ == v@[j].name@,
            decreases v@.len() - i,
        {
            names.push(v[i].name.clone());
            i = i + 1;
        }
        assert(texts(names@) =~= entry_names(v@));
        let order = sort_order(&names);
        let ghost start = self@;
        let n: usize = order.len();
        let mut k: usize = n;
        assert(order@.skip(n as int) =~= Seq::empty());
        assert(start.work + entries_work(start, v@, order@.skip(n as int)) =~= start.work);
        while k > 0
            invariant
                self.wf(),
                is_order(entry_names(v@), order@),
                n == order@.len(),
                k <= n,
                self@ == (CollectorModel {
                    work: start.work + entries_work(start, v@, order@.skip(k as int)),
                    ..start
                }),
            decreases k,
        {
            k = k - 1;
            let at: usize = order[k];
            assert(order@[k as int] < entry_names(v@).len());
            assert(order@.skip(k as int)[0] == at);
            assert(order@.skip(k as int).skip(1) =~= order@.skip(k + 1));
            let ghost before = self@.work;
            let ghost now = self@;
            assert(entry_work(self@, v@[at as int]) == entry_work(start, v@[at as int]));
            if let Some(w) = self.work_for(&v[at]) {
                let ghost wm = w@;
                self.work.push(w);
                assert(work_models(self.work@) =~= before.push(wm));
                assert(start.work + entries_work(start, v@, order@.skip(k as int)) =~= before.push(
                    wm,
                ));
            }
        }
        assert(order@.skip(0) =~= order@);
        Ok(())
    }

    /// A file was read, as far as that could be done: an error where nothing can be found out
    /// about it; otherwise its size and, where it could be read as text, what it holds.
    pub fn add_file(
        &mut self,
        path: &str,
        size: Result<u64, String>,
        content: Option<String>,
    ) -> (r: Result<(), String>)
        requires
            old(self).wf(),
            content is Some ==> text_bytes(content->0@) <= isize::MAX,
        ensures
            final(self).wf(),
            match size {
                Err(e) => r matches Err(m) && m@ == "Failed to get metadata for "@ + path@ + ": "@
                    + e@ && final(self)@ == old(self)@,
                Ok(n) => match file_added(old(self)@, path@, n, text_opt(content)) {
                    Ok(m) => r is Ok && final(self)@ == m,
                    Err(m) => r matches Err(e) && e@ == m && final(self)@ == old(self)@,
                },
            },
    {
        let n = match size {
            Ok(n) => n,
            Err(e) => {
                let mut text = cat3("Failed to get metadata for ", path, ": ");
                text.append(e.as_str());
                return Err(text);
            },
        };
        if n > MAX_FILE_SIZE {
            return Ok(());
        }
        let s = match content {
            Some(s) => s,
            None => {
                return Ok(());
            },
        };
        let bytes = count_bytes(s.as_str());
        if self.total_size + bytes > MAX_TOTAL_SIZE {
            return Err(too_large(self.total_size + bytes - MAX_TOTAL_SIZE));
        }
        let ghost before = self@.files;
        let ghost sm = s@;
        self.files.push(FileContent { path: path.to_owned(), content: s });
        assert(file_models(self.files@) =~= before.push((path@, sm)));
        assert(before.push((path@, sm)).drop_last() =~= before);
        self.total_size = self.total_size + bytes;
        Ok(())
    }
}

/// The error where all files are too large together.
pub open spec fn size_limit_text(over: nat) -> Seq<char> {
    "Total content size limit exceeded: "@ + decimal(over) + " bytes over the "@ + decimal(
        MAX_TOTAL_SIZE as nat,
    ) + " byte limit"@
}

fn too_large(over: u64) -> (r: String)
    ensures
        r@ == size_limit_text(over as nat),
{
    let n = decimal_of(over);
    let limit = decimal_of(MAX_TOTAL_SIZE);
    cat5(
        "Total content size limit exceeded: ",
        n.as_str(),
        " bytes over the ",
        limit.as_str(),
        " byte limit",
    )
}

/// A link is never followed, and what the lines leave out is never looked at.
pub proof fn law_links_and_ignored_entries_are_left_out(c: CollectorModel, e: DirEntry)
    ensures
        e.kind == Some(EntryKind::Link) || e.kind is None ==> entry_work(c, e) is None,
        e.kind == Some(EntryKind::Directory) && lines_ignore(c.root, c.ignore, e.path@, true)
            ==> entry_work(c, e) is None,
        e.kind == Some(EntryKind::File) && lines_ignore(c.root, c.ignore, e.path@, false)
            ==> entry_work(c, e) is None,
        entry_work(c, e) matches Some(WorkModel::File(p)) ==> wanted_extension(p, c.extensions),
{
}

/// A path that is absolute, or that leads out of the working directory, is refused.
pub proof fn law_paths_stay_inside(asked: Seq<char>, r: ResolvedPath)
    ensures
        path_error(asked, r) is None ==> !begins(asked, "/"@) && r.exists && r.inside
            && r.canonical is Ok,
{
}

// ---------------------------------------------------------------------------
// What the model is asked
// ---------------------------------------------------------------------------

/// The lines of some files.
pub open spec fn total_lines(v: Seq<(Seq<char>, Seq<char>)>) -> nat
    decreases v.len(),
{
    if v.len() == 0 {
        0
    } else {
        total_lines(v.drop_last()) + lines_of(v.last().1).len()
    }
}

proof fn lemma_lines_grow(v: Seq<(Seq<char>, Seq<char>)>, k: int)
    requires
        0 <= k <= v.len(),
    ensures
        total_lines(v.take(k)) <= total_lines(v),
    decreases v.len() - k,
{
    if k < v.len() {
        lemma_lines_grow(v, k + 1);
        assert(v.take(k + 1).drop_last() =~= v.take(k));
    } else {
        assert(v.take(k) =~= v);
    }
}

/// The lines of some files.
pub fn count_lines(files: &Vec<FileContent>) -> (r: u64)
    requires
        total_lines(file_models(files@)) <= u64::MAX,
    ensures
        r == total_lines(file_models(files@)),
{
    let ghost all = file_models(files@);
    let mut total: u64 = 0;
    let mut i: usize = 0;
    assert(total_lines(all.take(0)) == 0);
    while i < files.len()
        invariant
            all == file_models(files@),
            total_lines(all) <= u64::MAX,
            i <= files@.len(),
            total == total_lines(all.take(i as int)),
        decreases files@.len() - i,
    {
        assert(all.take(i + 1).drop_last() =~= all.take(i as int));
        assert(all.take(i + 1).last() == (files@[i as int].path@, files@[i as int].content@));
        proof {
            lemma_lines_grow(all, i + 1);
        }
        let v = lines(files[i].content.as_str());
        assert(texts(v@).len() == v@.len());
        total = total + v.len() as u64;
        i = i + 1;
    }
    assert(all.take(i as int) =~= all);
    total
}

/// A file as the model sees it: under its path from the working directory, in a fence that names
/// its extension.
pub open spec fn file_block(f: (Seq<char>, Seq<char>), dir: Seq<char>) -> Seq<char> {
    "### "@ + relative_to(f.0, dir) + " ("@ + decimal(lines_of(f.1).len()) + " lines)\n~~~"@
        + (match extension_of(f.0) {
        Some(e) => e,
        None => Seq::empty(),
    }) + "\n"@ + f.1 + "\n~~~\n\n"@
}

/// The files as the model sees them.
pub open spec fn file_blocks(v: Seq<(Seq<char>, Seq<char>)>, dir: Seq<char>) -> Seq<char>
    decreases v.len(),
{
    if v.len() == 0 {
        Seq::empty()
    } else {
        file_blocks(v.drop_last(), dir) + file_block(v.last(), dir)
    }
}

/// What the model is asked.
pub open spec fn summary_prompt(
    v: Seq<(Seq<char>, Seq<char>)>,
    question: Seq<char>,
    dir: Seq<char>,
) -> Seq<char> {
    "Answer this question: "@ + question + "\n\n"@ + "**Files** ("@ + decimal(v.len())
        + " files, "@ + decimal(total_lines(v)) + " total lines):\n\n"@ + file_blocks(v, dir)
}

fn block_of(f: &FileContent, dir: &str) -> (r: String)
    ensures
        r@ == file_block((f.path@, f.content@), dir@),
{
    let shown = relative(f.path.as_str(), dir);
    let v = lines(f.content.as_str());
    assert(texts(v@).len() == v@.len());
    let n = decimal_of(v.len() as u64);
    let ext = match extension(f.path.as_str()) {
        Some(e) => e,
        None => {
            let none = String::new();
            assert(none@ =~= Seq::empty());
            none
        },
    };
    let mut text = cat5("### ", shown.as_str(), " (", n.as_str(), " lines)\n~~~");
    text.append(ext.as_str());
    text.append("\n");
    text.append(f.content.as_str());
    text.append("\n~~~\n\n");
    text
}

/// What the model is asked of some files.
pub fn build_prompt(files: &Vec<FileContent>, question: &str, working_dir: &str) -> (r: String)
    requires
        total_lines(file_models(files@)) <= u64::MAX,
    ensures
        r@ == summary_prompt(file_models(files@), question@, working_dir@),
{
    let ghost all = file_models(files@);
    let count = decimal_of(files.len() as u64);
    let total = decimal_of(count_lines(files));
    let mut text = cat5("Answer this question: ", question, "\n\n", "**Files** (", count.as_str());
    text.append(" files, ");
    text.append(total.as_str());
    text.append(" total lines):\n\n");
    let ghost head = text@;
    let mut i: usize = 0;
    assert(head + file_blocks(all.take(0), working_dir@) =~= head);
    while i < files.len()
        invariant
            all == file_models(files@),
            i <= files@.len(),
            text@ == head + file_blocks(all.take(i as int), working_dir@),
        decreases files@.len() - i,
    {
        assert(all.take(i + 1).drop_last() =~= all.take(i as int));
        assert(all.take(i + 1).last() == (files@[i as int].path@, files@[i as int].content@));
        let ghost before = text@;
        let block = block_of(&files[i], working_dir);
        text.append(block.as_str());
        assert(text@ =~= head + file_blocks(all.take(i + 1), working_dir@));
        i = i + 1;
    }
    assert(all.take(i as int) =~= all);
    assert(text@ =~= summary_prompt(all, question@, working_dir@));
    text
}

/// What the model is told of its task.
pub fn summary_system_prompt() -> (r: String)
    ensures
        r@
            == "You are an assistant that analyzes content and provides clear, concise summaries focused on answering the user's specific question. Be specific and reference relevant parts of the content when helpful."@,
{
    "You are an assistant that analyzes content and provides clear, concise summaries focused on answering the user's specific question. Be specific and reference relevant parts of the content when helpful.".to_owned()
}

/// The answer to the caller: what the model wrote, and how much was read for it.
pub fn summary_answer(response_texts: &Vec<String>, files: &Vec<FileContent>) -> (r: String)
    requires
        total_lines(file_models(files@)) <= u64::MAX,
    ensures
        r@ == joined(texts(response_texts@), "\n"@) + "\n\n---\n*Analyzed "@ + decimal(
            files@.len(),
        ) + " files ("@ + decimal(total_lines(file_models(files@))) + " lines)*"@,
{
    let body = join(response_texts, "\n");
    let count = decimal_of(files.len() as u64);
    let total = decimal_of(count_lines(files));
    let mut text = cat5(
        body.as_str(),
        "\n\n---\n*Analyzed ",
        count.as_str(),
        " files (",
        total.as_str(),
    );
    text.append(" lines)*");
    text
}

/// Why a call cannot be answered: another tool is meant, there is no working directory, the
/// parameters cannot be read, no path is named, or nothing was found.
#[derive(Debug, PartialEq, Eq)]
pub enum SummaryRefusal<'a> {
    UnknownTool(&'a str),
    NoWorkingDir,
    InvalidParameters(&'a str),
    NoPath,
    NoFiles,
    /// For another reason.
    Other(&'a str),
}

/// The text that tells why a call cannot be answered.
pub fn refusal_text(refusal: SummaryRefusal) -> (r: String)
    ensures
        r@ == match refusal {
            SummaryRefusal::UnknownTool(name) => "Error: Unknown tool: "@ + name@,
            SummaryRefusal::NoWorkingDir => "Error: working_dir is required for summarize"@,
            SummaryRefusal::InvalidParameters(e) => "Error: Invalid parameters: "@ + e@,
            SummaryRefusal::NoPath => "Error: Must provide at least one path"@,
            SummaryRefusal::NoFiles =>
                "Error: No files found matching the specified paths and extensions."@,
            SummaryRefusal::Other(e) => "Error: "@ + e@,
        },
{
    match refusal {
        SummaryRefusal::UnknownTool(name) => cat("Error: Unknown tool: ", name),
        SummaryRefusal::NoWorkingDir =>
            "Error: working_dir is required for summarize".to_owned(),
        SummaryRefusal::InvalidParameters(e) => cat("Error: Invalid parameters: ", e),
        SummaryRefusal::NoPath => "Error: Must provide at least one path".to_owned(),
        SummaryRefusal::NoFiles =>
            "Error: No files found matching the specified paths and extensions.".to_owned(),
        SummaryRefusal::Other(e) => cat("Error: ", e),
    }
}

/// What stands against a call before anything is read: nothing where it can go on.
pub fn check_call<'a>(
    name: &'a str,
    has_working_dir: bool,
    parameters_error: Option<&'a str>,
    path_count: usize,
) -> (r: Option<SummaryRefusal<'a>>)
    ensures
        if name@ != "summarize"@ {
            r matches Some(SummaryRefusal::UnknownTool(n)) && n@ == name@
        } else if !has_working_dir {
            r matches Some(SummaryRefusal::NoWorkingDir)
        } else {
            match parameters_error {
                Some(e) => r matches Some(SummaryRefusal::InvalidParameters(t)) && t@ == e@,
                None => if path_count == 0 {
                    r matches Some(SummaryRefusal::NoPath)
                } else {
                    r is None
                },
            }
        },
{
    if !str_eq(name, "summarize") {
        return Some(SummaryRefusal::UnknownTool(name));
    }
    if !has_working_dir {
        return Some(SummaryRefusal::NoWorkingDir);
    }
    if let Some(e) = parameters_error {
        return Some(SummaryRefusal::InvalidParameters(e));
    }
    if path_count == 0 {
        return Some(SummaryRefusal::NoPath);
    }
    None
}

// ---------------------------------------------------------------------------
// The tool
// ---------------------------------------------------------------------------

/// The tool that sums files up, with the schema of what it takes.
pub open spec fn summary_tools(
    schema: Seq<(Seq<char>, Tree)>,
) -> Seq<ToolModel> {
    seq![
        bare_tool("summarize"@, "Load files/directories deterministically and get an LLM summary in a single call. More efficient than subagent when you know what to analyze. Specify paths (files or dirs that will be recursively expanded, respecting top-level .gitignore), a question to focus the summary, and optionally filter by file extensions."@, schema),
    ]
}

/// The tool that sums files up, with the schema of what it takes.
pub fn get_tools(
    schema: Vec<Member>,
) -> (r: Vec<Tool>)
    ensures
        tool_models(r@) == summary_tools(
            members(schema@),
        ),
{
    let ghost schema_model = members(schema@);
    let mut out: Vec<Tool> = Vec::new();
    out.push(
        plain_tool("summarize", "Load files/directories deterministically and get an LLM summary in a single call. More efficient than subagent when you know what to analyze. Specify paths (files or dirs that will be recursively expanded, respecting top-level .gitignore), a question to focus the summary, and optionally filter by file extensions.", schema),
    );
    assert(tool_models(out@) =~= summary_tools(schema_model));
    out
}

/// Every directory that the lines do not leave out is looked into, whatever extensions are asked
/// for, and every file that they do not leave out and that has a wanted extension is read. Nothing
/// else becomes work.
pub proof fn law_what_is_not_left_out_is_looked_at(c: CollectorModel, e: DirEntry)
    ensures
        e.kind == Some(EntryKind::Directory) && !lines_ignore(c.root, c.ignore, e.path@, true)
            ==> entry_work(c, e) == Some(WorkModel::Directory(e.path@)),
        e.kind == Some(EntryKind::File) && !lines_ignore(c.root, c.ignore, e.path@, false)
            && wanted_extension(e.path@, c.extensions) ==> entry_work(c, e) == Some(
            WorkModel::File(e.path@),
        ),
        entry_work(c, e) matches Some(WorkModel::Directory(p)) ==> p == e.path@ && e.kind == Some(
            EntryKind::Directory,
        ),
        entry_work(c, e) matches Some(WorkModel::File(p)) ==> p == e.path@ && e.kind == Some(
            EntryKind::File,
        ),
        e.kind == Some(EntryKind::Other) ==> entry_work(c, e) is None,
{
}

/// The extensions that are asked for have no say over which directories are looked into.
pub proof fn law_extensions_only_choose_files(
    c: CollectorModel,
    others: Option<Seq<Seq<char>>>,
    e: DirEntry,
    path: Seq<char>,
)
    requires
        e.kind == Some(EntryKind::Directory),
    ensures
        entry_work(c, e) == entry_work(CollectorModel { extensions: others, ..c }, e),
        path_added(c, path, EntryKind::Directory).work == path_added(
            CollectorModel { extensions: others, ..c },
            path,
            EntryKind::Directory,
        ).work,
{
}

/// No entry of a directory is forgotten: the work of each is there, and the work of the first in
/// the order of names comes next.
pub proof fn law_every_entry_becomes_its_work(
    c: CollectorModel,
    entries: Seq<DirEntry>,
    order: Seq<usize>,
    i: int,
)
    requires
        0 <= i < order.len(),
    ensures
        entry_work(c, entries[order[i] as int]) matches Some(w) ==> entries_work(
            c,
            entries,
            order,
        ).contains(w),
        entry_work(c, entries[order[0] as int]) matches Some(w) ==> entries_work(
            c,
            entries,
            order,
        ).last() == w,
    decreases order.len(),
{
    let tail = entries_work(c, entries, order.skip(1));
    let all = entries_work(c, entries, order);
    if i > 0 {
        law_every_entry_becomes_its_work(c, entries, order.skip(1), i - 1);
        assert(order.skip(1)[i - 1] == order[i]);
        if entry_work(c, entries[order[i] as int]) is Some {
            let w = entry_work(c, entries[order[i] as int])->0;
            let p = choose|p: int| 0 <= p < tail.len() && tail[p] == w;
            assert(all[p] == w);
        }
    } else if entry_work(c, entries[order[0] as int]) is Some {
        assert(all[all.len() - 1] == entry_work(c, entries[order[0] as int])->0);
    }
}

/// Nothing becomes work but what is the work of an entry.
pub proof fn law_work_comes_from_entries(
    c: CollectorModel,
    entries: Seq<DirEntry>,
    order: Seq<usize>,
    p: int,
)
    requires
        0 <= p < entries_work(c, entries, order).len(),
    ensures
        exists|i: int|
            0 <= i < order.len() && entry_work(c, entries[#[trigger] order[i] as int]) == Some(
                entries_work(c, entries, order)[p],
            ),
    decreases order.len(),
{
    let tail = entries_work(c, entries, order.skip(1));
    if p < tail.len() {
        law_work_comes_from_entries(c, entries, order.skip(1), p);
        let i = choose|i: int|
            0 <= i < order.skip(1).len() && entry_work(
                c,
                entries[#[trigger] order.skip(1)[i] as int],
            ) == Some(tail[p]);
        assert(order[i + 1] == order.skip(1)[i]);
    } else {
        assert(entry_work(c, entries[order[0] as int]) == Some(entries_work(c, entries, order)[p]));
    }
}

/// Every path that is there, relative, and inside the working directory may be read.
pub proof fn law_paths_inside_are_read(asked: Seq<char>, r: ResolvedPath)
    ensures
        path_error(asked, r) is None <==> !begins(asked, "/"@) && r.exists && r.inside
            && r.canonical is Ok,
        path_error(asked, r) matches Some(m) ==> has_text(m, asked) || has_text(m, r.joined@),
{
    let j = r.joined@;
    lemma_has_text("Absolute paths are not allowed: "@, asked, Seq::empty());
    lemma_has_text("Path does not exist: "@, j, Seq::empty());
    lemma_has_text("Path escapes working directory: "@, j, Seq::empty());
    if let Err(e) = r.canonical {
        lemma_has_text("Failed to canonicalize path "@, j, ": "@ + e@);
        assert("Failed to canonicalize path "@ + j + (": "@ + e@)
            =~= "Failed to canonicalize path "@ + j + ": "@ + e@);
    }
}

/// A directory that was asked for is looked into; a file is read where it has a wanted extension;
/// what waits already still waits, and nothing else changes.
pub proof fn law_asked_paths_become_work(c: CollectorModel, path: Seq<char>, kind: EntryKind)
    ensures
        ({
            let after = path_added(c, path, kind);
            &&& kind == EntryKind::Directory ==> after.work == c.work.push(
                WorkModel::Directory(path),
            )
            &&& kind == EntryKind::File && wanted_extension(path, c.extensions) ==> after.work
                == c.work.push(WorkModel::File(path))
            &&& kind == EntryKind::File && !wanted_extension(path, c.extensions) ==> after.work
                == c.work
            &&& kind != EntryKind::Directory && kind != EntryKind::File ==> after.work == c.work
            &&& after.files == c.files
            &&& after.total_size == c.total_size
        }),
{
}

/// Which files have a wanted extension: all where none is named; else those whose extension is
/// named, in whatever case.
pub proof fn law_wanted_extensions(path: Seq<char>, wanted: Seq<Seq<char>>, i: int)
    ensures
        wanted_extension(path, None),
        extension_of(path) is None ==> !wanted_extension(path, Some(wanted)),
        0 <= i < wanted.len() && (extension_of(path) matches Some(e) && lowercase(e) == lowercase(
            wanted[i],
        )) ==> wanted_extension(path, Some(wanted)),
        wanted_extension(path, Some(wanted)) ==> exists|k: int|
            0 <= k < wanted.len() && lowercase(#[trigger] wanted[k]) == lowercase(
                extension_of(path)->0,
            ),
{
    if 0 <= i < wanted.len() && (extension_of(path) matches Some(e) && lowercase(e) == lowercase(
        wanted[i],
    )) {
        assert(lowercase(wanted[i]) == lowercase(extension_of(path)->0));
    }
}

/// A file of text that is not too large is gathered with all it holds, after those that are there,
/// as long as all stay within the limit; one that is too large is passed over, and where all become
/// too large together nothing is.
pub proof fn law_read_files_are_gathered(
    c: CollectorModel,
    path: Seq<char>,
    size: u64,
    content: Option<Seq<char>>,
)
    ensures
        ({
            let r = file_added(c, path, size, content);
            let fits = c.total_size + text_bytes(content->0) <= 1048576;
            &&& content is Some && size <= 102400 && fits ==> (r matches Ok(m) && m.files
                == c.files.push((path, content->0)) && m.total_size == c.total_size + text_bytes(
                content->0,
            ) && m.work == c.work)
            &&& content is Some && size <= 102400 && !fits <==> r is Err
            &&& content is None || size > 102400 ==> (r matches Ok(m) && m == c)
        }),
{
}

/// The bytes of a text are those of its parts.
pub proof fn law_bytes_add_up(a: Seq<char>, b: Seq<char>)
    ensures
        text_bytes(a + b) == text_bytes(a) + text_bytes(b),
        text_bytes(a) >= a.len(),
        text_bytes(a) <= 4 * a.len(),
        (forall|i: int| 0 <= i < a.len() ==> #[trigger] a[i] <= '\u{7f}') ==> text_bytes(a)
            == a.len(),
    decreases a.len() + b.len(),
{
    if b.len() > 0 {
        law_bytes_add_up(a, b.drop_last());
        assert((a + b).drop_last() =~= a + b.drop_last());
        assert((a + b).last() == b.last());
    } else {
        assert(a + b =~= a);
        if a.len() > 0 {
            law_bytes_add_up(a.drop_last(), b);
            if forall|i: int| 0 <= i < a.len() ==> #[trigger] a[i] <= '\u{7f}' {
                assert forall|i: int| 0 <= i < a.drop_last().len() implies #[trigger] a.drop_last()[i]
                    <= '\u{7f}' by {
                    assert(a.drop_last()[i] == a[i]);
                }
                assert(a[a.len() - 1] <= '\u{7f}');
            }
        }
    }
}

/// The directory of git itself is always left out by a line of its own, after all the lines of the
/// file, which stay as they are but for a mark at the start of the first.
pub proof fn law_ignore_lines_are_kept(file: Seq<char>, i: int)
    ensures
        ignore_lines(None) == seq![".git/"@],
        ignore_lines(Some(file)).last() == ".git/"@,
        ignore_lines(Some(file)).len() == lines_of(file).len() + 1,
        0 < i < lines_of(file).len() ==> ignore_lines(Some(file))[i] == lines_of(file)[i],
        lines_of(file).len() > 0 && (lines_of(file)[0].len() == 0 || lines_of(file)[0][0]
            != '\u{feff}') ==> ignore_lines(Some(file))[0] == lines_of(file)[0],
{
    assert(ignore_lines(None) =~= seq![".git/"@]);
}

proof fn lemma_blocks_hold(v: Seq<(Seq<char>, Seq<char>)>, dir: Seq<char>, i: int)
    requires
        0 <= i < v.len(),
    ensures
        has_text(file_blocks(v, dir), file_block(v[i], dir)),
    decreases v.len(),
{
    let head = file_blocks(v.drop_last(), dir);
    if i < v.len() - 1 {
        lemma_blocks_hold(v.drop_last(), dir, i);
        assert(v.drop_last()[i] == v[i]);
        lemma_in_longer(Seq::empty(), head, file_block(v.last(), dir), file_block(v[i], dir));
        assert(Seq::<char>::empty() + head =~= head);
    } else {
        lemma_has_text(head, file_block(v[i], dir), Seq::empty());
    }
}

proof fn lemma_block_holds_content(f: (Seq<char>, Seq<char>), dir: Seq<char>)
    ensures
        has_text(file_block(f, dir), f.1),
{
    let kind = match extension_of(f.0) {
        Some(e) => e,
        None => Seq::empty(),
    };
    let head = "### "@ + relative_to(f.0, dir) + " ("@ + decimal(lines_of(f.1).len())
        + " lines)\n~~~"@ + kind + "\n"@;
    assert(file_block(f, dir) == head + f.1 + "\n~~~\n\n"@);
    lemma_has_text(head, f.1, "\n~~~\n\n"@);
}

proof fn lemma_block_holds_path(f: (Seq<char>, Seq<char>), dir: Seq<char>)
    ensures
        has_text(file_block(f, dir), relative_to(f.0, dir)),
{
    let name = relative_to(f.0, dir);
    let kind = match extension_of(f.0) {
        Some(e) => e,
        None => Seq::empty(),
    };
    let rest = " ("@ + decimal(lines_of(f.1).len()) + " lines)\n~~~"@ + kind + "\n"@ + f.1
        + "\n~~~\n\n"@;
    assert(file_block(f, dir) =~= "### "@ + name + rest);
    lemma_has_text("### "@, name, rest);
}

/// The model is asked the question.
pub proof fn law_the_model_is_asked_the_question(
    v: Seq<(Seq<char>, Seq<char>)>,
    question: Seq<char>,
    dir: Seq<char>,
)
    ensures
        has_text(summary_prompt(v, question, dir), question),
{
    let rest = "\n\n"@ + "**Files** ("@ + decimal(v.len()) + " files, "@ + decimal(total_lines(v))
        + " total lines):\n\n"@ + file_blocks(v, dir);
    assert(summary_prompt(v, question, dir) =~= "Answer this question: "@ + question + rest);
    lemma_has_text("Answer this question: "@, question, rest);
}

/// The model sees all that every file holds, under its path from the working directory.
pub proof fn law_the_model_sees_every_file(
    v: Seq<(Seq<char>, Seq<char>)>,
    question: Seq<char>,
    dir: Seq<char>,
    i: int,
)
    requires
        0 <= i < v.len(),
    ensures
        has_text(summary_prompt(v, question, dir), v[i].1),
        has_text(summary_prompt(v, question, dir), relative_to(v[i].0, dir)),
{
    let all = summary_prompt(v, question, dir);
    let blocks = file_blocks(v, dir);
    let block = file_block(v[i], dir);
    let head = "Answer this question: "@ + question + "\n\n"@ + "**Files** ("@ + decimal(v.len())
        + " files, "@ + decimal(total_lines(v)) + " total lines):\n\n"@;
    assert(all == head + blocks);
    lemma_has_text(head, blocks, Seq::empty());
    lemma_blocks_hold(v, dir, i);
    lemma_within(all, blocks, block);
    lemma_block_holds_content(v[i], dir);
    lemma_within(all, block, v[i].1);
    lemma_block_holds_path(v[i], dir);
    lemma_within(all, block, relative_to(v[i].0, dir));
}

/// The lines of some files are those of each.
pub proof fn law_lines_add_up(a: Seq<(Seq<char>, Seq<char>)>, b: Seq<(Seq<char>, Seq<char>)>)
    ensures
        total_lines(a + b) == total_lines(a) + total_lines(b),
        a.len() == 1 ==> total_lines(a) == lines_of(a[0].1).len(),
    decreases b.len(),
{
    reveal_with_fuel(total_lines, 2);
    if b.len() > 0 {
        law_lines_add_up(a, b.drop_last());
        assert((a + b).drop_last() =~= a + b.drop_last());
        assert((a + b).last() == b.last());
    } else {
        assert(a + b =~= a);
    }
}

/// Marks go from the start of a text only, and all of them.
pub proof fn law_marks_are_taken_from_the_start(s: Seq<char>, rest: Seq<char>)
    ensures
        without_marks(seq!['\u{feff}'] + s) == without_marks(s),
        rest.len() == 0 || rest[0] != '\u{feff}' ==> without_marks(rest) == rest,
        without_marks(s).len() > 0 ==> without_marks(s)[0] != '\u{feff}',
    decreases s.len(),
{
    assert((seq!['\u{feff}'] + s).skip(1) =~= s);
    if s.len() > 0 && s[0] == '\u{feff}' {
        law_marks_are_taken_from_the_start(s.skip(1), rest);
    }
}

/// The bytes of some files are those of each.
pub proof fn law_file_bytes_add_up(a: Seq<(Seq<char>, Seq<char>)>, f: (Seq<char>, Seq<char>))
    ensures
        files_bytes(a.push(f)) == files_bytes(a) + text_bytes(f.1),
        files_bytes(Seq::empty()) == 0,
{
    assert(a.push(f).drop_last() =~= a);
}

/// The bytes of a character are those of its encoding: one up to the end of ASCII, and four at
/// most.
pub proof fn law_character_bytes(c: char)
    ensures
        char_bytes(c) == 1 <==> c as u32 <= 0x7f,
        char_bytes(c) == 2 <==> 0x80 <= c as u32 <= 0x7ff,
        char_bytes(c) == 3 <==> 0x800 <= c as u32 <= 0xffff,
        char_bytes(c) == 4 <==> c as u32 >= 0x10000,
{
}

} // verus!
