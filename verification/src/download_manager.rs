//! Downloads of models: which are under way, and how a file is fetched piece by piece.

use crate::http_client::{status_text, status_written};
use crate::paths::{
    components, extension, extension_of, file_at, file_name, is_path_among, last_dot,
    lemma_component, lemma_name_start, name_start, names, path_among, same_path, strip_extension,
    without_extension,
};
use crate::text::{
    after_last, after_last_of, begins, cat, cat3, chars_of, decimal, decimal_of, has_text,
    lemma_has_text, parse_number, parsed_number, str_eq, string_of, text_opt, texts,
};
use vstd::prelude::*;
use vstd::string::*;

verus! {

// ---------------------------------------------------------------------------
// Partial files
// ---------------------------------------------------------------------------

/// The file that holds a download until it is complete: it has one more extension. A path that
/// does not end in the name of a file stays as it is.
pub open spec fn partial_path(destination: Seq<char>) -> Seq<char> {
    match file_at(destination) {
        Some((at, name)) => destination.take(at) + name + ".part"@,
        None => destination,
    }
}

/// The file that holds a download until it is complete.
pub fn partial_path_for(destination: &str) -> (r: String)
    ensures
        r@ == partial_path(destination@),
{
    match file_name(destination) {
        Some(file) => {
            proof {
                lemma_component(destination@, components(destination@).len() - 1);
            }
            let v = chars_of(destination);
            let dir = string_of(&v, 0, file.at);
            assert(dir@ =~= destination@.take(file.at as int));
            cat3(dir.as_str(), file.name.as_str(), ".part")
        },
        None => destination.to_owned(),
    }
}

/// Whether a file is a partial download that nothing waits for: its extension says so, and the
/// file that it would become is not registered.
pub open spec fn orphaned(path: Seq<char>, registered: Seq<Seq<char>>) -> bool {
    extension_of(path) == Some("part"@) && !path_among(without_extension(path), registered)
}

/// Whether a file is a partial download that nothing waits for.
pub fn is_orphaned_partial(path: &str, registered: &Vec<String>) -> (r: bool)
    ensures
        r == orphaned(path@, texts(registered@)),
{
    match extension(path) {
        Some(e) => str_eq(e.as_str(), "part") && !is_path_among(
            strip_extension(path).as_str(),
            registered,
        ),
        None => false,
    }
}

proof fn lemma_name_start_further(s: Seq<char>, t: Seq<char>)
    requires
        forall|i: int| 0 <= i < t.len() ==> t[i] != '/',
    ensures
        name_start(s + t) == name_start(s),
    decreases t.len(),
{
    if t.len() == 0 {
        assert(s + t =~= s);
    } else {
        assert((s + t).last() == t.last());
        assert(t.last() == t[t.len() - 1]);
        assert((s + t).drop_last() =~= s + t.drop_last());
        lemma_name_start_further(s, t.drop_last());
    }
}

proof fn lemma_dot_further(s: Seq<char>, t: Seq<char>)
    requires
        forall|i: int| 0 <= i < t.len() ==> t[i] != '.',
        s.len() > 0,
        s.last() == '.',
    ensures
        last_dot(s + t) == s.len() - 1,
    decreases t.len(),
{
    if t.len() == 0 {
        assert(s + t =~= s);
    } else {
        assert((s + t).last() == t.last());
        assert(t.last() == t[t.len() - 1]);
        assert((s + t).drop_last() =~= s + t.drop_last());
        lemma_dot_further(s, t.drop_last());
    }
}

/// What follows the last component of a path adds no component.
proof fn lemma_core(path: Seq<char>)
    requires
        file_at(path) is Some,
    ensures
        ({
            let (at, name) = file_at(path)->0;
            let core = path.take(at) + name;
            &&& components(core) == components(path)
            &&& 0 <= at == name_start(core) < core.len()
            &&& core.last() != '/'
            &&& core.skip(at) == name
            &&& core.take(at) == path.take(at)
        }),
    decreases path.len(),
{
    if path.last() == '/' {
        if path.len() > 1 {
            let head = path.drop_last();
            lemma_core(head);
            let (at, name) = file_at(path)->0;
            lemma_component(head, components(head).len() - 1);
            assert(head.take(at) =~= path.take(at));
        } else {
            assert(path =~= seq!['/']);
        }
    } else {
        lemma_name_start(path);
        let at = name_start(path);
        let head = path.take(at);
        if at > 0 && path.skip(at) == seq!['.'] {
            lemma_core(head);
            let (k, name) = file_at(path)->0;
            lemma_component(head, components(head).len() - 1);
            assert(head.take(k) =~= path.take(k));
        } else {
            assert(file_at(path) == Some((at, path.skip(at))));
            assert(path.take(at) + path.skip(at) =~= path);
        }
    }
}

/// The partial file of a registered download is not removed, so that the download can go on after
/// a restart. How its path was written when it was registered makes no difference.
pub proof fn law_registered_partials_stay(destination: Seq<char>, registered: Seq<Seq<char>>)
    requires
        file_at(destination) is Some,
        path_among(destination, registered),
    ensures
        !orphaned(partial_path(destination), registered),
{
    reveal_strlit(".part");
    let (at, name) = file_at(destination)->0;
    lemma_core(destination);
    let core = destination.take(at) + name;
    let path = partial_path(destination);
    let tail = ".part"@;
    assert(path =~= core + tail);
    lemma_name_start_further(core, tail);
    assert(path.last() == 't');
    assert(path.skip(at) =~= name + tail);
    assert(path.take(at) =~= core.take(at));
    assert((name + tail).len() > 1);
    assert(components(path) == components(core.take(at)).push((at, name + tail)));
    assert(components(path).last() == (at, name + tail));
    assert((name + tail).len() > 2);
    assert(file_at(path) == Some((at, name + tail)));
    let dotted = name.push('.');
    let rest = seq!['p', 'a', 'r', 't'];
    assert(name + tail =~= dotted + rest);
    lemma_dot_further(dotted, rest);
    assert(last_dot(name + tail) == name.len());
    assert(without_extension(path) =~= core);
    assert(names(core) == names(destination));
    let i = choose|i: int|
        0 <= i < registered.len() && same_path(destination, #[trigger] registered[i]);
    assert(same_path(core, registered[i]));
}

// ---------------------------------------------------------------------------
// The downloads
// ---------------------------------------------------------------------------

#[derive(Clone, Copy, PartialEq, Eq, Structural, Debug)]
pub enum DownloadStatus {
    Downloading,
    Completed,
    Failed,
    Cancelled,
}

/// How much of a download is done.
#[derive(Clone, Copy, PartialEq, Eq, Structural, Debug)]
pub enum Percent {
    /// Nothing is known of it yet.
    Zero,
    /// So many bytes of so many.
    Ratio { done: u64, total: u64 },
    /// All of it.
    Full,
}

/// What is known of a download.
#[derive(Debug, PartialEq, Eq)]
pub struct DownloadProgress {
    pub model_id: String,
    pub status: DownloadStatus,
    pub bytes_downloaded: u64,
    pub total_bytes: u64,
    pub percent: Percent,
    /// Bytes per second.
    pub speed_bps: Option<u64>,
    pub eta_seconds: Option<u64>,
    pub error: Option<String>,
    /// Whether the task that downloads has ended.
    pub task_exited: bool,
}

#[verifier::ext_equal]
pub struct ProgressModel {
    pub model_id: Seq<char>,
    pub status: DownloadStatus,
    pub bytes_downloaded: u64,
    pub total_bytes: u64,
    pub percent: Percent,
    pub speed_bps: Option<u64>,
    pub eta_seconds: Option<u64>,
    pub error: Option<Seq<char>>,
    pub task_exited: bool,
}

impl DownloadProgress {
    pub open spec fn view(&self) -> ProgressModel {
        ProgressModel {
            model_id: self.model_id@,
            status: self.status,
            bytes_downloaded: self.bytes_downloaded,
            total_bytes: self.total_bytes,
            percent: self.percent,
            speed_bps: self.speed_bps,
            eta_seconds: self.eta_seconds,
            error: text_opt(self.error),
            task_exited: self.task_exited,
        }
    }

    pub fn copy(&self) -> (r: DownloadProgress)
        ensures
            r@ == self@,
    {
        DownloadProgress {
            model_id: self.model_id.clone(),
            status: self.status,
            bytes_downloaded: self.bytes_downloaded,
            total_bytes: self.total_bytes,
            percent: self.percent,
            speed_bps: self.speed_bps,
            eta_seconds: self.eta_seconds,
            error: crate::conversation::copy_text(&self.error),
            task_exited: self.task_exited,
        }
    }
}

/// A download under the id that it is kept by.
#[derive(Debug, PartialEq, Eq)]
pub struct DownloadEntry {
    pub id: String,
    pub progress: DownloadProgress,
}

pub open spec fn entry_models(v: Seq<DownloadEntry>) -> Seq<(Seq<char>, ProgressModel)> {
    Seq::new(v.len(), |i: int| (v[i].id@, v[i].progress@))
}

/// The place of the download with the id; the number of downloads, where there is none.
pub open spec fn entry_place(m: Seq<(Seq<char>, ProgressModel)>, id: Seq<char>) -> int
    decreases m.len(),
{
    if m.len() == 0 {
        0
    } else if m[0].0 == id {
        0
    } else {
        1 + entry_place(m.skip(1), id)
    }
}

/// What is known of the download with the id.
pub open spec fn progress_of(m: Seq<(Seq<char>, ProgressModel)>, id: Seq<char>) -> Option<
    ProgressModel,
> {
    if entry_place(m, id) < m.len() {
        Some(m[entry_place(m, id)].1)
    } else {
        None
    }
}

/// The downloads with one more, in the place of the one with the id, where there is one.
pub open spec fn with_progress(
    m: Seq<(Seq<char>, ProgressModel)>,
    id: Seq<char>,
    p: ProgressModel,
) -> Seq<(Seq<char>, ProgressModel)> {
    if entry_place(m, id) < m.len() {
        m.update(entry_place(m, id), (id, p))
    } else {
        m.push((id, p))
    }
}

/// The downloads without the one with the id.
pub open spec fn without_progress(m: Seq<(Seq<char>, ProgressModel)>, id: Seq<char>) -> Seq<
    (Seq<char>, ProgressModel),
> {
    if entry_place(m, id) < m.len() {
        m.remove(entry_place(m, id))
    } else {
        m
    }
}

/// Whether no two downloads have one id.
pub open spec fn ids_differ(m: Seq<(Seq<char>, ProgressModel)>) -> bool {
    forall|i: int, j: int| 0 <= i < j < m.len() ==> m[i].0 != m[j].0
}

pub proof fn lemma_entry_place(m: Seq<(Seq<char>, ProgressModel)>, id: Seq<char>)
    ensures
        0 <= entry_place(m, id) <= m.len(),
        entry_place(m, id) < m.len() ==> m[entry_place(m, id)].0 == id,
        forall|i: int| 0 <= i < entry_place(m, id) ==> (#[trigger] m[i]).0 != id,
    decreases m.len(),
{
    if m.len() > 0 && m[0].0 != id {
        lemma_entry_place(m.skip(1), id);
        assert forall|i: int| 0 <= i < entry_place(m, id) implies (#[trigger] m[i]).0 != id by {
            if i > 0 {
                assert(m.skip(1)[i - 1] == m[i]);
            }
        }
    }
}

pub proof fn lemma_place_is(m: Seq<(Seq<char>, ProgressModel)>, id: Seq<char>, k: int)
    requires
        0 <= k <= m.len(),
        k < m.len() ==> m[k].0 == id,
        forall|i: int| 0 <= i < k ==> (#[trigger] m[i]).0 != id,
    ensures
        entry_place(m, id) == k,
{
    lemma_entry_place(m, id);
}

/// Whether a download may not be started: it is under way, or its task has not yet noticed that
/// it was cancelled.
pub open spec fn busy(p: Option<ProgressModel>) -> bool {
    match p {
        Some(p) => p.status == DownloadStatus::Downloading || (p.status
            == DownloadStatus::Cancelled && !p.task_exited),
        None => false,
    }
}

/// A download that has just begun.
pub open spec fn fresh_progress(id: Seq<char>, total: u64) -> ProgressModel {
    ProgressModel {
        model_id: id,
        status: DownloadStatus::Downloading,
        bytes_downloaded: 0,
        total_bytes: total,
        percent: Percent::Zero,
        speed_bps: None,
        eta_seconds: None,
        error: None,
        task_exited: false,
    }
}

/// A download after its task ended.
pub open spec fn ended_progress(p: ProgressModel, error: Option<Seq<char>>) -> ProgressModel {
    match error {
        None => ProgressModel {
            status: DownloadStatus::Completed,
            percent: Percent::Full,
            task_exited: true,
            ..p
        },
        Some(e) => ProgressModel {
            status: if p.status != DownloadStatus::Cancelled {
                DownloadStatus::Failed
            } else {
                DownloadStatus::Cancelled
            },
            error: Some(e),
            task_exited: true,
            ..p
        },
    }
}

/// A download that was cancelled. Its task goes on until it notices.
pub open spec fn cancelled_progress(p: ProgressModel) -> ProgressModel {
    ProgressModel { status: DownloadStatus::Cancelled, ..p }
}

/// A download of so many bytes in all.
pub open spec fn sized_progress(p: ProgressModel, total: u64) -> ProgressModel {
    ProgressModel { total_bytes: total, ..p }
}

/// A download that has more bytes than was known.
pub open spec fn grown_progress(p: ProgressModel, more: u64) -> ProgressModel {
    ProgressModel {
        total_bytes: if p.total_bytes + more <= u64::MAX {
            (p.total_bytes + more) as u64
        } else {
            u64::MAX
        },
        ..p
    }
}

/// Whether a download can be forgotten: it and its task have ended.
pub open spec fn over(p: Option<ProgressModel>) -> bool {
    p matches Some(p) && p.status != DownloadStatus::Downloading && p.task_exited
}

/// How long the rest takes at a speed.
pub open spec fn eta(total: u64, done: u64, speed: Option<u64>) -> Option<u64> {
    match speed {
        Some(s) => if s > 0 && total > 0 {
            Some(((if total > done { total - done } else { 0 }) / s as int) as u64)
        } else {
            None
        },
        None => None,
    }
}

/// A download after some more bytes came.
pub open spec fn advanced_progress(p: ProgressModel, done: u64, speed: Option<u64>) -> ProgressModel {
    ProgressModel {
        bytes_downloaded: done,
        percent: if p.total_bytes > 0 {
            Percent::Ratio { done, total: p.total_bytes }
        } else {
            Percent::Zero
        },
        speed_bps: speed,
        eta_seconds: eta(p.total_bytes, done, speed),
        ..p
    }
}

/// The downloads after one began, or why it may not begin.
pub open spec fn download_begun(
    m: Seq<(Seq<char>, ProgressModel)>,
    id: Seq<char>,
    total: u64,
) -> Result<Seq<(Seq<char>, ProgressModel)>, Seq<char>> {
    if busy(progress_of(m, id)) {
        Err(
            if progress_of(m, id)->0.status == DownloadStatus::Downloading {
                "Download already in progress"@
            } else {
                "Download is being cancelled; wait for it to finish before restarting"@
            },
        )
    } else {
        Ok(with_progress(m, id, fresh_progress(id, total)))
    }
}

/// The downloads after the task of one ended, well or with an error.
pub open spec fn download_ended(
    m: Seq<(Seq<char>, ProgressModel)>,
    id: Seq<char>,
    error: Option<Seq<char>>,
) -> Seq<(Seq<char>, ProgressModel)> {
    match progress_of(m, id) {
        Some(p) => with_progress(m, id, ended_progress(p, error)),
        None => m,
    }
}

/// The downloads without one that can be forgotten.
pub open spec fn download_cleared(
    m: Seq<(Seq<char>, ProgressModel)>,
    id: Seq<char>,
) -> Seq<(Seq<char>, ProgressModel)> {
    if over(progress_of(m, id)) {
        without_progress(m, id)
    } else {
        m
    }
}

/// The downloads that are under way or have ended.
#[derive(Debug, PartialEq, Eq)]
pub struct DownloadManager {
    pub downloads: Vec<DownloadEntry>,
}

impl DownloadManager {
    pub open spec fn view(&self) -> Seq<(Seq<char>, ProgressModel)> {
        entry_models(self.downloads@)
    }

    /// Whether no two downloads have one id.
    pub open spec fn wf(&self) -> bool {
        ids_differ(self@)
    }

    pub fn new() -> (r: DownloadManager)
        ensures
            r.wf(),
            r@ == Seq::<(Seq<char>, ProgressModel)>::empty(),
    {
        let r = DownloadManager { downloads: Vec::new() };
        assert(r@ =~= Seq::<(Seq<char>, ProgressModel)>::empty());
        r
    }

    fn find(&self, id: &str) -> (r: Option<usize>)
        ensures
            match r {
                Some(k) => k < self.downloads@.len() && k == entry_place(self@, id@),
                None => entry_place(self@, id@) == self@.len(),
            },
    {
        let ghost all = self@;
        let mut i: usize = 0;
        assert(all.skip(0) =~= all);
        while i < self.downloads.len()
            invariant
                all == self@,
                all.len() == self.downloads@.len(),
                i <= all.len(),
                entry_place(all, id@) == i + entry_place(all.skip(i as int), id@),
            decreases all.len() - i,
        {
            assert(all.skip(i as int)[0] == all[i as int]);
            assert(all.skip(i as int).skip(1) =~= all.skip(i + 1));
            if str_eq(self.downloads[i].id.as_str(), id) {
                return Some(i);
            }
            i = i + 1;
        }
        None
    }

    /// What is known of the download with the id.
    pub fn get_progress(&self, model_id: &str) -> (r: Option<DownloadProgress>)
        ensures
            match r {
                Some(p) => progress_of(self@, model_id@) == Some(p@),
                None => progress_of(self@, model_id@) is None,
            },
    {
        match self.find(model_id) {
            Some(k) => Some(self.downloads[k].progress.copy()),
            None => None,
        }
    }

    /// Whether the download with the id is under way.
    pub fn is_downloading(&self, model_id: &str) -> (r: bool)
        ensures
            r == (progress_of(self@, model_id@) matches Some(p) && p.status
                == DownloadStatus::Downloading),
    {
        match self.find(model_id) {
            Some(k) => self.downloads[k].progress.status == DownloadStatus::Downloading,
            None => false,
        }
    }

    /// Whether the download with the id was cancelled.
    pub fn is_cancelled(&self, model_id: &str) -> (r: bool)
        ensures
            r == (progress_of(self@, model_id@) matches Some(p) && p.status
                == DownloadStatus::Cancelled),
    {
        match self.find(model_id) {
            Some(k) => self.downloads[k].progress.status == DownloadStatus::Cancelled,
            None => false,
        }
    }

    /// What is known of each download.
    pub fn list_progress(&self) -> (r: Vec<DownloadProgress>)
        ensures
            r@.len() == self@.len(),
            forall|i: int| 0 <= i < r@.len() ==> (#[trigger] r@[i])@ == self@[i].1,
    {
        let mut out: Vec<DownloadProgress> = Vec::new();
        let mut i: usize = 0;
        while i < self.downloads.len()
            invariant
                i <= self.downloads@.len(),
                out@.len() == i,
                forall|j: int| 0 <= j < i ==> (#[trigger] out@[j])@ == self@[j].1,
            decreases self.downloads@.len() - i,
        {
            out.push(self.downloads[i].progress.copy());
            i = i + 1;
        }
        out
    }

    fn put(&mut self, id: &str, progress: DownloadProgress)
        requires
            old(self).wf(),
        ensures
            final(self).wf(),
            final(self)@ == with_progress(old(self)@, id@, progress@),
    {
        proof {
            lemma_entry_place(self@, id@);
        }
        let ghost before = self@;
        let ghost pm = progress@;
        let entry = DownloadEntry { id: id.to_owned(), progress };
        match self.find(id) {
            Some(k) => {
                self.downloads.set(k, entry);
            },
            None => {
                self.downloads.push(entry);
            },
        }
        assert(self@ =~= with_progress(before, id@, pm));
    }

    /// Keeps what is known of a download, under its model's id.
    pub fn set_progress(&mut self, progress: DownloadProgress)
        requires
            old(self).wf(),
        ensures
            final(self).wf(),
            final(self)@ == with_progress(old(self)@, progress@.model_id, progress@),
    {
        let id = progress.model_id.clone();
        self.put(id.as_str(), progress);
    }

    /// Keeps a download that is about to begin, unless the one with its id is still busy.
    pub fn reserve_download(&mut self, progress: DownloadProgress) -> (r: bool)
        requires
            old(self).wf(),
        ensures
            final(self).wf(),
            r == !busy(progress_of(old(self)@, progress@.model_id)),
            final(self)@ == if r {
                with_progress(old(self)@, progress@.model_id, progress@)
            } else {
                old(self)@
            },
    {
        let id = progress.model_id.clone();
        if let Some(k) = self.find(id.as_str()) {
            let status = self.downloads[k].progress.status;
            if status == DownloadStatus::Downloading || (status == DownloadStatus::Cancelled
                && !self.downloads[k].progress.task_exited) {
                return false;
            }
        }
        self.put(id.as_str(), progress);
        true
    }

    /// Changes what is known of the download with the id, where there is one.
    pub fn update_progress(&mut self, model_id: &str, progress: DownloadProgress)
        requires
            old(self).wf(),
        ensures
            final(self).wf(),
            final(self)@ == if progress_of(old(self)@, model_id@) is Some {
                with_progress(old(self)@, model_id@, progress@)
            } else {
                old(self)@
            },
    {
        if self.find(model_id).is_some() {
            self.put(model_id, progress);
        }
    }

    /// Cancels the download with the id. Its task goes on until it notices.
    pub fn cancel_download(&mut self, model_id: &str) -> (r: Result<(), String>)
        requires
            old(self).wf(),
        ensures
            final(self).wf(),
            match progress_of(old(self)@, model_id@) {
                Some(p) => r is Ok && final(self)@ == with_progress(
                    old(self)@,
                    model_id@,
                    cancelled_progress(p),
                ),
                None => r matches Err(e) && e@ == "Download not found"@ && final(self)@ == old(
                    self,
                )@,
            },
    {
        match self.find(model_id) {
            Some(k) => {
                let mut p = self.downloads[k].progress.copy();
                p.status = DownloadStatus::Cancelled;
                self.put(model_id, p);
                Ok(())
            },
            None => Err("Download not found".to_owned()),
        }
    }

    /// Begins a download, unless the one with its id is still busy.
    pub fn begin_download(&mut self, model_id: &str, total_size_hint: u64) -> (r: Result<
        (),
        String,
    >)
        requires
            old(self).wf(),
        ensures
            final(self).wf(),
            match download_begun(old(self)@, model_id@, total_size_hint) {
                Ok(m) => r is Ok && final(self)@ == m,
                Err(m) => r matches Err(e) && e@ == m && final(self)@ == old(self)@,
            },
    {
        if let Some(k) = self.find(model_id) {
            let status = self.downloads[k].progress.status;
            if status == DownloadStatus::Downloading {
                return Err("Download already in progress".to_owned());
            }
            if status == DownloadStatus::Cancelled && !self.downloads[k].progress.task_exited {
                return Err(
                    "Download is being cancelled; wait for it to finish before restarting".to_owned(),
                );
            }
        }
        let p = DownloadProgress {
            model_id: model_id.to_owned(),
            status: DownloadStatus::Downloading,
            bytes_downloaded: 0,
            total_bytes: total_size_hint,
            percent: Percent::Zero,
            speed_bps: None,
            eta_seconds: None,
            error: None,
            task_exited: false,
        };
        self.put(model_id, p);
        Ok(())
    }

    /// Notes that the task of a download ended, well or with an error. One that was cancelled
    /// stays so after an error.
    pub fn end_download(&mut self, model_id: &str, result: Result<(), String>)
        requires
            old(self).wf(),
        ensures
            final(self).wf(),
            final(self)@ == download_ended(
                old(self)@,
                model_id@,
                match result {
                    Ok(_) => None,
                    Err(e) => Some(e@),
                },
            ),
    {
        if let Some(k) = self.find(model_id) {
            let mut p = self.downloads[k].progress.copy();
            match result {
                Ok(_) => {
                    p.status = DownloadStatus::Completed;
                    p.percent = Percent::Full;
                },
                Err(e) => {
                    if p.status != DownloadStatus::Cancelled {
                        p.status = DownloadStatus::Failed;
                    }
                    p.error = Some(e);
                },
            }
            p.task_exited = true;
            self.put(model_id, p);
        }
    }

    /// Notes how many bytes a download has in all.
    pub fn set_total(&mut self, model_id: &str, total: u64)
        requires
            old(self).wf(),
        ensures
            final(self).wf(),
            final(self)@ == match progress_of(old(self)@, model_id@) {
                Some(p) => with_progress(
                    old(self)@,
                    model_id@,
                    sized_progress(p, total),
                ),
                None => old(self)@,
            },
    {
        if let Some(k) = self.find(model_id) {
            let mut p = self.downloads[k].progress.copy();
            p.total_bytes = total;
            self.put(model_id, p);
        }
    }

    /// Notes that a download has more bytes than was known.
    pub fn add_total(&mut self, model_id: &str, more: u64)
        requires
            old(self).wf(),
        ensures
            final(self).wf(),
            final(self)@ == match progress_of(old(self)@, model_id@) {
                Some(p) => with_progress(
                    old(self)@,
                    model_id@,
                    grown_progress(p, more),
                ),
                None => old(self)@,
            },
    {
        if let Some(k) = self.find(model_id) {
            let mut p = self.downloads[k].progress.copy();
            p.total_bytes =
            if p.total_bytes <= u64::MAX - more {
                p.total_bytes + more
            } else {
                u64::MAX
            };
            self.put(model_id, p);
        }
    }

    /// Notes how many bytes of a download have come, and how fast.
    pub fn note_bytes(&mut self, model_id: &str, done: u64, speed_bps: Option<u64>)
        requires
            old(self).wf(),
        ensures
            final(self).wf(),
            final(self)@ == match progress_of(old(self)@, model_id@) {
                Some(p) => with_progress(
                    old(self)@,
                    model_id@,
                    advanced_progress(p, done, speed_bps),
                ),
                None => old(self)@,
            },
    {
        if let Some(k) = self.find(model_id) {
            let mut p = self.downloads[k].progress.copy();
            let total = p.total_bytes;
            p.bytes_downloaded = done;
            p.percent =
            if total > 0 {
                Percent::Ratio { done, total }
            } else {
                Percent::Zero
            };
            p.speed_bps = speed_bps;
            p.eta_seconds =
            match speed_bps {
                Some(speed) => if speed > 0 && total > 0 {
                    let left: u64 = if total > done {
                        total - done
                    } else {
                        0
                    };
                    Some(left / speed)
                } else {
                    None
                },
                None => None,
            };
            self.put(model_id, p);
        }
    }

    /// Forgets the download with the id, once it and its task have ended.
    pub fn clear_completed(&mut self, model_id: &str)
        requires
            old(self).wf(),
        ensures
            final(self).wf(),
            final(self)@ == download_cleared(old(self)@, model_id@),
    {
        proof {
            lemma_entry_place(self@, model_id@);
        }
        if let Some(k) = self.find(model_id) {
            if self.downloads[k].progress.status != DownloadStatus::Downloading
                && self.downloads[k].progress.task_exited {
                let ghost before = self@;
                let _ = self.downloads.remove(k);
                assert(self@ =~= without_progress(before, model_id@));
            }
        }
    }
}

/// A download that was reserved is under way: it cannot be reserved again, nor begun, until its
/// task has ended, whether it is cancelled or not.
pub proof fn law_one_task_per_download(
    m: Seq<(Seq<char>, ProgressModel)>,
    id: Seq<char>,
    total: u64,
)
    requires
        ids_differ(m),
    ensures
        busy(progress_of(with_progress(m, id, fresh_progress(id, total)), id)),
        busy(
            progress_of(
                with_progress(m, id, cancelled_progress(fresh_progress(id, total))),
                id,
            ),
        ),
        forall|p: ProgressModel, error: Option<Seq<char>>|
            !busy(
                progress_of(#[trigger] with_progress(m, id, ended_progress(p, error)), id),
            ),
{
    lemma_entry_place(m, id);
    let k = entry_place(m, id);
    assert forall|p: ProgressModel| progress_of(#[trigger] with_progress(m, id, p), id) == Some(
        p,
    ) by {
        let w = with_progress(m, id, p);
        assert forall|i: int| 0 <= i < k implies (#[trigger] w[i]).0 != id by {
            assert(w[i] == m[i]);
        }
        lemma_place_is(w, id, k);
    }
}

/// A change to one download leaves every other as it was.
pub proof fn law_downloads_are_independent(
    m: Seq<(Seq<char>, ProgressModel)>,
    id: Seq<char>,
    p: ProgressModel,
    other: Seq<char>,
)
    requires
        ids_differ(m),
        other != id,
    ensures
        progress_of(with_progress(m, id, p), other) == progress_of(m, other),
        progress_of(without_progress(m, id), other) == progress_of(m, other),
{
    lemma_entry_place(m, id);
    lemma_entry_place(m, other);
    let k = entry_place(m, id);
    let o = entry_place(m, other);
    let w = with_progress(m, id, p);
    let x = without_progress(m, id);
    if o < m.len() {
        assert forall|i: int| 0 <= i < o implies (#[trigger] w[i]).0 != other by {
            if i != k {
                assert(w[i] == m[i]);
            }
        }
        lemma_place_is(w, other, o);
    } else {
        assert forall|i: int| 0 <= i < w.len() implies (#[trigger] w[i]).0 != other by {
            if i < m.len() && i != k {
                assert(w[i] == m[i]);
            }
        }
        lemma_place_is(w, other, w.len() as int);
    }
    if k < m.len() {
        let target = if o < k {
            o
        } else {
            o - 1
        };
        assert forall|i: int| 0 <= i < target implies (#[trigger] x[i]).0 != other by {
            if i < k {
                assert(x[i] == m[i]);
            } else {
                assert(x[i] == m[i + 1]);
            }
        }
        lemma_place_is(x, other, target);
    }
}

// ---------------------------------------------------------------------------
// One file
// ---------------------------------------------------------------------------

/// How often a file is tried again.
pub const MAX_RETRIES: u32 = 10;

/// How far a file has come.
#[derive(Clone, Copy, PartialEq, Eq, Structural, Debug)]
pub struct FileDownload {
    pub retries: u32,
    /// The bytes of it that are on disk.
    pub file_bytes: u64,
    /// All its bytes; none where that is not known.
    pub file_total: u64,
    /// The bytes of all files of the download.
    pub cumulative_bytes: u64,
}

/// What is to be done next for a file.
#[derive(Debug, PartialEq, Eq)]
pub enum FileStep {
    /// Give the partial file its name; the file is done.
    Finish,
    /// Remove the partial file, then ask for the file.
    Restart,
    /// Ask for the file.
    Request,
    /// Remove the partial file, then write what comes.
    ReceiveAnew,
    /// Write what comes to the end of the partial file.
    Receive,
    /// Wait for so many seconds, then ask again.
    RetryAfter(u64),
    /// Give up, with this error.
    Fail(String),
    /// Remove the partial file and give up, with this error.
    RemoveAndFail(String),
}

#[verifier::ext_equal]
pub enum StepModel {
    Finish,
    Restart,
    Request,
    ReceiveAnew,
    Receive,
    RetryAfter(u64),
    Fail(Seq<char>),
    RemoveAndFail(Seq<char>),
}

impl FileStep {
    pub open spec fn view(&self) -> StepModel {
        match self {
            FileStep::Finish => StepModel::Finish,
            FileStep::Restart => StepModel::Restart,
            FileStep::Request => StepModel::Request,
            FileStep::ReceiveAnew => StepModel::ReceiveAnew,
            FileStep::Receive => StepModel::Receive,
            FileStep::RetryAfter(n) => StepModel::RetryAfter(*n),
            FileStep::Fail(e) => StepModel::Fail(e@),
            FileStep::RemoveAndFail(e) => StepModel::RemoveAndFail(e@),
        }
    }
}

/// The delay before a retry without its upper bound: two seconds before the first, and twice as
/// long before each further one.
pub open spec fn raw_delay(retry: nat) -> nat
    decreases retry,
{
    if retry <= 1 {
        2
    } else {
        2 * raw_delay((retry - 1) as nat)
    }
}

/// The seconds to wait before a retry: a minute at most.
pub open spec fn retry_delay(retry: nat) -> nat {
    if raw_delay(retry) < 60 {
        raw_delay(retry)
    } else {
        60
    }
}

/// The seconds to wait before a retry.
pub fn delay_before(retry: u32) -> (r: u64)
    ensures
        r == retry_delay(retry as nat),
{
    let mut delay: u64 = 2;
    let mut i: u32 = 1;
    proof {
        reveal_with_fuel(raw_delay, 2);
    }
    while i < retry && delay < 60
        invariant
            retry <= 1 ==> i == 1,
            1 <= retry ==> i <= retry,
            i >= 1,
            raw_delay(1) == 2,
            delay == raw_delay(i as nat),
            delay < 120,
        decreases retry - i,
    {
        delay = delay * 2;
        i = i + 1;
    }
    if delay < 60 {
        assert(raw_delay(retry as nat) == delay);
        delay
    } else {
        proof {
            lemma_delay_grows(i as nat, retry as nat);
        }
        60
    }
}

proof fn lemma_delay_grows(a: nat, b: nat)
    requires
        1 <= a <= b,
    ensures
        raw_delay(a) <= raw_delay(b),
    decreases b,
{
    if a < b {
        lemma_delay_grows(a, (b - 1) as nat);
    }
}

/// The waits grow from two seconds, and none is longer than a minute.
pub proof fn law_waits_grow_to_a_minute(a: nat, b: nat)
    requires
        a <= b,
    ensures
        2 <= retry_delay(a) <= retry_delay(b) <= 60,
{
    lemma_delay_at_least(a);
    if a >= 1 {
        lemma_delay_grows(a, b);
    } else if b >= 1 {
        lemma_delay_grows(1, b);
    }
}

proof fn lemma_delay_at_least(a: nat)
    ensures
        raw_delay(a) >= 2,
    decreases a,
{
    if a > 1 {
        lemma_delay_at_least((a - 1) as nat);
    }
}

/// Bytes that are no longer counted.
pub open spec fn less(cumulative: u64, bytes: u64) -> u64 {
    if cumulative > bytes {
        (cumulative - bytes) as u64
    } else {
        0
    }
}

/// A file from its beginning.
pub open spec fn from_scratch(f: FileDownload) -> FileDownload {
    FileDownload {
        file_bytes: 0,
        cumulative_bytes: less(f.cumulative_bytes, f.file_bytes),
        ..f
    }
}

/// A file after some more bytes of it came.
pub open spec fn received(f: FileDownload, length: u64) -> FileDownload {
    FileDownload {
        file_bytes: (f.file_bytes + length) as u64,
        cumulative_bytes: (f.cumulative_bytes + length) as u64,
        ..f
    }
}

/// The part of a file to ask for, where some of it is there.
pub open spec fn range_of(f: FileDownload) -> Option<Seq<char>> {
    if f.file_bytes > 0 {
        Some("bytes="@ + decimal(f.file_bytes as nat) + "-"@)
    } else {
        None
    }
}

/// What becomes of a file when an answer ends, or breaks off.
pub open spec fn answer_ended(f: FileDownload, broken: bool) -> (FileDownload, StepModel) {
    if broken {
        after_failure(
            f,
            "Download failed after "@ + decimal(f.retries as nat)
                + " retries due to stream interruption"@,
        )
    } else {
        (f, StepModel::Finish)
    }
}

/// The size that is learnt from an answer, where it was not known.
pub open spec fn size_learnt(
    f: FileDownload,
    content_range: Option<Seq<char>>,
    content_length: Option<u64>,
) -> Option<u64> {
    if f.file_total == 0 {
        told_size(f.file_bytes, content_range, content_length)
    } else {
        None
    }
}

/// What becomes of a file after a failure that may pass: it is tried again, unless that was done
/// often enough.
pub open spec fn after_failure(f: FileDownload, error: Seq<char>) -> (FileDownload, StepModel) {
    if f.retries >= MAX_RETRIES {
        (f, StepModel::Fail(error))
    } else {
        let g = FileDownload { retries: (f.retries + 1) as u32, ..f };
        (g, StepModel::RetryAfter(retry_delay(g.retries as nat) as u64))
    }
}

/// How a file begins, by what is on disk and what the server said of its size.
pub open spec fn begun(f: FileDownload) -> (FileDownload, StepModel) {
    if f.file_total > 0 && f.file_bytes == f.file_total {
        (f, StepModel::Finish)
    } else if f.file_total > 0 && f.file_bytes > f.file_total {
        (from_scratch(f), StepModel::Restart)
    } else {
        (f, StepModel::Request)
    }
}

/// Whether a status may be another one later: a server error, a timeout, or too many requests.
pub open spec fn transient(status: u16) -> bool {
    500 <= status < 600 || status == 408 || status == 429
}

/// What becomes of a file when the server answers, by the status of the answer.
pub open spec fn answered(f: FileDownload, status: u16, text: Seq<char>) -> (
    FileDownload,
    StepModel,
) {
    if status == 416 {
        if f.file_total > 0 && f.file_bytes == f.file_total {
            (f, StepModel::Finish)
        } else {
            (from_scratch(f), StepModel::Restart)
        }
    } else if !(200 <= status < 300) {
        if transient(status) {
            after_failure(f, "Failed to download: HTTP "@ + text)
        } else {
            (f, StepModel::Fail("Failed to download: HTTP "@ + text))
        }
    } else if f.file_bytes > 0 && status == 200 {
        (from_scratch(f), StepModel::ReceiveAnew)
    } else {
        (f, StepModel::Receive)
    }
}

/// The size of a file that an answer tells: the part of the content range after the last slash
/// where the answer goes on from earlier bytes, else its length.
pub open spec fn told_size(
    file_bytes: u64,
    content_range: Option<Seq<char>>,
    content_length: Option<u64>,
) -> Option<u64> {
    if file_bytes > 0 {
        match content_range {
            Some(s) => parsed_number(after_last_of(s, "/"@)),
            None => None,
        }
    } else {
        content_length
    }
}

impl FileDownload {
    /// How a file begins: `on_disk` bytes of it are there already, and the server says that it has
    /// `size` bytes, or nothing where that is not known.
    pub fn begin(on_disk: u64, size: u64, cumulative_bytes: u64) -> (r: (FileDownload, FileStep))
        ensures
            (r.0, r.1@) == begun(
                FileDownload {
                    retries: 0,
                    file_bytes: on_disk,
                    file_total: size,
                    cumulative_bytes,
                },
            ),
    {
        let mut f = FileDownload {
            retries: 0,
            file_bytes: on_disk,
            file_total: size,
            cumulative_bytes,
        };
        if f.file_total > 0 && f.file_bytes == f.file_total {
            (f, FileStep::Finish)
        } else if f.file_total > 0 && f.file_bytes > f.file_total {
            f.start_over();
            (f, FileStep::Restart)
        } else {
            (f, FileStep::Request)
        }
    }

    fn start_over(&mut self)
        ensures
            *final(self) == from_scratch(*old(self)),
    {
        self.cumulative_bytes =
        if self.cumulative_bytes > self.file_bytes {
            self.cumulative_bytes - self.file_bytes
        } else {
            0
        };
        self.file_bytes = 0;
    }

    /// What to do where a download was cancelled before a request, or while it received.
    pub fn if_cancelled(cancelled: bool) -> (r: Option<FileStep>)
        ensures
            match r {
                Some(s) => cancelled && s@ == StepModel::RemoveAndFail("Download cancelled"@),
                None => !cancelled,
            },
    {
        if cancelled {
            Some(FileStep::RemoveAndFail("Download cancelled".to_owned()))
        } else {
            None
        }
    }

    /// The part of the file to ask for, where some of it is there.
    pub fn range_header(&self) -> (r: Option<String>)
        ensures
            text_opt(r) == range_of(*self),
    {
        if self.file_bytes > 0 {
            let from = decimal_of(self.file_bytes);
            Some(cat3("bytes=", from.as_str(), "-"))
        } else {
            None
        }
    }

    fn failed(&mut self, error: String) -> (r: FileStep)
        ensures
            (*final(self), r@) == after_failure(*old(self), error@),
    {
        if self.retries >= MAX_RETRIES {
            FileStep::Fail(error)
        } else {
            self.retries = self.retries + 1;
            FileStep::RetryAfter(delay_before(self.retries))
        }
    }

    /// The server could not be asked, for this reason.
    pub fn on_connection_error(&mut self, error: &str) -> (r: FileStep)
        ensures
            (*final(self), r@) == after_failure(
                *old(self),
                "Download failed after "@ + decimal(old(self).retries as nat) + " retries: "@
                    + error@,
            ),
    {
        let n = decimal_of(self.retries as u64);
        let mut text = cat3("Download failed after ", n.as_str(), " retries: ");
        text.append(error);
        self.failed(text)
    }

    /// The server answered with a status; `text` is the status as it is written.
    pub fn on_answer(&mut self, status: u16, text: &str) -> (r: FileStep)
        ensures
            (*final(self), r@) == answered(*old(self), status, text@),
    {
        if status == 416 {
            if self.file_total > 0 && self.file_bytes == self.file_total {
                return FileStep::Finish;
            }
            self.start_over();
            return FileStep::Restart;
        }
        if !(200 <= status && status < 300) {
            let error = cat("Failed to download: HTTP ", text);
            if (500 <= status && status < 600) || status == 408 || status == 429 {
                return self.failed(error);
            }
            return FileStep::Fail(error);
        }
        if self.file_bytes > 0 && status == 200 {
            self.start_over();
            return FileStep::ReceiveAnew;
        }
        FileStep::Receive
    }

    /// The server answered with a status. Nothing happens where the number is no status.
    pub fn on_status(&mut self, status: u16) -> (r: Option<FileStep>)
        ensures
            match status_written(status) {
                Some(t) => r matches Some(s) && (*final(self), s@) == answered(
                    *old(self),
                    status,
                    t,
                ),
                None => r is None && *final(self) == *old(self),
            },
    {
        match status_text(status) {
            Some(t) => Some(self.on_answer(status, t.as_str())),
            None => None,
        }
    }

    /// Learns the size of the file from an answer, where it was not known. Returns the size that
    /// is to be added to the download's.
    pub fn learn_size(&mut self, content_range: &Option<String>, content_length: Option<u64>) -> (r:
        Option<u64>)
        ensures
            r == size_learnt(*old(self), text_opt(*content_range), content_length),
            *final(self) == (FileDownload {
                file_total: match r {
                    Some(t) => t,
                    None => old(self).file_total,
                },
                ..*old(self)
            }),
    {
        if self.file_total != 0 {
            return None;
        }
        let told = if self.file_bytes > 0 {
            match content_range {
                Some(s) => {
                    let last = after_last(s.as_str(), "/");
                    parse_number(last.as_str())
                },
                None => None,
            }
        } else {
            content_length
        };
        if let Some(t) = told {
            self.file_total = t;
        }
        told
    }

    /// The length to cut the partial file to, where it is another one than the file has come to.
    pub fn cut_to(&self, on_disk: u64) -> (r: Option<u64>)
        ensures
            r == if on_disk != self.file_bytes {
                Some(self.file_bytes)
            } else {
                None
            },
    {
        if on_disk != self.file_bytes {
            Some(self.file_bytes)
        } else {
            None
        }
    }

    /// Some bytes came and were written.
    pub fn on_chunk(&mut self, length: u64)
        requires
            old(self).file_bytes + length <= u64::MAX,
            old(self).cumulative_bytes + length <= u64::MAX,
        ensures
            *final(self) == received(*old(self), length),
    {
        self.file_bytes = self.file_bytes + length;
        self.cumulative_bytes = self.cumulative_bytes + length;
    }

    /// The answer ended, or broke off.
    pub fn on_end(&mut self, broken: bool) -> (r: FileStep)
        ensures
            (*final(self), r@) == answer_ended(*old(self), broken),
    {
        if broken {
            let n = decimal_of(self.retries as u64);
            self.failed(
                cat3("Download failed after ", n.as_str(), " retries due to stream interruption"),
            )
        } else {
            FileStep::Finish
        }
    }
}

/// A file is tried again ten times at most: each failure that may pass counts, and after the
/// tenth retry the next one is final.
pub proof fn law_retries_are_bounded(f: FileDownload, status: u16, text: Seq<char>, error: Seq<char>)
    requires
        f.retries <= MAX_RETRIES,
    ensures
        after_failure(f, error).0.retries <= MAX_RETRIES,
        answered(f, status, text).0.retries <= MAX_RETRIES,
        after_failure(f, error).1 is RetryAfter ==> after_failure(f, error).0.retries == f.retries
            + 1,
        f.retries == MAX_RETRIES ==> after_failure(f, error).1 is Fail,
{
}

/// No answer but a success is ever written, and a file of which nothing more is written is given its
/// name only where all of it is there.
pub proof fn law_only_successes_are_written(f: FileDownload, status: u16, text: Seq<char>)
    ensures
        answered(f, status, text).1 is Receive || answered(f, status, text).1 is ReceiveAnew
            ==> 200 <= status < 300,
        answered(f, status, text).1 is Finish ==> f.file_total > 0 && f.file_bytes == f.file_total,
        begun(f).1 is Finish ==> f.file_total > 0 && f.file_bytes == f.file_total,
{
}

/// Bytes are never counted twice: starting over takes off what the file had contributed.
pub proof fn law_starting_over_uncounts_bytes(f: FileDownload, others: u64)
    requires
        f.cumulative_bytes == others + f.file_bytes,
    ensures
        from_scratch(f).cumulative_bytes == others,
        from_scratch(f).file_bytes == 0,
{
}

// ---------------------------------------------------------------------------
// Several files
// ---------------------------------------------------------------------------

pub open spec fn sum_of(v: Seq<u64>) -> nat
    decreases v.len(),
{
    if v.len() == 0 {
        0
    } else {
        sum_of(v.drop_last()) + v.last() as nat
    }
}

proof fn lemma_sum_grows(v: Seq<u64>, k: int)
    requires
        0 <= k <= v.len(),
    ensures
        sum_of(v.take(k)) <= sum_of(v),
    decreases v.len() - k,
{
    if k < v.len() {
        lemma_sum_grows(v, k + 1);
        assert(v.take(k + 1).drop_last() =~= v.take(k));
    } else {
        assert(v.take(k) =~= v);
    }
}

/// The sum of some sizes.
pub fn total_of(sizes: &Vec<u64>) -> (r: u64)
    requires
        sum_of(sizes@) <= u64::MAX,
    ensures
        r == sum_of(sizes@),
{
    let mut total: u64 = 0;
    let mut i: usize = 0;
    assert(sum_of(sizes@.take(0)) == 0);
    while i < sizes.len()
        invariant
            i <= sizes@.len(),
            sum_of(sizes@) <= u64::MAX,
            total == sum_of(sizes@.take(i as int)),
        decreases sizes@.len() - i,
    {
        proof {
            lemma_sum_grows(sizes@, i + 1);
        }
        assert(sizes@.take(i + 1).drop_last() =~= sizes@.take(i as int));
        total = total + sizes[i];
        i = i + 1;
    }
    assert(sizes@.take(i as int) =~= sizes@);
    total
}

/// The size of a download by the sizes of its files, where all are known.
pub open spec fn size_of_all(sizes: Seq<u64>) -> Option<u64> {
    if sum_of(sizes) > 0 && (forall|i: int| 0 <= i < sizes.len() ==> #[trigger] sizes[i] > 0) {
        Some(sum_of(sizes) as u64)
    } else {
        None
    }
}

/// The size of a download by the sizes that the server told of its files; nothing where one of
/// them is not known, which is told by 0.
pub fn resolved_total(sizes: &Vec<u64>) -> (r: Option<u64>)
    requires
        sum_of(sizes@) <= u64::MAX,
    ensures
        r == size_of_all(sizes@),
{
    let mut i: usize = 0;
    while i < sizes.len()
        invariant
            i <= sizes@.len(),
            forall|j: int| 0 <= j < i ==> #[trigger] sizes@[j] > 0,
        decreases sizes@.len() - i,
    {
        if sizes[i] == 0 {
            return None;
        }
        i = i + 1;
    }
    let total = total_of(sizes);
    if total > 0 {
        Some(total)
    } else {
        None
    }
}

/// The bytes of a file that are there before a download.
pub open spec fn bytes_there(complete: Option<u64>, partial: Option<u64>) -> u64 {
    match complete {
        Some(n) => n,
        None => match partial {
            Some(n) => n,
            None => 0,
        },
    }
}

/// The bytes of a file that are there before a download: those of the file, where it is complete,
/// else those of its partial file.
pub fn bytes_present(complete: Option<u64>, partial: Option<u64>) -> (r: u64)
    ensures
        r == bytes_there(complete, partial),
{
    match complete {
        Some(n) => n,
        None => match partial {
            Some(n) => n,
            None => 0,
        },
    }
}

/// What to do with the next file of a download.
#[derive(Debug, PartialEq, Eq)]
pub enum NextFile {
    /// The download was cancelled: this is its error.
    Cancelled(String),
    /// The file is there.
    Skip,
    Fetch,
}

/// What to do with the next file of a download.
pub fn next_file(cancelled: bool, exists_already: bool) -> (r: NextFile)
    ensures
        r is Cancelled <==> cancelled,
        r is Skip <==> !cancelled && exists_already,
        r is Fetch <==> !cancelled && !exists_already,
        r matches NextFile::Cancelled(e) ==> e@ == "Download cancelled"@,
{
    if cancelled {
        NextFile::Cancelled("Download cancelled".to_owned())
    } else if exists_already {
        NextFile::Skip
    } else {
        NextFile::Fetch
    }
}

/// The authorization to send.
pub open spec fn bearer_of(token: Option<Seq<char>>) -> Option<Seq<char>> {
    match token {
        Some(t) => if t.len() > 0 {
            Some("Bearer "@ + t)
        } else {
            None
        },
        None => None,
    }
}

/// The authorization to send, where a token is given.
pub fn authorization(token: &Option<String>) -> (r: Option<String>)
    ensures
        text_opt(r) == bearer_of(text_opt(*token)),
{
    match token {
        Some(t) => if t.as_str().is_empty() {
            None
        } else {
            Some(cat("Bearer ", t.as_str()))
        },
        None => None,
    }
}

/// What is noted of a download is what is known of it afterwards, and a download that was forgotten
/// is not known.
pub proof fn law_progress_is_read_back(
    m: Seq<(Seq<char>, ProgressModel)>,
    id: Seq<char>,
    p: ProgressModel,
)
    requires
        ids_differ(m),
    ensures
        progress_of(with_progress(m, id, p), id) == Some(p),
        progress_of(without_progress(m, id), id) is None,
{
    lemma_entry_place(m, id);
    let k = entry_place(m, id);
    let w = with_progress(m, id, p);
    assert forall|i: int| 0 <= i < k implies (#[trigger] w[i]).0 != id by {
        assert(w[i] == m[i]);
    }
    lemma_place_is(w, id, k);
    let x = without_progress(m, id);
    assert forall|i: int| 0 <= i < x.len() implies (#[trigger] x[i]).0 != id by {
        if k < m.len() {
            if i < k {
                assert(x[i] == m[i]);
            } else {
                assert(x[i] == m[i + 1]);
                assert(m[k].0 != m[i + 1].0);
            }
        } else {
            assert(x[i] == m[i]);
        }
    }
    lemma_place_is(x, id, x.len() as int);
}

/// How a download ends. After a task that ended well it is complete, all of it; it has failed only
/// where the task ended with an error and nobody had cancelled it, and one that was cancelled stays
/// so after an error. Either way its task is over, and the error is kept.
pub proof fn law_how_downloads_end(p: ProgressModel, error: Option<Seq<char>>)
    ensures
        error is None ==> ended_progress(p, error).status == DownloadStatus::Completed
            && ended_progress(p, error).percent == Percent::Full && ended_progress(p, error).error
            == p.error,
        ended_progress(p, error).status == DownloadStatus::Failed <==> error is Some && p.status
            != DownloadStatus::Cancelled,
        ended_progress(p, error).status == DownloadStatus::Cancelled <==> error is Some && p.status
            == DownloadStatus::Cancelled,
        error is Some ==> ended_progress(p, error).error == error && ended_progress(
            p,
            error,
        ).percent == p.percent,
        ended_progress(p, error).task_exited,
        ended_progress(p, error).model_id == p.model_id,
        ended_progress(p, error).bytes_downloaded == p.bytes_downloaded,
        ended_progress(p, error).total_bytes == p.total_bytes,
{
}

/// A download begins with nothing done, nothing wrong, and a task that runs. It can be cancelled,
/// which ends neither its task nor what was counted; it is forgotten only after both have ended.
pub proof fn law_downloads_begin_run_and_go(id: Seq<char>, total: u64, error: Option<Seq<char>>)
    ensures
        ({
            let fresh = fresh_progress(id, total);
            &&& fresh.model_id == id
            &&& fresh.status == DownloadStatus::Downloading
            &&& fresh.bytes_downloaded == 0
            &&& fresh.total_bytes == total
            &&& fresh.error is None
            &&& !fresh.task_exited
            &&& !over(Some(fresh))
            &&& !over(Some(cancelled_progress(fresh)))
            &&& over(Some(ended_progress(fresh, error)))
            &&& over(Some(ended_progress(cancelled_progress(fresh), error)))
            &&& error is Some ==> ended_progress(cancelled_progress(fresh), error).status
                == DownloadStatus::Cancelled
        }),
        !over(None),
        !busy(None),
{
}

/// Cancelling changes nothing of a download but that it is cancelled.
pub proof fn law_cancelling_marks_the_download(p: ProgressModel)
    ensures
        cancelled_progress(p).status == DownloadStatus::Cancelled,
        cancelled_progress(p).task_exited == p.task_exited,
        cancelled_progress(p).bytes_downloaded == p.bytes_downloaded,
        cancelled_progress(p).total_bytes == p.total_bytes,
        cancelled_progress(p).error == p.error,
        cancelled_progress(p).model_id == p.model_id,
{
}

/// A download may be started again once it is neither under way nor waiting for its cancelled task:
/// after it failed or was complete, and after it was cancelled and its task ended.
pub proof fn law_when_downloads_may_start_again(p: ProgressModel)
    ensures
        busy(Some(p)) <==> p.status == DownloadStatus::Downloading || (p.status
            == DownloadStatus::Cancelled && !p.task_exited),
        p.status == DownloadStatus::Completed || p.status == DownloadStatus::Failed ==> !busy(
            Some(p),
        ),
        p.task_exited && p.status != DownloadStatus::Downloading ==> !busy(Some(p)) && over(Some(p)),
{
}

/// The rest of a download is what is not there yet, at the speed it comes with: whole seconds, and
/// none where all is there. Nothing is said where the speed or the size is not known.
pub proof fn law_the_rest_takes_its_time(total: u64, done: u64, speed: u64)
    ensures
        eta(total, done, None) is None,
        eta(total, done, Some(0)) is None,
        eta(0, done, Some(speed)) is None,
        speed > 0 && total > 0 ==> (eta(total, done, Some(speed)) matches Some(t) && {
            &&& done >= total ==> t == 0
            &&& done < total ==> t * speed <= total - done < (t + 1) * speed
        }),
{
    if speed > 0 && total > 0 {
        let rest: int = if total > done {
            total - done
        } else {
            0
        };
        let s = speed as int;
        let t = rest / s;
        assert(t * s <= rest < (t + 1) * s && 0 <= t <= rest) by (nonlinear_arith)
            requires
                rest >= 0,
                s > 0,
                t == rest / s,
        {}
        if rest == 0 {
            assert(t == 0);
        }
    }
}

/// Bytes that came are noted as they were counted, of as many as there are, and change nothing of
/// how the download stands.
pub proof fn law_bytes_are_noted(p: ProgressModel, done: u64, speed: Option<u64>)
    ensures
        advanced_progress(p, done, speed).bytes_downloaded == done,
        advanced_progress(p, done, speed).speed_bps == speed,
        advanced_progress(p, done, speed).status == p.status,
        advanced_progress(p, done, speed).task_exited == p.task_exited,
        advanced_progress(p, done, speed).total_bytes == p.total_bytes,
        advanced_progress(p, done, speed).error == p.error,
        p.total_bytes > 0 ==> advanced_progress(p, done, speed).percent == (Percent::Ratio {
            done,
            total: p.total_bytes,
        }),
        p.total_bytes == 0 ==> advanced_progress(p, done, speed).percent == Percent::Zero
            && advanced_progress(p, done, speed).eta_seconds is None,
{
}

/// The size of a download is what it was set to, and grows by what more becomes known, as far as
/// that can be counted; nothing else changes.
pub proof fn law_sizes_are_noted(p: ProgressModel, total: u64, more: u64)
    ensures
        sized_progress(p, total).total_bytes == total,
        sized_progress(p, total).status == p.status,
        sized_progress(p, total).bytes_downloaded == p.bytes_downloaded,
        p.total_bytes + more <= u64::MAX ==> grown_progress(p, more).total_bytes == p.total_bytes
            + more,
        grown_progress(p, more).total_bytes >= p.total_bytes,
        grown_progress(p, more).status == p.status,
        grown_progress(p, more).bytes_downloaded == p.bytes_downloaded,
{
}

/// A file that is not a partial download is never removed, and a partial download is removed
/// wherever the file that it would become is not registered.
pub proof fn law_orphans_are_partial_downloads(path: Seq<char>, registered: Seq<Seq<char>>)
    ensures
        extension_of(path) != Some("part"@) ==> !orphaned(path, registered),
        extension_of(path) == Some("part"@) && (forall|i: int|
            0 <= i < registered.len() ==> !same_path(
                without_extension(path),
                #[trigger] registered[i],
            )) ==> orphaned(path, registered),
{
}

/// A file that is there whole is not asked for; one of which there is too much is begun anew; and
/// else the rest is asked for, from the first byte that is missing.
pub proof fn law_how_files_begin(f: FileDownload)
    ensures
        begun(f).1 is Finish <==> f.file_total > 0 && f.file_bytes == f.file_total,
        begun(f).1 is Restart <==> f.file_total > 0 && f.file_bytes > f.file_total,
        begun(f).1 is Request <==> f.file_total == 0 || f.file_bytes < f.file_total,
        begun(f).1 is Restart ==> begun(f).0.file_bytes == 0,
        !(begun(f).1 is Restart) ==> begun(f).0 == f,
        range_of(f) is Some <==> f.file_bytes > 0,
        f.file_bytes > 0 ==> has_text(range_of(f)->0, decimal(f.file_bytes as nat)) && begins(
            range_of(f)->0,
            "bytes="@,
        ),
{
    let d = decimal(f.file_bytes as nat);
    lemma_has_text("bytes="@, d, "-"@);
    assert(("bytes="@ + d + "-"@).take("bytes="@.len() as int) =~= "bytes="@);
    assert(("bytes="@ + d + "-"@).subrange(0, "bytes="@.len() as int) =~= "bytes="@);
}

/// What an answer of the server means. A success is written: after what is there where it goes on
/// from that, and from the beginning where it holds all of the file. A range that cannot be given
/// ends a file that is whole and restarts any other. A failure that may pass is tried again, as
/// long as tries are left; any other is final at once.
pub proof fn law_what_answers_mean(f: FileDownload, status: u16, text: Seq<char>)
    ensures
        ({
            let (g, step) = answered(f, status, text);
            let success = 200 <= status < 300;
            let passing = 500 <= status < 600 || status == 408 || status == 429;
            &&& step is ReceiveAnew <==> status == 200 && f.file_bytes > 0
            &&& step is Receive <==> success && !(status == 200 && f.file_bytes > 0)
            &&& step is ReceiveAnew ==> g.file_bytes == 0
            &&& step is Receive ==> g == f
            &&& status == 416 && f.file_total > 0 && f.file_bytes == f.file_total <==> step
                is Finish
            &&& status == 416 && !(f.file_total > 0 && f.file_bytes == f.file_total) <==> step
                is Restart
            &&& step is Restart ==> g.file_bytes == 0
            &&& step is RetryAfter <==> passing && f.retries < MAX_RETRIES
            &&& step is Fail <==> !success && status != 416 && !(passing && f.retries
                < MAX_RETRIES)
            &&& step matches StepModel::Fail(e) ==> has_text(e, text)
            &&& step is Fail ==> g == f
        }),
{
    lemma_has_text("Failed to download: HTTP "@, text, Seq::empty());
}

/// A failure that may pass is tried again ten times, each time after a longer wait up to a minute,
/// and what is there of the file is kept meanwhile.
pub proof fn law_failures_are_tried_again(f: FileDownload, error: Seq<char>)
    ensures
        after_failure(f, error).1 is RetryAfter <==> f.retries < 10,
        after_failure(f, error).1 == StepModel::Fail(error) <==> f.retries >= 10,
        after_failure(f, error).0.file_bytes == f.file_bytes,
        after_failure(f, error).0.cumulative_bytes == f.cumulative_bytes,
        after_failure(f, error).0.file_total == f.file_total,
        answer_ended(f, true).1 is RetryAfter <==> f.retries < 10,
        answer_ended(f, true).1 is Fail <==> f.retries >= 10,
        answer_ended(f, false).1 is Finish,
        answer_ended(f, false).0 == f,
{
}

/// The first wait is of two seconds, and each is twice the one before it, up to a minute.
pub proof fn law_waits_double(retry: nat)
    requires
        retry >= 1,
    ensures
        retry_delay(1) == 2,
        retry_delay(retry) < 30 ==> retry_delay(retry + 1) == 2 * retry_delay(retry),
        retry_delay(retry) >= 30 ==> retry_delay(retry + 1) == 60,
{
    reveal_with_fuel(raw_delay, 2);
    assert(raw_delay(retry + 1) == 2 * raw_delay(retry));
}

/// Bytes that came count once for their file and once for the download; a file begun anew keeps
/// nothing of its own and takes nothing from the others.
pub proof fn law_received_bytes_count_once(f: FileDownload, length: u64)
    requires
        f.file_bytes + length <= u64::MAX,
        f.cumulative_bytes + length <= u64::MAX,
        f.file_bytes <= f.cumulative_bytes,
    ensures
        received(f, length).file_bytes == f.file_bytes + length,
        received(f, length).cumulative_bytes == f.cumulative_bytes + length,
        received(f, length).retries == f.retries,
        received(f, length).file_total == f.file_total,
        from_scratch(received(f, length)).cumulative_bytes == from_scratch(f).cumulative_bytes,
        from_scratch(f).cumulative_bytes + f.file_bytes == f.cumulative_bytes,
        from_scratch(f).retries == f.retries,
        from_scratch(f).file_total == f.file_total,
{
}

/// A size that is known stays; one that is not is learnt from the range where the answer goes on
/// from earlier bytes, and from the length of the answer where it is of the whole file.
pub proof fn law_sizes_are_learnt_once(
    f: FileDownload,
    content_range: Option<Seq<char>>,
    content_length: Option<u64>,
)
    ensures
        f.file_total > 0 ==> size_learnt(f, content_range, content_length) is None,
        f.file_total == 0 && f.file_bytes == 0 ==> size_learnt(f, content_range, content_length)
            == content_length,
        f.file_total == 0 && f.file_bytes > 0 && content_range is None ==> size_learnt(
            f,
            content_range,
            content_length,
        ) is None,
        f.file_total == 0 && f.file_bytes > 0 && content_range is Some ==> size_learnt(
            f,
            content_range,
            content_length,
        ) == parsed_number(after_last_of(content_range->0, "/"@)),
{
}

/// A sum goes up by each size, wherever it stands.
pub proof fn law_sums_add_up(a: Seq<u64>, b: Seq<u64>)
    ensures
        sum_of(a + b) == sum_of(a) + sum_of(b),
    decreases b.len(),
{
    if b.len() > 0 {
        law_sums_add_up(a, b.drop_last());
        assert((a + b).drop_last() =~= a + b.drop_last());
        assert((a + b).last() == b.last());
    } else {
        assert(a + b =~= a);
    }
}

/// A file that is complete counts with all its bytes, any other with those of its partial file.
pub proof fn law_which_bytes_are_there(complete: Option<u64>, partial: Option<u64>)
    ensures
        complete matches Some(n) ==> bytes_there(complete, partial) == n,
        complete is None ==> (partial matches Some(n) ==> bytes_there(complete, partial) == n),
        bytes_there(None, None) == 0,
{
}

/// The size of a download is known only where that of every file is, and is then their sum.
pub proof fn law_sizes_are_known_together(sizes: Seq<u64>, i: int)
    requires
        sum_of(sizes) <= u64::MAX,
    ensures
        0 <= i < sizes.len() && sizes[i] == 0 ==> size_of_all(sizes) is None,
        sizes.len() == 0 ==> size_of_all(sizes) is None,
        size_of_all(sizes) matches Some(n) ==> n == sum_of(sizes) && n > 0,
        sizes.len() > 0 && (forall|k: int| 0 <= k < sizes.len() ==> #[trigger] sizes[k] > 0)
            ==> size_of_all(sizes) is Some,
{
    if sizes.len() > 0 && (forall|k: int| 0 <= k < sizes.len() ==> #[trigger] sizes[k] > 0) {
        assert(sizes.last() == sizes[sizes.len() - 1]);
        assert(sum_of(sizes) >= sizes.last());
    }
}

/// A token is sent as it is, and none where there is none or it is empty.
pub proof fn law_tokens_are_sent(token: Seq<char>)
    ensures
        bearer_of(None) is None,
        token.len() == 0 ==> bearer_of(Some(token)) is None,
        token.len() > 0 ==> (bearer_of(Some(token)) matches Some(a) && begins(a, "Bearer "@) && a.skip(
            "Bearer "@.len() as int,
        ) == token),
{
    let a = "Bearer "@ + token;
    assert(a.subrange(0, "Bearer "@.len() as int) =~= "Bearer "@);
    assert(a.skip("Bearer "@.len() as int) =~= token);
}

/// The life of a download: it begins unless it is under way or waits for its cancelled task, and is
/// then under way; it cannot begin a second time; when its task ends it is complete, or has failed
/// with the error; then it can begin again, and can be forgotten, which it cannot be before.
pub proof fn law_the_life_of_a_download(
    m: Seq<(Seq<char>, ProgressModel)>,
    id: Seq<char>,
    total: u64,
    error: Option<Seq<char>>,
)
    requires
        ids_differ(m),
    ensures
        progress_of(m, id) is None ==> download_begun(m, id, total) is Ok,
        download_begun(m, id, total) is Err <==> (progress_of(m, id) matches Some(p) && (p.status
            == DownloadStatus::Downloading || (p.status == DownloadStatus::Cancelled
            && !p.task_exited))),
        download_begun(m, id, total) matches Ok(a) ==> {
            let b = download_ended(a, id, error);
            &&& progress_of(a, id) matches Some(p) && p.status == DownloadStatus::Downloading
                && p.total_bytes == total && !p.task_exited
            &&& download_begun(a, id, total) is Err
            &&& download_cleared(a, id) == a
            &&& progress_of(b, id) matches Some(q) && q.task_exited && q.error == error && q.status
                == if error is None {
                DownloadStatus::Completed
            } else {
                DownloadStatus::Failed
            }
            &&& download_begun(b, id, total) is Ok
            &&& progress_of(download_cleared(b, id), id) is None
        },
{
    let fresh = fresh_progress(id, total);
    law_progress_is_read_back(m, id, fresh);
    if download_begun(m, id, total) is Ok {
        let a = with_progress(m, id, fresh);
        lemma_ids_stay_apart(m, id, fresh);
        let b = with_progress(a, id, ended_progress(fresh, error));
        law_progress_is_read_back(a, id, ended_progress(fresh, error));
        lemma_ids_stay_apart(a, id, ended_progress(fresh, error));
        law_progress_is_read_back(b, id, fresh);
    }
}

proof fn lemma_ids_stay_apart(
    m: Seq<(Seq<char>, ProgressModel)>,
    id: Seq<char>,
    p: ProgressModel,
)
    requires
        ids_differ(m),
    ensures
        ids_differ(with_progress(m, id, p)),
{
    lemma_entry_place(m, id);
    let k = entry_place(m, id);
    let w = with_progress(m, id, p);
    assert forall|i: int, j: int| 0 <= i < j < w.len() implies w[i].0 != w[j].0 by {
        if k < m.len() {
            assert(w[i].0 == m[i].0);
            assert(w[j].0 == m[j].0);
        } else if j == m.len() {
            assert(w[i] == m[i]);
        }
    }
}

} // verus!
