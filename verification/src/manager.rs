//! The download orchestrator: duplicate-job rejection over a set of
//! in-flight job keys, a bounded pool of concurrency slots, the pipeline
//! stage machine each job steps through, and the on-disk layout of a
//! gallery's files.
//!
//! The orchestrator decides; performing the stages (network fetches, file
//! writes, the catalog call) is the caller's business. It reports each
//! stage's outcome as an event and the machine yields the next stage.

use vstd::prelude::*;
use vstd::string::*;

use crate::text::{ext_of_path, extension_of, replace_chars, replace_all, str_eq};

verus! {

/// Rejection of a job submission: the same key is already in flight.
#[derive(PartialEq, Eq, Structural, Clone, Copy, Debug)]
pub enum SubmitError {
    AlreadyInProgress,
}

impl SubmitError {
    /// A human-readable description.
    pub fn message(&self) -> (r: &'static str)
        ensures
            r@ == "download job is already in progress"@,
    {
        "download job is already in progress"
    }
}

/// The canonical job key of a requested gallery page address: the host is
/// rewritten to the configured site variant, so the same gallery under
/// either host yields one key.
pub open spec fn normalized_key(is_exhentai: bool, url: Seq<char>) -> Seq<char> {
    if is_exhentai {
        replace_chars(url, "e-hentai.org"@, "exhentai.org"@)
    } else {
        replace_chars(url, "exhentai.org"@, "e-hentai.org"@)
    }
}

/// The orchestrator's state: the site variant, the archive output root,
/// the concurrency cap, how many slots are held, and the in-flight keys.
pub struct DownloadManager {
    is_exhentai: bool,
    output: String,
    limit: usize,
    slots_held: usize,
    active_tasks: Vec<String>,
}

impl DownloadManager {
    /// Whether the variant site is configured.
    pub closed spec fn site_is_variant(&self) -> bool {
        self.is_exhentai
    }

    /// The archive output root.
    pub closed spec fn output_root(&self) -> Seq<char> {
        self.output@
    }

    /// The configured concurrency cap.
    pub closed spec fn slot_limit(&self) -> int {
        self.limit as int
    }

    /// How many concurrency slots are held right now.
    pub closed spec fn slots_in_use(&self) -> int {
        self.slots_held as int
    }

    /// The in-flight job keys.
    pub closed spec fn active_keys(&self) -> Seq<Seq<char>> {
        self.active_tasks@.map_values(|s: String| s@)
    }

    /// Whether a job with key `k` is in flight.
    pub open spec fn holds_key(&self, k: Seq<char>) -> bool {
        self.active_keys().contains(k)
    }

    /// Well-formedness: in-flight keys are unique and no more slots are
    /// held than the configured cap allows.
    pub closed spec fn wf(&self) -> bool {
        &&& self.active_keys().no_duplicates()
        &&& self.slots_held <= self.limit
    }

    /// Whether `self` and `other` agree on configuration.
    pub open spec fn same_config(&self, other: &DownloadManager) -> bool {
        &&& self.site_is_variant() == other.site_is_variant()
        &&& self.output_root() == other.output_root()
        &&& self.slot_limit() == other.slot_limit()
    }

    /// A fresh orchestrator: nothing in flight, no slot held.
    pub fn new(is_exhentai: bool, output: String, limit: usize) -> (r: DownloadManager)
        ensures
            r.wf(),
            r.site_is_variant() == is_exhentai,
            r.output_root() == output@,
            r.slot_limit() == limit as int,
            r.slots_in_use() == 0,
            r.active_keys() =~= Seq::<Seq<char>>::empty(),
    {
        let r = DownloadManager {
            is_exhentai,
            output,
            limit,
            slots_held: 0,
            active_tasks: Vec::new(),
        };
        proof {
            assert(r.active_keys() =~= Seq::<Seq<char>>::empty());
        }
        r
    }

    /// Rewrites a page address to the canonical job key for the
    /// configured site variant.
    pub fn normalize_url(&self, url: &str) -> (r: String)
        ensures
            r@ == normalized_key(self.site_is_variant(), url@),
    {
        proof {
            reveal_strlit("e-hentai.org");
            reveal_strlit("exhentai.org");
        }
        if self.is_exhentai {
            replace_all(url, "e-hentai.org", "exhentai.org")
        } else {
            replace_all(url, "exhentai.org", "e-hentai.org")
        }
    }

    /// Accepts or rejects a job: the address is normalized to its key,
    /// and the key is checked against the in-flight set and inserted in
    /// one step. A key already in flight is rejected with no side effect;
    /// once a prior job with the key reaches a terminal state the key is
    /// accepted again.
    pub fn submit(&mut self, url: &str) -> (r: Result<String, SubmitError>)
        requires
            old(self).wf(),
        ensures
            final(self).wf(),
            final(self).same_config(old(self)),
            final(self).slots_in_use() == old(self).slots_in_use(),
            r is Err <==> old(self).holds_key(
                normalized_key(old(self).site_is_variant(), url@),
            ),
            r is Err ==> r->Err_0 == SubmitError::AlreadyInProgress && *final(self) == *old(self),
            r matches Ok(k) ==> {
                &&& k@ == normalized_key(old(self).site_is_variant(), url@)
                &&& final(self).holds_key(k@)
                &&& forall|q: Seq<char>|
                    q != k@ ==> final(self).holds_key(q) == old(self).holds_key(q)
            },
    {
        let key = self.normalize_url(url);
        if self.contains_key(key.as_str()) {
            return Err(SubmitError::AlreadyInProgress);
        }
        let ghost keys0 = self.active_keys();
        let out = key.clone();
        self.active_tasks.push(key);
        proof {
            assert(self.active_keys() =~= keys0.push(out@));
            assert(self.active_keys().contains(out@)) by {
                assert(self.active_keys()[keys0.len() as int] == out@);
            }
            assert forall|q: Seq<char>| q != out@ implies self.holds_key(q) == old(
                self,
            ).holds_key(q) by {
                if keys0.contains(q) {
                    let w = choose|w: int| 0 <= w < keys0.len() && keys0[w] == q;
                    assert(self.active_keys()[w] == q);
                }
                if self.active_keys().contains(q) {
                    let w = choose|w: int|
                        0 <= w < self.active_keys().len() && self.active_keys()[w] == q;
                    assert(keys0[w] == q);
                }
            }
            assert(self.active_keys().no_duplicates()) by {
                assert(forall|a: int, b: int|
                    0 <= a < b < keys0.len() ==> keys0[a] != keys0[b]);
                assert(forall|a: int|
                    0 <= a < keys0.len() ==> self.active_keys()[a] == keys0[a]);
                assert(!keys0.contains(out@));
            }
        }
        Ok(out)
    }

    /// Whether a job with exactly this key is in flight.
    pub fn contains_key(&self, key: &str) -> (r: bool)
        ensures
            r == self.holds_key(key@),
    {
        let n = self.active_tasks.len();
        for i in 0..n
            invariant
                n == self.active_tasks@.len(),
                forall|j: int| 0 <= j < i ==> (#[trigger] self.active_tasks@[j])@ != key@,
        {
            if str_eq(self.active_tasks[i].as_str(), key) {
                proof {
                    assert(self.active_keys()[i as int] == key@);
                }
                return true;
            }
        }
        proof {
            if self.holds_key(key@) {
                let w = choose|w: int|
                    0 <= w < self.active_keys().len() && self.active_keys()[w] == key@;
                assert(self.active_tasks@[w]@ == key@);
            }
        }
        false
    }

    /// Releases a job key: the job reached a terminal state (success or
    /// failure), so the same gallery may be submitted again.
    pub fn finish(&mut self, key: &str)
        requires
            old(self).wf(),
        ensures
            final(self).wf(),
            final(self).same_config(old(self)),
            final(self).slots_in_use() == old(self).slots_in_use(),
            !final(self).holds_key(key@),
            forall|q: Seq<char>| q != key@ ==> final(self).holds_key(q) == old(self).holds_key(q),
    {
        let n = self.active_tasks.len();
        let mut i: usize = 0;
        while i < n
            invariant
                n == self.active_tasks@.len(),
                i <= n,
                *self == *old(self),
                old(self).wf(),
                forall|j: int| 0 <= j < i ==> (#[trigger] self.active_tasks@[j])@ != key@,
            decreases n - i,
        {
            if str_eq(self.active_tasks[i].as_str(), key) {
                let ghost keys0 = self.active_keys();
                self.active_tasks.remove(i);
                proof {
                    let keys1 = self.active_keys();
                    assert(keys1 =~= keys0.remove(i as int));
                    assert forall|q: Seq<char>| true implies (keys1.contains(q) <==> (
                    keys0.contains(q) && q != keys0[i as int])) by {
                        if keys1.contains(q) {
                            let w = choose|w: int| 0 <= w < keys1.len() && keys1[w] == q;
                            if w < i {
                                assert(keys0[w] == q);
                            } else {
                                assert(keys0[w + 1] == q);
                            }
                            // uniqueness rules the removed key out
                            assert(q != keys0[i as int]);
                        }
                        if keys0.contains(q) && q != keys0[i as int] {
                            let w = choose|w: int| 0 <= w < keys0.len() && keys0[w] == q;
                            if w < i {
                                assert(keys1[w] == q);
                            } else {
                                assert(keys1[w - 1] == q);
                            }
                        }
                    }
                    assert(keys0[i as int] == key@);
                    assert(keys1.no_duplicates()) by {
                        assert(forall|a: int|
                            0 <= a < i ==> keys1[a] == #[trigger] keys0[a]);
                        assert(forall|a: int|
                            i <= a < keys1.len() ==> keys1[a] == #[trigger] keys0[a + 1]);
                    }
                }
                return;
            }
            i = i + 1;
        }
        proof {
            if self.holds_key(key@) {
                let w = choose|w: int|
                    0 <= w < self.active_keys().len() && self.active_keys()[w] == key@;
                assert(self.active_tasks@[w]@ == key@);
            }
        }
    }

    /// Takes one concurrency slot when the cap allows it; at no point are
    /// more slots held than the configured limit.
    pub fn try_acquire_slot(&mut self) -> (r: bool)
        requires
            old(self).wf(),
        ensures
            final(self).wf(),
            final(self).same_config(old(self)),
            final(self).active_keys() == old(self).active_keys(),
            r == (old(self).slots_in_use() < old(self).slot_limit()),
            r ==> final(self).slots_in_use() == old(self).slots_in_use() + 1,
            !r ==> *final(self) == *old(self),
    {
        if self.slots_held < self.limit {
            self.slots_held = self.slots_held + 1;
            true
        } else {
            false
        }
    }

    /// Returns a held concurrency slot; every job releases its slot on
    /// every exit path.
    pub fn release_slot(&mut self)
        requires
            old(self).wf(),
            old(self).slots_in_use() > 0,
        ensures
            final(self).wf(),
            final(self).same_config(old(self)),
            final(self).active_keys() == old(self).active_keys(),
            final(self).slots_in_use() == old(self).slots_in_use() - 1,
    {
        self.slots_held = self.slots_held - 1;
    }

    /// A snapshot of the in-flight job keys.
    pub fn get_active_tasks(&self) -> (r: Vec<String>)
        ensures
            r@.len() == self.active_keys().len(),
            forall|i: int|
                0 <= i < r@.len() ==> (#[trigger] r@[i])@ == self.active_keys()[i],
    {
        let mut out: Vec<String> = Vec::new();
        let n = self.active_tasks.len();
        for i in 0..n
            invariant
                n == self.active_tasks@.len(),
                out@.len() == i,
                forall|j: int|
                    0 <= j < i ==> (#[trigger] out@[j])@ == self.active_tasks@[j]@,
        {
            out.push(self.active_tasks[i].clone());
        }
        out
    }

    /// The per-gallery directory under the output root.
    pub fn gallery_dir(&self, gid_token: &str) -> (r: String)
        ensures
            r@ == self.output_root() + "/"@ + gid_token@,
    {
        let mut s = self.output.clone();
        s.append("/");
        s.append(gid_token);
        s
    }
}

/// Law (concurrency bound): a well-formed orchestrator never holds more
/// slots than its configured limit. `new` establishes well-formedness and
/// every operation preserves it, so at no point do more jobs hold a slot
/// than the cap allows.
pub proof fn lemma_concurrency_bound(m: &DownloadManager)
    requires
        m.wf(),
    ensures
        m.slots_in_use() <= m.slot_limit(),
{
}

/// The archive file path of a gallery: its directory, its key and the
/// archive extension.
pub fn archive_path(gallery_dir: &str, gid_token: &str) -> (r: String)
    ensures
        r@ == gallery_dir@ + "/"@ + gid_token@ + ".cbz"@,
{
    let mut s = gallery_dir.to_owned();
    s.append("/");
    s.append(gid_token);
    s.append(".cbz");
    s
}

/// The sidecar path for a scraped gallery record.
pub fn detail_json_path(gallery_dir: &str) -> (r: String)
    ensures
        r@ == gallery_dir@ + "/gallery_detail.json"@,
{
    let mut s = gallery_dir.to_owned();
    s.append("/gallery_detail.json");
    s
}

/// The sidecar path for a bulk-fetched gallery record.
pub fn metadata_json_path(gallery_dir: &str) -> (r: String)
    ensures
        r@ == gallery_dir@ + "/gallery_metadata.json"@,
{
    let mut s = gallery_dir.to_owned();
    s.append("/gallery_metadata.json");
    s
}

/// Whether a local file may be imported: its extension must be the
/// archive kind the library stores.
pub fn has_archive_extension(path: &str) -> (r: bool)
    ensures
        r == (ext_of_path(path@) == Some("zip"@) || ext_of_path(path@) == Some("cbz"@)),
{
    match extension_of(path) {
        Some(e) => str_eq(e.as_str(), "zip") || str_eq(e.as_str(), "cbz"),
        None => false,
    }
}

/// The stages of one job's pipeline, in the order a job passes them.
#[derive(PartialEq, Eq, Structural, Clone, Copy, Debug)]
pub enum JobStage {
    /// Fetch the gallery record (scraped detail or bulk metadata).
    FetchGallery,
    /// Ask whether the archive file already exists on disk.
    CheckArchive,
    /// Fetch the archive bytes (or copy the local file, for an import).
    FetchArchive,
    /// Create the directory tree and write the archive file.
    WriteArchive,
    /// Write the descriptive sidecar file.
    WriteSidecar,
    /// Extract a cover image from the archive.
    ExtractCover,
    /// Map the record and add it to the catalog.
    AddToCatalog,
    /// The job succeeded.
    Done,
    /// The job failed; the key and slot are released.
    Failed,
}

/// What the caller reports about the stage it performed.
#[derive(PartialEq, Eq, Structural, Clone, Copy, Debug)]
pub enum JobEvent {
    /// The stage's work succeeded.
    Succeeded,
    /// The stage's work failed; the job is terminal.
    Failed,
    /// The archive file is already on disk.
    ArchiveExists,
    /// The archive file is not on disk yet.
    ArchiveMissing,
    /// A cover image was found and written.
    CoverFound,
    /// No archive entry holds a cover; not an error.
    CoverMissing,
}

/// The pipeline's transition relation: each stage short-circuits to
/// `Failed` on error; an archive already on disk skips the fetch and
/// write stages; a missing cover is not an error.
pub open spec fn stage_step(s: JobStage, e: JobEvent) -> JobStage {
    match s {
        JobStage::FetchGallery => match e {
            JobEvent::Succeeded => JobStage::CheckArchive,
            _ => JobStage::Failed,
        },
        JobStage::CheckArchive => match e {
            JobEvent::ArchiveExists => JobStage::WriteSidecar,
            JobEvent::ArchiveMissing => JobStage::FetchArchive,
            _ => JobStage::Failed,
        },
        JobStage::FetchArchive => match e {
            JobEvent::Succeeded => JobStage::WriteArchive,
            _ => JobStage::Failed,
        },
        JobStage::WriteArchive => match e {
            JobEvent::Succeeded => JobStage::WriteSidecar,
            _ => JobStage::Failed,
        },
        JobStage::WriteSidecar => match e {
            JobEvent::Succeeded => JobStage::ExtractCover,
            _ => JobStage::Failed,
        },
        JobStage::ExtractCover => match e {
            JobEvent::CoverFound => JobStage::AddToCatalog,
            JobEvent::CoverMissing => JobStage::AddToCatalog,
            _ => JobStage::Failed,
        },
        JobStage::AddToCatalog => match e {
            JobEvent::Succeeded => JobStage::Done,
            _ => JobStage::Failed,
        },
        JobStage::Done => JobStage::Done,
        JobStage::Failed => JobStage::Failed,
    }
}

/// Advances a job one stage on the reported event.
pub fn advance(stage: JobStage, event: JobEvent) -> (r: JobStage)
    ensures
        r == stage_step(stage, event),
{
    match stage {
        JobStage::FetchGallery => match event {
            JobEvent::Succeeded => JobStage::CheckArchive,
            _ => JobStage::Failed,
        },
        JobStage::CheckArchive => match event {
            JobEvent::ArchiveExists => JobStage::WriteSidecar,
            JobEvent::ArchiveMissing => JobStage::FetchArchive,
            _ => JobStage::Failed,
        },
        JobStage::FetchArchive => match event {
            JobEvent::Succeeded => JobStage::WriteArchive,
            _ => JobStage::Failed,
        },
        JobStage::WriteArchive => match event {
            JobEvent::Succeeded => JobStage::WriteSidecar,
            _ => JobStage::Failed,
        },
        JobStage::WriteSidecar => match event {
            JobEvent::Succeeded => JobStage::ExtractCover,
            _ => JobStage::Failed,
        },
        JobStage::ExtractCover => match event {
            JobEvent::CoverFound => JobStage::AddToCatalog,
            JobEvent::CoverMissing => JobStage::AddToCatalog,
            _ => JobStage::Failed,
        },
        JobStage::AddToCatalog => match event {
            JobEvent::Succeeded => JobStage::Done,
            _ => JobStage::Failed,
        },
        JobStage::Done => JobStage::Done,
        JobStage::Failed => JobStage::Failed,
    }
}

/// Whether a job is past any archive transfer: no fetch or write of the
/// archive can still happen.
pub open spec fn past_archive_transfer(s: JobStage) -> bool {
    s == JobStage::WriteSidecar || s == JobStage::ExtractCover || s == JobStage::AddToCatalog
        || s == JobStage::Done || s == JobStage::Failed
}

/// The stage a job reaches from `s` after the events `events`, in order.
pub open spec fn run_stages(s: JobStage, events: Seq<JobEvent>) -> JobStage
    decreases events.len(),
{
    if events.len() == 0 {
        s
    } else {
        run_stages(stage_step(s, events[0]), events.drop_first())
    }
}

/// Law (idempotent archive write): when the archive is already on disk,
/// the job skips straight to the sidecar stage, and from there no
/// sequence of events ever reaches the archive-fetch or archive-write
/// stages — the archive transfer is not re-run.
pub proof fn lemma_skip_download(events: Seq<JobEvent>)
    ensures
        stage_step(JobStage::CheckArchive, JobEvent::ArchiveExists) == JobStage::WriteSidecar,
        run_stages(JobStage::WriteSidecar, events) != JobStage::FetchArchive,
        run_stages(JobStage::WriteSidecar, events) != JobStage::WriteArchive,
{
    lemma_past_transfer_stays(JobStage::WriteSidecar, events);
}

proof fn lemma_past_transfer_stays(s: JobStage, events: Seq<JobEvent>)
    requires
        past_archive_transfer(s),
    ensures
        past_archive_transfer(run_stages(s, events)),
    decreases events.len(),
{
    if events.len() > 0 {
        lemma_past_transfer_stays(stage_step(s, events[0]), events.drop_first());
    }
}

} // verus!

