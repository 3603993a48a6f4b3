//! Imports of many files: one batch at a time, each file counted once, and a way to stop between
//! files.
use vstd::prelude::*;
use vstd::string::*;

use crate::digest::{content_digest, sha256_hex};
use crate::file_service::{extension, extension_of};
use crate::file_store::blob_rel;
use crate::order::{rising_texts, sort_texts, sorted};
use crate::models::Paper;
use crate::project_service::{directory_name, folder_name};
use crate::table::{find_row, first_place, law_first_place};
use crate::text::{
    concat2, concat3, has_prefix, lemma_texts_push, lower, opt_text, same, starts_with, strip_both,
    stripped_both, texts, to_lower,
};

verus! {

/// What a batch tells the user interface as it goes.
pub struct BatchImportProgress {
    pub batch_id: String,
    pub total: usize,
    /// Counts from 1; 0 before the first item.
    pub current: usize,
    pub file: String,
    /// How the item that is through ended: imported, skipped or failed.
    pub last_status: Option<String>,
    pub error: Option<String>,
    pub done: bool,
    pub cancelled: bool,
    pub imported: usize,
    pub skipped: usize,
    pub failed: usize,
}

/// How a batch ended. Failures are listed as "file：reason", fifty of them at most.
pub struct BatchImportSummary {
    pub total: usize,
    pub imported: usize,
    pub skipped: usize,
    pub failed: usize,
    pub cancelled: bool,
    pub errors: Vec<String>,
}

/// How one file of a batch ended.
pub enum ItemOutcome {
    Imported(String),
    Skipped,
    Failed(String),
}

/// How one file of a batch ended, read as its texts.
pub enum OutcomeModel {
    Imported(Seq<char>),
    Skipped,
    Failed(Seq<char>),
}

impl ItemOutcome {
    /// The texts of an outcome.
    pub open spec fn model(self) -> OutcomeModel {
        match self {
            ItemOutcome::Imported(id) => OutcomeModel::Imported(id@),
            ItemOutcome::Skipped => OutcomeModel::Skipped,
            ItemOutcome::Failed(e) => OutcomeModel::Failed(e@),
        }
    }
}

/// The texts of an outcome, where there is one.
pub open spec fn opt_outcome(o: Option<ItemOutcome>) -> Option<OutcomeModel> {
    match o {
        Some(i) => Some(i.model()),
        None => None,
    }
}

// ---------------------------------------------------------------------------------------------
// One batch at a time
// ---------------------------------------------------------------------------------------------
/// Whether a batch is running, and whether it has been asked to stop.
pub struct BatchFlags {
    pub running: bool,
    pub cancel: bool,
}

/// Asks the running batch to stop after the current file.
pub fn request_cancel(flags: &mut BatchFlags)
    ensures
        final(flags).cancel,
        final(flags).running == old(flags).running,
{
    flags.cancel = true;
}

/// The right to run a batch.
pub struct BatchGuard {
    held: bool,
}

impl BatchGuard {
    /// Starts a batch, unless one is running. A request to stop that came before is forgotten.
    pub fn try_acquire(flags: &mut BatchFlags) -> (r: Result<BatchGuard, String>)
        ensures
            (r is Err) == old(flags).running,
            final(flags).running,
            r is Ok ==> !final(flags).cancel,
            r is Err ==> final(flags).cancel == old(flags).cancel && r->Err_0@
                == "已有批量导入任务正在进行中"@,
    {
        if flags.running {
            return Err("已有批量导入任务正在进行中".to_owned());
        }
        flags.running = true;
        flags.cancel = false;
        Ok(BatchGuard { held: true })
    }

    /// Tells whether the batch has been asked to stop.
    pub fn cancelled(&self, flags: &BatchFlags) -> (r: bool)
        ensures
            r == flags.cancel,
    {
        flags.cancel
    }

    /// Ends the batch, so that another one can start.
    pub fn release(self, flags: &mut BatchFlags)
        ensures
            !final(flags).running,
            final(flags).cancel == old(flags).cancel,
    {
        flags.running = false;
    }
}

// ---------------------------------------------------------------------------------------------
// Files
// ---------------------------------------------------------------------------------------------
/// Whether a path is that of a PDF, by its extension.
pub open spec fn is_pdf_path(path: Seq<char>) -> bool {
    match extension(path) {
        Some(e) => lower(e) == "pdf"@,
        None => false,
    }
}

/// Tells whether a path is that of a PDF.
pub fn is_pdf(path: &str) -> (r: bool)
    ensures
        r == is_pdf_path(path@),
{
    match extension_of(path) {
        Some(e) => same(to_lower(e.as_str()).as_str(), "pdf"),
        None => false,
    }
}

/// Whether a scan goes into a directory: hidden ones are left out, but never the one it starts at.
pub fn enters_directory(depth: usize, name: &str) -> (r: bool)
    ensures
        r == (depth == 0 || !starts_with(name@, "."@)),
{
    depth == 0 || !has_prefix(name, ".")
}

/// The PDFs among paths.
pub open spec fn pdf_paths(paths: Seq<Seq<char>>) -> Seq<Seq<char>>
    decreases paths.len(),
{
    if paths.len() == 0 {
        Seq::empty()
    } else if is_pdf_path(paths.last()) {
        pdf_paths(paths.drop_last()).push(paths.last())
    } else {
        pdf_paths(paths.drop_last())
    }
}

/// The PDFs among the files that a scan found, in rising order.
pub fn scan_folder_pdfs(files: &Vec<String>) -> (r: Vec<String>)
    ensures
        texts(r@) == sorted(pdf_paths(texts(files@)), rising_texts()),
{
    broadcast use lemma_texts_push;

    let ghost all = texts(files@);
    let mut out: Vec<String> = Vec::new();
    assert(texts(out@) =~= Seq::empty());
    let mut i: usize = 0;
    while i < files.len()
        invariant
            i <= files.len(),
            all == texts(files@),
            texts(out@) == pdf_paths(all.take(i as int)),
        decreases files.len() - i,
    {
        assert(all.take(i + 1).drop_last() =~= all.take(i as int));
        let ghost before = texts(out@);
        if is_pdf(files[i].as_str()) {
            out.push(files[i].clone());
            assert(texts(out@) =~= before.push(all[i as int]));
        }
        i += 1;
    }
    assert(all.take(all.len() as int) =~= all);
    sort_texts(&out)
}

// ---------------------------------------------------------------------------------------------
// Counting
// ---------------------------------------------------------------------------------------------
/// Whether a progress tells how many files there are, and how many are through.
pub open spec fn tells_counts(s: BatchImportSummary, p: BatchImportProgress) -> bool {
    p.total == s.total && p.imported == s.imported && p.skipped == s.skipped && p.failed == s.failed
}

/// Whether a progress is what the user is told before the `current`-th file.
pub open spec fn is_start(
    s: BatchImportSummary,
    batch_id: Seq<char>,
    current: int,
    file: Seq<char>,
    p: BatchImportProgress,
) -> bool {
    &&& tells_counts(s, p)
    &&& p.batch_id@ == batch_id && p.current == current && p.file@ == file
    &&& p.last_status is None && p.error is None && !p.done && !p.cancelled
}

/// Whether a progress is what the user is told behind the `current`-th file.
pub open spec fn is_finish(
    s: BatchImportSummary,
    batch_id: Seq<char>,
    current: int,
    file: Seq<char>,
    outcome: ItemOutcome,
    p: BatchImportProgress,
) -> bool {
    &&& tells_counts(s, p)
    &&& p.batch_id@ == batch_id && p.current == current && p.file@ == file
    &&& opt_text(p.last_status) == Some(
        match outcome {
            ItemOutcome::Imported(_) => "imported"@,
            ItemOutcome::Skipped => "skipped"@,
            ItemOutcome::Failed(_) => "failed"@,
        },
    )
    &&& opt_text(p.error) == (match outcome {
        ItemOutcome::Failed(e) => Some(e@),
        _ => None,
    })
    &&& !p.done && !p.cancelled
}

/// Whether a progress is what the user is told at the end.
pub open spec fn is_close(s: BatchImportSummary, batch_id: Seq<char>, p: BatchImportProgress) -> bool {
    &&& tells_counts(s, p)
    &&& p.batch_id@ == batch_id && p.current == s.total && p.file@.len() == 0
    &&& p.last_status is None && p.error is None && p.done && p.cancelled == s.cancelled
}

/// Whether `r` is a summary with one more file counted, and its failure listed where there is room.
pub open spec fn is_recorded(
    s: BatchImportSummary,
    file: Seq<char>,
    outcome: ItemOutcome,
    r: BatchImportSummary,
) -> bool {
    &&& r.total == s.total
    &&& r.cancelled == s.cancelled
    &&& r.imported == s.imported + (if outcome is Imported {
        1int
    } else {
        0
    })
    &&& r.skipped == s.skipped + (if outcome is Skipped {
        1int
    } else {
        0
    })
    &&& r.failed == s.failed + (if outcome is Failed {
        1int
    } else {
        0
    })
    &&& texts(r.errors@) == (match outcome {
        ItemOutcome::Failed(e) => if s.errors.len() < 50 {
            texts(s.errors@).push(file + "："@ + e@)
        } else {
            texts(s.errors@)
        },
        _ => texts(s.errors@),
    })
}

impl BatchImportSummary {
    /// A batch of `total` files that has not begun.
    pub fn new(total: usize) -> (r: BatchImportSummary)
        ensures
            r.wf(),
            r.total == total,
            r.counted() == 0,
            !r.cancelled,
            r.errors.len() == 0,
    {
        BatchImportSummary {
            total,
            imported: 0,
            skipped: 0,
            failed: 0,
            cancelled: false,
            errors: Vec::new(),
        }
    }

    /// How many files are through.
    pub open spec fn counted(&self) -> int {
        self.imported + self.skipped + self.failed
    }

    /// No more files are through than there are, and the failures are listed, but no more than fifty.
    pub open spec fn wf(&self) -> bool {
        &&& self.counted() <= self.total
        &&& self.errors.len() == (if self.failed < 50 {
            self.failed as int
        } else {
            50
        })
    }

    /// Counts a file, and lists its failure where there is room.
    pub fn record(&mut self, file: &str, outcome: &ItemOutcome)
        requires
            old(self).wf(),
            old(self).counted() < old(self).total,
        ensures
            final(self).wf(),
            is_recorded(*old(self), file@, *outcome, *final(self)),
    {
        broadcast use lemma_texts_push;

        match outcome {
            ItemOutcome::Imported(_) => {
                self.imported = self.imported + 1;
            },
            ItemOutcome::Skipped => {
                self.skipped = self.skipped + 1;
            },
            ItemOutcome::Failed(e) => {
                self.failed = self.failed + 1;
                if self.errors.len() < 50 {
                    self.errors.push(concat3(file, "：", e.as_str()));
                }
            },
        }
    }

    /// Notes that the batch was stopped.
    pub fn stop(&mut self)
        requires
            old(self).wf(),
        ensures
            final(self).wf(),
            final(self).cancelled,
            final(self).total == old(self).total,
            final(self).imported == old(self).imported,
            final(self).skipped == old(self).skipped,
            final(self).failed == old(self).failed,
            final(self).errors == old(self).errors,
    {
        self.cancelled = true;
    }

    /// What the user is told before the `current`-th file.
    pub fn starting(&self, batch_id: &str, current: usize, file: &str) -> (r: BatchImportProgress)
        ensures
            is_start(*self, batch_id@, current as int, file@, r),
    {
        BatchImportProgress {
            batch_id: batch_id.to_owned(),
            total: self.total,
            current,
            file: file.to_owned(),
            last_status: None,
            error: None,
            done: false,
            cancelled: false,
            imported: self.imported,
            skipped: self.skipped,
            failed: self.failed,
        }
    }

    /// What the user is told behind the `current`-th file.
    pub fn finished(&self, batch_id: &str, current: usize, file: &str, outcome: &ItemOutcome) -> (r:
        BatchImportProgress)
        ensures
            is_finish(*self, batch_id@, current as int, file@, *outcome, r),
    {
        let mut p = self.starting(batch_id, current, file);
        match outcome {
            ItemOutcome::Imported(_) => {
                p.last_status = Some("imported".to_owned());
            },
            ItemOutcome::Skipped => {
                p.last_status = Some("skipped".to_owned());
            },
            ItemOutcome::Failed(e) => {
                p.last_status = Some("failed".to_owned());
                p.error = Some(e.clone());
            },
        }
        p
    }

    /// What the user is told at the end.
    pub fn closing(&self, batch_id: &str) -> (r: BatchImportProgress)
        ensures
            is_close(*self, batch_id@, r),
    {
        let mut p = self.starting(batch_id, self.total, "");
        proof {
            reveal_strlit("");
        }
        p.done = true;
        p.cancelled = self.cancelled;
        p
    }
}

// ---------------------------------------------------------------------------------------------
// A batch from its first file to its last
// ---------------------------------------------------------------------------------------------
/// A batch that is running: the files as they are shown, and how many are through.
pub struct Batch {
    pub batch_id: String,
    pub files: Vec<String>,
    pub at: usize,
    pub summary: BatchImportSummary,
}

/// What a batch does next. Either way the user is told.
pub enum BatchStep {
    /// The next file is imported.
    Work(BatchImportProgress),
    /// The batch ends.
    End(BatchImportProgress),
}

impl Batch {
    /// Each file that is through is counted once. A batch is stopped only while files are left.
    pub open spec fn wf(&self) -> bool {
        &&& self.summary.wf()
        &&& self.summary.total == self.files.len()
        &&& self.at <= self.files.len()
        &&& self.summary.counted() == self.at
        &&& self.summary.cancelled ==> self.at < self.files.len()
    }

    /// A batch that has not begun.
    pub fn new(batch_id: &str, files: Vec<String>) -> (r: Batch)
        ensures
            r.wf(),
            r.batch_id@ == batch_id@,
            r.files == files,
            r.at == 0,
            !r.summary.cancelled,
            r.summary.errors.len() == 0,
    {
        let summary = BatchImportSummary::new(files.len());
        Batch { batch_id: batch_id.to_owned(), files, at: 0, summary }
    }

    /// What is done next: the next file, unless there is none or the batch was asked to stop.
    pub fn next(&mut self, cancel: bool) -> (r: BatchStep)
        requires
            old(self).wf(),
        ensures
            final(self).wf(),
            final(self).batch_id == old(self).batch_id && final(self).files == old(self).files
                && final(self).at == old(self).at,
            match r {
                BatchStep::Work(p) => old(self).at < old(self).files.len() && !cancel && *final(self) == *old(self) && is_start(
                    old(self).summary,
                    old(self).batch_id@,
                    old(self).at + 1,
                    old(self).files@[old(self).at as int]@,
                    p,
                ),
                BatchStep::End(p) => (old(self).at == old(self).files.len() || cancel) && is_close(
                    final(self).summary,
                    old(self).batch_id@,
                    p,
                ) && final(self).summary.cancelled == (old(self).summary.cancelled || (cancel
                    && old(self).at < old(self).files.len())) && final(self).summary.imported
                    == old(self).summary.imported && final(self).summary.skipped == old(self).summary.skipped && final(self).summary.failed == old(self).summary.failed
                    && final(self).summary.errors == old(self).summary.errors,
            },
    {
        if self.at >= self.files.len() {
            return BatchStep::End(self.summary.closing(self.batch_id.as_str()));
        }
        if cancel {
            self.summary.stop();
            return BatchStep::End(self.summary.closing(self.batch_id.as_str()));
        }
        BatchStep::Work(
            self.summary.starting(
                self.batch_id.as_str(),
                self.at + 1,
                self.files[self.at].as_str(),
            ),
        )
    }

    /// Counts the file that is through, and says what the user is told.
    pub fn through(&mut self, outcome: &ItemOutcome) -> (r: BatchImportProgress)
        requires
            old(self).wf(),
            old(self).at < old(self).files.len(),
            !old(self).summary.cancelled,
        ensures
            final(self).wf(),
            final(self).batch_id == old(self).batch_id && final(self).files == old(self).files,
            final(self).at == old(self).at + 1,
            is_recorded(
                old(self).summary,
                old(self).files@[old(self).at as int]@,
                *outcome,
                final(self).summary,
            ),
            is_finish(
                final(self).summary,
                old(self).batch_id@,
                old(self).at + 1,
                old(self).files@[old(self).at as int]@,
                *outcome,
                r,
            ),
    {
        let file = self.files[self.at].clone();
        self.summary.record(file.as_str(), outcome);
        self.at = self.at + 1;
        self.summary.finished(self.batch_id.as_str(), self.at, file.as_str(), outcome)
    }
}

/// A batch that was not stopped ends once every file was counted: imported, skipped or failed.
pub proof fn law_every_file_is_counted(b: Batch)
    requires
        b.wf(),
        b.at == b.files.len(),
    ensures
        b.summary.imported + b.summary.skipped + b.summary.failed == b.summary.total,
        !b.summary.cancelled,
{
}

/// The names under which files are shown: the last parts of their paths.
pub fn shown_names(paths: &Vec<String>) -> (r: Vec<String>)
    ensures
        r.len() == paths.len(),
        forall|i: int| 0 <= i < r.len() ==> (#[trigger] r@[i])@ == directory_name(paths@[i]@),
{
    let mut out: Vec<String> = Vec::new();
    let mut i: usize = 0;
    while i < paths.len()
        invariant
            i <= paths.len(),
            out.len() == i,
            forall|k: int| 0 <= k < i ==> (#[trigger] out@[k])@ == directory_name(paths@[k]@),
        decreases paths.len() - i,
    {
        out.push(folder_name(paths[i].as_str()));
        i += 1;
    }
    out
}

/// A batch of PDFs that has not begun. `paths` are imported one after the other.
pub fn run_pdf_batch(batch_id: &str, paths: &Vec<String>) -> (r: Batch)
    ensures
        r.wf(),
        r.batch_id@ == batch_id@,
        r.at == 0,
        !r.summary.cancelled,
        r.summary.errors.len() == 0,
        r.files.len() == paths.len(),
        forall|i: int|
            0 <= i < paths.len() ==> (#[trigger] r.files@[i])@ == directory_name(paths@[i]@),
{
    Batch::new(batch_id, shown_names(paths))
}

// ---------------------------------------------------------------------------------------------
// What is in the library already
// ---------------------------------------------------------------------------------------------
/// Whether a paper has a stored file, and is not in the trash.
pub open spec fn has_file(rel: Seq<char>) -> spec_fn(Paper) -> bool {
    |p: Paper| opt_text(p.file_path) == Some(rel) && p.deleted_at is None
}

/// The id of a paper whose file has the given content, leaving out the trash.
pub open spec fn paper_with_content(papers: Seq<Paper>, hash: Seq<char>, ext: Seq<char>) -> Option<
    Seq<char>,
> {
    match first_place(papers, has_file(blob_rel(hash, ext)), 0) {
        Some(k) => Some(papers[k].id@),
        None => None,
    }
}

/// The id of a paper whose file has the given content, leaving out the trash.
pub fn find_paper_by_blob_hash(papers: &Vec<Paper>, hash: &str, ext: &str) -> (r: Option<String>)
    ensures
        opt_text(r) == paper_with_content(papers@, hash@, ext@),
{
    let mut rel = concat3("blobs/", hash, ".");
    rel.append(ext);
    let wanted = rel.as_str();
    let is = |p: &Paper| -> (c: bool)
        ensures
            c == (opt_text(p.file_path) == Some(wanted@) && p.deleted_at is None),
        {
            p.deleted_at.is_none() && match &p.file_path {
                Some(f) => same(f.as_str(), wanted),
                None => false,
            }
        };
    match find_row(papers, is, Ghost(has_file(wanted@))) {
        Some(k) => Some(papers[k].id.clone()),
        None => None,
    }
}

/// A DOI for comparison: in lower case, and without blanks around it.
pub open spec fn plain_doi(doi: Seq<char>) -> Seq<char> {
    strip_both(lower(doi), ' ')
}

/// Whether a paper has a DOI, whatever its case, and is not in the trash.
pub open spec fn has_doi(doi: Seq<char>) -> spec_fn(Paper) -> bool {
    |p: Paper|
        p.deleted_at is None && match p.doi {
            Some(d) => plain_doi(d@) == plain_doi(doi),
            None => false,
        }
}

/// The id of a paper with a DOI, whatever its case, leaving out the trash.
pub fn find_paper_by_doi(papers: &Vec<Paper>, doi: &str) -> (r: Option<String>)
    ensures
        opt_text(r) == (match first_place(papers@, has_doi(doi@), 0) {
            Some(k) => Some(papers@[k].id@),
            None => None,
        }),
{
    let wanted = stripped_both(to_lower(doi).as_str(), ' ');
    let w = wanted.as_str();
    let is = |p: &Paper| -> (c: bool)
        ensures
            c == (p.deleted_at is None && match p.doi {
                Some(d) => plain_doi(d@) == w@,
                None => false,
            }),
        {
            p.deleted_at.is_none() && match &p.doi {
                Some(d) => same(stripped_both(to_lower(d.as_str()).as_str(), ' ').as_str(), w),
                None => false,
            }
        };
    match find_row(papers, is, Ghost(has_doi(doi@))) {
        Some(k) => Some(papers[k].id.clone()),
        None => None,
    }
}

/// The extension under which a PDF is stored.
pub open spec fn stored_extension(path: Seq<char>) -> Seq<char> {
    match extension(path) {
        Some(e) => e,
        None => "pdf"@,
    }
}

/// How the import of a PDF ends before it begins: with a failure where the file cannot be read, and
/// with nothing done where its content is in the library already.
pub open spec fn pdf_check(
    path: Seq<char>,
    read: Result<Vec<u8>, String>,
    papers: Seq<Paper>,
) -> Option<OutcomeModel> {
    match read {
        Err(e) => Some(OutcomeModel::Failed("读取失败："@ + e@)),
        Ok(bytes) => if paper_with_content(
            papers,
            content_digest(bytes@),
            stored_extension(path),
        ) is Some {
            Some(OutcomeModel::Skipped)
        } else {
            None
        },
    }
}

/// How the import of a PDF ends before it begins.
pub fn check_pdf(path: &str, read: &Result<Vec<u8>, String>, papers: &Vec<Paper>) -> (r: Option<
    ItemOutcome,
>)
    ensures
        opt_outcome(r) == pdf_check(path@, *read, papers@),
{
    match read {
        Err(e) => Some(ItemOutcome::Failed(concat2("读取失败：", e.as_str()))),
        Ok(bytes) => {
            let ext = match extension_of(path) {
                Some(e) => e,
                None => "pdf".to_owned(),
            };
            match find_paper_by_blob_hash(papers, sha256_hex(bytes).as_str(), ext.as_str()) {
                Some(_) => Some(ItemOutcome::Skipped),
                None => None,
            }
        },
    }
}

/// A file with the content and the extension of the file of a paper in the library is found there,
/// so that it is not imported again.
pub proof fn law_no_content_twice(papers: Seq<Paper>, k: int, hash: Seq<char>, ext: Seq<char>)
    requires
        0 <= k < papers.len(),
        papers[k].deleted_at is None,
        opt_text(papers[k].file_path) == Some(blob_rel(hash, ext)),
    ensures
        paper_with_content(papers, hash, ext) is Some,
{
    law_first_place(papers, has_file(blob_rel(hash, ext)), 0);
    assert(has_file(blob_rel(hash, ext))(papers[k]));
}

} // verus!
