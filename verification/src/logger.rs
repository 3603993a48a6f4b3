//! Log files that are set aside once they are full, and of which only the newest are kept.
use vstd::prelude::*;
use vstd::string::*;

use crate::order::{in_order, law_sorted, place, sorted};
use crate::text::{concat2, concat3, ends_with, has_prefix, has_suffix, same, starts_with};

verus! {

/// The log that is written to: how many bytes it has, and how many it and all set aside may have. A
/// limit of 0 is none.
pub struct SizeRollingFileAppender {
    pub prefix: String,
    pub max_size: u64,
    pub max_files: usize,
    pub size: u64,
}

/// How many bytes the settings allow: at least one megabyte.
pub fn max_log_size(megabytes: i32) -> (r: u64)
    ensures
        r == (if megabytes < 1 {
            1
        } else {
            megabytes as int
        }) * 1_048_576,
{
    if megabytes < 1 {
        1_048_576
    } else {
        megabytes as u64 * 1_048_576
    }
}

/// How many files the settings allow: a negative number allows any.
pub fn max_log_files(files: i32) -> (r: usize)
    ensures
        r == if files < 0 {
            0
        } else {
            files as int
        },
{
    if files < 0 {
        0
    } else {
        files as usize
    }
}

/// Whether a log is full before so many bytes are written: it is not empty, and they would take it
/// over its limit.
pub open spec fn is_full(size: int, max_size: int, len: int) -> bool {
    max_size > 0 && len > 0 && size > 0 && size + len > max_size
}

impl SizeRollingFileAppender {
    /// A log that has `size` bytes already.
    pub fn new(prefix: &str, max_size: u64, max_files: usize, size: u64) -> (r:
        SizeRollingFileAppender)
        ensures
            r.prefix@ == prefix@,
            r.max_size == max_size,
            r.max_files == max_files,
            r.size == size,
    {
        SizeRollingFileAppender { prefix: prefix.to_owned(), max_size, max_files, size }
    }

    /// The name of the log that is written to.
    pub open spec fn current(self) -> Seq<char> {
        self.prefix@ + ".log"@
    }

    /// The name of the log that is written to.
    pub fn current_name(&self) -> (r: String)
        ensures
            r@ == self.current(),
    {
        concat2(self.prefix.as_str(), ".log")
    }

    /// The name under which a full log is set aside.
    pub fn rotated_name(&self, timestamp: &str) -> (r: String)
        ensures
            r@ == self.prefix@ + "."@ + timestamp@ + ".log"@,
    {
        concat2(concat3(self.prefix.as_str(), ".", timestamp).as_str(), ".log")
    }

    /// Tells whether the log has to be set aside before so many bytes are written.
    pub fn should_rotate(&self, len: u64) -> (r: bool)
        ensures
            r == is_full(self.size as int, self.max_size as int, len as int),
    {
        self.max_size > 0 && len > 0 && self.size > 0 && (self.size > self.max_size || len
            > self.max_size - self.size)
    }

    /// The log was set aside, and a new one is empty.
    pub fn rotated(&mut self)
        ensures
            final(self).size == 0,
            final(self).prefix == old(self).prefix,
            final(self).max_size == old(self).max_size,
            final(self).max_files == old(self).max_files,
    {
        self.size = 0;
    }

    /// So many bytes were written.
    pub fn written(&mut self, len: u64)
        requires
            old(self).size + len <= u64::MAX,
        ensures
            final(self).size == old(self).size + len,
            final(self).prefix == old(self).prefix,
            final(self).max_size == old(self).max_size,
            final(self).max_files == old(self).max_files,
    {
        self.size = self.size + len;
    }

    /// Whether a file is a log that was set aside.
    pub open spec fn is_rotated(self, name: Seq<char>) -> bool {
        starts_with(name, self.prefix@ + "."@) && ends_with(name, ".log"@) && name
            != self.current()
    }

    /// The logs that were set aside, among files.
    pub open spec fn rotated_among(self, files: Seq<LogFileModel>) -> Seq<LogFileModel>
        decreases files.len(),
    {
        if files.len() == 0 {
            Seq::empty()
        } else if self.is_rotated(files.last().name) {
            self.rotated_among(files.drop_last()).push(files.last())
        } else {
            self.rotated_among(files.drop_last())
        }
    }

    /// The files that are removed: the oldest of the logs that were set aside, so that no more are left
    /// than the limit.
    pub open spec fn removed(self, files: Seq<LogFileModel>) -> Seq<LogFileModel> {
        let old_logs = sorted(self.rotated_among(files), oldest_first());
        if self.max_files > 0 && old_logs.len() > self.max_files {
            old_logs.take(old_logs.len() - self.max_files)
        } else {
            Seq::empty()
        }
    }

    fn keeps(&self, name: &str) -> (r: bool)
        ensures
            r == self.is_rotated(name@),
    {
        has_prefix(name, concat2(self.prefix.as_str(), ".").as_str()) && has_suffix(name, ".log")
            && !same(name, self.current_name().as_str())
    }

    fn old_logs(&self, files: &Vec<LogFile>) -> (r: Vec<LogFile>)
        ensures
            log_models(r@) == sorted(self.rotated_among(log_models(files@)), oldest_first()),
    {
        let ghost all = log_models(files@);
        let mut out: Vec<LogFile> = Vec::new();
        let mut i: usize = 0;
        assert(log_models(out@) =~= sorted(self.rotated_among(all.take(0)), oldest_first()));
        while i < files.len()
            invariant
                i <= files.len(),
                all == log_models(files@),
                log_models(out@) == sorted(self.rotated_among(all.take(i as int)), oldest_first()),
            decreases files.len() - i,
        {
            proof {
                assert(all.take(i + 1).drop_last() =~= all.take(i as int));
                assert(all.take(i + 1).last() == files@[i as int].model());
            }
            if self.keeps(files[i].name.as_str()) {
                let ghost list = log_models(out@);
                let ghost x = files@[i as int].model();
                let ghost before = self.rotated_among(all.take(i as int));
                let modified: u64 = files[i].modified;
                let mut k: usize = out.len();
                while k > 0 && modified < out[k - 1].modified
                    invariant
                        k <= out.len(),
                        list == log_models(out@),
                        x.modified == modified,
                        place(list, x, oldest_first(), list.len() as int) == place(
                            list,
                            x,
                            oldest_first(),
                            k as int,
                        ),
                    decreases k,
                {
                    k -= 1;
                }
                out.insert(k, LogFile { name: files[i].name.clone(), modified });
                proof {
                    assert(log_models(out@) =~= list.insert(k as int, x));
                    assert(before.push(x).drop_last() =~= before);
                }
            }
            i += 1;
        }
        assert(all.take(all.len() as int) =~= all);
        out
    }

    /// The files that are removed once a log was set aside.
    pub fn cleanup_old_files(&self, files: &Vec<LogFile>) -> (r: Vec<LogFile>)
        ensures
            log_models(r@) == self.removed(log_models(files@)),
    {
        let mut logs = self.old_logs(files);
        let ghost all = log_models(logs@);
        if self.max_files > 0 && logs.len() > self.max_files {
            let n: usize = logs.len() - self.max_files;
            logs.truncate(n);
            assert(log_models(logs@) =~= all.take(n as int));
            logs
        } else {
            let none: Vec<LogFile> = Vec::new();
            assert(log_models(none@) =~= Seq::empty());
            none
        }
    }
}

/// A file in the directory of logs, and when it was changed.
pub struct LogFile {
    pub name: String,
    pub modified: u64,
}

/// A file, read as its text.
pub struct LogFileModel {
    pub name: Seq<char>,
    pub modified: u64,
}

impl LogFile {
    /// The text of a file.
    pub open spec fn model(self) -> LogFileModel {
        LogFileModel { name: self.name@, modified: self.modified }
    }
}

/// The texts of files.
pub open spec fn log_models(v: Seq<LogFile>) -> Seq<LogFileModel> {
    Seq::new(v.len(), |i: int| v[i].model())
}

/// Files by when they were changed.
pub open spec fn oldest_first() -> spec_fn(LogFileModel, LogFileModel) -> bool {
    |a: LogFileModel, b: LogFileModel| a.modified < b.modified
}

/// The size of a log behind a write, where a full log was set aside before.
pub open spec fn size_after(size: int, max_size: int, len: int) -> int {
    if is_full(size, max_size, len) {
        len
    } else {
        size + len
    }
}

/// A log never grows over its limit, unless one write alone is larger.
pub proof fn law_log_stays_within(size: int, max_size: int, len: int)
    requires
        0 < max_size,
        0 <= size <= max_size,
        0 <= len <= max_size,
    ensures
        0 <= size_after(size, max_size, len) <= max_size,
{
}

/// A log that was set aside is never taken for the one that is written to, and is found again when old
/// ones are removed.
pub proof fn law_rotated_is_found(a: SizeRollingFileAppender, timestamp: Seq<char>)
    ensures
        timestamp.len() > 0 ==> a.is_rotated(a.prefix@ + "."@ + timestamp + ".log"@),
        !a.is_rotated(a.current()),
{
    reveal_strlit(".");
    reveal_strlit(".log");
    let head = a.prefix@ + "."@;
    let name = a.prefix@ + "."@ + timestamp + ".log"@;
    assert(name.subrange(0, head.len() as int) =~= head);
    assert(name.subrange(name.len() - 4, name.len() as int) =~= ".log"@);
    if timestamp.len() > 0 {
        assert(name.len() != a.current().len());
    }
}

/// What is removed is older than what is kept, or as old.
pub proof fn law_newest_logs_are_kept(a: SizeRollingFileAppender, files: Seq<LogFileModel>)
    ensures
        in_order(sorted(a.rotated_among(files), oldest_first()), oldest_first()),
        a.max_files > 0 ==> sorted(a.rotated_among(files), oldest_first()).len() - a.removed(
            files,
        ).len() <= a.max_files,
{
    law_sorted(a.rotated_among(files), oldest_first());
}

} // verus!
