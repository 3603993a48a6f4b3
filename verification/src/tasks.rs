//! Tasks that run in the background.
use vstd::prelude::*;
use vstd::string::*;

use crate::order::{
    char_rows, greatest_first, order_greatest_first, place_list, places, sorted, in_order, law_sorted,
    lemma_text_before,
};
use crate::text::{chars_of, copy_opt, opt_text};

verus! {

/// What is known of a task. Its status is `running`, `completed`, `failed`, `stopped` or `timed_out`.
pub struct TaskInfo {
    pub id: String,
    pub description: String,
    pub status: String,
    pub exit_code: Option<i32>,
    pub output_path: Option<String>,
    pub session_id: Option<String>,
    pub created_at: String,
    pub log_bytes: Option<u64>,
    pub log_modified: Option<String>,
}

/// A task, and whether it was told to stop.
pub struct TaskHandle {
    pub info: TaskInfo,
    pub cancel: bool,
}

/// What was seen of the log of a task.
pub struct LogStat {
    pub bytes: u64,
    pub modified: Option<String>,
}

/// No tasks.
pub fn new_task_store() -> (r: Vec<TaskHandle>)
    ensures
        r@.len() == 0,
{
    Vec::new()
}

/// Whether two tasks are the same, but for their logs.
pub open spec fn same_task(a: TaskInfo, b: TaskInfo) -> bool {
    &&& a.id@ == b.id@ && a.description@ == b.description@ && a.status@ == b.status@
    &&& a.exit_code == b.exit_code && opt_text(a.output_path) == opt_text(b.output_path)
    &&& opt_text(a.session_id) == opt_text(b.session_id) && a.created_at@ == b.created_at@
}

/// Whether `r` is a task with what was seen of its log, where it has one and something was seen.
pub open spec fn is_seen(t: TaskInfo, stat: Option<LogStat>, r: TaskInfo) -> bool {
    &&& same_task(r, t)
    &&& if t.output_path is Some && stat is Some {
        r.log_bytes == Some(stat->0.bytes) && opt_text(r.log_modified) == opt_text(stat->0.modified)
    } else {
        r.log_bytes == t.log_bytes && opt_text(r.log_modified) == opt_text(t.log_modified)
    }
}

/// When the tasks began.
pub open spec fn task_times(store: Seq<TaskHandle>) -> Seq<Seq<char>> {
    Seq::new(store.len(), |i: int| store[i].info.created_at@)
}

/// The places of the tasks, the newest first.
pub open spec fn newest_tasks(store: Seq<TaskHandle>) -> Seq<int> {
    sorted(places(store.len()), greatest_first(task_times(store)))
}

fn with_log(t: &TaskInfo, stat: &Option<LogStat>) -> (r: TaskInfo)
    ensures
        is_seen(*t, *stat, r),
{
    let (log_bytes, log_modified) = match (&t.output_path, stat) {
        (Some(_), Some(s)) => (Some(s.bytes), copy_opt(&s.modified)),
        _ => (t.log_bytes, copy_opt(&t.log_modified)),
    };
    TaskInfo {
        id: t.id.clone(),
        description: t.description.clone(),
        status: t.status.clone(),
        exit_code: t.exit_code,
        output_path: copy_opt(&t.output_path),
        session_id: copy_opt(&t.session_id),
        created_at: t.created_at.clone(),
        log_bytes,
        log_modified,
    }
}

/// All tasks, the newest first, with what was seen of their logs.
pub fn snapshot(store: &Vec<TaskHandle>, stats: &Vec<Option<LogStat>>) -> (r: Vec<TaskInfo>)
    requires
        stats@.len() == store@.len(),
    ensures
        r@.len() == store@.len(),
        newest_tasks(store@).len() == store@.len(),
        forall|i: int|
            0 <= i < r@.len() ==> 0 <= newest_tasks(store@)[i] < store@.len() && is_seen(
                store@[newest_tasks(store@)[i]].info,
                stats@[newest_tasks(store@)[i]],
                #[trigger] r@[i],
            ),
{
    let mut keys: Vec<Vec<char>> = Vec::new();
    let mut i: usize = 0;
    while i < store.len()
        invariant
            i <= store.len(),
            keys.len() == i,
            forall|k: int| 0 <= k < i ==> (#[trigger] keys@[k])@ == store@[k].info.created_at@,
        decreases store.len() - i,
    {
        keys.push(chars_of(store[i].info.created_at.as_str()));
        i += 1;
    }
    assert(char_rows(keys@) =~= task_times(store@));
    let p = order_greatest_first(&keys);
    let ghost q = newest_tasks(store@);
    assert(place_list(p@) == q);
    let mut out: Vec<TaskInfo> = Vec::new();
    let mut j: usize = 0;
    while j < p.len()
        invariant
            j <= p.len(),
            p.len() == store.len(),
            stats@.len() == store@.len(),
            q == place_list(p@),
            out.len() == j,
            forall|k: int| 0 <= k < p.len() ==> #[trigger] p@[k] < store.len(),
            forall|k: int|
                0 <= k < j ==> is_seen(store@[q[k]].info, stats@[q[k]], #[trigger] out@[k]),
        decreases p.len() - j,
    {
        assert(q[j as int] == p@[j as int]);
        out.push(with_log(&store[p[j]].info, &stats[p[j]]));
        j += 1;
    }
    proof {
        assert forall|i: int| 0 <= i < out@.len() implies 0 <= q[i] < store@.len() && is_seen(
            store@[q[i]].info,
            stats@[q[i]],
            #[trigger] out@[i],
        ) by {
            assert(q[i] == p@[i]);
        }
    }
    out
}

/// Tasks are listed from the newest to the oldest, and each once.
pub proof fn law_newest_first(store: Seq<TaskHandle>)
    ensures
        in_order(newest_tasks(store), greatest_first(task_times(store))),
        newest_tasks(store).to_multiset() == places(store.len()).to_multiset(),
{
    let keys = task_times(store);
    let before = greatest_first(keys);
    assert forall|a: int, b: int| #[trigger] before(a, b) implies !before(b, a) by {
        lemma_text_before(keys[b], keys[a], keys[a]);
    }
    assert forall|a: int, b: int, c: int| #[trigger] before(a, c) implies #[trigger] before(a, b)
        || #[trigger] before(b, c) by {
        lemma_text_before(keys[c], keys[b], keys[a]);
    }
    law_sorted(places(store.len()), before);
}

} // verus!
