//! The long-term memory of an agent: one Markdown document for each session, with a history.
use vstd::prelude::*;
use vstd::string::*;

use crate::order::{goes_before, text_before};
use crate::table::{find_row, first_place, remove_rows, rows_without};
use crate::text::{concat3, opt_text, same, trim, trimmed};

verus! {

/// The memory of a session. While it is not active it is kept but not used.
pub struct AgentMemory {
    pub id: String,
    pub content: String,
    pub active: bool,
    pub updated_at: String,
}

/// An earlier content of a memory.
pub struct MemoryVersion {
    pub id: String,
    pub content: String,
    pub edited_by: String,
    pub created_at: String,
}

/// The memory of a session with its history, the oldest version first.
pub struct MemoryStore {
    pub session_id: String,
    pub memory: Option<AgentMemory>,
    pub versions: Vec<MemoryVersion>,
}

/// What a memory says.
pub struct MemoryModel {
    pub id: Seq<char>,
    pub content: Seq<char>,
    pub active: bool,
    pub updated_at: Seq<char>,
}

/// What a version says.
pub struct VersionModel {
    pub id: Seq<char>,
    pub content: Seq<char>,
    pub edited_by: Seq<char>,
    pub created_at: Seq<char>,
}

/// What a `MemoryStore` says.
pub struct StoreModel {
    pub session_id: Seq<char>,
    pub memory: Option<MemoryModel>,
    pub versions: Seq<VersionModel>,
}

/// What versions say.
pub open spec fn version_models(v: Seq<MemoryVersion>) -> Seq<VersionModel> {
    Seq::new(
        v.len(),
        |i: int|
            VersionModel {
                id: v[i].id@,
                content: v[i].content@,
                edited_by: v[i].edited_by@,
                created_at: v[i].created_at@,
            },
    )
}

impl View for MemoryStore {
    type V = StoreModel;

    open spec fn view(&self) -> StoreModel {
        StoreModel {
            memory: match self.memory {
                Some(m) => Some(
                    MemoryModel {
                        id: m.id@,
                        content: m.content@,
                        active: m.active,
                        updated_at: m.updated_at@,
                    },
                ),
                None => None,
            },
            versions: version_models(self.versions@),
            session_id: self.session_id@,
        }
    }
}

/// A moment: the time itself, the time before which a version is no longer recent, and an
/// identifier for a version.
pub struct Stamp {
    pub now: String,
    pub threshold: String,
    pub version_id: String,
}

/// Whether there is a version later than a time.
pub open spec fn recent_version(versions: Seq<VersionModel>, threshold: Seq<char>) -> bool {
    exists|i: int|
        0 <= i < versions.len() && text_before(threshold, (#[trigger] versions[i]).created_at)
}

/// Whether the content is kept before it is overwritten: there has to be something to keep, it has to
/// change, and unless forced there may be no recent version, so that a burst of changes makes one.
pub open spec fn keeps_version(
    s: StoreModel,
    content: Seq<char>,
    force: bool,
    threshold: Seq<char>,
) -> bool {
    match s.memory {
        Some(m) => trim(m.content).len() > 0 && m.content != content && (force
            || !recent_version(s.versions, threshold)),
        None => false,
    }
}

/// The store with the content kept, where it is.
pub open spec fn snapshotted(
    s: StoreModel,
    content: Seq<char>,
    force: bool,
    now: Seq<char>,
    threshold: Seq<char>,
    version_id: Seq<char>,
) -> StoreModel {
    if keeps_version(s, content, force, threshold) {
        StoreModel {
            versions: s.versions.push(
                VersionModel {
                    id: version_id,
                    content: s.memory->0.content,
                    edited_by: if force {
                        "restore"@
                    } else {
                        "user"@
                    },
                    created_at: now,
                },
            ),
            ..s
        }
    } else {
        s
    }
}

/// The store with a new content. A new memory is active, and another keeps its state.
pub open spec fn with_content(
    s: StoreModel,
    content: Seq<char>,
    now: Seq<char>,
    threshold: Seq<char>,
    version_id: Seq<char>,
) -> StoreModel {
    let kept = snapshotted(s, content, false, now, threshold, version_id);
    StoreModel {
        memory: Some(
            MemoryModel {
                id: s.session_id,
                content,
                active: match s.memory {
                    Some(m) => m.active,
                    None => true,
                },
                updated_at: now,
            },
        ),
        ..kept
    }
}

/// The store with the memory switched on or off. The content stays.
pub open spec fn with_active(s: StoreModel, active: bool, now: Seq<char>) -> StoreModel {
    StoreModel {
        memory: Some(
            MemoryModel {
                id: s.session_id,
                content: match s.memory {
                    Some(m) => m.content,
                    None => Seq::empty(),
                },
                active,
                updated_at: now,
            },
        ),
        ..s
    }
}

/// The place of the version with an identifier.
pub open spec fn version_at(versions: Seq<VersionModel>, id: Seq<char>, i: int) -> Option<int>
    decreases versions.len() - i,
{
    if i < 0 || i >= versions.len() {
        None
    } else if versions[i].id == id {
        Some(i)
    } else {
        version_at(versions, id, i + 1)
    }
}

/// The store with the memory as it was at a version. The content before is kept in any case.
pub open spec fn restored(
    s: StoreModel,
    content: Seq<char>,
    now: Seq<char>,
    threshold: Seq<char>,
    version_id: Seq<char>,
    spare_id: Seq<char>,
) -> StoreModel {
    with_content(
        snapshotted(s, content, true, now, threshold, version_id),
        content,
        now,
        threshold,
        spare_id,
    )
}

impl MemoryStore {
    /// Keeps the content before it is overwritten, where there is something to keep.
    pub fn snapshot_previous(&mut self, content: &str, force: bool, at: &Stamp)
        ensures
            final(self)@ == snapshotted(
                old(self)@,
                content@,
                force,
                at.now@,
                at.threshold@,
                at.version_id@,
            ),
    {
        let ghost before = self@;
        let old_content = match &self.memory {
            Some(m) => m.content.clone(),
            None => return,
        };
        if trimmed(old_content.as_str()).as_str().is_empty() || same(old_content.as_str(), content) {
            return;
        }
        if !force {
            let mut i: usize = 0;
            while i < self.versions.len()
                invariant
                    i <= self.versions.len(),
                    self@ == before,
                    before == old(self)@,
                    !force,
                    forall|j: int|
                        0 <= j < i ==> !text_before(
                            at.threshold@,
                            (#[trigger] before.versions[j]).created_at,
                        ),
                decreases self.versions.len() - i,
            {
                if goes_before(at.threshold.as_str(), self.versions[i].created_at.as_str()) {
                    assert(text_before(at.threshold@, before.versions[i as int].created_at));
                    return;
                }
                i += 1;
            }
        }
        self.versions.push(
            MemoryVersion {
                id: at.version_id.clone(),
                content: old_content,
                edited_by: if force {
                    "restore".to_owned()
                } else {
                    "user".to_owned()
                },
                created_at: at.now.clone(),
            },
        );
        proof {
            let v = VersionModel {
                id: at.version_id@,
                content: before.memory->0.content,
                edited_by: if force {
                    "restore"@
                } else {
                    "user"@
                },
                created_at: at.now@,
            };
            assert(version_models(self.versions@) =~= before.versions.push(v));
        }
    }

    /// Writes the memory. Whether it is active stays as it was.
    pub fn set_content(&mut self, content: &str, at: &Stamp)
        ensures
            final(self)@ == with_content(
                old(self)@,
                content@,
                at.now@,
                at.threshold@,
                at.version_id@,
            ),
    {
        let active = match &self.memory {
            Some(m) => m.active,
            None => true,
        };
        self.snapshot_previous(content, false, at);
        self.memory = Some(
            AgentMemory {
                id: self.session_id.clone(),
                content: content.to_owned(),
                active,
                updated_at: at.now.clone(),
            },
        );
    }

    /// Switches the memory on or off. Its content stays as it was.
    pub fn set_active(&mut self, active: bool, now: &str)
        ensures
            final(self)@ == with_active(old(self)@, active, now@),
    {
        let content = match &self.memory {
            Some(m) => m.content.clone(),
            None => String::new(),
        };
        self.memory = Some(
            AgentMemory {
                id: self.session_id.clone(),
                content,
                active,
                updated_at: now.to_owned(),
            },
        );
    }

    /// Adds a paragraph to the memory.
    pub fn append(&mut self, text: &str, at: &Stamp)
        ensures
            final(self)@ == with_content(
                old(self)@,
                (match old(self)@.memory {
                    Some(m) => if m.content.len() > 0 {
                        m.content + "\n\n"@ + text@
                    } else {
                        text@
                    },
                    None => text@,
                }),
                at.now@,
                at.threshold@,
                at.version_id@,
            ),
    {
        let content = match &self.memory {
            Some(m) => if m.content.as_str().is_empty() {
                text.to_owned()
            } else {
                concat3(m.content.as_str(), "\n\n", text)
            },
            None => text.to_owned(),
        };
        self.set_content(content.as_str(), at);
    }

    /// What goes into the prompt: the content, while it is active and not blank.
    pub fn active_content(&self) -> (r: Option<String>)
        ensures
            opt_text(r) == (match self@.memory {
                Some(m) => if m.active && trim(m.content).len() > 0 {
                    Some(m.content)
                } else {
                    None
                },
                None => None,
            }),
    {
        match &self.memory {
            Some(m) => if m.active && !trimmed(m.content.as_str()).as_str().is_empty() {
                Some(m.content.clone())
            } else {
                None
            },
            None => None,
        }
    }

    /// Takes the memory back to a version of its history.
    pub fn restore(&mut self, version_id: &str, at: &Stamp, spare_id: &str) -> (r: Result<(), String>)
        ensures
            match version_at(old(self)@.versions, version_id@, 0) {
                Some(k) => r is Ok && final(self)@ == restored(
                    old(self)@,
                    old(self)@.versions[k].content,
                    at.now@,
                    at.threshold@,
                    at.version_id@,
                    spare_id@,
                ),
                None => r is Err && r->Err_0@ == "version not found"@ && final(self)@ == old(self)@,
            },
    {
        let ghost before = self@;
        let mut i: usize = 0;
        while i < self.versions.len()
            invariant
                i <= self.versions.len(),
                self@ == before,
                before == old(self)@,
                version_at(before.versions, version_id@, 0) == version_at(
                    before.versions,
                    version_id@,
                    i as int,
                ),
            decreases self.versions.len() - i,
        {
            if same(self.versions[i].id.as_str(), version_id) {
                let content = self.versions[i].content.clone();
                self.snapshot_previous(content.as_str(), true, at);
                let spare = Stamp {
                    now: at.now.clone(),
                    threshold: at.threshold.clone(),
                    version_id: spare_id.to_owned(),
                };
                self.set_content(content.as_str(), &spare);
                return Ok(());
            }
            i += 1;
        }
        Err("version not found".to_owned())
    }
}

/// Whether a memory belongs to a session.
pub open spec fn of_session(session: Seq<char>) -> spec_fn(AgentMemory) -> bool {
    |m: AgentMemory| m.id@ == session
}

/// The place of the memory of a session, if it ever had one.
pub fn get(memories: &Vec<AgentMemory>, session_id: &str) -> (r: Option<usize>)
    ensures
        match r {
            Some(k) => k < memories.len() && first_place(memories@, of_session(session_id@), 0)
                == Some(k as int) && memories@[k as int].id@ == session_id@,
            None => first_place(memories@, of_session(session_id@), 0) is None,
        },
{
    let is = |m: &AgentMemory| -> (c: bool)
        ensures
            c == (m.id@ == session_id@),
        { same(m.id.as_str(), session_id) };
    find_row(memories, is, Ghost(of_session(session_id@)))
}

/// A version, and the session whose memory it is of.
pub struct StoredVersion {
    pub session_id: String,
    pub version: MemoryVersion,
}

/// Whether a version is of the memory of a session.
pub open spec fn version_of(session: Seq<char>) -> spec_fn(StoredVersion) -> bool {
    |v: StoredVersion| v.session_id@ == session
}

/// Forgets a session that is deleted: its memory and all its versions, and nothing of another.
pub fn delete_for_session(
    memories: &mut Vec<AgentMemory>,
    versions: &mut Vec<StoredVersion>,
    session_id: &str,
)
    ensures
        final(memories)@ == rows_without(old(memories)@, of_session(session_id@)),
        final(versions)@ == rows_without(old(versions)@, version_of(session_id@)),
{
    let memory_goes = |m: &AgentMemory| -> (c: bool)
        ensures
            c == (m.id@ == session_id@),
        { same(m.id.as_str(), session_id) };
    remove_rows(memories, memory_goes, Ghost(of_session(session_id@)));
    let version_goes = |v: &StoredVersion| -> (c: bool)
        ensures
            c == (v.session_id@ == session_id@),
        { same(v.session_id.as_str(), session_id) };
    remove_rows(versions, version_goes, Ghost(version_of(session_id@)));
}

/// Decides whether a version may be restored into a memory: it has to be one of its own.
pub fn check_version_owner(version_of: &str, session_id: &str) -> (r: Result<(), String>)
    ensures
        match r {
            Ok(_) => version_of@ == session_id@,
            Err(e) => version_of@ != session_id@ && e@
                == "version does not belong to this memory"@,
        },
{
    if same(version_of, session_id) {
        Ok(())
    } else {
        Err("version does not belong to this memory".to_owned())
    }
}

// ---------------------------------------------------------------------------------------------
// Laws
// ---------------------------------------------------------------------------------------------
/// Writing a memory that is there leaves it on or off as it was.
pub proof fn law_writing_keeps_active(
    s: StoreModel,
    content: Seq<char>,
    now: Seq<char>,
    threshold: Seq<char>,
    id: Seq<char>,
)
    requires
        s.memory is Some,
    ensures
        with_content(s, content, now, threshold, id).memory->0.active == s.memory->0.active,
{
}

/// Switching a memory off and on again gives its content back.
pub proof fn law_forgetting_keeps_content(s: StoreModel, active: bool, now: Seq<char>)
    requires
        s.memory is Some,
    ensures
        with_active(s, active, now).memory->0.content == s.memory->0.content,
        with_active(s, active, now).versions == s.versions,
{
}

/// Whether some version holds a content.
pub open spec fn recoverable(versions: Seq<VersionModel>, content: Seq<char>) -> bool {
    exists|i: int| 0 <= i < versions.len() && (#[trigger] versions[i]).content == content
}

/// A restore can be undone: the content before it, where it says something and differs, is among
/// the versions afterwards.
pub proof fn law_restore_can_be_undone(
    s: StoreModel,
    content: Seq<char>,
    now: Seq<char>,
    threshold: Seq<char>,
    id: Seq<char>,
    spare: Seq<char>,
)
    requires
        s.memory is Some,
        trim(s.memory->0.content).len() > 0,
        s.memory->0.content != content,
    ensures
        recoverable(
            restored(s, content, now, threshold, id, spare).versions,
            s.memory->0.content,
        ),
        restored(s, content, now, threshold, id, spare).memory->0.content == content,
{
    let kept = snapshotted(s, content, true, now, threshold, id);
    let n = s.versions.len() as int;
    assert(kept.versions[n].content == s.memory->0.content);
    let r = restored(s, content, now, threshold, id, spare);
    assert(r.versions[n] == kept.versions[n]);
}

/// Changes that follow one another closely make one version: once one is recent, writing again
/// keeps no other.
pub proof fn law_burst_makes_one_version(
    s: StoreModel,
    first: Seq<char>,
    second: Seq<char>,
    now: Seq<char>,
    threshold: Seq<char>,
    later: Seq<char>,
    later_threshold: Seq<char>,
    a: Seq<char>,
    b: Seq<char>,
)
    requires
        keeps_version(s, first, false, threshold),
        text_before(later_threshold, now),
    ensures
        ({
            let once = with_content(s, first, now, threshold, a);
            let twice = with_content(once, second, later, later_threshold, b);
            twice.versions == once.versions
        }),
{
    let once = with_content(s, first, now, threshold, a);
    let n = s.versions.len() as int;
    assert(once.versions[n].created_at == now);
    assert(recent_version(once.versions, later_threshold));
}

/// Writing what is there already keeps no version.
pub proof fn law_unchanged_keeps_no_version(
    s: StoreModel,
    now: Seq<char>,
    threshold: Seq<char>,
    id: Seq<char>,
)
    requires
        s.memory is Some,
    ensures
        with_content(s, s.memory->0.content, now, threshold, id).versions == s.versions,
{
}

} // verus!
