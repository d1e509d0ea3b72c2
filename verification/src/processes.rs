//! The registry of running agent subprocesses: which processes run, under
//! which session and in which directory, and the capacity that bounds
//! them.
use vstd::prelude::*;

use crate::subprocess::{check_capacity, SubprocessError};
use crate::text::same_text;

verus! {

/// What the daemon keeps of a running subprocess.
#[derive(Debug)]
pub struct ProcessHandle {
    /// Unique identifier of the process.
    pub id: String,
    /// The agent's session, once it has reported one.
    pub session_id: Option<String>,
    /// The working directory the process was asked to run in.
    pub working_directory: String,
}

/// A process record as the specifications see it.
pub struct ProcessView {
    pub id: Seq<char>,
    pub session_id: Option<Seq<char>>,
    pub working_directory: Seq<char>,
}

impl View for ProcessHandle {
    type V = ProcessView;

    open spec fn view(&self) -> ProcessView {
        ProcessView {
            id: self.id@,
            session_id: match self.session_id {
                Some(s) => Some(s@),
                None => None,
            },
            working_directory: self.working_directory@,
        }
    }
}

/// No two records share an ID.
pub open spec fn ids_distinct(ps: Seq<ProcessView>) -> bool {
    forall|i: int, j: int| 0 <= i < ps.len() && 0 <= j < ps.len() && i != j ==> ps[i].id != ps[j].id
}

/// Whether a process with the given ID is registered.
pub open spec fn has_process(ps: Seq<ProcessView>, id: Seq<char>) -> bool {
    exists|i: int| 0 <= i < ps.len() && ps[i].id == id
}

/// The position of the record with the given ID.
pub open spec fn process_index(ps: Seq<ProcessView>, id: Seq<char>) -> int {
    choose|i: int| 0 <= i < ps.len() && ps[i].id == id
}

/// The records after registering `p`: it replaces a record with the same ID
/// in place, or else comes last.
pub open spec fn registered(ps: Seq<ProcessView>, p: ProcessView) -> Seq<ProcessView> {
    if has_process(ps, p.id) {
        ps.update(process_index(ps, p.id), p)
    } else {
        ps.push(p)
    }
}

/// The running subprocesses; a new one may start only while fewer than the
/// capacity run.
pub struct ProcessRegistry {
    processes: Vec<ProcessHandle>,
    max_processes: usize,
}

impl View for ProcessRegistry {
    type V = Seq<ProcessView>;

    closed spec fn view(&self) -> Seq<ProcessView> {
        self.processes@.map_values(|p: ProcessHandle| p@)
    }
}

proof fn lemma_index_of(ps: Seq<ProcessView>, i: int)
    requires
        ids_distinct(ps),
        0 <= i < ps.len(),
    ensures
        has_process(ps, ps[i].id),
        process_index(ps, ps[i].id) == i,
{
    let j = process_index(ps, ps[i].id);
}

impl ProcessRegistry {
    /// The records are keyed distinctly.
    pub open spec fn wf(&self) -> bool {
        ids_distinct(self@)
    }

    /// The capacity.
    pub closed spec fn max_view(&self) -> usize {
        self.max_processes
    }

    /// An empty registry for at most `max_processes` processes.
    pub fn new(max_processes: usize) -> (r: ProcessRegistry)
        ensures
            r.wf(),
            r@ == Seq::<ProcessView>::empty(),
            r.max_view() == max_processes,
    {
        let r = ProcessRegistry { processes: Vec::new(), max_processes };
        assert(r@ =~= Seq::<ProcessView>::empty());
        r
    }

    /// The maximum number of processes.
    pub fn capacity(&self) -> (n: usize)
        ensures
            n == self.max_view(),
    {
        self.max_processes
    }

    /// The number of registered processes.
    pub fn active_count(&self) -> (n: usize)
        ensures
            n == self@.len(),
    {
        self.processes.len()
    }

    fn position(&self, id: &str) -> (r: Option<usize>)
        ensures
            match r {
                Some(i) => i < self@.len() && self@[i as int].id == id@,
                None => !has_process(self@, id@),
            },
    {
        let mut i: usize = 0;
        while i < self.processes.len()
            invariant
                i <= self.processes.len(),
                forall|j: int| 0 <= j < i ==> self@[j].id != id@,
            decreases self.processes.len() - i,
        {
            if same_text(self.processes[i].id.as_str(), id) {
                return Some(i);
            }
            i = i + 1;
        }
        None
    }

    /// Whether a process may start now: refused with the current count and
    /// the capacity when the registry is full.
    pub fn check_spawn(&self) -> (r: Result<(), SubprocessError>)
        ensures
            match r {
                Ok(()) => self@.len() < self.max_view(),
                Err(SubprocessError::PoolExhausted { current, max }) => self@.len() >= self.max_view()
                    && current == self@.len() && max == self.max_view(),
                Err(_) => false,
            },
    {
        check_capacity(self.processes.len(), self.max_processes)
    }

    /// Records a started process under `id`, with no session yet and the
    /// working directory it was asked for; the handle is the record.
    pub fn record_spawn(&mut self, id: String, working_directory: String) -> (h: ProcessHandle)
        requires
            old(self).wf(),
        ensures
            final(self).wf(),
            h@ == (ProcessView { id: id@, session_id: None, working_directory: working_directory@ }),
            final(self)@ == registered(old(self)@, h@),
            final(self).max_view() == old(self).max_view(),
    {
        let ghost hv = ProcessView { id: id@, session_id: None, working_directory: working_directory@ };
        let ghost before = self@;
        let handle = ProcessHandle { id: id.clone(), session_id: None, working_directory: working_directory.clone() };
        let p = ProcessHandle { id, session_id: None, working_directory };
        assert(p@ == hv);
        match self.position(p.id.as_str()) {
            Some(i) => {
                proof {
                    lemma_index_of(before, i as int);
                }
                self.processes.set(i, p);
                assert(self@ =~= before.update(i as int, hv));
                assert forall|a: int, b: int| 0 <= a < self@.len() && 0 <= b < self@.len() && a != b implies self@[a].id
                    != self@[b].id by {
                    if a != i {
                        assert(self@[a] == before[a]);
                    }
                    if b != i {
                        assert(self@[b] == before[b]);
                    }
                }
            },
            None => {
                self.processes.push(p);
                assert(self@ =~= before.push(hv));
                assert forall|a: int, b: int| 0 <= a < self@.len() && 0 <= b < self@.len() && a != b implies self@[a].id
                    != self@[b].id by {
                    if a < before.len() {
                        assert(self@[a] == before[a]);
                    }
                    if b < before.len() {
                        assert(self@[b] == before[b]);
                    }
                }
            },
        }
        handle
    }

    /// Whether a process with the given ID runs; `ProcessNotFound` with the
    /// ID when none does.
    pub fn find(&self, id: &str) -> (r: Result<(), SubprocessError>)
        ensures
            match r {
                Ok(()) => has_process(self@, id@),
                Err(SubprocessError::ProcessNotFound { id: e }) => !has_process(self@, id@) && e@ == id@,
                Err(_) => false,
            },
    {
        match self.position(id) {
            Some(_) => Ok(()),
            None => Err(SubprocessError::ProcessNotFound { id: id.to_owned() }),
        }
    }

    /// Records the agent's session of a process; `ProcessNotFound` with the
    /// ID, and no change, when no process has it.
    pub fn set_session_id(&mut self, id: &str, session_id: String) -> (r: Result<(), SubprocessError>)
        requires
            old(self).wf(),
        ensures
            final(self).wf(),
            final(self).max_view() == old(self).max_view(),
            match r {
                Ok(()) => has_process(old(self)@, id@) && final(self)@ == old(self)@.update(
                    process_index(old(self)@, id@),
                    ProcessView { session_id: Some(session_id@), ..old(self)@[process_index(old(self)@, id@)] },
                ),
                Err(SubprocessError::ProcessNotFound { id: e }) => !has_process(old(self)@, id@) && e@ == id@
                    && final(self)@ == old(self)@,
                Err(_) => false,
            },
    {
        let ghost before = self@;
        match self.position(id) {
            Some(i) => {
                proof {
                    lemma_index_of(before, i as int);
                }
                let old_p = self.processes.remove(i);
                let p = ProcessHandle {
                    id: old_p.id,
                    session_id: Some(session_id),
                    working_directory: old_p.working_directory,
                };
                let ghost pv = p@;
                self.processes.insert(i, p);
                assert(self@ =~= before.update(i as int, pv));
                assert forall|a: int, b: int| 0 <= a < self@.len() && 0 <= b < self@.len() && a != b implies self@[a].id
                    != self@[b].id by {
                    if a != i {
                        assert(self@[a] == before[a]);
                    }
                    if b != i {
                        assert(self@[b] == before[b]);
                    }
                }
                Ok(())
            },
            None => Err(SubprocessError::ProcessNotFound { id: id.to_owned() }),
        }
    }

    /// Takes a process out of the registry (on termination) and gives back
    /// its record; `ProcessNotFound` with the ID, and no change, when no
    /// process has it.
    pub fn remove(&mut self, id: &str) -> (r: Result<ProcessHandle, SubprocessError>)
        requires
            old(self).wf(),
        ensures
            final(self).wf(),
            final(self).max_view() == old(self).max_view(),
            match r {
                Ok(p) => has_process(old(self)@, id@) && p@ == old(self)@[process_index(old(self)@, id@)]
                    && final(self)@ == old(self)@.remove(process_index(old(self)@, id@)),
                Err(SubprocessError::ProcessNotFound { id: e }) => !has_process(old(self)@, id@) && e@ == id@
                    && final(self)@ == old(self)@,
                Err(_) => false,
            },
            !has_process(final(self)@, id@),
    {
        let ghost before = self@;
        match self.position(id) {
            Some(i) => {
                proof {
                    lemma_index_of(before, i as int);
                }
                let p = self.processes.remove(i);
                assert(self@ =~= before.remove(i as int));
                assert forall|a: int, b: int| 0 <= a < self@.len() && 0 <= b < self@.len() && a != b implies self@[a].id
                    != self@[b].id by {
                    let a2 = if a < i { a } else { a + 1 };
                    let b2 = if b < i { b } else { b + 1 };
                    assert(self@[a] == before[a2] && self@[b] == before[b2]);
                }
                assert forall|j: int| 0 <= j < self@.len() implies self@[j].id != id@ by {
                    let j2 = if j < i { j } else { j + 1 };
                    assert(self@[j] == before[j2]);
                }
                Ok(p)
            },
            None => Err(SubprocessError::ProcessNotFound { id: id.to_owned() }),
        }
    }
}

/// Recording a started process under a new ID adds exactly one record, at
/// the end: the requested working directory and no session.
pub proof fn law_spawn_adds_one(ps: Seq<ProcessView>, p: ProcessView)
    requires
        ids_distinct(ps),
        !has_process(ps, p.id),
    ensures
        registered(ps, p).len() == ps.len() + 1,
        registered(ps, p).last() == p,
        registered(ps, p).drop_last() == ps,
{
    assert(ps.push(p).drop_last() =~= ps);
}

} // verus!
