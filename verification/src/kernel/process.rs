//! A process: one running program with its place in the family tree.

use crate::game::replay::GameEvent;
use crate::vm::emulator::{Emulator, Machine};
use vstd::prelude::*;

verus! {

pub struct Process {
    pub pid: u16,
    pub ppid: Option<u16>,
    pub children: Vec<u16>,
    pub uid: u16,
    pub lifetime: u32,
    pub nice: u16,
    pub emulator: Emulator,
}

/// A process as plain values.
pub struct ProcessView {
    pub pid: u16,
    pub ppid: Option<u16>,
    pub children: Seq<u16>,
    pub uid: u16,
    pub lifetime: u32,
    pub nice: u16,
    pub emulator: Machine,
}

impl View for Process {
    type V = ProcessView;

    open spec fn view(&self) -> ProcessView {
        ProcessView {
            pid: self.pid,
            ppid: self.ppid,
            children: self.children@,
            uid: self.uid,
            lifetime: self.lifetime,
            nice: self.nice,
            emulator: self.emulator@,
        }
    }
}

/// The cycles that a process of the given niceness may spend in one tick.
pub open spec fn execution_limit(nice: u16) -> int {
    if nice == 0 {
        1000
    } else if nice <= 5 {
        nice * 200 + 1000
    } else if nice <= 10 {
        nice * 150 + 1250
    } else if nice <= 15 {
        nice * 100 + 1750
    } else if nice <= 20 {
        nice * 50 + 2500
    } else {
        3500
    }
}

/// The limit never falls when the niceness rises, and it stays between 1000
/// and 3500.
pub proof fn lemma_execution_limit(nice: u16, nicer: u16)
    requires
        nice <= nicer,
    ensures
        1000 <= execution_limit(nice) <= execution_limit(nicer) <= 3500,
{
}

impl ProcessView {
    /// A process without a parent is the first process of its owner.
    pub open spec fn is_init(self) -> bool {
        self.ppid is None
    }
}

impl Process {
    pub fn is_init(&self) -> (init: bool)
        ensures
            init == self@.is_init(),
    {
        self.ppid.is_none()
    }

    /// Makes the process nicer by one, up to the most a word can hold, and
    /// logs it.
    pub fn renice(&mut self, log: &mut Vec<GameEvent>)
        ensures
            final(self)@ == (ProcessView {
                nice: if old(self).nice == u16::MAX {
                    u16::MAX
                } else {
                    (old(self).nice + 1) as u16
                },
                ..old(self)@
            }),
            final(self).emulator.wf() == old(self).emulator.wf(),
            final(log)@ == old(log)@.push(
                GameEvent::Renice { pid: old(self).pid, new_nice: final(self).nice },
            ),
    {
        self.nice = self.nice.saturating_add(1);
        log.push(GameEvent::Renice { pid: self.pid, new_nice: self.nice });
    }

    pub fn get_execution_limit(&self) -> (cycles: usize)
        ensures
            cycles == execution_limit(self.nice),
    {
        let nice = self.nice as usize;
        if nice == 0 {
            1000
        } else if nice <= 5 {
            nice * 200 + 1000
        } else if nice <= 10 {
            nice * 150 + 1250
        } else if nice <= 15 {
            nice * 100 + 1750
        } else if nice <= 20 {
            nice * 50 + 2500
        } else {
            3500
        }
    }
}

/// A list of pids without every occurrence of one of them.
pub open spec fn without(pids: Seq<u16>, pid: u16) -> Seq<u16>
    decreases pids.len(),
{
    if pids.len() == 0 {
        pids
    } else if pids.last() == pid {
        without(pids.drop_last(), pid)
    } else {
        without(pids.drop_last(), pid).push(pids.last())
    }
}

/// Taking a pid out of a list leaves exactly the other pids, each as often
/// as before.
pub proof fn lemma_without(pids: Seq<u16>, pid: u16)
    ensures
        without(pids, pid).len() <= pids.len(),
        forall|other: u16|
            #![trigger without(pids, pid).contains(other)]
            without(pids, pid).contains(other) <==> pids.contains(other) && other != pid,
        pids.no_duplicates() ==> without(pids, pid).no_duplicates(),
        !pids.contains(pid) ==> without(pids, pid) == pids,
    decreases pids.len(),
{
    if pids.len() > 0 {
        let front = pids.drop_last();
        lemma_without(front, pid);
        let rest = without(front, pid);
        assert(pids =~= front.push(pids.last()));
        assert forall|other: u16| #![trigger without(pids, pid).contains(other)]
            without(pids, pid).contains(other) <==> pids.contains(other) && other != pid by {
            if pids.contains(other) && other != pid {
                let i = choose|i: int| 0 <= i < pids.len() && pids[i] == other;
                if i < front.len() {
                    assert(front[i] == other);
                    assert(front.contains(other));
                    assert(rest.contains(other));
                    let j = choose|j: int| 0 <= j < rest.len() && rest[j] == other;
                    if pids.last() != pid {
                        assert(rest.push(pids.last())[j] == other);
                    }
                } else {
                    assert(pids.last() == other);
                    assert(rest.push(other)[rest.len() as int] == other);
                }
            }
            if without(pids, pid).contains(other) {
                let j = choose|j: int|
                    0 <= j < without(pids, pid).len() && without(pids, pid)[j] == other;
                if pids.last() != pid && j == rest.len() {
                    assert(pids[pids.len() - 1] == other);
                } else {
                    assert(rest[j] == other);
                    assert(rest.contains(other));
                    let i = choose|i: int| 0 <= i < front.len() && front[i] == other;
                    assert(pids[i] == other);
                }
            }
        }
        if pids.no_duplicates() {
            assert(front.no_duplicates());
            if pids.last() != pid {
                if rest.contains(pids.last()) {
                    let i = choose|i: int| 0 <= i < front.len() && front[i] == pids.last();
                    assert(pids[i] == pids[pids.len() - 1]);
                }
                assert forall|i: int, j: int|
                    0 <= i < rest.len() + 1 && 0 <= j < rest.len() + 1 && i != j implies rest.push(
                    pids.last(),
                )[i] != rest.push(pids.last())[j] by {
                    if i == rest.len() {
                        assert(rest.contains(rest[j]));
                    } else if j == rest.len() {
                        assert(rest.contains(rest[i]));
                    }
                }
            }
        }
        if !pids.contains(pid) {
            assert(pids[pids.len() - 1] != pid);
            assert(!front.contains(pid)) by {
                if front.contains(pid) {
                    let i = choose|i: int| 0 <= i < front.len() && front[i] == pid;
                    assert(pids[i] == pid);
                }
            }
            assert(without(pids, pid) =~= pids);
        }
    }
}

/// Taking the first pid out of a list that names no pid twice leaves the
/// rest of the list.
pub proof fn lemma_without_first(pids: Seq<u16>)
    requires
        pids.len() > 0,
        pids.no_duplicates(),
    ensures
        without(pids, pids[0]) == pids.drop_first(),
    decreases pids.len(),
{
    if pids.len() == 1 {
        assert(without(pids.drop_last(), pids[0]) =~= Seq::<u16>::empty());
        assert(pids.drop_first() =~= Seq::<u16>::empty());
    } else {
        let front = pids.drop_last();
        lemma_without_first(front);
        assert(front[0] == pids[0]);
        assert(pids[pids.len() - 1] != pids[0]);
        assert(without(pids, pids[0]) =~= pids.drop_first());
    }
}

/// The list without every occurrence of `pid`.
pub fn remove_pid(pids: &Vec<u16>, pid: u16) -> (res: Vec<u16>)
    ensures
        res@ == without(pids@, pid),
{
    let mut res: Vec<u16> = Vec::new();
    let mut i: usize = 0;
    while i < pids.len()
        invariant
            i <= pids@.len(),
            res@ == without(pids@.subrange(0, i as int), pid),
        decreases pids@.len() - i,
    {
        proof {
            assert(pids@.subrange(0, i + 1).drop_last() =~= pids@.subrange(0, i as int));
        }
        if pids[i] != pid {
            res.push(pids[i]);
        }
        i += 1;
    }
    assert(pids@.subrange(0, i as int) =~= pids@);
    res
}

} // verus!
