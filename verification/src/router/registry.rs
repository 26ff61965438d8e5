//! Router-side worker registry: the source of truth for "which repos have a live
//! worker, on what port, and is it still alive?" plus single-flight spawn.
//!
//! ## State machine (per repo)
//!
//! ```text
//!   (absent) --spawn--> Spawning --ready line--> Ready{port,child}
//!        ^                  |                          |
//!        |                  | spawn/handshake failed   | child exited / killed
//!        +------------------+--------------------------+
//! ```
//!
//! - **Spawning**: a worker process has been launched and its readiness handshake
//!   is awaited. Concurrent requests for the same repo do not spawn a second
//!   process; they await the same token.
//! - **Ready**: the worker accepted on `port`.
//! - **absent**: no live worker; the next request spawns one.
//!
//! The registry decides; the processes, the clock and the waiting belong to its
//! caller, who says what was seen of a child and what time it is.

use vstd::prelude::*;

use crate::seqs::{lemma_push_contains, lemma_push_no_duplicates};
use crate::strmap::StrMap;
use crate::text::texts;

verus! {

/// A live, ready worker: the port it accepted on, its process id, and the handle
/// under which its owner keeps the child process.
#[derive(Debug, Clone, Copy, PartialEq, Eq, Structural)]
pub struct ReadyWorker {
    pub port: u16,
    pub pid: u32,
    pub child: u64,
}

/// What a non-blocking wait on a child said.
#[derive(Debug, Clone, Copy, PartialEq, Eq, Structural)]
pub enum ChildStatus {
    /// It is still running.
    Running,
    /// It has exited.
    Exited,
    /// It could not be determined.
    Unknown,
}

/// Per-repo worker state.
#[derive(Debug, Clone, Copy, PartialEq, Eq, Structural)]
pub enum WorkerState {
    /// A spawn is in flight. `ready` is the identity of this spawn: it is fresh
    /// each time a spawner is elected, so it tells whether the spawn currently in
    /// the registry is still the one a given driver owns. `since` stamps when
    /// this spawn was elected, in nanoseconds.
    Spawning { ready: u64, since: u128 },
    /// The worker is accepting.
    Ready(ReadyWorker),
}

/// Outcome of [`Registry::acquire`].
#[derive(Debug, Clone, Copy, PartialEq, Eq, Structural)]
pub enum Acquire {
    /// A live worker already exists: proxy here.
    Ready(ReadyWorker),
    /// This caller won the single-flight election and must spawn the worker, and
    /// then call [`Registry::publish_ready`] or [`Registry::abandon_spawn`].
    SpawnElected { ready: u64 },
    /// A spawn is already in flight by another caller; await `ready` and then
    /// acquire again.
    AwaitSpawn { ready: u64 },
}

/// The workers of a registry, by repo.
pub type Workers = Map<Seq<char>, WorkerState>;

/// Whether a child is alive, going by what a non-blocking wait said. One that
/// cannot be determined counts as dead.
pub open spec fn alive(status: ChildStatus) -> bool {
    status is Running
}

/// The spawn that is in flight for `repo`, if one is.
pub open spec fn spawn_of(m: Workers, repo: Seq<char>) -> Option<u64> {
    if m.contains_key(repo) {
        match m[repo] {
            WorkerState::Spawning { ready, .. } => Some(ready),
            WorkerState::Ready(_) => None,
        }
    } else {
        None
    }
}

/// The worker that is registered for `repo`, if one is.
pub open spec fn worker_of(m: Workers, repo: Seq<char>) -> Option<ReadyWorker> {
    if m.contains_key(repo) {
        match m[repo] {
            WorkerState::Spawning { .. } => None,
            WorkerState::Ready(w) => Some(w),
        }
    } else {
        None
    }
}

/// What `acquire` returns without changing anything: a live worker or a spawn in
/// flight. `None` where a spawner is to be elected.
pub open spec fn acquire_resident(m: Workers, repo: Seq<char>, status: ChildStatus) -> Option<
    Acquire,
> {
    match (worker_of(m, repo), spawn_of(m, repo)) {
        (Some(w), _) => if alive(status) {
            Some(Acquire::Ready(w))
        } else {
            None
        },
        (None, Some(ready)) => Some(Acquire::AwaitSpawn { ready }),
        (None, None) => None,
    }
}

/// The workers after an acquire for which the next token is `next`.
pub open spec fn acquire_after(
    m: Workers,
    next: u64,
    repo: Seq<char>,
    status: ChildStatus,
    now: u128,
) -> Workers {
    if acquire_resident(m, repo, status) is Some {
        m
    } else {
        m.insert(repo, WorkerState::Spawning { ready: next, since: now })
    }
}

/// What an acquire returns for which the next token is `next`.
pub open spec fn acquire_result(
    m: Workers,
    next: u64,
    repo: Seq<char>,
    status: ChildStatus,
) -> Acquire {
    match acquire_resident(m, repo, status) {
        Some(res) => res,
        None => Acquire::SpawnElected { ready: next },
    }
}

/// The live worker of `repo`, if it has one.
pub open spec fn peek_result(m: Workers, repo: Seq<char>, status: ChildStatus) -> Option<
    ReadyWorker,
> {
    if alive(status) {
        worker_of(m, repo)
    } else {
        None
    }
}

/// The workers after a look for a live worker: a dead one is gone.
pub open spec fn peek_after(m: Workers, repo: Seq<char>, status: ChildStatus) -> Workers {
    if worker_of(m, repo) is Some && !alive(status) {
        m.remove(repo)
    } else {
        m
    }
}

/// The workers after a spawn has published its worker.
pub open spec fn publish_after(
    m: Workers,
    repo: Seq<char>,
    worker: ReadyWorker,
    ready: u64,
) -> Workers {
    if spawn_of(m, repo) == Some(ready) {
        m.insert(repo, WorkerState::Ready(worker))
    } else {
        m
    }
}

/// The workers after a spawn has been given up.
pub open spec fn abandon_after(m: Workers, repo: Seq<char>, ready: u64) -> Workers {
    if spawn_of(m, repo) == Some(ready) {
        m.remove(repo)
    } else {
        m
    }
}

/// How long ago `since` was.
pub open spec fn elapsed(now: u128, since: u128) -> int {
    if now >= since {
        now - since
    } else {
        0
    }
}

/// Whether the sweep keeps the entry of `repo`. A worker is kept unless its child
/// was seen and is not alive; a spawn is kept while it is younger than the cutoff.
pub open spec fn keeps(
    m: Workers,
    seen: Map<Seq<char>, ChildStatus>,
    now: u128,
    spawn_orphan_after: u128,
    repo: Seq<char>,
) -> bool {
    match m[repo] {
        WorkerState::Ready(_) => seen.contains_key(repo) ==> alive(seen[repo]),
        WorkerState::Spawning { since, .. } => elapsed(now, since) < spawn_orphan_after,
    }
}

/// The workers after the sweep.
pub open spec fn reap_after(
    m: Workers,
    seen: Map<Seq<char>, ChildStatus>,
    now: u128,
    spawn_orphan_after: u128,
) -> Workers {
    m.restrict(Set::new(|repo: Seq<char>| keeps(m, seen, now, spawn_orphan_after, repo)))
}

/// Whether the sweep drops a spawn with the token `ready`.
pub open spec fn drops_spawn(
    m: Workers,
    seen: Map<Seq<char>, ChildStatus>,
    now: u128,
    spawn_orphan_after: u128,
    ready: u64,
) -> bool {
    exists|repo: Seq<char>|
        #![trigger m.contains_key(repo)]
        m.contains_key(repo) && spawn_of(m, repo) == Some(ready) && !keeps(
            m,
            seen,
            now,
            spawn_orphan_after,
            repo,
        )
}

/// Every token in the registry was issued, and no two spawns share one.
pub open spec fn tokens_apart(m: Workers, issued: u64) -> bool {
    &&& forall|repo: Seq<char>|
        (#[trigger] spawn_of(m, repo)) is Some ==> spawn_of(m, repo)->0 < issued
    &&& forall|a: Seq<char>, b: Seq<char>|
        #![trigger spawn_of(m, a), spawn_of(m, b)]
        spawn_of(m, a) is Some && spawn_of(m, a) == spawn_of(m, b) ==> a == b
}

/// Reuse-safe liveness check, from what a non-blocking wait on the owned child
/// handle said.
pub fn is_child_alive(status: ChildStatus) -> (res: bool)
    ensures
        res == alive(status),
{
    match status {
        ChildStatus::Exited => false,
        ChildStatus::Running => true,
        ChildStatus::Unknown => false,
    }
}

/// The router's live worker table, keyed by normalized repo path.
pub struct Registry {
    inner: StrMap<WorkerState>,
    issued: u64,
}

impl Registry {
    /// The workers, by repo.
    pub closed spec fn view(&self) -> Workers {
        self.inner@
    }

    /// How many tokens have been issued; the next one is this number.
    pub closed spec fn tokens(&self) -> u64 {
        self.issued
    }

    /// The table is consistent.
    pub closed spec fn consistent(&self) -> bool {
        self.inner.wf()
    }

    /// The table is consistent, and its tokens are apart.
    pub open spec fn wf(&self) -> bool {
        &&& self.consistent()
        &&& tokens_apart(self@, self.tokens())
    }

    /// An empty registry.
    pub fn new() -> (res: Self)
        ensures
            res.wf(),
            res@ == Map::<Seq<char>, WorkerState>::empty(),
            res.tokens() == 0,
    {
        Registry { inner: StrMap::new(), issued: 0 }
    }

    /// How many tokens have been issued.
    pub fn issued(&self) -> (res: u64)
        ensures
            res == self.tokens(),
    {
        self.issued
    }

    /// The worker registered for `repo`, alive or not: the one whose child is to
    /// be looked at before an acquire or a peek.
    pub fn resident(&self, repo: &str) -> (res: Option<ReadyWorker>)
        requires
            self.wf(),
        ensures
            res == worker_of(self@, repo@),
    {
        match self.inner.get(repo) {
            Some(WorkerState::Ready(w)) => Some(*w),
            _ => None,
        }
    }

    /// The part of [`Registry::acquire`] that only reads: `None` where a spawner
    /// is to be elected.
    pub fn acquire_fast(&self, repo: &str, status: ChildStatus) -> (res: Option<Acquire>)
        requires
            self.wf(),
        ensures
            res == acquire_resident(self@, repo@, status),
    {
        match self.inner.get(repo) {
            Some(WorkerState::Ready(w)) => if is_child_alive(status) {
                Some(Acquire::Ready(*w))
            } else {
                None
            },
            Some(WorkerState::Spawning { ready, .. }) => Some(
                Acquire::AwaitSpawn { ready: *ready },
            ),
            None => None,
        }
    }

    /// Single-flight acquire. Returns
    /// - `Ready` if a live worker exists,
    /// - `SpawnElected` if this caller should spawn (state set to `Spawning`),
    /// - `AwaitSpawn` if another caller is mid-spawn.
    ///
    /// `status` is what was seen of the resident worker's child; a worker whose
    /// child is not alive is treated as absent. It is of no account where no
    /// worker is resident.
    pub fn acquire(&mut self, repo: &str, status: ChildStatus, now: u128) -> (res: Acquire)
        requires
            old(self).wf(),
            acquire_resident(old(self)@, repo@, status) is None ==> old(self).tokens() < u64::MAX,
        ensures
            final(self).wf(),
            res == acquire_result(old(self)@, old(self).tokens(), repo@, status),
            final(self)@ == acquire_after(old(self)@, old(self).tokens(), repo@, status, now),
            final(self).tokens() == if res is SpawnElected {
                old(self).tokens() + 1
            } else {
                old(self).tokens() as int
            },
    {
        match self.acquire_fast(repo, status) {
            Some(res) => res,
            None => {
                let ready: u64 = self.issued;
                self.inner.insert(repo, WorkerState::Spawning { ready, since: now });
                self.issued = self.issued + 1;
                proof {
                    lemma_insert_apart(
                        old(self)@,
                        old(self).issued,
                        repo@,
                        WorkerState::Spawning { ready, since: now },
                    );
                }
                Acquire::SpawnElected { ready }
            },
        }
    }

    /// The part of [`Registry::peek_ready`] that only reads: `None` where a dead
    /// worker is to be removed.
    pub fn peek_fast(&self, repo: &str, status: ChildStatus) -> (res: Option<
        Option<ReadyWorker>,
    >)
        requires
            self.wf(),
        ensures
            res == if peek_after(self@, repo@, status) == self@ {
                Some(peek_result(self@, repo@, status))
            } else {
                None
            },
    {
        match self.inner.get(repo) {
            Some(WorkerState::Ready(w)) => if is_child_alive(status) {
                Some(Some(*w))
            } else {
                assert(!self@.remove(repo@).contains_key(repo@));
                None
            },
            _ => Some(None),
        }
    }

    /// Liveness check for read-only routes: the live worker if one is resident
    /// and its child is still running, else `None`. A dead worker is removed, so
    /// that the repo is absent; unlike [`Registry::acquire`] this never elects a
    /// spawn. A spawn in flight is left untouched.
    pub fn peek_ready(&mut self, repo: &str, status: ChildStatus) -> (res: Option<ReadyWorker>)
        requires
            old(self).wf(),
        ensures
            final(self).wf(),
            res == peek_result(old(self)@, repo@, status),
            final(self)@ == peek_after(old(self)@, repo@, status),
            final(self).tokens() == old(self).tokens(),
    {
        match self.peek_fast(repo, status) {
            Some(res) => res,
            None => {
                let _ = self.inner.remove(repo);
                proof {
                    lemma_remove_apart(old(self)@, old(self).issued, repo@);
                }
                None
            },
        }
    }

    /// Publish a freshly-spawned ready worker.
    ///
    /// Returns `true` if the worker was installed, `false` if this spawn was
    /// superseded: the spawn this driver owned is no longer the one in the
    /// registry. Then nothing is changed, and the caller must kill its worker.
    /// Either way the caller wakes those who await `ready`.
    pub fn publish_ready(&mut self, repo: &str, worker: ReadyWorker, ready: u64) -> (res: bool)
        requires
            old(self).wf(),
        ensures
            final(self).wf(),
            res == (spawn_of(old(self)@, repo@) == Some(ready)),
            final(self)@ == publish_after(old(self)@, repo@, worker, ready),
            final(self).tokens() == old(self).tokens(),
    {
        let own = match self.inner.get(repo) {
            Some(WorkerState::Spawning { ready: current, .. }) => *current == ready,
            _ => false,
        };
        if own {
            self.inner.insert(repo, WorkerState::Ready(worker));
            proof {
                lemma_insert_apart(
                    old(self)@,
                    old(self).issued,
                    repo@,
                    WorkerState::Ready(worker),
                );
            }
        }
        own
    }

    /// Abandon a failed spawn: remove its entry if it is still the one in the
    /// registry. Either way the caller wakes those who await `ready`.
    pub fn abandon_spawn(&mut self, repo: &str, ready: u64)
        requires
            old(self).wf(),
        ensures
            final(self).wf(),
            final(self)@ == abandon_after(old(self)@, repo@, ready),
            final(self).tokens() == old(self).tokens(),
    {
        let own = match self.inner.get(repo) {
            Some(WorkerState::Spawning { ready: current, .. }) => *current == ready,
            _ => false,
        };
        if own {
            let _ = self.inner.remove(repo);
            proof {
                lemma_remove_apart(old(self)@, old(self).issued, repo@);
            }
        }
    }

    /// Drop a repo's entry. Gives back the worker whose child is to be killed.
    pub fn kill(&mut self, repo: &str) -> (res: Option<ReadyWorker>)
        requires
            old(self).wf(),
        ensures
            final(self).wf(),
            res == worker_of(old(self)@, repo@),
            final(self)@ == old(self)@.remove(repo@),
            final(self).tokens() == old(self).tokens(),
    {
        let entry = self.inner.remove(repo);
        proof {
            lemma_remove_apart(old(self)@, old(self).issued, repo@);
        }
        match entry {
            Some(WorkerState::Ready(w)) => Some(w),
            _ => None,
        }
    }

    /// Background self-heal sweep: drop the entries that no live driver backs.
    ///
    /// - A `Ready` whose child was `seen` and is not alive. A child that could not
    ///   be looked at just now is not in `seen`, and its entry is kept.
    /// - A `Spawning` that is at least `spawn_orphan_after` old.
    ///
    /// Gives back the tokens of the spawns that were dropped, whose awaiters the
    /// caller wakes.
    pub fn reap(&mut self, seen: &StrMap<ChildStatus>, now: u128, spawn_orphan_after: u128) -> (res:
        Vec<u64>)
        requires
            old(self).wf(),
            seen.wf(),
        ensures
            final(self).wf(),
            final(self)@ == reap_after(old(self)@, seen@, now, spawn_orphan_after),
            final(self).tokens() == old(self).tokens(),
            res@.no_duplicates(),
            forall|ready: u64| #[trigger]
                res@.contains(ready) <==> drops_spawn(
                    old(self)@,
                    seen@,
                    now,
                    spawn_orphan_after,
                    ready,
                ),
    {
        let mut woke: Vec<u64> = Vec::new();
        let mut kept: StrMap<WorkerState> = StrMap::new();
        let ghost m = self@;
        let ghost order = self.inner.order();
        let ghost after = reap_after(m, seen@, now, spawn_orphan_after);
        let mut i: usize = 0;
        proof {
            self.inner.lemma_order();
        }
        while i < self.inner.len()
            invariant
                self.inner.wf(),
                seen.wf(),
                kept.wf(),
                m == self.inner@,
                order == self.inner.order(),
                order.no_duplicates(),
                tokens_apart(m, self.issued),
                after == reap_after(m, seen@, now, spawn_orphan_after),
                i <= order.len(),
                forall|k: Seq<char>| #[trigger]
                    kept@.contains_key(k) <==> after.contains_key(k) && order.take(
                        i as int,
                    ).contains(k),
                forall|k: Seq<char>| #[trigger] kept@.contains_key(k) ==> kept@[k] == m[k],
                woke@.no_duplicates(),
                forall|ready: u64| #[trigger]
                    woke@.contains(ready) ==> exists|j: int|
                        #![trigger order[j]]
                        0 <= j < i && spawn_of(m, order[j]) == Some(ready) && !keeps(
                            m,
                            seen@,
                            now,
                            spawn_orphan_after,
                            order[j],
                        ),
                forall|j: int|
                    0 <= j < i && spawn_of(m, #[trigger] order[j]) is Some && !keeps(
                        m,
                        seen@,
                        now,
                        spawn_orphan_after,
                        order[j],
                    ) ==> woke@.contains(spawn_of(m, order[j])->0),
            decreases order.len() - i,
        {
            let repo = self.inner.key_at(i);
            let state: WorkerState = *self.inner.value_at(i);
            let ghost woken = woke@;
            let ghost kept_before = kept@;
            let keep = match state {
                WorkerState::Ready(_) => match seen.get(repo.as_str()) {
                    Some(status) => is_child_alive(*status),
                    None => true,
                },
                WorkerState::Spawning { ready, since } => if now.saturating_sub(since)
                    >= spawn_orphan_after {
                    woke.push(ready);
                    proof {
                        assert(spawn_of(m, order[i as int]) == Some(ready));
                        assert(!woken.contains(ready)) by {
                            if woken.contains(ready) {
                                let j = choose|j: int|
                                    #![trigger order[j]]
                                    0 <= j < i && spawn_of(m, order[j]) == Some(ready) && !keeps(
                                        m,
                                        seen@,
                                        now,
                                        spawn_orphan_after,
                                        order[j],
                                    );
                                assert(order[j] == order[i as int]);
                            }
                        }
                        lemma_push_contains(woken, ready);
                        lemma_push_no_duplicates(woken, ready);
                    }
                    false
                } else {
                    true
                },
            };
            assert(keep == keeps(m, seen@, now, spawn_orphan_after, repo@));
            if keep {
                kept.insert(repo.as_str(), state);
            }
            i += 1;
            proof {
                assert(order.take(i as int) =~= order.take(i - 1).push(repo@));
                lemma_push_contains(order.take(i - 1), repo@);
            }
        }
        proof {
            self.inner.lemma_order();
            assert(order.take(i as int) =~= order);
            assert(kept@ =~= after);
            lemma_restrict_apart(m, after, self.issued);
            assert forall|ready: u64| #[trigger] woke@.contains(ready) <==> drops_spawn(
                m,
                seen@,
                now,
                spawn_orphan_after,
                ready,
            ) by {
                if woke@.contains(ready) {
                    let j = choose|j: int|
                        #![trigger order[j]]
                        0 <= j < i && spawn_of(m, order[j]) == Some(ready) && !keeps(
                            m,
                            seen@,
                            now,
                            spawn_orphan_after,
                            order[j],
                        );
                    assert(m.contains_key(order[j]));
                }
                if drops_spawn(m, seen@, now, spawn_orphan_after, ready) {
                    let repo = choose|repo: Seq<char>|
                        #![trigger m.contains_key(repo)]
                        m.contains_key(repo) && spawn_of(m, repo) == Some(ready) && !keeps(
                            m,
                            seen@,
                            now,
                            spawn_orphan_after,
                            repo,
                        );
                    assert(order.contains(repo));
                    let j = choose|j: int| 0 <= j < order.len() && order[j] == repo;
                    assert(spawn_of(m, order[j]) is Some);
                }
            }
        }
        self.inner = kept;
        woke
    }

    /// The repos in a given state, each once.
    fn repos(&self, spawning: bool) -> (res: Vec<String>)
        requires
            self.wf(),
        ensures
            texts(res@).no_duplicates(),
            forall|repo: Seq<char>| #[trigger]
                texts(res@).contains(repo) <==> self@.contains_key(repo) && (self@[repo]
                    is Spawning) == spawning,
    {
        let mut res: Vec<String> = Vec::new();
        let ghost order = self.inner.order();
        let mut i: usize = 0;
        proof {
            self.inner.lemma_order();
        }
        while i < self.inner.len()
            invariant
                self.inner.wf(),
                order == self.inner.order(),
                order.no_duplicates(),
                i <= order.len(),
                texts(res@).no_duplicates(),
                forall|repo: Seq<char>| #[trigger]
                    texts(res@).contains(repo) <==> order.take(i as int).contains(repo) && (
                    self.inner@[repo] is Spawning) == spawning,
            decreases order.len() - i,
        {
            let repo = self.inner.key_at(i);
            let ghost before = texts(res@);
            let ghost done = order.take(i as int);
            let is_spawning = match self.inner.value_at(i) {
                WorkerState::Spawning { .. } => true,
                WorkerState::Ready(_) => false,
            };
            proof {
                assert(order.take(i + 1) =~= done.push(repo@));
                assert(!done.contains(repo@)) by {
                    if done.contains(repo@) {
                        let x = choose|x: int| 0 <= x < done.len() && done[x] == repo@;
                        assert(order[x] == order[i as int]);
                    }
                }
                lemma_push_contains(done, repo@);
                lemma_push_contains(before, repo@);
            }
            if is_spawning == spawning {
                res.push(repo.clone());
                proof {
                    assert(texts(res@) =~= before.push(repo@));
                    lemma_push_no_duplicates(before, repo@);
                }
            }
            i += 1;
        }
        proof {
            self.inner.lemma_order();
            assert(order.take(i as int) =~= order);
        }
        res
    }

    /// Snapshot of repos that currently have a Ready worker.
    pub fn ready_repos(&self) -> (res: Vec<String>)
        requires
            self.wf(),
        ensures
            texts(res@).no_duplicates(),
            forall|repo: Seq<char>| #[trigger]
                texts(res@).contains(repo) <==> worker_of(self@, repo) is Some,
    {
        self.repos(false)
    }

    /// Snapshot of repos whose worker is mid-spawn. [`Registry::ready_repos`]
    /// excludes these.
    pub fn spawning_repos(&self) -> (res: Vec<String>)
        requires
            self.wf(),
        ensures
            texts(res@).no_duplicates(),
            forall|repo: Seq<char>| #[trigger]
                texts(res@).contains(repo) <==> spawn_of(self@, repo) is Some,
    {
        self.repos(true)
    }
}

impl Default for Registry {
    fn default() -> (res: Self)
        ensures
            res.wf(),
            res@ == Map::<Seq<char>, WorkerState>::empty(),
            res.tokens() == 0,
    {
        Self::new()
    }
}

proof fn lemma_insert_apart(m: Workers, issued: u64, repo: Seq<char>, state: WorkerState)
    requires
        tokens_apart(m, issued),
        state matches WorkerState::Spawning { ready, .. } ==> ready == issued && issued < u64::MAX,
    ensures
        tokens_apart(
            m.insert(repo, state),
            if state is Spawning {
                (issued + 1) as u64
            } else {
                issued
            },
        ),
{
    let after = m.insert(repo, state);
    assert forall|k: Seq<char>| k != repo implies #[trigger] spawn_of(after, k) == spawn_of(
        m,
        k,
    ) by {}
    assert forall|a: Seq<char>, b: Seq<char>|
        #![trigger spawn_of(after, a), spawn_of(after, b)]
        spawn_of(after, a) is Some && spawn_of(after, a) == spawn_of(after, b) implies a == b by {
        if a != b {
            if a == repo {
                assert(spawn_of(m, b) == Some(spawn_of(after, b)->0));
            } else if b == repo {
                assert(spawn_of(m, a) == Some(spawn_of(after, a)->0));
            } else {
                assert(spawn_of(m, a) == spawn_of(m, b));
            }
        }
    }
}

proof fn lemma_remove_apart(m: Workers, issued: u64, repo: Seq<char>)
    requires
        tokens_apart(m, issued),
    ensures
        tokens_apart(m.remove(repo), issued),
{
    lemma_restrict_apart(m, m.remove(repo), issued);
}

proof fn lemma_restrict_apart(m: Workers, after: Workers, issued: u64)
    requires
        tokens_apart(m, issued),
        forall|k: Seq<char>| #[trigger] after.contains_key(k) ==> m.contains_key(k) && after[k] == m[k],
    ensures
        tokens_apart(after, issued),
{
    assert forall|k: Seq<char>| #[trigger] spawn_of(after, k) is Some implies spawn_of(after, k)
        == spawn_of(m, k) by {}
}

/// Single flight: once a spawner is elected for a repo, every later acquire for
/// it awaits that same spawn, and changes nothing, until the entry is resolved.
pub proof fn law_single_flight(
    m: Workers,
    next: u64,
    repo: Seq<char>,
    status: ChildStatus,
    now: u128,
    later_next: u64,
    later_status: ChildStatus,
    later: u128,
)
    requires
        acquire_result(m, next, repo, status) is SpawnElected,
    ensures
        ({
            let after = acquire_after(m, next, repo, status, now);
            &&& acquire_result(m, next, repo, status) == (Acquire::SpawnElected { ready: next })
            &&& acquire_result(after, later_next, repo, later_status) == (Acquire::AwaitSpawn {
                ready: next,
            })
            &&& acquire_after(after, later_next, repo, later_status, later) == after
        }),
{
}

/// A spawn is elected exactly where there is neither a live worker nor a spawn
/// in flight.
pub proof fn law_elected_iff_needed(
    m: Workers,
    next: u64,
    repo: Seq<char>,
    status: ChildStatus,
)
    ensures
        acquire_result(m, next, repo, status) is SpawnElected <==> spawn_of(m, repo) is None && !(
        worker_of(m, repo) is Some && alive(status)),
{
}

/// Distinct repos are independent: an acquire for one leaves the entry of the
/// other, and so what an acquire for that returns, as it was.
pub proof fn law_repos_are_independent(
    m: Workers,
    next: u64,
    repo: Seq<char>,
    status: ChildStatus,
    now: u128,
    other: Seq<char>,
    other_next: u64,
    other_status: ChildStatus,
)
    requires
        repo != other,
    ensures
        ({
            let after = acquire_after(m, next, repo, status, now);
            &&& after.contains_key(other) == m.contains_key(other)
            &&& m.contains_key(other) ==> after[other] == m[other]
            &&& acquire_result(after, other_next, other, other_status) == acquire_result(
                m,
                other_next,
                other,
                other_status,
            )
        }),
{
}

/// The token of an elected spawn is new: no spawn in the registry has it.
pub proof fn law_tokens_are_fresh(m: Workers, issued: u64, repo: Seq<char>)
    requires
        tokens_apart(m, issued),
    ensures
        spawn_of(m, repo) != Some(issued),
{
    if spawn_of(m, repo) is Some {
        assert(spawn_of(m, repo)->0 < issued);
    }
}

/// After a failed spawn is abandoned, the next acquire elects a spawner again.
pub proof fn law_abandon_allows_reelection(
    m: Workers,
    repo: Seq<char>,
    ready: u64,
    next: u64,
    status: ChildStatus,
)
    requires
        spawn_of(m, repo) == Some(ready),
    ensures
        acquire_result(abandon_after(m, repo, ready), next, repo, status) == (
        Acquire::SpawnElected { ready: next }),
{
}

/// A driver whose spawn is no longer the one in the registry changes nothing,
/// whether it publishes or abandons: a spawn that was elected since, or a worker
/// that another driver installed, stays as it is.
pub proof fn law_stale_drivers_change_nothing(
    m: Workers,
    repo: Seq<char>,
    worker: ReadyWorker,
    ready: u64,
)
    requires
        spawn_of(m, repo) != Some(ready),
    ensures
        publish_after(m, repo, worker, ready) == m,
        abandon_after(m, repo, ready) == m,
{
}

/// ABA safety: when the sweep has dropped a driver's spawn and another spawner
/// has been elected since, the first driver can neither install its worker nor
/// remove the new spawn.
pub proof fn law_reelected_spawn_is_safe(
    m: Workers,
    issued: u64,
    repo: Seq<char>,
    worker: ReadyWorker,
    stale: u64,
    status: ChildStatus,
    now: u128,
)
    requires
        tokens_apart(m, issued),
        stale < issued,
        acquire_result(m, issued, repo, status) is SpawnElected,
    ensures
        ({
            let after = acquire_after(m, issued, repo, status, now);
            &&& spawn_of(after, repo) == Some(issued)
            &&& publish_after(after, repo, worker, stale) == after
            &&& abandon_after(after, repo, stale) == after
        }),
{
}

/// A worker that its driver publishes in time is what later acquires get while it
/// is alive; once it is dead, the next acquire elects a spawner.
pub proof fn law_published_worker_is_found(
    m: Workers,
    repo: Seq<char>,
    worker: ReadyWorker,
    ready: u64,
    next: u64,
    status: ChildStatus,
)
    requires
        spawn_of(m, repo) == Some(ready),
    ensures
        ({
            let after = publish_after(m, repo, worker, ready);
            &&& worker_of(after, repo) == Some(worker)
            &&& acquire_result(after, next, repo, status) == if alive(status) {
                Acquire::Ready(worker)
            } else {
                Acquire::SpawnElected { ready: next }
            }
            &&& peek_result(after, repo, status) == if alive(status) {
                Some(worker)
            } else {
                None
            }
        }),
{
}

/// A peek never brings a spawn about: after it, every entry is one that was there
/// before, and the only entry that can be gone is that of a worker that is not
/// alive, whose repo is then absent.
pub proof fn law_peek_never_spawns(m: Workers, repo: Seq<char>, status: ChildStatus)
    ensures
        ({
            let after = peek_after(m, repo, status);
            &&& forall|k: Seq<char>| #[trigger]
                after.contains_key(k) ==> m.contains_key(k) && after[k] == m[k]
            &&& forall|k: Seq<char>| #[trigger]
                m.contains_key(k) && k != repo ==> after.contains_key(k)
            &&& m.contains_key(repo) && !after.contains_key(repo) <==> worker_of(m, repo) is Some
                && !alive(status)
            &&& spawn_of(after, repo) == spawn_of(m, repo)
        }),
{
}

/// A second peek finds what the first one left.
pub proof fn law_peek_twice(
    m: Workers,
    repo: Seq<char>,
    status: ChildStatus,
    again: ChildStatus,
)
    requires
        !alive(status),
    ensures
        ({
            let after = peek_after(m, repo, status);
            &&& peek_result(m, repo, status) is None
            &&& peek_result(after, repo, again) is None
            &&& peek_after(after, repo, again) == after
        }),
{
}

/// The sweep invents nothing, and keeps every entry that a live driver backs: a
/// worker that was not seen dead, and a spawn that is younger than the cutoff.
pub proof fn law_reap_keeps_what_is_backed(
    m: Workers,
    seen: Map<Seq<char>, ChildStatus>,
    now: u128,
    spawn_orphan_after: u128,
    repo: Seq<char>,
)
    ensures
        ({
            let after = reap_after(m, seen, now, spawn_orphan_after);
            &&& after.contains_key(repo) ==> m.contains_key(repo) && after[repo] == m[repo]
            &&& worker_of(m, repo) is Some && (!seen.contains_key(repo) || alive(seen[repo]))
                ==> after.contains_key(repo)
            &&& m.contains_key(repo) && (m[repo] matches WorkerState::Spawning { since, .. }
                && elapsed(now, since) < spawn_orphan_after) ==> after.contains_key(repo)
        }),
{
}

/// The sweep drops every worker that was seen dead and every spawn as old as the
/// cutoff, wakes the awaiters of the latter, and so lets them be elected.
pub proof fn law_reap_drops_orphans(
    m: Workers,
    seen: Map<Seq<char>, ChildStatus>,
    now: u128,
    spawn_orphan_after: u128,
    repo: Seq<char>,
    next: u64,
    status: ChildStatus,
)
    requires
        m.contains_key(repo),
        match m[repo] {
            WorkerState::Ready(_) => seen.contains_key(repo) && !alive(seen[repo]),
            WorkerState::Spawning { since, .. } => elapsed(now, since) >= spawn_orphan_after,
        },
    ensures
        ({
            let after = reap_after(m, seen, now, spawn_orphan_after);
            &&& !after.contains_key(repo)
            &&& spawn_of(m, repo) is Some ==> drops_spawn(
                m,
                seen,
                now,
                spawn_orphan_after,
                spawn_of(m, repo)->0,
            )
            &&& acquire_result(after, next, repo, status) is SpawnElected
        }),
{
}

/// Dropping a repo's entry is idempotent, and the next acquire elects a spawner.
pub proof fn law_kill_is_idempotent(
    m: Workers,
    repo: Seq<char>,
    next: u64,
    status: ChildStatus,
)
    ensures
        m.remove(repo).remove(repo) == m.remove(repo),
        worker_of(m.remove(repo), repo) is None,
        acquire_result(m.remove(repo), next, repo, status) is SpawnElected,
{
    assert(m.remove(repo).remove(repo) =~= m.remove(repo));
}

/// Every repo in the registry is either ready or spawning, never both.
pub proof fn law_ready_or_spawning(m: Workers, repo: Seq<char>)
    ensures
        m.contains_key(repo) <==> worker_of(m, repo) is Some || spawn_of(m, repo) is Some,
        !(worker_of(m, repo) is Some && spawn_of(m, repo) is Some),
{
}

/// What an acquire returns and leaves behind, entry by entry: of a spawn in flight its
/// token, and of a worker whose child is running that worker, both with nothing changed;
/// else the caller is elected, and the entry is a spawn with the next token and the time.
pub proof fn law_acquire_by_entry(
    m: Workers,
    next: u64,
    repo: Seq<char>,
    status: ChildStatus,
    now: u128,
    ready: u64,
    since: u128,
    worker: ReadyWorker,
)
    ensures
        ({
            let res = acquire_result(m, next, repo, status);
            let after = acquire_after(m, next, repo, status, now);
            let elected = res == (Acquire::SpawnElected { ready: next }) && after == m.insert(
                repo,
                WorkerState::Spawning { ready: next, since: now },
            );
            &&& !m.contains_key(repo) ==> elected
            &&& m.contains_key(repo) && m[repo] == (WorkerState::Spawning { ready, since }) ==> res
                == (Acquire::AwaitSpawn { ready }) && after == m
            &&& m.contains_key(repo) && m[repo] == WorkerState::Ready(worker) && status
                == ChildStatus::Running ==> res == Acquire::Ready(worker) && after == m
            &&& m.contains_key(repo) && m[repo] == WorkerState::Ready(worker) && status
                != ChildStatus::Running ==> elected
        }),
{
}

/// What a peek returns and leaves behind, entry by entry: of a worker whose child is
/// running that worker, and of anything else nothing; only a worker whose child is not
/// running is removed.
pub proof fn law_peek_by_entry(
    m: Workers,
    repo: Seq<char>,
    status: ChildStatus,
    ready: u64,
    since: u128,
    worker: ReadyWorker,
)
    ensures
        ({
            let res = peek_result(m, repo, status);
            let after = peek_after(m, repo, status);
            &&& !m.contains_key(repo) ==> res is None && after == m
            &&& m.contains_key(repo) && m[repo] == (WorkerState::Spawning { ready, since }) ==> res
                is None && after == m
            &&& m.contains_key(repo) && m[repo] == WorkerState::Ready(worker) && status
                == ChildStatus::Running ==> res == Some(worker) && after == m
            &&& m.contains_key(repo) && m[repo] == WorkerState::Ready(worker) && status
                != ChildStatus::Running ==> res is None && after == m.remove(repo)
        }),
{
}

/// What publishing and abandoning leave behind, entry by entry: just the spawn with the
/// driver's own token, whenever it was elected, becomes the driver's worker or goes.
pub proof fn law_resolve_by_entry(
    m: Workers,
    repo: Seq<char>,
    worker: ReadyWorker,
    ready: u64,
    since: u128,
)
    ensures
        m.contains_key(repo) && m[repo] == (WorkerState::Spawning { ready, since }) ==> {
            &&& spawn_of(m, repo) == Some(ready)
            &&& publish_after(m, repo, worker, ready) == m.insert(repo, WorkerState::Ready(worker))
            &&& abandon_after(m, repo, ready) == m.remove(repo)
        },
        !m.contains_key(repo) || m[repo] is Ready || m[repo]->Spawning_ready != ready ==> {
            &&& spawn_of(m, repo) != Some(ready)
            &&& publish_after(m, repo, worker, ready) == m
            &&& abandon_after(m, repo, ready) == m
        },
{
}

/// What the sweep leaves behind, entry by entry: a worker stays unless its child was seen
/// and was not running, and a spawn stays exactly while it is younger than the cutoff;
/// what stays is unchanged.
pub proof fn law_reap_by_entry(
    m: Workers,
    seen: Map<Seq<char>, ChildStatus>,
    now: u128,
    spawn_orphan_after: u128,
    repo: Seq<char>,
)
    ensures
        ({
            let after = reap_after(m, seen, now, spawn_orphan_after);
            &&& after.contains_key(repo) ==> m.contains_key(repo) && after[repo] == m[repo]
            &&& m.contains_key(repo) && m[repo] is Ready ==> (after.contains_key(repo) <==> !(
            seen.contains_key(repo) && seen[repo] != ChildStatus::Running))
            &&& m.contains_key(repo) && m[repo] is Spawning && now >= m[repo]->since ==> (
            after.contains_key(repo) <==> now - m[repo]->since < spawn_orphan_after)
            &&& m.contains_key(repo) && m[repo] is Spawning && now < m[repo]->since ==> (
            after.contains_key(repo) <==> 0 < spawn_orphan_after)
        }),
{
}

/// The awaiters of a spawn are woken by the sweep exactly where a spawn with that token
/// was there and is not any more.
pub proof fn law_reap_wakes_what_it_drops(
    m: Workers,
    seen: Map<Seq<char>, ChildStatus>,
    now: u128,
    spawn_orphan_after: u128,
    ready: u64,
)
    ensures
        drops_spawn(m, seen, now, spawn_orphan_after, ready) <==> exists|repo: Seq<char>|
            {
                &&& #[trigger] m.contains_key(repo)
                &&& m[repo] is Spawning
                &&& m[repo]->Spawning_ready == ready
                &&& !reap_after(m, seen, now, spawn_orphan_after).contains_key(repo)
            },
{
    let after = reap_after(m, seen, now, spawn_orphan_after);
    if drops_spawn(m, seen, now, spawn_orphan_after, ready) {
        let repo = choose|repo: Seq<char>|
            #![trigger m.contains_key(repo)]
            m.contains_key(repo) && spawn_of(m, repo) == Some(ready) && !keeps(
                m,
                seen,
                now,
                spawn_orphan_after,
                repo,
            );
        assert(m.contains_key(repo) && !after.contains_key(repo));
    }
    if exists|repo: Seq<char>|
        {
            &&& #[trigger] m.contains_key(repo)
            &&& m[repo] is Spawning
            &&& m[repo]->Spawning_ready == ready
            &&& !after.contains_key(repo)
        } {
        let repo = choose|repo: Seq<char>|
            {
                &&& #[trigger] m.contains_key(repo)
                &&& m[repo] is Spawning
                &&& m[repo]->Spawning_ready == ready
                &&& !after.contains_key(repo)
            };
        assert(spawn_of(m, repo) == Some(ready));
        assert(!keeps(m, seen, now, spawn_orphan_after, repo));
    }
}

/// A repo has a worker, or a spawn in flight, exactly where its entry says so, and it is
/// the one that the entry holds.
pub proof fn law_entries_are_read_as_they_are(
    m: Workers,
    repo: Seq<char>,
    ready: u64,
    worker: ReadyWorker,
)
    ensures
        worker_of(m, repo) == Some(worker) <==> m.contains_key(repo) && m[repo]
            == WorkerState::Ready(worker),
        spawn_of(m, repo) == Some(ready) <==> m.contains_key(repo) && m[repo] is Spawning
            && m[repo]->Spawning_ready == ready,
        worker_of(m, repo) is None <==> !m.contains_key(repo) || m[repo] is Spawning,
        spawn_of(m, repo) is None <==> !m.contains_key(repo) || m[repo] is Ready,
{
}

} // verus!
