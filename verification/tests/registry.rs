//! The worker registry: who spawns, who waits, and what is swept away.

use context_engine::router::registry::{is_child_alive, Acquire, ChildStatus, ReadyWorker, Registry};
use context_engine::strmap::StrMap;

const SECOND: u128 = 1_000_000_000;

/// A multiple of the time that a spawn takes at most.
const ORPHAN_AFTER: u128 = 90 * SECOND;

fn worker(child: u64) -> ReadyWorker {
    ReadyWorker { port: 0, pid: 4000 + child as u32, child }
}

fn nothing_seen() -> StrMap<ChildStatus> {
    StrMap::new()
}

fn seen(repo: &str, status: ChildStatus) -> StrMap<ChildStatus> {
    let mut map = StrMap::new();
    map.insert(repo, status);
    map
}

/// Elects a spawner for an absent repo.
fn elect(reg: &mut Registry, repo: &str, now: u128) -> u64 {
    match reg.acquire(repo, ChildStatus::Unknown, now) {
        Acquire::SpawnElected { ready } => ready,
        other => panic!("must be elected: {:?}", other),
    }
}

fn install_ready(reg: &mut Registry, repo: &str, w: ReadyWorker) {
    let ready = elect(reg, repo, 0);
    assert!(reg.publish_ready(repo, w, ready));
}

#[test]
fn concurrent_acquire_elects_exactly_one_spawner() {
    let mut reg = Registry::new();
    let a = reg.acquire("repoX", ChildStatus::Unknown, 0);
    let b = reg.acquire("repoX", ChildStatus::Unknown, 0);
    assert!(matches!(a, Acquire::SpawnElected { .. }), "first caller must be elected to spawn");
    assert!(matches!(b, Acquire::AwaitSpawn { .. }), "second concurrent caller must await");
}

#[test]
fn awaiters_wait_for_the_elected_spawn() {
    let mut reg = Registry::new();
    let ready = elect(&mut reg, "repoX", 0);
    assert_eq!(
        reg.acquire("repoX", ChildStatus::Running, 5),
        Acquire::AwaitSpawn { ready }
    );
    assert_eq!(
        reg.acquire_fast("repoX", ChildStatus::Exited),
        Some(Acquire::AwaitSpawn { ready })
    );
    assert_eq!(reg.issued(), 1);
}

#[test]
fn spawning_repo_is_reported_spawning_not_ready() {
    let mut reg = Registry::new();
    assert!(matches!(
        reg.acquire("repoS", ChildStatus::Unknown, 0),
        Acquire::SpawnElected { .. }
    ));
    assert!(reg.spawning_repos().contains(&"repoS".to_string()));
    assert!(!reg.ready_repos().contains(&"repoS".to_string()));
}

#[test]
fn distinct_repos_each_elect() {
    let mut reg = Registry::new();
    let a = reg.acquire("repoA", ChildStatus::Unknown, 0);
    let b = reg.acquire("repoB", ChildStatus::Unknown, 0);
    assert!(matches!(a, Acquire::SpawnElected { .. }));
    assert!(matches!(b, Acquire::SpawnElected { .. }));
    assert_ne!(a, b);
}

#[test]
fn abandon_allows_reelection() {
    let mut reg = Registry::new();
    let ready = elect(&mut reg, "repoY", 0);
    reg.abandon_spawn("repoY", ready);
    assert!(
        matches!(
            reg.acquire("repoY", ChildStatus::Unknown, 0),
            Acquire::SpawnElected { .. }
        ),
        "after abandon, the repo must be re-electable for a fresh spawn"
    );
}

#[test]
fn peek_ready_reaps_dead_ready_to_absent() {
    let mut reg = Registry::new();
    install_ready(&mut reg, "repoD", worker(1));

    let got = reg.peek_ready("repoD", ChildStatus::Exited);
    assert!(got.is_none(), "dead Ready must peek as None");
    assert!(!reg.ready_repos().contains(&"repoD".to_string()));
    assert!(reg.spawning_repos().is_empty());
    assert!(matches!(
        reg.acquire("repoD", ChildStatus::Unknown, 0),
        Acquire::SpawnElected { .. }
    ));
}

#[test]
fn peek_ready_returns_live_worker() {
    let mut reg = Registry::new();
    install_ready(&mut reg, "repoL", worker(2));

    let got = reg.peek_ready("repoL", ChildStatus::Running);
    assert_eq!(got, Some(worker(2)), "live Ready must peek as Some");
    assert!(reg.ready_repos().contains(&"repoL".to_string()));
}

#[test]
fn concurrent_peek_ready_dead_repo_no_panic_single_reap() {
    let mut reg = Registry::new();
    install_ready(&mut reg, "repoC", worker(3));

    assert_eq!(reg.peek_fast("repoC", ChildStatus::Exited), None);
    let a = reg.peek_ready("repoC", ChildStatus::Exited);
    let b = reg.peek_ready("repoC", ChildStatus::Exited);
    assert!(a.is_none() && b.is_none(), "both peeks miss on a dead repo");
    assert!(reg.ready_repos().is_empty() && reg.spawning_repos().is_empty());
}

#[test]
fn peek_leaves_a_spawn_alone() {
    let mut reg = Registry::new();
    let ready = elect(&mut reg, "repo", 0);
    assert_eq!(reg.peek_ready("repo", ChildStatus::Exited), None);
    assert_eq!(reg.peek_fast("repo", ChildStatus::Running), Some(None));
    assert_eq!(reg.peek_ready("absent", ChildStatus::Running), None);
    assert_eq!(reg.acquire("repo", ChildStatus::Unknown, 0), Acquire::AwaitSpawn { ready });
}

#[test]
fn reap_drops_orphan_spawning_and_wakes_awaiter() {
    let mut reg = Registry::new();
    let ready = elect(&mut reg, "repoSp", 0);
    let woken = reg.reap(&nothing_seen(), SECOND / 50, 0);
    assert!(reg.spawning_repos().is_empty(), "reap(ZERO) must drop the orphan Spawning entry");
    assert_eq!(woken, vec![ready], "awaiter must be woken by reap");
}

#[test]
fn reap_keeps_recent_spawning() {
    let mut reg = Registry::new();
    let _ = elect(&mut reg, "repoFresh", SECOND);
    let woken = reg.reap(&nothing_seen(), 2 * SECOND, ORPHAN_AFTER);
    assert!(reg.spawning_repos().contains(&"repoFresh".to_string()));
    assert!(woken.is_empty());
}

#[test]
fn reap_cuts_at_the_exact_age() {
    let mut reg = Registry::new();
    let old = elect(&mut reg, "old", 0);
    let _ = elect(&mut reg, "young", 1);
    assert_eq!(reg.reap(&nothing_seen(), ORPHAN_AFTER, ORPHAN_AFTER), vec![old]);
    assert_eq!(reg.spawning_repos(), vec!["young".to_string()]);
}

#[test]
fn reap_takes_a_clock_that_went_back_as_no_time() {
    let mut reg = Registry::new();
    let _ = elect(&mut reg, "repo", 100);
    assert!(reg.reap(&nothing_seen(), 50, 1).is_empty());
    assert_eq!(reg.spawning_repos(), vec!["repo".to_string()]);
}

#[test]
fn reap_drops_dead_ready() {
    let mut reg = Registry::new();
    install_ready(&mut reg, "repoDR", worker(4));
    reg.reap(&seen("repoDR", ChildStatus::Exited), 0, 0);
    assert!(reg.ready_repos().is_empty(), "reap must drop a dead Ready entry");
}

#[test]
fn reap_drops_undeterminable_ready() {
    let mut reg = Registry::new();
    install_ready(&mut reg, "repo", worker(4));
    assert!(reg.reap(&seen("repo", ChildStatus::Unknown), 0, 0).is_empty());
    assert!(reg.ready_repos().is_empty());
}

#[test]
fn reap_keeps_live_ready() {
    let mut reg = Registry::new();
    install_ready(&mut reg, "repoLR", worker(5));
    reg.reap(&seen("repoLR", ChildStatus::Running), 0, 0);
    assert!(
        reg.ready_repos().contains(&"repoLR".to_string()),
        "reap must keep a live Ready entry"
    );
}

#[test]
fn reap_keeps_busy_ready() {
    let mut reg = Registry::new();
    install_ready(&mut reg, "busy", worker(6));
    install_ready(&mut reg, "dead", worker(7));
    reg.reap(&seen("dead", ChildStatus::Exited), 0, 0);
    assert_eq!(reg.ready_repos(), vec!["busy".to_string()]);
}

#[test]
fn aba_publish_ready_does_not_clobber_reelected_spawn() {
    let mut reg = Registry::new();
    let ready_a = elect(&mut reg, "repoABA", 0);
    reg.reap(&nothing_seen(), 0, 0);
    assert!(reg.spawning_repos().is_empty());
    let _ready_b = elect(&mut reg, "repoABA", 0);
    let installed = reg.publish_ready("repoABA", worker(8), ready_a);
    assert!(!installed, "superseded publish_ready(ready_A) must report false, not install");
    assert!(reg.ready_repos().is_empty());
    assert!(reg.spawning_repos().contains(&"repoABA".to_string()));
}

#[test]
fn aba_abandon_spawn_does_not_remove_reelected_spawn() {
    let mut reg = Registry::new();
    let ready_a = elect(&mut reg, "repoABA2", 0);
    reg.reap(&nothing_seen(), 0, 0);
    let ready_b = elect(&mut reg, "repoABA2", 0);
    reg.abandon_spawn("repoABA2", ready_a);
    assert!(reg.spawning_repos().contains(&"repoABA2".to_string()));
    assert_eq!(
        reg.acquire("repoABA2", ChildStatus::Unknown, 0),
        Acquire::AwaitSpawn { ready: ready_b }
    );
}

#[test]
fn published_worker_is_acquired_until_it_dies() {
    let mut reg = Registry::new();
    let ready = elect(&mut reg, "repo", 0);
    assert!(reg.publish_ready("repo", worker(9), ready));
    assert_eq!(reg.resident("repo"), Some(worker(9)));
    assert_eq!(
        reg.acquire("repo", ChildStatus::Running, 1),
        Acquire::Ready(worker(9))
    );
    assert!(!reg.publish_ready("repo", worker(10), ready), "a spawn publishes once");
    assert_eq!(
        reg.acquire("repo", ChildStatus::Exited, 1),
        Acquire::SpawnElected { ready: ready + 1 }
    );
    assert_eq!(reg.resident("repo"), None);
}

#[test]
fn kill_gives_the_worker_back_once() {
    let mut reg = Registry::new();
    install_ready(&mut reg, "repo", worker(11));
    let _ = elect(&mut reg, "other", 0);
    assert_eq!(reg.kill("repo"), Some(worker(11)));
    assert_eq!(reg.kill("repo"), None);
    assert_eq!(reg.kill("other"), None);
    assert!(reg.ready_repos().is_empty() && reg.spawning_repos().is_empty());
}

#[test]
fn only_a_running_child_is_alive() {
    assert!(is_child_alive(ChildStatus::Running));
    assert!(!is_child_alive(ChildStatus::Exited));
    assert!(!is_child_alive(ChildStatus::Unknown));
}

#[test]
fn a_default_registry_is_empty() {
    let reg = Registry::default();
    assert_eq!(reg.issued(), 0);
    assert!(reg.ready_repos().is_empty());
}
