//! A sharded cache of short text facts, refreshed from external providers.
//!
//! The cache holds one group of independently lockable shards per configured
//! animal category. A background refresher validates provider batches and
//! swaps whole shards; the read path picks a random fact; the health path
//! audits structure and freshness. Everything is verified except the few
//! outside calls (clock, randomness, two std conversions) gathered in
//! `sys`; the network transport lives outside the library and hands in
//! plain values.

use vstd::prelude::*;

pub mod animals;
pub mod config;
pub mod errors;
pub mod json;
mod sys;

verus! {

pub use crate::errors::AppError;
pub use crate::errors::HealthProblem;

/// One fixed-size batch of facts for one category, together with the time
/// (Unix seconds) of the successful refresh that produced it. A shard is
/// replaced wholesale, never mutated field by field.
#[derive(Debug)]
pub struct Shard {
    pub facts: Vec<String>,
    pub timestamp: i64,
}

impl Shard {
    /// No fact of the shard is the empty string.
    pub open spec fn no_empty_facts(&self) -> bool {
        forall|i: int| 0 <= i < self.facts@.len() ==> (#[trigger] self.facts@[i])@.len() > 0
    }

    /// The shard carries exactly `size` facts, none empty: the state that
    /// every successful refresh establishes.
    pub open spec fn full(&self, size: int) -> bool {
        self.facts@.len() == size && self.no_empty_facts()
    }

    /// A new shard of the given facts, stamped with the current time.
    pub fn new(facts: Vec<String>) -> (s: Shard)
        ensures
            s.facts == facts,
    {
        Shard { facts, timestamp: crate::sys::now_seconds() }
    }

    /// A new shard of the given facts, stamped with the given time.
    pub fn with_timestamp(facts: Vec<String>, timestamp: i64) -> (s: Shard)
        ensures
            s.facts == facts,
            s.timestamp == timestamp,
    {
        Shard { facts, timestamp }
    }
}

/// What one shard's lock protects: the shard, and whether a crashed
/// critical section left the cell invalid. Acquisitions surface the
/// poisoned state as an error instead of recovering the value.
pub struct ShardCell {
    pub shard: Shard,
    pub poisoned: bool,
}

/// The invariant every shard cell keeps under its lock: no stored fact is
/// ever empty, and the shard is either still in its bootstrap-empty state
/// or holds exactly the configured number of facts.
pub struct ShardInv {
    pub size: nat,
}

impl vstd::rwlock::RwLockPredicate<ShardCell> for ShardInv {
    open spec fn inv(self, c: ShardCell) -> bool {
        &&& c.shard.no_empty_facts()
        &&& (c.shard.facts@.len() == 0 || c.shard.facts@.len() == self.size)
    }
}

/// All shards of one category, each behind its own lock.
pub struct ShardSet {
    animal: animals::Animal,
    shards: Vec<vstd::rwlock::RwLock<ShardCell, ShardInv>>,
}

/// The cache and the configuration it was built for. The cache is built
/// once and never resized; only the contents of individual shards change,
/// each under its own lock.
pub struct AppState {
    cache: Vec<ShardSet>,
    cfg: config::ServerConfig,
}

impl AppState {
    /// The configuration the state was built for.
    pub closed spec fn cfg(&self) -> config::ServerConfig {
        self.cfg
    }

    /// The structure the cache keeps for the process's lifetime: one shard
    /// set per configured category, in configuration order, each with
    /// `shard_num` shards whose locks carry the size invariant.
    pub closed spec fn wf(&self) -> bool {
        &&& self.cfg.wf()
        &&& self.cache@.len() == self.cfg.animals@.len()
        &&& forall|i: int|
            0 <= i < self.cache@.len() ==> (#[trigger] self.cache@[i]).animal
                == self.cfg.animals@[i]
        &&& forall|i: int|
            0 <= i < self.cache@.len() ==> (#[trigger] self.cache@[i]).shards@.len()
                == self.cfg.shard_num
        &&& forall|i: int, j: int|
            0 <= i < self.cache@.len() && 0 <= j < self.cfg.shard_num ==> (#[trigger] self.cache@[i].shards@[j]).pred() == (ShardInv {
                size: self.cfg.shard_size as nat,
            })
    }

    /// How many categories the cache serves.
    pub fn num_categories(&self) -> (n: usize)
        requires
            self.wf(),
        ensures
            n == self.cfg().animals@.len(),
    {
        self.cache.len()
    }

    /// The category at position `i` of the configuration.
    pub fn category(&self, i: usize) -> (a: animals::Animal)
        requires
            self.wf(),
            i < self.cfg().animals@.len(),
        ensures
            a == self.cfg().animals@[i as int],
    {
        self.cache[i].animal
    }

    /// How many shards each category has.
    pub fn shard_num(&self) -> (n: usize)
        ensures
            n == self.cfg().shard_num,
    {
        self.cfg.shard_num
    }

    /// How many facts a full shard holds.
    pub fn shard_size(&self) -> (n: usize)
        ensures
            n == self.cfg().shard_size,
    {
        self.cfg.shard_size
    }

    /// The port the surrounding server should listen on.
    pub fn port(&self) -> (p: u16)
        ensures
            p == self.cfg().port,
    {
        self.cfg.port
    }

    /// Seconds to wait between refresh passes.
    pub fn refresh_secs(&self) -> (p: u64)
        ensures
            p == self.cfg().shard_refresh_sec,
    {
        self.cfg.shard_refresh_sec
    }

    /// Maximal age (seconds) a shard may reach before it counts as stale.
    pub fn staleness_secs(&self) -> (p: i64)
        ensures
            p == self.cfg().shard_staleness_sec,
    {
        self.cfg.shard_staleness_sec
    }
}

/// Builds the cache for `cfg`: one shard set per category, each shard
/// starting in the bootstrap-empty state, stamped with the current time.
pub fn init_state(cfg: config::ServerConfig) -> (st: AppState)
    requires
        cfg.wf(),
    ensures
        st.wf(),
        st.cfg() == cfg,
{
    let ghost pred = ShardInv { size: cfg.shard_size as nat };
    let mut cache: Vec<ShardSet> = Vec::new();
    let mut i: usize = 0;
    while i < cfg.animals.len()
        invariant
            0 <= i <= cfg.animals@.len(),
            cache@.len() == i,
            cfg.wf(),
            pred == (ShardInv { size: cfg.shard_size as nat }),
            forall|k: int|
                0 <= k < i ==> (#[trigger] cache@[k]).animal == cfg.animals@[k],
            forall|k: int|
                0 <= k < i ==> (#[trigger] cache@[k]).shards@.len() == cfg.shard_num,
            forall|k: int, j: int|
                0 <= k < i && 0 <= j < cfg.shard_num ==> (#[trigger] cache@[k].shards@[j]).pred()
                    == pred,
        decreases cfg.animals@.len() - i,
    {
        let mut shards: Vec<vstd::rwlock::RwLock<ShardCell, ShardInv>> = Vec::new();
        let mut j: usize = 0;
        while j < cfg.shard_num
            invariant
                0 <= j <= cfg.shard_num,
                shards@.len() == j,
                pred == (ShardInv { size: cfg.shard_size as nat }),
                forall|k: int| 0 <= k < j ==> (#[trigger] shards@[k]).pred() == pred,
            decreases cfg.shard_num - j,
        {
            let empty = Shard::new(Vec::new());
            let cell = ShardCell { shard: empty, poisoned: false };
            shards.push(vstd::rwlock::RwLock::new(cell, Ghost(pred)));
            j = j + 1;
        }
        let animal = cfg.animals[i];
        cache.push(ShardSet { animal, shards });
        i = i + 1;
    }
    AppState { cache, cfg }
}

fn clone_facts(v: &Vec<String>) -> (r: Vec<String>)
    ensures
        r@ == v@,
{
    let mut r: Vec<String> = Vec::new();
    let mut i: usize = 0;
    while i < v.len()
        invariant
            0 <= i <= v@.len(),
            r@ == v@.subrange(0, i as int),
        decreases v@.len() - i,
    {
        r.push(v[i].clone());
        i = i + 1;
        proof {
            assert(r@ =~= v@.subrange(0, i as int));
        }
    }
    proof {
        assert(v@.subrange(0, v@.len() as int) =~= v@);
    }
    r
}

/// The read path: one uniformly random category, one uniformly random
/// shard of it, and one uniformly random fact of the copy taken under the
/// shard's lock. Each choice is independent; category selection is not
/// weighted by shard or fact count. Fails with `NoData` while the chosen
/// shard is still bootstrap-empty, and with `PoisonedShard` when its lock
/// was invalidated.
pub fn pick_random_fact(state: &AppState) -> (r: Result<(animals::Animal, String), AppError>)
    requires
        state.wf(),
    ensures
        match r {
            Ok(p) => state.cfg().animals@.contains(p.0) && p.1@.len() > 0,
            Err(e) => e == AppError::NoData || e == AppError::PoisonedShard,
        },
{
    if state.cache.len() == 0 {
        return Err(AppError::NoData);
    }
    let si = sys::random_below(state.cache.len());
    let set = &state.cache[si];
    if set.shards.len() == 0 {
        return Err(AppError::NoData);
    }
    let hi = sys::random_below(set.shards.len());
    let handle = set.shards[hi].acquire_read();
    let cell = handle.borrow();
    if cell.poisoned {
        handle.release_read();
        return Err(AppError::PoisonedShard);
    }
    let ghost seen = *cell;
    let facts = clone_facts(&cell.shard.facts);
    handle.release_read();
    if facts.len() == 0 {
        return Err(AppError::NoData);
    }
    let fi = sys::random_below(facts.len());
    let fact = facts[fi].clone();
    proof {
        assert(set.shards@[hi as int].pred() == (ShardInv {
            size: state.cfg().shard_size as nat,
        }));
        assert(seen.shard.no_empty_facts());
        assert(fact@ == seen.shard.facts@[fi as int]@);
        assert(state.cfg().animals@.contains(set.animal)) by {
            assert(state.cfg().animals@[si as int] == set.animal);
        }
    }
    Ok((set.animal, fact))
}

/// The only mutation entrypoint of the cache: overwrites exactly the
/// addressed shard, wholesale, under that shard's lock alone. A full
/// replacement shard is required, so the cell's invariant is kept. A
/// poisoned cell is refused and left untouched.
pub fn replace_shard(
    state: &AppState,
    cat_idx: usize,
    shard_idx: usize,
    new_shard: Shard,
) -> (r: Result<(), AppError>)
    requires
        state.wf(),
        cat_idx < state.cfg().animals@.len(),
        shard_idx < state.cfg().shard_num,
        new_shard.full(state.cfg().shard_size as int),
    ensures
        r == Ok::<(), AppError>(()) || r == Err::<(), AppError>(AppError::PoisonedShard),
{
    let set = &state.cache[cat_idx];
    proof {
        assert(set.shards@[shard_idx as int].pred() == (ShardInv {
            size: state.cfg().shard_size as nat,
        }));
    }
    let (cell, wh) = set.shards[shard_idx].acquire_write();
    if cell.poisoned {
        wh.release_write(cell);
        Err(AppError::PoisonedShard)
    } else {
        wh.release_write(ShardCell { shard: new_shard, poisoned: false });
        Ok(())
    }
}

/// Invalidates the addressed shard's cell as a crashed critical section
/// would: from here on, read, write, and health acquisitions on this shard
/// report `PoisonedShard` instead of recovering a value. No other shard is
/// touched, so the rest of the cache keeps serving.
pub fn poison_shard(state: &AppState, cat_idx: usize, shard_idx: usize)
    requires
        state.wf(),
        cat_idx < state.cfg().animals@.len(),
        shard_idx < state.cfg().shard_num,
{
    let set = &state.cache[cat_idx];
    proof {
        assert(set.shards@[shard_idx as int].pred() == (ShardInv {
            size: state.cfg().shard_size as nat,
        }));
    }
    let (cell, wh) = set.shards[shard_idx].acquire_write();
    wh.release_write(ShardCell { shard: cell.shard, poisoned: true });
}

/// What the health audit reads of one shard, under its lock.
pub struct ShardMeta {
    pub fact_count: usize,
    pub fetched_at: i64,
    pub poisoned: bool,
}

/// What the health audit reads of one category's shards.
pub struct SetMeta {
    pub animal: animals::Animal,
    pub shards: Vec<ShardMeta>,
}

/// What every snapshot of a well-formed state shows: one entry per
/// configured category, in order, with `shard_num` shards each, and every
/// fact count either still bootstrap-empty or exactly the shard size.
pub open spec fn snapshot_frame(cfg: config::ServerConfig, snap: Seq<SetMeta>) -> bool {
    &&& snap.len() == cfg.animals@.len()
    &&& forall|i: int| 0 <= i < snap.len() ==> (#[trigger] snap[i]).animal == cfg.animals@[i]
    &&& forall|i: int| 0 <= i < snap.len() ==> (#[trigger] snap[i]).shards@.len() == cfg.shard_num
    &&& forall|i: int, j: int|
        0 <= i < snap.len() && 0 <= j < snap[i].shards@.len() ==> ((#[trigger] snap[i].shards@[j]).fact_count == 0 || snap[i].shards@[j].fact_count == cfg.shard_size)
}

/// Reads the health metadata of every shard, each shard momentarily under
/// its own lock, never two locks at once.
pub fn snapshot_for_health(state: &AppState) -> (snap: Vec<SetMeta>)
    requires
        state.wf(),
    ensures
        snapshot_frame(state.cfg(), snap@),
{
    let mut snap: Vec<SetMeta> = Vec::new();
    let mut i: usize = 0;
    while i < state.cache.len()
        invariant
            state.wf(),
            0 <= i <= state.cache@.len(),
            snap@.len() == i,
            forall|k: int| 0 <= k < i ==> (#[trigger] snap@[k]).animal == state.cfg().animals@[k],
            forall|k: int|
                0 <= k < i ==> (#[trigger] snap@[k]).shards@.len() == state.cfg().shard_num,
            forall|k: int, j: int|
                0 <= k < i && 0 <= j < snap@[k].shards@.len() ==> ((#[trigger] snap@[k].shards@[j]).fact_count == 0 || snap@[k].shards@[j].fact_count == state.cfg().shard_size),
        decreases state.cache@.len() - i,
    {
        let set = &state.cache[i];
        let mut metas: Vec<ShardMeta> = Vec::new();
        let mut j: usize = 0;
        while j < set.shards.len()
            invariant
                state.wf(),
                0 <= i < state.cache@.len(),
                set == &state.cache@[i as int],
                0 <= j <= set.shards@.len(),
                metas@.len() == j,
                forall|k: int|
                    0 <= k < j ==> ((#[trigger] metas@[k]).fact_count == 0 || metas@[k].fact_count
                        == state.cfg().shard_size),
            decreases set.shards@.len() - j,
        {
            proof {
                assert(state.cache@[i as int].shards@[j as int].pred() == (ShardInv {
                    size: state.cfg().shard_size as nat,
                }));
            }
            let handle = set.shards[j].acquire_read();
            let cell = handle.borrow();
            let meta = ShardMeta {
                fact_count: cell.shard.facts.len(),
                fetched_at: cell.shard.timestamp,
                poisoned: cell.poisoned,
            };
            handle.release_read();
            metas.push(meta);
            j = j + 1;
        }
        snap.push(SetMeta { animal: set.animal, shards: metas });
        i = i + 1;
    }
    snap
}

/// The audit of one category's shards, in shard order: fact count, then
/// freshness, then lock integrity; the first failing check names the
/// problem.
pub open spec fn sh_shards(
    shards: Seq<ShardMeta>,
    cfg: config::ServerConfig,
    now: int,
) -> Result<(), HealthProblem>
    decreases shards.len(),
{
    if shards.len() == 0 {
        Ok(())
    } else {
        let m = shards[0];
        if m.fact_count != cfg.shard_size {
            Err(HealthProblem::UnexpectedState)
        } else if now - (m.fetched_at as int) >= (cfg.shard_staleness_sec as int) {
            Err(HealthProblem::StaleShard)
        } else if m.poisoned {
            Err(HealthProblem::PoisonedShard)
        } else {
            sh_shards(shards.drop_first(), cfg, now)
        }
    }
}

/// The audit of the categories, in configuration order: shard count per
/// category, then each of its shards.
pub open spec fn sh_sets(sets: Seq<SetMeta>, cfg: config::ServerConfig, now: int) -> Result<
    (),
    HealthProblem,
>
    decreases sets.len(),
{
    if sets.len() == 0 {
        Ok(())
    } else if sets[0].shards@.len() != cfg.shard_num {
        Err(HealthProblem::UnexpectedState)
    } else {
        match sh_shards(sets[0].shards@, cfg, now) {
            Err(p) => Err(p),
            Ok(()) => sh_sets(sets.drop_first(), cfg, now),
        }
    }
}

/// The whole health audit of a snapshot taken at time `now`: the number of
/// categories, then each category in order. Every shard is visited before
/// the audit passes.
pub open spec fn spec_health(
    cfg: config::ServerConfig,
    snap: Seq<SetMeta>,
    now: int,
) -> Result<(), HealthProblem> {
    if snap.len() != cfg.animals@.len() {
        Err(HealthProblem::UnexpectedState)
    } else {
        sh_sets(snap, cfg, now)
    }
}

proof fn lemma_sh_shards_stale(shards: Seq<ShardMeta>, cfg: config::ServerConfig, now: int)
    requires
        forall|j: int|
            0 <= j < shards.len() ==> (#[trigger] shards[j]).fact_count == cfg.shard_size,
        forall|j: int| 0 <= j < shards.len() ==> !(#[trigger] shards[j]).poisoned,
    ensures
        sh_shards(shards, cfg, now) == (if exists|j: int|
            0 <= j < shards.len() && now - ((#[trigger] shards[j]).fetched_at as int)
                >= (cfg.shard_staleness_sec as int) {
            Err::<(), HealthProblem>(HealthProblem::StaleShard)
        } else {
            Ok::<(), HealthProblem>(())
        }),
    decreases shards.len(),
{
    if shards.len() > 0 {
        let stale_here = now - (shards[0].fetched_at as int) >= (cfg.shard_staleness_sec as int);
        if stale_here {
            assert(exists|j: int|
                0 <= j < shards.len() && now - ((#[trigger] shards[j]).fetched_at as int)
                    >= (cfg.shard_staleness_sec as int)) by {
                assert(now - ((shards[0]).fetched_at as int) >= (cfg.shard_staleness_sec as int));
            }
        } else {
            let rest = shards.drop_first();
            assert(forall|j: int| 0 <= j < rest.len() ==> rest[j] == shards[j + 1]);
            lemma_sh_shards_stale(rest, cfg, now);
            if exists|j: int|
                0 <= j < shards.len() && now - ((#[trigger] shards[j]).fetched_at as int)
                    >= (cfg.shard_staleness_sec as int) {
                let j = choose|j: int|
                    0 <= j < shards.len() && now - ((#[trigger] shards[j]).fetched_at as int)
                        >= (cfg.shard_staleness_sec as int);
                assert(j != 0);
                assert(now - ((rest[j - 1]).fetched_at as int) >= (cfg.shard_staleness_sec as int));
            } else {
                assert forall|j: int|
                    0 <= j < rest.len() implies !(now - ((#[trigger] rest[j]).fetched_at as int)
                    >= (cfg.shard_staleness_sec as int)) by {
                    assert(rest[j] == shards[j + 1]);
                }
            }
        }
    }
}

proof fn lemma_sh_sets_stale(sets: Seq<SetMeta>, cfg: config::ServerConfig, now: int)
    requires
        forall|i: int| 0 <= i < sets.len() ==> (#[trigger] sets[i]).shards@.len() == cfg.shard_num,
        forall|i: int, j: int|
            0 <= i < sets.len() && 0 <= j < sets[i].shards@.len() ==> (#[trigger] sets[i].shards@[j]).fact_count == cfg.shard_size,
        forall|i: int, j: int|
            0 <= i < sets.len() && 0 <= j < sets[i].shards@.len() ==> !(#[trigger] sets[i].shards@[j]).poisoned,
    ensures
        sh_sets(sets, cfg, now) == (if exists|i: int, j: int|
            0 <= i < sets.len() && 0 <= j < sets[i].shards@.len() && now - ((
            #[trigger] sets[i].shards@[j]).fetched_at as int) >= (cfg.shard_staleness_sec as int) {
            Err::<(), HealthProblem>(HealthProblem::StaleShard)
        } else {
            Ok::<(), HealthProblem>(())
        }),
    decreases sets.len(),
{
    if sets.len() > 0 {
        lemma_sh_shards_stale(sets[0].shards@, cfg, now);
        let rest = sets.drop_first();
        assert(forall|i: int| 0 <= i < rest.len() ==> rest[i] == sets[i + 1]);
        lemma_sh_sets_stale(rest, cfg, now);
        let stale_first = exists|j: int|
            0 <= j < sets[0].shards@.len() && now - ((#[trigger] sets[0].shards@[j]).fetched_at
                as int) >= (cfg.shard_staleness_sec as int);
        let stale_rest = exists|i: int, j: int|
            0 <= i < rest.len() && 0 <= j < rest[i].shards@.len() && now - ((
            #[trigger] rest[i].shards@[j]).fetched_at as int) >= (cfg.shard_staleness_sec as int);
        let stale_all = exists|i: int, j: int|
            0 <= i < sets.len() && 0 <= j < sets[i].shards@.len() && now - ((
            #[trigger] sets[i].shards@[j]).fetched_at as int) >= (cfg.shard_staleness_sec as int);
        assert(stale_all <==> (stale_first || stale_rest)) by {
            if stale_all {
                let (i, j) = choose|i: int, j: int|
                    0 <= i < sets.len() && 0 <= j < sets[i].shards@.len() && now - ((
                    #[trigger] sets[i].shards@[j]).fetched_at as int) >= (
                    cfg.shard_staleness_sec as int);
                if i > 0 {
                    assert(now - ((rest[i - 1].shards@[j]).fetched_at as int) >= (
                    cfg.shard_staleness_sec as int));
                }
            }
            if stale_first {
                let j = choose|j: int|
                    0 <= j < sets[0].shards@.len() && now - ((
                    #[trigger] sets[0].shards@[j]).fetched_at as int) >= (
                    cfg.shard_staleness_sec as int);
                assert(now - ((sets[0].shards@[j]).fetched_at as int) >= (
                cfg.shard_staleness_sec as int));
            }
            if stale_rest {
                let (i, j) = choose|i: int, j: int|
                    0 <= i < rest.len() && 0 <= j < rest[i].shards@.len() && now - ((
                    #[trigger] rest[i].shards@[j]).fetched_at as int) >= (
                    cfg.shard_staleness_sec as int);
                assert(now - ((sets[i + 1].shards@[j]).fetched_at as int) >= (
                cfg.shard_staleness_sec as int));
            }
        }
    }
}

/// Freshness law: over a structurally complete snapshot (right number of
/// categories and shards, every shard full) in which no lock is poisoned,
/// the audit reports `StaleShard` exactly when some shard's age has
/// reached the staleness threshold, and passes otherwise.
pub proof fn lemma_health_staleness(cfg: config::ServerConfig, snap: Seq<SetMeta>, now: int)
    requires
        snap.len() == cfg.animals@.len(),
        forall|i: int| 0 <= i < snap.len() ==> (#[trigger] snap[i]).shards@.len() == cfg.shard_num,
        forall|i: int, j: int|
            0 <= i < snap.len() && 0 <= j < snap[i].shards@.len() ==> (#[trigger] snap[i].shards@[j]).fact_count == cfg.shard_size,
        forall|i: int, j: int|
            0 <= i < snap.len() && 0 <= j < snap[i].shards@.len() ==> !(#[trigger] snap[i].shards@[j]).poisoned,
    ensures
        spec_health(cfg, snap, now) == (if exists|i: int, j: int|
            0 <= i < snap.len() && 0 <= j < snap[i].shards@.len() && now - ((
            #[trigger] snap[i].shards@[j]).fetched_at as int) >= (cfg.shard_staleness_sec as int) {
            Err::<(), HealthProblem>(HealthProblem::StaleShard)
        } else {
            Ok::<(), HealthProblem>(())
        }),
{
    lemma_sh_sets_stale(snap, cfg, now);
}

/// Audits a snapshot against the configuration, exactly per
/// [`spec_health`].
pub fn check_snapshot(
    cfg: &config::ServerConfig,
    snap: &Vec<SetMeta>,
    now: i64,
) -> (r: Result<(), HealthProblem>)
    ensures
        r == spec_health(*cfg, snap@, now as int),
{
    if snap.len() != cfg.animals.len() {
        return Err(HealthProblem::UnexpectedState);
    }
    let mut i: usize = 0;
    proof {
        assert(snap@.skip(0) =~= snap@);
    }
    while i < snap.len()
        invariant
            0 <= i <= snap@.len(),
            snap@.len() == cfg.animals@.len(),
            sh_sets(snap@, *cfg, now as int) == sh_sets(snap@.skip(i as int), *cfg, now as int),
        decreases snap@.len() - i,
    {
        proof {
            assert(snap@.skip(i as int)[0] == snap@[i as int]);
            assert(snap@.skip(i as int).drop_first() =~= snap@.skip(i as int + 1));
        }
        let set = &snap[i];
        if set.shards.len() != cfg.shard_num {
            return Err(HealthProblem::UnexpectedState);
        }
        let mut j: usize = 0;
        proof {
            assert(set.shards@.skip(0) =~= set.shards@);
        }
        while j < set.shards.len()
            invariant
                0 <= i < snap@.len(),
                snap@.len() == cfg.animals@.len(),
                set == &snap@[i as int],
                0 <= j <= set.shards@.len(),
                sh_shards(set.shards@, *cfg, now as int) == sh_shards(
                    set.shards@.skip(j as int),
                    *cfg,
                    now as int,
                ),
                sh_shards(set.shards@.skip(j as int), *cfg, now as int) is Ok ==> sh_sets(
                    snap@,
                    *cfg,
                    now as int,
                ) == sh_sets(snap@.skip(i as int + 1), *cfg, now as int),
                sh_shards(set.shards@.skip(j as int), *cfg, now as int) is Err ==> sh_sets(
                    snap@,
                    *cfg,
                    now as int,
                ) == Err::<(), HealthProblem>(
                    sh_shards(set.shards@.skip(j as int), *cfg, now as int)->Err_0,
                ),
            decreases set.shards@.len() - j,
        {
            proof {
                assert(set.shards@.skip(j as int)[0] == set.shards@[j as int]);
                assert(set.shards@.skip(j as int).drop_first() =~= set.shards@.skip(j as int + 1));
            }
            let m = &set.shards[j];
            if m.fact_count != cfg.shard_size {
                return Err(HealthProblem::UnexpectedState);
            }
            if (now as i128) - (m.fetched_at as i128) >= (cfg.shard_staleness_sec as i128) {
                return Err(HealthProblem::StaleShard);
            }
            if m.poisoned {
                return Err(HealthProblem::PoisonedShard);
            }
            j = j + 1;
        }
        proof {
            assert(set.shards@.skip(set.shards@.len() as int) =~= Seq::<ShardMeta>::empty());
        }
        i = i + 1;
    }
    proof {
        assert(snap@.skip(snap@.len() as int) =~= Seq::<SetMeta>::empty());
    }
    Ok(())
}

/// Audits the live cache: takes a snapshot, reads the clock once, and
/// applies [`spec_health`] to exactly that snapshot and that time.
pub fn check_app_state(state: &AppState) -> (r: Result<(), HealthProblem>)
    requires
        state.wf(),
    ensures
        exists|snap: Seq<SetMeta>, now: int|
            #[trigger] spec_health(state.cfg(), snap, now) == r && snapshot_frame(
                state.cfg(),
                snap,
            ),
{
    let snap = snapshot_for_health(state);
    let now = sys::now_seconds();
    let r = check_snapshot(&state.cfg, &snap, now);
    proof {
        assert(spec_health(state.cfg(), snap@, now as int) == r && snapshot_frame(
            state.cfg(),
            snap@,
        ));
    }
    r
}

/// One refresh step for the addressed shard, fed with what the transport
/// layer fetched: a failed fetch is handed back unchanged, a fetched body
/// is validated for the shard's category, and only a batch that passes the
/// whole validation replaces the shard's contents. On any error the shard
/// keeps what it had.
pub fn apply_fetched_body(
    state: &AppState,
    cat_idx: usize,
    shard_idx: usize,
    fetched: Result<String, AppError>,
) -> (r: Result<(), AppError>)
    requires
        state.wf(),
        cat_idx < state.cfg().animals@.len(),
        shard_idx < state.cfg().shard_num,
    ensures
        match fetched {
            Err(e) => r == Err::<(), AppError>(e),
            Ok(body) => match animals::spec_validate(
                body@,
                state.cfg().animals@[cat_idx as int],
                state.cfg().shard_size,
            ) {
                Err(e) => r == Err::<(), AppError>(e),
                Ok(facts) => r == Ok::<(), AppError>(()) || r == Err::<(), AppError>(
                    AppError::PoisonedShard,
                ),
            },
        },
{
    let body = match fetched {
        Err(e) => {
            return Err(e);
        },
        Ok(b) => b,
    };
    let animal = state.cache[cat_idx].animal;
    proof {
        assert(animal == state.cfg().animals@[cat_idx as int]);
    }
    let ghost body_chars = body@;
    let shard = match animals::validate_batch(body, &animal, state.cfg.shard_size) {
        Err(e) => {
            return Err(e);
        },
        Ok(s) => s,
    };
    proof {
        animals::lemma_validate_ok_shape(body_chars, animal, state.cfg().shard_size);
        let facts = animals::spec_validate(body_chars, animal, state.cfg().shard_size)->Ok_0;
        assert(shard.facts.deep_view() == facts);
        assert(shard.facts@.len() == facts.len());
        assert forall|i: int| 0 <= i < shard.facts@.len() implies (#[trigger] shard.facts@[i])@.len()
            > 0 by {
            assert(facts[i] == shard.facts@[i]@);
        }
    }
    replace_shard(state, cat_idx, shard_idx, shard)
}

/// The refresher's two states. During `Bootstrapping` — the one
/// synchronous pass before the server accepts traffic — any failure is
/// fatal. In `Steady`, failures are logged per shard and the pass goes on.
#[derive(Clone, Copy, Debug, PartialEq, Eq, Structural)]
pub enum RefresherMode {
    Bootstrapping,
    Steady,
}

impl RefresherMode {
    /// Whether a failed step must abort the process instead of being
    /// swallowed per shard.
    pub fn failures_are_fatal(&self) -> (b: bool)
        ensures
            b == (*self is Bootstrapping),
    {
        match self {
            RefresherMode::Bootstrapping => true,
            RefresherMode::Steady => false,
        }
    }

    /// The mode after one full pass over every shard: bootstrap turns to
    /// steady exactly once, after the first pass that fully succeeded.
    pub fn after_pass(self, pass_succeeded: bool) -> (next: RefresherMode)
        ensures
            next == (if self is Bootstrapping && pass_succeeded {
                RefresherMode::Steady
            } else {
                self
            }),
    {
        match self {
            RefresherMode::Bootstrapping => {
                if pass_succeeded {
                    RefresherMode::Steady
                } else {
                    RefresherMode::Bootstrapping
                }
            },
            RefresherMode::Steady => RefresherMode::Steady,
        }
    }
}

} // verus!
