use fact_cache::animals::Animal;
use fact_cache::config::ServerConfig;
use fact_cache::errors::{AppError, HealthProblem};
use fact_cache::{
    apply_fetched_body, check_app_state, check_snapshot, init_state, pick_random_fact,
    poison_shard, replace_shard, snapshot_for_health, AppState, RefresherMode, Shard,
};

fn test_config(animals: Vec<Animal>) -> ServerConfig {
    ServerConfig {
        port: 3000,
        shard_num: 2,
        shard_size: 3,
        shard_refresh_sec: 2,
        shard_staleness_sec: 10,
        animals,
    }
}

fn body_for(animal: Animal, n: usize) -> String {
    match animal {
        Animal::Dog => {
            let mut items = String::new();
            for i in 0..n {
                if i > 0 {
                    items.push(',');
                }
                items.push_str(&format!("\"dog fact {}\"", i));
            }
            format!("{{\"facts\":[{}],\"success\":true}}", items)
        }
        Animal::Cat => {
            let mut items = String::new();
            for i in 0..n {
                if i > 0 {
                    items.push(',');
                }
                items.push_str(&format!("{{\"text\":\"cat fact {}\"}}", i));
            }
            format!("[{}]", items)
        }
    }
}

fn bootstrap(state: &AppState) {
    for i in 0..state.num_categories() {
        let animal = state.category(i);
        for j in 0..state.shard_num() {
            let body = body_for(animal, state.shard_size());
            apply_fetched_body(state, i, j, Ok(body)).unwrap();
        }
    }
}

fn facts_at(animal: Animal, size: usize) -> Vec<String> {
    let kind = match animal {
        Animal::Dog => "dog",
        Animal::Cat => "cat",
    };
    (0..size).map(|i| format!("{} fact {}", kind, i)).collect()
}

#[test]
fn bootstrap_then_fact_and_health() {
    let cfg = test_config(vec![Animal::Cat, Animal::Dog]);
    let state = init_state(cfg);
    bootstrap(&state);
    for _ in 0..20 {
        let (animal, fact) = pick_random_fact(&state).unwrap();
        assert!(animal == Animal::Cat || animal == Animal::Dog);
        assert!(!fact.is_empty());
        assert!(fact.contains("fact"));
    }
    assert!(check_app_state(&state).is_ok());
}

#[test]
fn single_category_serves_its_facts() {
    for animal in [Animal::Cat, Animal::Dog] {
        let cfg = test_config(vec![animal]);
        let state = init_state(cfg);
        bootstrap(&state);
        for _ in 0..10 {
            let (a, fact) = pick_random_fact(&state).unwrap();
            assert_eq!(a.name(), animal.name());
            assert!(!fact.is_empty());
        }
    }
}

#[test]
fn no_data_before_bootstrap() {
    let cfg = test_config(vec![Animal::Cat]);
    let state = init_state(cfg);
    assert_eq!(pick_random_fact(&state).unwrap_err(), AppError::NoData);
    // Bootstrap-empty shards fail the fact-count check of the audit.
    let snap = snapshot_for_health(&state);
    let cfg = test_config(vec![Animal::Cat]);
    let r = check_snapshot(&cfg, &snap, 0);
    assert_eq!(r.unwrap_err(), HealthProblem::UnexpectedState);
}

#[test]
fn failed_refresh_keeps_previous_shard() {
    let cfg = test_config(vec![Animal::Cat]);
    let state = init_state(cfg);
    // Fill every shard with known timestamps.
    for j in 0..state.shard_num() {
        replace_shard(
            &state,
            0,
            j,
            Shard::with_timestamp(facts_at(Animal::Cat, state.shard_size()), 1000),
        )
        .unwrap();
    }
    // A batch of the wrong size is rejected with both sizes named ...
    let short = body_for(Animal::Cat, state.shard_size() - 1);
    let r = apply_fetched_body(&state, 0, 0, Ok(short));
    assert_eq!(
        r.unwrap_err(),
        AppError::CountMismatch {
            got: state.shard_size() - 1,
            want: state.shard_size()
        }
    );
    // ... and the shard still holds its previous full batch.
    let snap = snapshot_for_health(&state);
    assert_eq!(snap[0].shards[0].fact_count, state.shard_size());
    assert_eq!(snap[0].shards[0].fetched_at, 1000);
    let cfg = test_config(vec![Animal::Cat]);
    assert!(check_snapshot(&cfg, &snap, 1005).is_ok());
    assert!(!pick_random_fact(&state).unwrap().1.is_empty());
}

#[test]
fn failed_fetch_is_handed_back() {
    let cfg = test_config(vec![Animal::Dog]);
    let state = init_state(cfg);
    let r = apply_fetched_body(&state, 0, 0, Err(AppError::TransportError));
    assert_eq!(r.unwrap_err(), AppError::TransportError);
    let r = apply_fetched_body(&state, 0, 0, Err(AppError::UnexpectedStatus(503)));
    assert_eq!(r.unwrap_err(), AppError::UnexpectedStatus(503));
}

#[test]
fn staleness_threshold_flips_health() {
    let cfg = test_config(vec![Animal::Cat, Animal::Dog]);
    let state = init_state(cfg);
    for i in 0..state.num_categories() {
        let animal = state.category(i);
        for j in 0..state.shard_num() {
            replace_shard(
                &state,
                i,
                j,
                Shard::with_timestamp(facts_at(animal, state.shard_size()), 1000),
            )
            .unwrap();
        }
    }
    let snap = snapshot_for_health(&state);
    let cfg = test_config(vec![Animal::Cat, Animal::Dog]);
    // One second before the threshold the audit passes; from the threshold
    // on it reports staleness.
    assert!(check_snapshot(&cfg, &snap, 1009).is_ok());
    assert_eq!(
        check_snapshot(&cfg, &snap, 1010).unwrap_err(),
        HealthProblem::StaleShard
    );
    assert_eq!(
        check_snapshot(&cfg, &snap, 5000).unwrap_err(),
        HealthProblem::StaleShard
    );
}

#[test]
fn one_failing_category_goes_stale_but_facts_keep_flowing() {
    let cfg = test_config(vec![Animal::Cat, Animal::Dog]);
    let state = init_state(cfg);
    // Bootstrap both categories at time 1000.
    for i in 0..state.num_categories() {
        let animal = state.category(i);
        for j in 0..state.shard_num() {
            replace_shard(
                &state,
                i,
                j,
                Shard::with_timestamp(facts_at(animal, state.shard_size()), 1000),
            )
            .unwrap();
        }
    }
    // The dog provider keeps failing; only the cat shards get refreshed.
    for j in 0..state.shard_num() {
        replace_shard(
            &state,
            0,
            j,
            Shard::with_timestamp(facts_at(Animal::Cat, state.shard_size()), 1020),
        )
        .unwrap();
    }
    let snap = snapshot_for_health(&state);
    let cfg = test_config(vec![Animal::Cat, Animal::Dog]);
    // The dog shards have gone stale, so health reports it ...
    assert_eq!(
        check_snapshot(&cfg, &snap, 1021).unwrap_err(),
        HealthProblem::StaleShard
    );
    // ... while the read path still serves facts for both categories.
    let mut saw_cat = false;
    let mut saw_dog = false;
    for _ in 0..200 {
        let (animal, fact) = pick_random_fact(&state).unwrap();
        assert!(!fact.is_empty());
        match animal {
            Animal::Cat => saw_cat = true,
            Animal::Dog => saw_dog = true,
        }
    }
    assert!(saw_cat && saw_dog);
}

#[test]
fn poisoned_shard_is_reported_not_recovered() {
    let mut cfg = test_config(vec![Animal::Cat]);
    cfg.shard_num = 1;
    let state = init_state(cfg);
    for j in 0..state.shard_num() {
        replace_shard(
            &state,
            0,
            j,
            Shard::with_timestamp(facts_at(Animal::Cat, state.shard_size()), 1000),
        )
        .unwrap();
    }
    poison_shard(&state, 0, 0);
    // The read path reports the poisoned lock instead of serving.
    assert_eq!(
        pick_random_fact(&state).unwrap_err(),
        AppError::PoisonedShard
    );
    // The refresher cannot overwrite the poisoned cell.
    let body = body_for(Animal::Cat, state.shard_size());
    assert_eq!(
        apply_fetched_body(&state, 0, 0, Ok(body)).unwrap_err(),
        AppError::PoisonedShard
    );
    // The audit reports it too (the shard is full and fresh, so the
    // poisoned lock is what it finds).
    let snap = snapshot_for_health(&state);
    let mut cfg = test_config(vec![Animal::Cat]);
    cfg.shard_num = 1;
    assert_eq!(
        check_snapshot(&cfg, &snap, 1001).unwrap_err(),
        HealthProblem::PoisonedShard
    );
}

#[test]
fn poisoning_affects_only_its_shard() {
    let cfg = test_config(vec![Animal::Cat]);
    let state = init_state(cfg);
    for j in 0..state.shard_num() {
        replace_shard(
            &state,
            0,
            j,
            Shard::with_timestamp(facts_at(Animal::Cat, state.shard_size()), 1000),
        )
        .unwrap();
    }
    poison_shard(&state, 0, 1);
    // The other shard still refreshes and serves.
    let body = body_for(Animal::Cat, state.shard_size());
    apply_fetched_body(&state, 0, 0, Ok(body)).unwrap();
    let mut served = false;
    for _ in 0..100 {
        match pick_random_fact(&state) {
            Ok((_, fact)) => {
                assert!(!fact.is_empty());
                served = true;
            }
            Err(e) => assert_eq!(e, AppError::PoisonedShard),
        }
    }
    assert!(served);
}

#[test]
fn malformed_bootstrap_is_fatal() {
    let cfg = test_config(vec![Animal::Cat]);
    let state = init_state(cfg);
    // The provider answers with garbage during the bootstrap pass: the
    // batch is rejected, and in bootstrap mode that failure is fatal, so
    // the server never starts serving.
    let r = apply_fetched_body(&state, 0, 0, Ok("{not json".to_string()));
    assert_eq!(r.unwrap_err(), AppError::ParseError);
    assert!(RefresherMode::Bootstrapping.failures_are_fatal());
    assert_eq!(pick_random_fact(&state).unwrap_err(), AppError::NoData);
}

#[test]
fn two_shards_of_fifty_cat_facts() {
    let cfg = ServerConfig {
        port: 3000,
        shard_num: 2,
        shard_size: 50,
        shard_refresh_sec: 2,
        shard_staleness_sec: 10,
        animals: vec![Animal::Cat],
    };
    let state = init_state(cfg);
    bootstrap(&state);
    for _ in 0..20 {
        let (animal, fact) = pick_random_fact(&state).unwrap();
        assert_eq!(animal.name(), "cat");
        assert!(!fact.is_empty());
    }
    assert!(check_app_state(&state).is_ok());
}

#[test]
fn refresher_mode_transitions() {
    let boot = RefresherMode::Bootstrapping;
    assert!(boot.failures_are_fatal());
    assert_eq!(boot.after_pass(true), RefresherMode::Steady);
    assert_eq!(boot.after_pass(false), RefresherMode::Bootstrapping);
    let steady = RefresherMode::Steady;
    assert!(!steady.failures_are_fatal());
    assert_eq!(steady.after_pass(true), RefresherMode::Steady);
    assert_eq!(steady.after_pass(false), RefresherMode::Steady);
}
