use fact_cache::animals::Animal;
use fact_cache::config::{validate_shard_size, ServerConfig};

fn base_config() -> ServerConfig {
    ServerConfig {
        port: 3000,
        shard_num: 1,
        shard_size: 50,
        shard_refresh_sec: 2,
        shard_staleness_sec: 10,
        animals: vec![Animal::Cat, Animal::Dog],
    }
}

#[test]
fn shard_size_accepts_the_range() {
    assert_eq!(validate_shard_size("2"), Ok(2));
    assert_eq!(validate_shard_size("50"), Ok(50));
    assert_eq!(validate_shard_size("100"), Ok(100));
}

#[test]
fn shard_size_rejects_out_of_range() {
    let range_msg = "shard size not in range 2-100".to_string();
    assert_eq!(validate_shard_size("1"), Err(range_msg.clone()));
    assert_eq!(validate_shard_size("0"), Err(range_msg.clone()));
    assert_eq!(validate_shard_size("101"), Err(range_msg.clone()));
    assert_eq!(
        validate_shard_size("99999999999999999999999999"),
        Err(range_msg)
    );
}

#[test]
fn shard_size_rejects_non_numbers() {
    let msg = "shard size is not a number".to_string();
    assert_eq!(validate_shard_size(""), Err(msg.clone()));
    assert_eq!(validate_shard_size("abc"), Err(msg.clone()));
    assert_eq!(validate_shard_size("12a"), Err(msg.clone()));
    assert_eq!(validate_shard_size("-5"), Err(msg.clone()));
    assert_eq!(validate_shard_size("1 0"), Err(msg));
}

#[test]
fn deduplicate_keeps_first_occurrences_in_order() {
    let mut cfg = base_config();
    cfg.animals = vec![
        Animal::Cat,
        Animal::Dog,
        Animal::Cat,
        Animal::Cat,
        Animal::Dog,
    ];
    cfg.deduplicate_animals();
    assert_eq!(cfg.animals, vec![Animal::Cat, Animal::Dog]);
    assert_eq!(cfg.port, 3000);
    assert_eq!(cfg.shard_size, 50);

    let mut cfg = base_config();
    cfg.animals = vec![Animal::Dog];
    cfg.deduplicate_animals();
    assert_eq!(cfg.animals, vec![Animal::Dog]);
}

#[test]
fn config_validity() {
    assert!(base_config().is_valid());

    let mut cfg = base_config();
    cfg.shard_num = 0;
    assert!(!cfg.is_valid());

    let mut cfg = base_config();
    cfg.shard_size = 1;
    assert!(!cfg.is_valid());

    let mut cfg = base_config();
    cfg.shard_size = 101;
    assert!(!cfg.is_valid());

    // The staleness threshold must exceed the refresh period, else every
    // healthy shard would count as stale.
    let mut cfg = base_config();
    cfg.shard_staleness_sec = 2;
    assert!(!cfg.is_valid());

    let mut cfg = base_config();
    cfg.animals = vec![];
    assert!(!cfg.is_valid());

    let mut cfg = base_config();
    cfg.animals = vec![Animal::Cat, Animal::Cat];
    assert!(!cfg.is_valid());

    // Deduplication makes a duplicated list valid again.
    let mut cfg = base_config();
    cfg.animals = vec![Animal::Cat, Animal::Cat, Animal::Dog];
    cfg.deduplicate_animals();
    assert!(cfg.is_valid());
}
