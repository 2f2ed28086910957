use tgrade_contracts::claims::{Claim, Claims};
use tgrade_contracts::common::BlockInfo;
use tgrade_contracts::stake::{Slashers, StakeError};

fn at(time: u64) -> BlockInfo {
    BlockInfo { height: time / 5, time }
}

fn claim(addr: &str, amount: u128, release_at: u64) -> Claim {
    Claim::new(addr.to_string(), amount, release_at, 1)
}

fn claims() -> Claims {
    let mut c = Claims::new();
    c.create_claim("bob".to_string(), 50, 200, 1);
    c.create_claim("alice".to_string(), 10, 100, 1);
    c.create_claim("bob".to_string(), 20, 100, 1);
    c.create_claim("alice".to_string(), 5, 300, 1);
    c.create_claim("alice".to_string(), 7, 100, 2);
    c
}

#[test]
fn claims_merge_and_stay_ordered() {
    let c = claims();
    assert_eq!(
        c.claims,
        vec![claim("bob", 20, 100), claim("alice", 17, 100), claim("bob", 50, 200), claim("alice", 5, 300)]
    );
    assert_eq!(c.query_claims(&"alice".to_string()), vec![claim("alice", 17, 100), claim("alice", 5, 300)]);
    assert_eq!(c.query_claims(&"carol".to_string()), vec![]);
}

#[test]
fn claim_addr_releases_mature_claims_only() {
    let mut c = claims();
    assert_eq!(c.claim_addr(&"bob".to_string(), &at(150), None), 20);
    assert_eq!(c.claims, vec![claim("alice", 17, 100), claim("bob", 50, 200), claim("alice", 5, 300)]);
    assert_eq!(c.claim_addr(&"bob".to_string(), &at(150), None), 0);
    assert_eq!(c.claim_addr(&"alice".to_string(), &at(1000), None), 22);
    assert_eq!(c.claims, vec![claim("bob", 50, 200)]);
}

#[test]
fn claim_addr_stops_at_the_cap() {
    let mut c = claims();
    // 17 fits in 20, 17 + 5 does not
    assert_eq!(c.claim_addr(&"alice".to_string(), &at(1000), Some(20)), 17);
    assert_eq!(c.query_claims(&"alice".to_string()), vec![claim("alice", 5, 300)]);
    // nothing fits in 4
    assert_eq!(c.claim_addr(&"alice".to_string(), &at(1000), Some(4)), 0);
}

#[test]
fn claim_expired_releases_the_oldest_first() {
    let mut c = claims();
    let released = c.claim_expired(&at(200), Some(2));
    assert_eq!(released, vec![("alice".to_string(), 17), ("bob".to_string(), 20)]);
    assert_eq!(c.claims, vec![claim("bob", 50, 200), claim("alice", 5, 300)]);
    let released = c.claim_expired(&at(1000), None);
    assert_eq!(released, vec![("alice".to_string(), 5), ("bob".to_string(), 50)]);
    assert!(c.claims.is_empty());
    assert_eq!(c.claim_expired(&at(1000), None), vec![]);
}

#[test]
fn slashers_register_once() {
    let mut s = Slashers::new();
    assert_eq!(s.is_slasher(&"a".to_string()), Err(StakeError::NotFound));
    assert_eq!(s.list_slashers(), Vec::<String>::new());
    assert_eq!(s.remove_slasher(&"a".to_string()), Err(StakeError::NotFound));
    s.add_slasher("a".to_string()).unwrap();
    s.add_slasher("b".to_string()).unwrap();
    assert_eq!(s.add_slasher("a".to_string()), Err(StakeError::SlasherAlreadyRegistered("a".to_string())));
    assert_eq!(s.is_slasher(&"a".to_string()), Ok(true));
    assert_eq!(s.is_slasher(&"c".to_string()), Ok(false));
    assert_eq!(s.list_slashers(), vec!["a".to_string(), "b".to_string()]);
    assert_eq!(s.remove_slasher(&"c".to_string()), Err(StakeError::SlasherNotRegistered("c".to_string())));
    s.remove_slasher(&"a".to_string()).unwrap();
    assert_eq!(s.list_slashers(), vec!["b".to_string()]);
}

#[test]
fn equal_release_times_go_by_key_length_first() {
    let mut c = Claims::new();
    c.create_claim("aa".to_string(), 1, 100, 1);
    c.create_claim("b".to_string(), 2, 100, 1);
    c.create_claim("ab".to_string(), 3, 100, 1);
    assert_eq!(c.claims, vec![claim("b", 2, 100), claim("aa", 1, 100), claim("ab", 3, 100)]);
    assert_eq!(c.claim_expired(&at(100), Some(2)), vec![("aa".to_string(), 1), ("b".to_string(), 2)]);
    assert_eq!(c.claims, vec![claim("ab", 3, 100)]);
}

#[test]
fn claims_of_one_key_merge() {
    let mut c = Claims::new();
    c.create_claim("carol".to_string(), 4, 700, 11);
    c.create_claim("carol".to_string(), 6, 700, 12);
    assert_eq!(c.claims, vec![Claim::new("carol".to_string(), 10, 700, 11)]);
    assert_eq!(c.query_claims(&"carol".to_string()).len(), 1);
    c.create_claim("carol".to_string(), u128::MAX - 10, 700, 13);
    assert_eq!(c.claims, vec![Claim::new("carol".to_string(), u128::MAX, 700, 11)]);
}
