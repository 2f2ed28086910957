use tgrade_contracts::group::{
    create, execute_update_members, sudo_add_member, GroupError, Hooks, Member,
};

const INIT_ADMIN: &str = "juan";
const USER1: &str = "somebody";
const USER2: &str = "else";
const USER3: &str = "funny";

fn initial() -> (tgrade_contracts::addr_map::AddrMap<u64>, u64) {
    create(&vec![
        Member { addr: USER1.to_string(), weight: 11 },
        Member { addr: USER2.to_string(), weight: 6 },
    ])
}

fn all_valid(add: &Vec<Member>) -> Vec<bool> {
    vec![true; add.len()]
}

fn weights(members: &tgrade_contracts::addr_map::AddrMap<u64>) -> (Option<u64>, Option<u64>, Option<u64>) {
    (members.get(&USER1.to_string()), members.get(&USER2.to_string()), members.get(&USER3.to_string()))
}

#[test]
fn proper_instantiation() {
    let (members, total) = initial();
    assert_eq!(total, 17);
    assert_eq!(weights(&members), (Some(11), Some(6), None));
}

#[test]
fn add_new_remove_old_member() {
    let (mut members, mut total) = initial();
    let admin = Some(INIT_ADMIN.to_string());
    let add = vec![Member { addr: USER3.to_string(), weight: 15 }];
    let remove = vec![USER1.to_string()];

    // non-admin cannot update
    let err = execute_update_members(&admin, &mut members, &mut total, &USER1.to_string(), &add, &all_valid(&add), &remove, &vec![true; remove.len()]).unwrap_err();
    assert_eq!(err, GroupError::NotAdmin);
    assert_eq!(weights(&members), (Some(11), Some(6), None));

    // admin updates properly
    execute_update_members(&admin, &mut members, &mut total, &INIT_ADMIN.to_string(), &add, &all_valid(&add), &remove, &vec![true; remove.len()]).unwrap();
    assert_eq!(weights(&members), (None, Some(6), Some(15)));
    assert_eq!(total, 21);
}

#[test]
fn add_old_remove_new_member() {
    let (mut members, mut total) = initial();
    let admin = Some(INIT_ADMIN.to_string());
    let add = vec![Member { addr: USER1.to_string(), weight: 4 }];
    let remove = vec![USER3.to_string()];
    execute_update_members(&admin, &mut members, &mut total, &INIT_ADMIN.to_string(), &add, &all_valid(&add), &remove, &vec![true; remove.len()]).unwrap();
    assert_eq!(weights(&members), (Some(4), Some(6), None));
    assert_eq!(total, 10);
}

#[test]
fn add_and_remove_same_member() {
    let (mut members, mut total) = initial();
    let admin = Some(INIT_ADMIN.to_string());
    let add = vec![Member { addr: USER1.to_string(), weight: 20 }, Member { addr: USER3.to_string(), weight: 5 }];
    let remove = vec![USER1.to_string()];
    execute_update_members(&admin, &mut members, &mut total, &INIT_ADMIN.to_string(), &add, &all_valid(&add), &remove, &vec![true; remove.len()]).unwrap();
    assert_eq!(weights(&members), (None, Some(6), Some(5)));
    assert_eq!(total, 11);
}

#[test]
fn sudo_add_new_member() {
    let (mut members, mut total) = initial();
    sudo_add_member(&mut members, &mut total, Member { addr: USER3.to_string(), weight: 15 }, true).unwrap();
    assert_eq!(weights(&members), (Some(11), Some(6), Some(15)));
    assert_eq!(total, 32);
}

#[test]
fn sudo_update_existing_member() {
    let (mut members, mut total) = initial();
    sudo_add_member(&mut members, &mut total, Member { addr: USER2.to_string(), weight: 1 }, true).unwrap();
    assert_eq!(weights(&members), (Some(11), Some(1), None));
    assert_eq!(total, 12);
}

#[test]
fn add_remove_hooks() {
    let mut hooks = Hooks { hooks: vec![] };
    hooks.add_hook("hook1".to_string()).unwrap();
    assert_eq!(hooks.add_hook("hook1".to_string()), Err(GroupError::HookAlreadyRegistered));
    hooks.add_hook("hook2".to_string()).unwrap();
    hooks.remove_hook(&"hook1".to_string()).unwrap();
    assert_eq!(hooks.remove_hook(&"hook1".to_string()), Err(GroupError::HookNotRegistered));
    assert_eq!(hooks.hooks, vec!["hook2".to_string()]);
}

#[test]
fn overflowing_update_changes_nothing() {
    let (mut members, mut total) = initial();
    // the first add fits, the second takes the total over u64::MAX
    let add = vec![
        Member { addr: USER3.to_string(), weight: 5 },
        Member { addr: USER1.to_string(), weight: u64::MAX - 5 },
    ];
    let err = execute_update_members(&Some(INIT_ADMIN.to_string()), &mut members, &mut total, &INIT_ADMIN.to_string(), &add, &all_valid(&add), &vec![], &vec![])
        .unwrap_err();
    assert_eq!(err, GroupError::Overflow);
    assert_eq!(weights(&members), (Some(11), Some(6), None));
    assert_eq!(total, 17);
    let err = sudo_add_member(&mut members, &mut total, Member { addr: USER3.to_string(), weight: u64::MAX - 16 }, true).unwrap_err();
    assert_eq!(err, GroupError::Overflow);
    assert_eq!(total, 17);
}

#[test]
fn refused_addresses_change_nothing() {
    let (mut members, mut total) = initial();
    let admin = Some(INIT_ADMIN.to_string());
    let add = vec![Member { addr: USER3.to_string(), weight: 5 }, Member { addr: "Bad".to_string(), weight: 1 }];
    let err = execute_update_members(&admin, &mut members, &mut total, &INIT_ADMIN.to_string(), &add, &vec![true, false], &vec![], &vec![])
        .unwrap_err();
    assert_eq!(err, GroupError::InvalidAddress("Bad".to_string()));
    assert_eq!(weights(&members), (Some(11), Some(6), None));
    assert_eq!(total, 17);
    // the adds are checked before the removes
    let remove = vec![USER1.to_string(), "Worse".to_string()];
    let err = execute_update_members(&admin, &mut members, &mut total, &INIT_ADMIN.to_string(), &add, &vec![true, false], &remove, &vec![true, false])
        .unwrap_err();
    assert_eq!(err, GroupError::InvalidAddress("Bad".to_string()));
    let err = execute_update_members(&admin, &mut members, &mut total, &INIT_ADMIN.to_string(), &add, &vec![true, true], &remove, &vec![true, false])
        .unwrap_err();
    assert_eq!(err, GroupError::InvalidAddress("Worse".to_string()));
    assert_eq!(weights(&members), (Some(11), Some(6), None));
    let err = sudo_add_member(&mut members, &mut total, Member { addr: "Bad".to_string(), weight: 1 }, false).unwrap_err();
    assert_eq!(err, GroupError::InvalidAddress("Bad".to_string()));
    assert_eq!(total, 17);
}
