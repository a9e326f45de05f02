use lianbot::permission::{AccessControl, BotConfig, BotUser, Role, Scope, Status};

#[test]
fn access_layers() {
    let mut a = AccessControl::from_config(&[1, 2], &[66], &[77]);
    assert!(a.is_group_enabled(1));
    assert!(!a.is_group_enabled(3));
    assert!(a.is_user_blocked(66, &Scope::Group(1)));
    assert!(!a.is_user_blocked(66, &Scope::Private(66)));
    assert!(a.is_user_blocked(77, &Scope::Private(77)));
    a.block_user(&Scope::Group(1), 5);
    assert!(a.is_user_blocked(5, &Scope::Group(1)));
    assert!(!a.is_user_blocked(5, &Scope::Group(2)));
    a.unblock_user(&Scope::Group(1), 5);
    assert!(!a.is_user_blocked(5, &Scope::Group(1)));
    a.unblock_user(&Scope::Group(1), 66);
    assert!(a.is_user_blocked(66, &Scope::Group(1)));
    a.disable_group(2);
    assert!(!a.is_group_enabled(2));
    a.enable_group(3);
    let mut g = a.enabled_groups();
    g.sort();
    assert_eq!(g, vec![1, 3]);
}

#[test]
fn users_and_config() {
    let u = BotUser { user_id: 1, scope: Scope::Group(2), role: Role::Owner, status: Status::Normal };
    assert!(u.is_owner());
    assert!(u.can_use_public());
    let b = BotUser { status: Status::Blocked, role: Role::Member, ..u };
    assert!(!b.is_owner());
    assert!(!b.can_use_public());
    assert!(Role::Member < Role::Owner);
    let c = BotConfig::default();
    assert_eq!(c.db_path, "permissions.db");
    assert_eq!((c.bot_id, c.owner), (0, 0));
}

#[test]
fn stored_state_later_row_wins() {
    let a = AccessControl::from_state(&[(1, true, false), (1, false, false), (2, false, true), (2, true, true)], &[], &[], &[]);
    assert!(!a.is_group_enabled(1));
    assert!(a.is_group_enabled(2));
    assert!(!a.is_group_enabled(3));
    assert_eq!(a.enabled_groups(), vec![2]);
}

#[test]
fn stored_state_blocks_and_blacklists() {
    let key = lianbot::permission::BlockKey { scope_type: 1, scope_id: 10, user_id: 5 };
    let a = AccessControl::from_state(&[(10, true, false)], &[key], &[66], &[77]);
    assert!(a.is_user_blocked(5, &Scope::Group(10)));
    assert!(!a.is_user_blocked(5, &Scope::Group(11)));
    assert!(a.is_user_blocked(66, &Scope::Group(10)));
    assert!(a.is_user_blocked(77, &Scope::Private(77)));
}
