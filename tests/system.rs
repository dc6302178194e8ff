use opensquare::system::{CallMetadata, Module as System};

fn call(pallet: &str, function: &str) -> CallMetadata {
    CallMetadata {
        function_name: function.as_bytes().to_vec(),
        pallet_name: pallet.as_bytes().to_vec(),
    }
}

#[test]
fn nothing_is_paused_at_first() {
    let s = System::new(vec![]);
    assert!(!s.is_paused(&call("OsBounties", "create_bounty")));
}

#[test]
fn pausing_a_call_pauses_only_that_call() {
    let mut s = System::new(vec![]);
    s.modify_paused(b"OsBounties".to_vec(), Some(b"hunt_bounty".to_vec()), true);
    assert!(s.is_paused(&call("OsBounties", "hunt_bounty")));
    assert!(!s.is_paused(&call("OsBounties", "create_bounty")));
    assert!(!s.is_paused(&call("OsMining", "hunt_bounty")));
    s.modify_paused(b"OsBounties".to_vec(), Some(b"hunt_bounty".to_vec()), false);
    assert!(!s.is_paused(&call("OsBounties", "hunt_bounty")));
}

#[test]
fn pausing_a_pallet_pauses_all_its_calls() {
    let mut s = System::new(vec![]);
    s.modify_paused(b"OsBounties".to_vec(), None, true);
    assert!(s.is_paused(&call("OsBounties", "hunt_bounty")));
    assert!(s.is_paused(&call("OsBounties", "close_bounty")));
    s.modify_paused(b"OsBounties".to_vec(), Some(b"close_bounty".to_vec()), true);
    s.modify_paused(b"OsBounties".to_vec(), None, false);
    assert!(!s.is_paused(&call("OsBounties", "hunt_bounty")));
    assert!(s.is_paused(&call("OsBounties", "close_bounty")));
}

#[test]
fn sudo_is_never_paused() {
    let mut s = System::new(vec![]);
    s.modify_paused(b"Sudo".to_vec(), None, true);
    s.modify_paused(b"Sudo".to_vec(), Some(b"sudo".to_vec()), true);
    assert!(!s.is_paused(&call("Sudo", "sudo")));
}

#[test]
fn blocked_accounts_are_listed() {
    let mut s = System::new(vec![]);
    s.modify_blocked_list(5, true);
    s.modify_blocked_list(6, true);
    s.modify_blocked_list(5, true);
    let mut list = s.blocked_list();
    list.sort();
    assert_eq!(list, vec![5, 6]);
    s.modify_blocked_list(5, false);
    assert_eq!(s.blocked_list(), vec![6]);
}

#[test]
fn council_members_are_known() {
    let s = System::new(vec![100, 101]);
    assert_eq!(s.sorted_members(), vec![100, 101]);
    assert!(s.is_council_member(101));
    assert!(!s.is_council_member(1));
}
