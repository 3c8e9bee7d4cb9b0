use agterm::broadcast::{BroadcastError, BroadcastGroup, BroadcastManager, BroadcastMode, BroadcastTrigger};

#[test]
fn test_broadcast_group_creation() {
    let group = BroadcastGroup::new("test-group".to_string());
    assert_eq!(group.name(), "test-group");
    assert_eq!(group.member_count(), 0);
    assert!(!group.is_active());
    assert_eq!(group.mode(), BroadcastMode::Full);
}

#[test]
fn test_add_remove_terminals() {
    let mut group = BroadcastGroup::new("test".to_string());
    let term1 = uuid::Uuid::new_v4().as_u128();
    let term2 = uuid::Uuid::new_v4().as_u128();

    // Add terminals
    assert!(group.add_terminal(term1).is_ok());
    assert!(group.add_terminal(term2).is_ok());
    assert_eq!(group.member_count(), 2);

    // Try to add duplicate
    assert!(group.add_terminal(term1).is_err());

    // Remove terminal
    assert!(group.remove_terminal(term1).is_ok());
    assert_eq!(group.member_count(), 1);
    assert!(!group.contains(term1));
    assert!(group.contains(term2));

    // Try to remove non-existent terminal
    assert!(group.remove_terminal(term1).is_err());
}

#[test]
fn test_cannot_remove_last_terminal_from_active_group() {
    let mut group = BroadcastGroup::new("test".to_string());
    let term1 = uuid::Uuid::new_v4().as_u128();

    group.add_terminal(term1).unwrap();
    group.activate();

    // Should fail to remove the last terminal
    assert!(matches!(
        group.remove_terminal(term1),
        Err(BroadcastError::CannotRemoveLastTerminal)
    ));

    // Should succeed after deactivating
    group.deactivate();
    assert!(group.remove_terminal(term1).is_ok());
}

#[test]
fn test_broadcast_modes() {
    let mut group = BroadcastGroup::new("test".to_string());
    group.activate();

    // Full mode - should always broadcast
    group.set_mode(BroadcastMode::Full);
    assert!(group.should_broadcast(false, false, false, false));
    assert!(group.should_broadcast(true, false, false, false));

    // Disabled mode - should never broadcast
    group.set_mode(BroadcastMode::Disabled);
    assert!(!group.should_broadcast(false, false, false, false));
    assert!(!group.should_broadcast(true, true, true, true));

    // Selective mode - should only broadcast with matching trigger
    group.set_mode(BroadcastMode::Selective);
    let trigger = BroadcastTrigger::default_selective(); // Ctrl+Shift
    group.set_trigger(trigger);

    assert!(!group.should_broadcast(false, false, false, false));
    assert!(!group.should_broadcast(true, false, false, false));
    assert!(group.should_broadcast(true, false, true, false)); // Ctrl+Shift
}

#[test]
fn test_broadcast_manager_creation() {
    let mut manager = BroadcastManager::new();

    assert!(manager.create_group("group1".to_string()).is_ok());
    assert!(manager.create_group("group2".to_string()).is_ok());

    // Duplicate name should fail
    assert!(matches!(
        manager.create_group("group1".to_string()),
        Err(BroadcastError::GroupAlreadyExists(_))
    ));

    // Invalid names should fail
    assert!(matches!(
        manager.create_group("".to_string()),
        Err(BroadcastError::InvalidGroupName(_))
    ));
    assert!(matches!(
        manager.create_group("a".repeat(65)),
        Err(BroadcastError::InvalidGroupName(_))
    ));
}

#[test]
fn test_broadcast_manager_terminal_registration() {
    let mut manager = BroadcastManager::new();
    let term1 = uuid::Uuid::new_v4().as_u128();
    let term2 = uuid::Uuid::new_v4().as_u128();

    manager.register_terminal(term1);
    manager.register_terminal(term2);

    assert!(manager.is_terminal_registered(term1));
    assert!(manager.is_terminal_registered(term2));

    manager.unregister_terminal(term1);
    assert!(!manager.is_terminal_registered(term1));
    assert!(manager.is_terminal_registered(term2));
}

#[test]
fn test_broadcast_manager_group_operations() {
    let mut manager = BroadcastManager::new();
    let term1 = uuid::Uuid::new_v4().as_u128();
    let term2 = uuid::Uuid::new_v4().as_u128();
    let term3 = uuid::Uuid::new_v4().as_u128();

    manager.register_terminal(term1);
    manager.register_terminal(term2);
    manager.register_terminal(term3);

    manager.create_group("servers".to_string()).unwrap();
    manager.create_group("local".to_string()).unwrap();

    // Add terminals to groups
    manager.add_to_group("servers", term1).unwrap();
    manager.add_to_group("servers", term2).unwrap();
    manager.add_to_group("local", term3).unwrap();

    // Check membership
    let servers = manager.get_group("servers").unwrap();
    assert_eq!(servers.member_count(), 2);
    assert!(servers.contains(term1));
    assert!(servers.contains(term2));

    let local = manager.get_group("local").unwrap();
    assert_eq!(local.member_count(), 1);
    assert!(local.contains(term3));

    // Remove terminal
    manager.remove_from_group("servers", term1).unwrap();
    let servers = manager.get_group("servers").unwrap();
    assert_eq!(servers.member_count(), 1);
    assert!(!servers.contains(term1));
}

#[test]
fn test_broadcast_manager_activation() {
    let mut manager = BroadcastManager::new();
    let term1 = uuid::Uuid::new_v4().as_u128();

    manager.register_terminal(term1);
    manager.create_group("group1".to_string()).unwrap();
    manager.create_group("group2".to_string()).unwrap();
    manager.add_to_group("group1", term1).unwrap();

    // Activate group1
    manager.activate_group("group1").unwrap();
    assert_eq!(manager.active_group_name(), Some("group1"));
    assert!(manager.get_group("group1").unwrap().is_active());
    assert!(!manager.get_group("group2").unwrap().is_active());

    // Switch to group2
    manager.activate_group("group2").unwrap();
    assert_eq!(manager.active_group_name(), Some("group2"));
    assert!(!manager.get_group("group1").unwrap().is_active());
    assert!(manager.get_group("group2").unwrap().is_active());

    // Deactivate
    manager.deactivate_current().unwrap();
    assert_eq!(manager.active_group_name(), None);
    assert!(!manager.get_group("group1").unwrap().is_active());
    assert!(!manager.get_group("group2").unwrap().is_active());
}

#[test]
fn test_unregister_terminal_removes_from_groups() {
    let mut manager = BroadcastManager::new();
    let term1 = uuid::Uuid::new_v4().as_u128();

    manager.register_terminal(term1);
    manager.create_group("test".to_string()).unwrap();
    manager.add_to_group("test", term1).unwrap();

    assert_eq!(manager.get_group("test").unwrap().member_count(), 1);

    // Unregister should remove from all groups
    manager.unregister_terminal(term1);
    assert_eq!(manager.get_group("test").unwrap().member_count(), 0);
    assert!(!manager.is_terminal_registered(term1));
}

#[test]
fn test_find_groups_for_terminal() {
    let mut manager = BroadcastManager::new();
    let term1 = uuid::Uuid::new_v4().as_u128();

    manager.register_terminal(term1);
    manager.create_group("group1".to_string()).unwrap();
    manager.create_group("group2".to_string()).unwrap();
    manager.create_group("group3".to_string()).unwrap();

    manager.add_to_group("group1", term1).unwrap();
    manager.add_to_group("group3", term1).unwrap();

    let groups = manager.find_groups_for_terminal(term1);
    assert_eq!(groups.len(), 2);
    assert!(groups.contains(&"group1"));
    assert!(groups.contains(&"group3"));
    assert!(!groups.contains(&"group2"));
}

#[test]
fn test_broadcast_stats() {
    let mut manager = BroadcastManager::new();
    let term1 = uuid::Uuid::new_v4().as_u128();
    let term2 = uuid::Uuid::new_v4().as_u128();
    let term3 = uuid::Uuid::new_v4().as_u128();

    manager.register_terminal(term1);
    manager.register_terminal(term2);
    manager.register_terminal(term3);

    manager.create_group("group1".to_string()).unwrap();
    manager.create_group("group2".to_string()).unwrap();

    manager.add_to_group("group1", term1).unwrap();
    manager.add_to_group("group1", term2).unwrap();
    manager.add_to_group("group2", term2).unwrap();
    // term3 is registered but not in any group

    manager.activate_group("group1").unwrap();

    let stats = manager.stats();
    assert_eq!(stats.total_groups, 2);
    assert_eq!(stats.active_groups, 1);
    assert_eq!(stats.total_terminals, 3);
    assert_eq!(stats.terminals_in_groups, 2); // term1 and term2
}

#[test]
fn test_delete_group() {
    let mut manager = BroadcastManager::new();
    let term1 = uuid::Uuid::new_v4().as_u128();

    manager.register_terminal(term1);
    manager.create_group("temp".to_string()).unwrap();
    manager.add_to_group("temp", term1).unwrap();
    manager.activate_group("temp").unwrap();

    // Delete active group should deactivate it
    manager.delete_group("temp").unwrap();
    assert!(manager.active_group_name().is_none());
    assert!(manager.get_group("temp").is_err());

    // Deleting non-existent group should fail
    assert!(matches!(
        manager.delete_group("nonexistent"),
        Err(BroadcastError::GroupNotFound(_))
    ));
}

#[test]
fn test_broadcast_trigger_matching() {
    let trigger = BroadcastTrigger {
        ctrl: true,
        alt: false,
        shift: true,
        command: false,
    };

    // Exact match
    assert!(trigger.matches(true, false, true, false));

    // Mismatches
    assert!(!trigger.matches(false, false, true, false)); // No Ctrl
    assert!(!trigger.matches(true, false, false, false)); // No Shift
    assert!(!trigger.matches(true, true, true, false)); // Extra Alt
    assert!(!trigger.matches(true, false, true, true)); // Extra Command
}

#[test]
fn test_group_description() {
    let mut group = BroadcastGroup::new("test".to_string());
    assert!(group.description().is_none());

    group.set_description(Some("Production servers".to_string()));
    assert_eq!(group.description(), Some("Production servers"));

    group.set_description(None);
    assert!(group.description().is_none());
}

#[test]
fn test_broadcast_targets() {
    let mut manager = BroadcastManager::new();
    let term1 = uuid::Uuid::new_v4().as_u128();
    let term2 = uuid::Uuid::new_v4().as_u128();
    let term3 = uuid::Uuid::new_v4().as_u128();

    manager.register_terminal(term1);
    manager.register_terminal(term2);
    manager.register_terminal(term3);

    manager.create_group("broadcast".to_string()).unwrap();
    manager.add_to_group("broadcast", term1).unwrap();
    manager.add_to_group("broadcast", term2).unwrap();
    manager.add_to_group("broadcast", term3).unwrap();
    manager.activate_group("broadcast").unwrap();

    // Get broadcast targets from term1 (Full mode)
    let targets = manager.get_broadcast_targets(term1, false, false, false, false).unwrap();
    assert_eq!(targets.len(), 2);
    assert!(targets.contains(&term2));
    assert!(targets.contains(&term3));
    assert!(!targets.contains(&term1)); // Source not included

    // Change to selective mode
    manager.get_group_mut("broadcast").unwrap().set_mode(BroadcastMode::Selective);

    // Without matching trigger, should return None
    assert!(manager.get_broadcast_targets(term1, false, false, false, false).is_none());

    // With matching trigger (Ctrl+Shift), should return targets
    let targets = manager.get_broadcast_targets(term1, true, false, true, false).unwrap();
    assert_eq!(targets.len(), 2);
}

#[test]
fn broadcast_group_mut_missing_group() {
    let mut manager = BroadcastManager::new();
    assert!(matches!(manager.get_group_mut("none"), Err(BroadcastError::GroupNotFound(n)) if n == "none"));
}

#[test]
fn test_unregister_terminal_leaves_active_group_empty() {
    let mut manager = BroadcastManager::new();
    let t = uuid::Uuid::new_v4().as_u128();
    manager.register_terminal(t);
    manager.create_group("g".to_string()).unwrap();
    manager.add_to_group("g", t).unwrap();
    manager.activate_group("g").unwrap();
    manager.unregister_terminal(t);
    assert!(!manager.is_terminal_registered(t));
    assert!(manager.find_groups_for_terminal(t).is_empty());
    assert_eq!(manager.get_group("g").unwrap().member_count(), 0);
}
