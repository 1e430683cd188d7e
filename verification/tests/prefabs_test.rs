use prefabs::apply_commands;
use prefabs::insert_prefab;
use prefabs::remove_domain;
use prefabs::remove_prefab;
use prefabs::str_starts_with;
use prefabs::CloneFromPrefab;
use prefabs::PrefabCommand;
use prefabs::PrefabError;
use prefabs::PrefabPaths;
use prefabs::PrefabRegistery;
use prefabs::ReferencePrefab;
use prefabs::World;

const DAMAGE: u64 = 1;
const WEIGHT: u64 = 2;
const WIELDS: u64 = 7;

/// Weapons (domain) > Melee (domain) > Sword, with the markers applied.
fn weapons_world() -> (World, PrefabRegistery, usize, usize, usize) {
    let mut w = World::new();
    let weapons = w.spawn(Some("Weapons".to_string()), None);
    let melee = w.spawn(Some("Melee".to_string()), Some(weapons));
    let sword = w.spawn(Some("Sword".to_string()), Some(melee));
    let mut reg = PrefabRegistery::new();
    let queue = vec![
        PrefabCommand::AddDomainMarker(weapons),
        PrefabCommand::AddDomainMarker(melee),
    ];
    let errs = apply_commands(&mut w, &mut reg, &queue);
    assert!(errs.is_empty());
    (w, reg, weapons, melee, sword)
}

#[test]
fn resolve_joins_domain_names() {
    let (w, _reg, _weapons, _melee, sword) = weapons_world();
    let paths = PrefabPaths::new(&w);
    assert_eq!(paths.get_path(sword).unwrap(), "Weapons/Melee/Sword");
}

#[test]
fn resolve_errors_when_object_unnamed() {
    let mut w = World::new();
    let nameless = w.spawn(None, None);
    let paths = PrefabPaths::new(&w);
    assert!(matches!(paths.get_path(nameless), Err(PrefabError::NameMissing)));
}

#[test]
fn resolve_errors_when_domain_ancestor_unnamed() {
    let mut w = World::new();
    let domain = w.spawn(None, None);
    let child = w.spawn(Some("Child".to_string()), Some(domain));
    let mut reg = PrefabRegistery::new();
    let queue = vec![PrefabCommand::AddDomainMarker(domain)];
    let errs = apply_commands(&mut w, &mut reg, &queue);
    assert!(errs.is_empty());
    let paths = PrefabPaths::new(&w);
    assert!(matches!(paths.get_path(child), Err(PrefabError::NameMissing)));
}

#[test]
fn resolve_skips_non_domain_ancestors() {
    let mut w = World::new();
    let weapons = w.spawn(Some("Weapons".to_string()), None);
    let crate_obj = w.spawn(Some("Crate".to_string()), Some(weapons));
    let sword = w.spawn(Some("Sword".to_string()), Some(crate_obj));
    let mut reg = PrefabRegistery::new();
    let queue = vec![PrefabCommand::AddDomainMarker(weapons)];
    let errs = apply_commands(&mut w, &mut reg, &queue);
    assert!(errs.is_empty());
    let paths = PrefabPaths::new(&w);
    assert_eq!(paths.get_path(sword).unwrap(), "Weapons/Sword");
}

#[test]
fn rename_ancestor_changes_resolution() {
    let (mut w, _reg, weapons, _melee, sword) = weapons_world();
    w.set_name(weapons, Some("Arms".to_string()));
    let paths = PrefabPaths::new(&w);
    assert_eq!(paths.get_path(sword).unwrap(), "Arms/Melee/Sword");
}

#[test]
fn rename_after_registration_keeps_entry() {
    let (mut w, mut reg, weapons, _melee, sword) = weapons_world();
    insert_prefab(&w, &mut reg, sword).unwrap();
    w.set_name(weapons, Some("Arms".to_string()));
    assert_eq!(reg.get("Weapons/Melee/Sword"), Some(sword));
    assert_eq!(reg.get("Arms/Melee/Sword"), None);
}

#[test]
fn collision_last_registration_wins() {
    let (mut w, mut reg, _weapons, melee, sword) = weapons_world();
    let other = w.spawn(Some("Sword".to_string()), Some(melee));
    insert_prefab(&w, &mut reg, sword).unwrap();
    insert_prefab(&w, &mut reg, other).unwrap();
    assert_eq!(reg.get("Weapons/Melee/Sword"), Some(other));
}

#[test]
fn remove_domain_evicts_prefix_only() {
    let (mut w, mut reg, _weapons, melee, sword) = weapons_world();
    let armor = w.spawn(Some("Armor".to_string()), None);
    let helm = w.spawn(Some("Helm".to_string()), Some(armor));
    let queue = vec![
        PrefabCommand::AddDomainMarker(armor),
        PrefabCommand::AddPrefabMarker(sword),
        PrefabCommand::AddPrefabMarker(melee),
        PrefabCommand::AddPrefabMarker(helm),
    ];
    let errs = apply_commands(&mut w, &mut reg, &queue);
    assert!(errs.is_empty());
    assert_eq!(reg.get("Weapons/Melee/Sword"), Some(sword));
    remove_domain(&w, &mut reg, melee).unwrap();
    assert_eq!(reg.get("Weapons/Melee/Sword"), None);
    assert_eq!(reg.get("Weapons/Melee"), None);
    assert_eq!(reg.get("Armor/Helm"), Some(helm));
}

#[test]
fn remove_prefab_evicts_stale_path() {
    let (mut w, mut reg, _weapons, _melee, sword) = weapons_world();
    insert_prefab(&w, &mut reg, sword).unwrap();
    w.set_name(sword, Some("Sabre".to_string()));
    remove_prefab(&mut reg, sword);
    assert_eq!(reg.get("Weapons/Melee/Sword"), None);
    assert_eq!(reg.get("Weapons/Melee/Sabre"), None);
}

#[test]
fn register_then_clone_same_pass() {
    let (mut w, mut reg, _weapons, _melee, sword) = weapons_world();
    w.insert_component(sword, DAMAGE, 10);
    let target = w.spawn(None, None);
    let queue = vec![
        PrefabCommand::AddPrefabMarker(sword),
        PrefabCommand::RequestClone(
            target,
            CloneFromPrefab::new("Weapons/Melee/Sword".to_string()),
        ),
    ];
    let errs = apply_commands(&mut w, &mut reg, &queue);
    assert!(errs.is_empty());
    assert_eq!(w.get_component(target, DAMAGE), Some(10));
}

#[test]
fn clone_unresolved_keeps_components() {
    let mut w = World::new();
    let target = w.spawn(None, None);
    w.insert_component(target, WEIGHT, 3);
    let mut reg = PrefabRegistery::new();
    let queue = vec![PrefabCommand::RequestClone(
        target,
        CloneFromPrefab::new("Weapons/Melee/Sword".to_string()),
    )];
    let errs = apply_commands(&mut w, &mut reg, &queue);
    assert_eq!(errs.len(), 1);
    match &errs[0] {
        PrefabError::PathCouldNotBeResolved(p) => assert_eq!(p.0, "Weapons/Melee/Sword"),
        other => panic!("expected an unresolved path, got {:?}", other),
    }
    assert_eq!(w.get_component(target, WEIGHT), Some(3));
    assert_eq!(w.get_component(target, DAMAGE), None);
}

#[test]
fn clone_copies_template_attribute() {
    let (mut w, mut reg, _weapons, _melee, sword) = weapons_world();
    w.insert_component(sword, DAMAGE, 10);
    let queue = vec![PrefabCommand::AddPrefabMarker(sword)];
    let errs = apply_commands(&mut w, &mut reg, &queue);
    assert!(errs.is_empty());
    let hero = w.spawn(Some("Hero".to_string()), None);
    w.insert_component(hero, WEIGHT, 70);
    let queue = vec![PrefabCommand::RequestClone(
        hero,
        CloneFromPrefab::new("Weapons/Melee/Sword".to_string()),
    )];
    let errs = apply_commands(&mut w, &mut reg, &queue);
    assert!(errs.is_empty());
    assert_eq!(w.get_component(hero, DAMAGE), Some(10));
    assert_eq!(w.get_component(hero, WEIGHT), Some(70));
}

#[test]
fn reference_unresolved_reports_error() {
    let mut w = World::new();
    let x = w.spawn(Some("X".to_string()), None);
    let mut reg = PrefabRegistery::new();
    let queue = vec![PrefabCommand::RequestReference(
        x,
        ReferencePrefab::new("Weapons/Ranged/Bow".to_string(), WIELDS),
    )];
    let errs = apply_commands(&mut w, &mut reg, &queue);
    assert_eq!(errs.len(), 1);
    match &errs[0] {
        PrefabError::PathCouldNotBeResolved(p) => assert_eq!(p.0, "Weapons/Ranged/Bow"),
        other => panic!("expected an unresolved path, got {:?}", other),
    }
    assert_eq!(w.get_component(x, WIELDS), None);
}

#[test]
fn reference_attaches_relation_to_template() {
    let (mut w, mut reg, _weapons, _melee, sword) = weapons_world();
    let hero = w.spawn(Some("Hero".to_string()), None);
    let queue = vec![
        PrefabCommand::AddPrefabMarker(sword),
        PrefabCommand::RequestReference(
            hero,
            ReferencePrefab::new("Weapons/Melee/Sword".to_string(), WIELDS),
        ),
    ];
    let errs = apply_commands(&mut w, &mut reg, &queue);
    assert!(errs.is_empty());
    assert_eq!(w.get_component(hero, WIELDS), Some(sword as u64));
}

#[test]
fn unregistered_template_add_reports_name_missing() {
    let mut w = World::new();
    let nameless = w.spawn(None, None);
    let mut reg = PrefabRegistery::new();
    let queue = vec![PrefabCommand::AddPrefabMarker(nameless)];
    let errs = apply_commands(&mut w, &mut reg, &queue);
    assert_eq!(errs.len(), 1);
    assert!(matches!(errs[0], PrefabError::NameMissing));
}

#[test]
fn remove_domain_marker_evicts_and_clears_flag() {
    let (mut w, mut reg, _weapons, melee, sword) = weapons_world();
    let queue = vec![PrefabCommand::AddPrefabMarker(sword)];
    let errs = apply_commands(&mut w, &mut reg, &queue);
    assert!(errs.is_empty());
    let queue = vec![PrefabCommand::RemoveDomainMarker(melee)];
    let errs = apply_commands(&mut w, &mut reg, &queue);
    assert!(errs.is_empty());
    assert_eq!(reg.get("Weapons/Melee/Sword"), None);
    assert!(!w.is_domain(melee));
    let paths = PrefabPaths::new(&w);
    assert_eq!(paths.get_path(sword).unwrap(), "Weapons/Sword");
}

#[test]
fn failed_request_does_not_block_later_commands() {
    let (mut w, mut reg, _weapons, _melee, sword) = weapons_world();
    let target = w.spawn(None, None);
    let queue = vec![
        PrefabCommand::RequestClone(target, CloneFromPrefab::new("No/Such/Path".to_string())),
        PrefabCommand::AddPrefabMarker(sword),
    ];
    let errs = apply_commands(&mut w, &mut reg, &queue);
    assert_eq!(errs.len(), 1);
    assert_eq!(reg.get("Weapons/Melee/Sword"), Some(sword));
}

#[test]
fn registry_lookup_misses_on_empty() {
    let reg = PrefabRegistery::new();
    assert_eq!(reg.get(""), None);
    assert_eq!(reg.get("Weapons"), None);
}

#[test]
fn starts_with_matches_prefixes() {
    assert!(str_starts_with("Weapons/Melee/Sword", "Weapons/Melee"));
    assert!(str_starts_with("Weapons", "Weapons"));
    assert!(str_starts_with("Weapons", ""));
    assert!(!str_starts_with("Weapons", "Weapons/Melee"));
    assert!(!str_starts_with("Armor/Helm", "Weapons"));
}
