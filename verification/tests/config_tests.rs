use vmb::mod_config::{ModConfig, ModConfigEntry, ModConfigProfile, ModConfigSettings};
use vmb::mod_info::{ModInfo, ModInfoOverride, ModUpdatesInfo};
use vmb::str_map::StrMap;
use vmb::version::SemVersion;

fn entry(id: &str, version: Option<&str>, priority: i32, enabled: bool) -> ModConfigEntry {
    ModConfigEntry {
        id: id.to_string(),
        version: version.map(|v| SemVersion::parse(v).unwrap()),
        name: None,
        priority,
        enabled,
    }
}

#[test]
fn str_map_insert_get_replace() {
    let mut m: StrMap<i32> = StrMap::new();
    assert_eq!(m.len(), 0);
    m.insert("a".to_string(), 1);
    m.insert("b".to_string(), 2);
    m.insert("a".to_string(), 3);
    assert_eq!(m.len(), 2);
    assert_eq!(m.get("a"), Some(&3));
    assert_eq!(m.get("b"), Some(&2));
    assert_eq!(m.get("c"), None);
    assert!(m.contains_key("b"));
    if let Some(v) = m.get_mut("b") {
        *v = 7;
    }
    assert_eq!(m.get("b"), Some(&7));
    let (k, v) = m.entry_at(0);
    assert_eq!((k.as_str(), *v), ("a", 3));
    m.clear();
    assert_eq!(m.len(), 0);
}

#[test]
fn entry_name_and_display() {
    let plain = entry("core", None, 0, true);
    assert_eq!(plain.name(), "core");
    assert_eq!(plain.display_text(), "core");
    let mut versioned = entry("core", Some("1.2.0"), 0, true);
    assert_eq!(versioned.name(), "core@1.2.0");
    assert_eq!(versioned.display_text(), "core 1.2.0");
    versioned.name = Some("Core Mod".to_string());
    assert_eq!(versioned.display_text(), "Core Mod 1.2.0");
    let mut named = entry("core", None, 0, true);
    named.name = Some("Core Mod".to_string());
    assert_eq!(named.display_text(), "Core Mod");
}

#[test]
fn entries_order_like_derived_ord() {
    let a = entry("a", None, 5, true);
    let b = entry("b", None, 0, false);
    let a_v = entry("a", Some("1.0.0"), 0, false);
    let a_off = entry("a", None, 5, false);
    assert_eq!(a.compare(&b), -1);
    assert_eq!(a.compare(&a_v), -1);
    assert_eq!(a_off.compare(&a), -1);
    assert_eq!(a.compare(&a.clone()), 0);
}

#[test]
fn set_entries_then_to_entries_gives_them_back_sorted() {
    let mut profile = ModConfigProfile::default();
    profile.set_entries(vec![
        entry("zeta", None, 2, true),
        entry("alpha", Some("1.0.0-beta"), -1, false),
        entry("alpha", None, 3, true),
    ]);
    assert_eq!(profile.enabled.len(), 3);
    assert_eq!(profile.enabled.get("alpha@1.0.0-beta"), Some(&false));
    assert_eq!(profile.priority.get("zeta"), Some(&2));
    let listed = profile.to_entries(None);
    let names: Vec<String> = listed.iter().map(|e| e.name()).collect();
    assert_eq!(names, vec!["alpha", "alpha@1.0.0-beta", "zeta"]);
    assert_eq!(listed[1].priority, -1);
    assert!(!listed[1].enabled);
    assert_eq!(listed[2].priority, 2);
}

#[test]
fn to_entries_uses_id_map_and_default_priority() {
    let mut profile = ModConfigProfile::default();
    profile.enabled.insert("core@2.0.0".to_string(), true);
    profile.enabled.insert("extra".to_string(), false);
    profile.priority.insert("extra".to_string(), 9);
    let mut names: StrMap<String> = StrMap::new();
    names.insert("core".to_string(), "Core Mod".to_string());
    let listed = profile.to_entries(Some(names));
    assert_eq!(listed.len(), 2);
    assert_eq!(listed[0].id, "core");
    assert_eq!(listed[0].name.as_deref(), Some("Core Mod"));
    assert_eq!(listed[0].priority, 0);
    assert_eq!(listed[0].version.as_ref().unwrap().to_string(), "2.0.0");
    assert_eq!(listed[1].id, "extra");
    assert_eq!(listed[1].name, None);
    assert_eq!(listed[1].priority, 9);
}

#[test]
fn try_to_entries_refuses_bad_versions() {
    let mut profile = ModConfigProfile::default();
    profile.enabled.insert("core@not-a-version".to_string(), true);
    assert!(profile.try_to_entries(None).is_none());
    profile.clear();
    profile.enabled.insert("core@1.0.0".to_string(), true);
    assert_eq!(profile.try_to_entries(None).unwrap().len(), 1);
}

#[test]
fn clear_empties_profile() {
    let mut profile = ModConfigProfile::default();
    profile.enabled.insert("a".to_string(), true);
    profile.priority.insert("a".to_string(), 1);
    profile.clear();
    assert_eq!(profile.enabled.len(), 0);
    assert_eq!(profile.priority.len(), 0);
}

#[test]
fn active_profile_found_or_not() {
    let mut config = ModConfig { settings: ModConfigSettings::default(), profile: StrMap::new() };
    assert!(!config.settings.developer_mode);
    assert_eq!(config.settings.active_profile, "Default");
    assert!(config.active_profile().is_none());
    config.profile.insert("Default".to_string(), ModConfigProfile::default());
    match config.active_profile() {
        Some((name, p)) => {
            assert_eq!(name, "Default");
            p.enabled.insert("m".to_string(), true);
        },
        None => panic!("active profile expected"),
    }
    assert_eq!(config.profile.get("Default").unwrap().enabled.len(), 1);
    config.settings.active_profile = String::new();
    assert!(config.active_profile().is_none());
}

#[test]
fn default_mod_info() {
    let info = ModInfo::default_from("My Mod".to_string());
    assert_eq!(info.base.name, "My Mod");
    assert_eq!(info.base.id, "my-mod");
    assert_eq!(info.base.version.to_string(), "0.1.0");
    assert_eq!(info.base.priority, None);
    assert!(info.updates.is_none());
    let autoload = info.autoload.as_ref().unwrap();
    assert_eq!(autoload.len(), 1);
    assert_eq!(autoload.get("MyMod").unwrap(), "res://mods/MyMod/Main.gd");
    assert_eq!(info.display_text(), "My Mod 0.1.0");
}

#[test]
fn mod_info_equality_and_order_by_base() {
    let a = ModInfo::default_from("Alpha".to_string());
    let mut b = ModInfo::default_from("Alpha".to_string());
    b.updates = Some(ModUpdatesInfo { modworkshop: 3 });
    assert!(a == b);
    let c = ModInfo::default_from("Beta".to_string());
    assert!(a != c);
    assert_eq!(a.compare(&c), -1);
    assert_eq!(c.compare(&a), 1);
}

#[test]
fn override_from_args() {
    let o = ModInfoOverride::from_args(Some("N".to_string()), None, Some(4), None, Some(77));
    assert_eq!(o.name.as_deref(), Some("N"));
    assert_eq!(o.priority, Some(4));
    assert!(o.autoload.is_none());
    assert_eq!(o.updates, Some(ModUpdatesInfo { modworkshop: 77 }));
    let none = ModInfoOverride::from_args(None, None, None, None, None);
    assert!(none.updates.is_none());
}

#[test]
fn list_then_set_gives_back_the_profile() {
    let mut p = ModConfigProfile::default();
    p.enabled.insert("a@1.2.0".to_string(), true);
    p.enabled.insert("b".to_string(), false);
    p.enabled.insert("c@0.1.0-beta".to_string(), true);
    p.priority.insert("a@1.2.0".to_string(), 5);
    p.priority.insert("gone".to_string(), 9);
    let listed = p.to_entries(None);
    assert_eq!(listed.len(), 3);
    let mut q = ModConfigProfile::default();
    q.enabled.insert("old".to_string(), true);
    q.set_entries(listed);
    assert_eq!(q.enabled.len(), 3);
    assert_eq!(q.enabled.get("a@1.2.0"), Some(&true));
    assert_eq!(q.enabled.get("b"), Some(&false));
    assert_eq!(q.enabled.get("c@0.1.0-beta"), Some(&true));
    assert_eq!(q.enabled.get("old"), None);
    assert_eq!(q.priority.len(), 3);
    assert_eq!(q.priority.get("a@1.2.0"), Some(&5));
    assert_eq!(q.priority.get("b"), Some(&0));
    assert_eq!(q.priority.get("c@0.1.0-beta"), Some(&0));
    assert_eq!(q.priority.get("gone"), None);
}

#[test]
fn listed_entries_are_distinct() {
    let mut p = ModConfigProfile::default();
    p.enabled.insert("a@1.0.0".to_string(), true);
    p.enabled.insert("a@2.0.0".to_string(), true);
    p.enabled.insert("a".to_string(), true);
    let listed = p.to_entries(None);
    assert_eq!(listed.len(), 3);
    let keys: Vec<String> = listed.iter().map(|e| e.name()).collect();
    assert_eq!(keys, vec!["a".to_string(), "a@1.0.0".to_string(), "a@2.0.0".to_string()]);
}
