use vmb::mod_info::{ModInfo, ModInfoOverride, ModUpdatesInfo};
use vmb::rendering_api::RenderingAPI;
use vmb::str_map::StrMap;
use vmb::version::SemVersion;
use vmb::vmb::{ExeChoice, InstallDir, InstallSource, Vmb, VmbError};

#[test]
fn replace_macros_fills_all_three() {
    let out = Vmb::replace_macros("${MOD_NAME}|${MOD_SAFE_NAME}|${MOD_ID}|${MOD_NAME}", "My Mod");
    assert_eq!(out, "My Mod|MyMod|my-mod|My Mod");
    assert_eq!(Vmb::replace_macros("no macros", "X"), "no macros");
    assert_eq!(Vmb::replace_macros("${MOD_NAM", "X"), "${MOD_NAM");
}

#[test]
fn load_template_found_or_not() {
    let mut templates: StrMap<String> = StrMap::new();
    templates.insert("Main.gd".to_string(), "extends Node".to_string());
    assert_eq!(Vmb::load_template(&templates, "Main.gd").unwrap(), "extends Node");
    match Vmb::load_template(&templates, ".gitignore") {
        Err(VmbError::TemplateNotFound(n)) => assert_eq!(n, ".gitignore"),
        _ => panic!("expected TemplateNotFound"),
    }
}

#[test]
fn extension_checks() {
    assert!(Vmb::has_extension(Some("VMZ"), "vmz"));
    assert!(!Vmb::has_extension(Some("zip"), "vmz"));
    assert!(!Vmb::has_extension(None, "vmz"));
    assert!(Vmb::install_as_vmz(Some("zip")));
    assert!(Vmb::install_as_vmz(Some("ZIP")));
    assert!(Vmb::install_as_vmz(Some("Zip")));
    assert!(!Vmb::install_as_vmz(Some("vmz")));
    assert!(!Vmb::install_as_vmz(None));
    assert_eq!(Vmb::packed_archive_name("My Mod"), "MyMod.vmz");
}

#[test]
fn install_source_kinds() {
    assert!(matches!(Vmb::classify_install_source(true, Some("ZIP"), false, false), Ok(InstallSource::Archive)));
    assert!(matches!(Vmb::classify_install_source(true, Some("vmz"), false, false), Ok(InstallSource::Archive)));
    assert!(matches!(Vmb::classify_install_source(true, Some("rar"), false, false), Err(VmbError::NotAnArchive)));
    assert!(matches!(Vmb::classify_install_source(true, None, false, false), Err(VmbError::NotAnArchive)));
    assert!(matches!(Vmb::classify_install_source(false, None, false, false), Err(VmbError::SourceMissing)));
    assert!(matches!(Vmb::classify_install_source(false, None, true, false), Err(VmbError::NotModRoot)));
    assert!(matches!(Vmb::classify_install_source(false, None, true, true), Ok(InstallSource::PackModRoot)));
}

#[test]
fn install_dir_resolution_order() {
    assert!(matches!(Vmb::resolve_install_dir(Some(true), true, true), Ok(InstallDir::UnderVostokPath)));
    assert!(matches!(Vmb::resolve_install_dir(Some(false), true, true), Err(VmbError::VostokPathNotADirectory)));
    assert!(matches!(Vmb::resolve_install_dir(None, true, true), Ok(InstallDir::Given)));
    assert!(matches!(Vmb::resolve_install_dir(None, false, true), Ok(InstallDir::NextToDefaultExe)));
    assert!(matches!(Vmb::resolve_install_dir(None, false, false), Err(VmbError::InstallPathRequired)));
}

#[test]
fn exe_resolution_order() {
    assert!(matches!(Vmb::resolve_exe_path(Some(true), Some(false), false), Ok(ExeChoice::Given)));
    assert!(matches!(Vmb::resolve_exe_path(Some(false), Some(true), true), Err(VmbError::ExecutableNotAFile)));
    assert!(matches!(Vmb::resolve_exe_path(None, Some(true), false), Ok(ExeChoice::FromVostokPath)));
    assert!(matches!(Vmb::resolve_exe_path(None, Some(false), true), Err(VmbError::ExecutableNotInVostokPath)));
    assert!(matches!(Vmb::resolve_exe_path(None, None, true), Ok(ExeChoice::Default)));
    assert!(matches!(Vmb::resolve_exe_path(None, None, false), Err(VmbError::ExecutableNotFound)));
}

#[test]
fn default_locations() {
    assert_eq!(Vmb::default_vostok_exe_name(true), "RTV.exe");
    assert_eq!(Vmb::default_vostok_exe_name(false), "RTV.x86_64");
    assert_eq!(Vmb::default_vostok_dir(false), "~/.steam/steam/steamapps/common/Road to Vostok/");
    assert_eq!(Vmb::vostok_data_components(true), vec!["Road to Vostok".to_string()]);
    let linux = Vmb::vostok_log_components(false);
    assert_eq!(linux.len(), 12);
    assert_eq!(linux[3], "1963610");
    assert_eq!(linux[11], "logs");
    assert_eq!(Vmb::vostok_log_components(true), vec!["Road to Vostok".to_string(), "logs".to_string()]);
}

#[test]
fn run_arguments_and_command_line() {
    let (args, shown) = Vmb::run("/g/RTV", Some(RenderingAPI::Vulkan), vec!["-a".to_string()]);
    assert_eq!(args, vec!["-a", "--rendering-driver", "vulkan"]);
    assert_eq!(shown, "/g/RTV -a --rendering-driver vulkan");
    let (args, shown) = Vmb::run("/g/RTV", None, Vec::new());
    assert!(args.is_empty());
    assert_eq!(shown, "/g/RTV");
    let (args, _) = Vmb::run("x", Some(RenderingAPI::DirectX12), Vec::new());
    assert_eq!(args, vec!["--rendering-driver", "d3d12"]);
}

#[test]
fn modify_reports_and_applies_changes() {
    let mut info = ModInfo::default_from("X".to_string());
    let ov = ModInfoOverride::from_args(
        Some("Y".to_string()),
        None,
        Some(-3),
        Some(SemVersion::new(1, 0, 0)),
        Some(42),
    );
    let report = Vmb::modify(&mut info, ov, true);
    assert_eq!(
        report.changes,
        vec!["name: X -> Y", "priority: null -> -3", "version: 0.1.0 -> 1.0.0", "modworkshop: null -> 42"]
    );
    assert!(report.write);
    assert_eq!(info.base.name, "Y");
    assert_eq!(info.base.id, "x");
    assert_eq!(info.base.priority, Some(-3));
    assert_eq!(info.base.version.to_string(), "1.0.0");
    assert_eq!(info.updates, Some(ModUpdatesInfo { modworkshop: 42 }));

    let again = ModInfoOverride::from_args(None, Some("new-id".to_string()), Some(5), None, Some(7));
    let report = Vmb::modify(&mut info, again, false);
    assert_eq!(report.changes, vec!["id: x -> new-id", "priority: -3 -> 5", "modworkshop: 42 -> 7"]);
    assert!(!report.write);
}

#[test]
fn modify_with_nothing_changes_nothing() {
    let mut info = ModInfo::default_from("X".to_string());
    let report = Vmb::modify(&mut info, ModInfoOverride::from_args(None, None, None, None, None), true);
    assert!(report.changes.is_empty());
    assert!(!report.write);
    assert_eq!(info.base.name, "X");
}

#[test]
fn modify_twice_is_like_once() {
    let mut once = ModInfo::default_from("X".to_string());
    Vmb::modify(&mut once, ModInfoOverride::from_args(Some("Z".to_string()), None, Some(1), None, None), false);
    let mut twice = ModInfo::default_from("X".to_string());
    Vmb::modify(&mut twice, ModInfoOverride::from_args(Some("Z".to_string()), None, Some(1), None, None), false);
    Vmb::modify(&mut twice, ModInfoOverride::from_args(Some("Z".to_string()), None, Some(1), None, None), false);
    assert!(once == twice);
    assert_eq!(once.base.priority, twice.base.priority);
}

#[test]
fn modify_needs_info_file_to_overwrite() {
    assert!(matches!(Vmb::check_modify(true, false), Err(VmbError::InfoFileMissing)));
    assert!(Vmb::check_modify(true, true).is_ok());
    assert!(Vmb::check_modify(false, false).is_ok());
    assert!(Vmb::check_modify(false, true).is_ok());
}

#[test]
fn pack_defaults_when_no_inputs() {
    assert_eq!(
        Vmb::default_pack_inputs(0),
        Some(vec!["./mod.txt".to_string(), "./mods".to_string()])
    );
    assert_eq!(Vmb::default_pack_inputs(2), None);
}
