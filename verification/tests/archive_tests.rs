use std::io::Write;
use vmb::archive::{
    check_inputs, mod_txt_in_archive, path_to_zip_name, resolve_zip_datetime, root_name, sys_time_to_zip_datetime,
    ModPackage, PackState, ZipTime,
};
use vmb::mod_info::ModInfo;
use vmb::vmb::VmbError;

fn zt(year: u16, month: u8, day: u8, hour: u8, minute: u8, second: u8) -> ZipTime {
    ZipTime { year, month, day, hour, minute, second }
}

#[test]
fn zip_names() {
    let parts = vec!["root".to_string(), "mods".to_string(), "a.gd".to_string()];
    assert_eq!(path_to_zip_name(&parts), "root/mods/a.gd");
    assert_eq!(path_to_zip_name(&vec!["mod.txt".to_string()]), "mod.txt");
    assert_eq!(root_name(Some("MyMod")), "MyMod");
    assert_eq!(root_name(None), "root");
}

#[test]
fn duplicate_entries_are_refused() {
    let mut st = PackState::new();
    assert!(st.record("mod.txt").is_ok());
    assert!(st.record("mods/a.gd").is_ok());
    match st.record("mod.txt") {
        Err(VmbError::DuplicateEntry(n)) => assert_eq!(n, "mod.txt"),
        _ => panic!("expected DuplicateEntry"),
    }
}

#[test]
fn inputs_are_required() {
    assert!(matches!(check_inputs(0), Err(VmbError::NoInputs)));
    assert!(check_inputs(2).is_ok());
}

#[test]
fn zip_timestamps() {
    assert_eq!(sys_time_to_zip_datetime(1_000_000_000), zt(2001, 9, 9, 1, 46, 40));
    assert_eq!(sys_time_to_zip_datetime(1_000_000_001), zt(2001, 9, 9, 1, 46, 40));
    assert_eq!(sys_time_to_zip_datetime(1_000_000_019), zt(2001, 9, 9, 1, 46, 58));
    assert_eq!(sys_time_to_zip_datetime(0), zt(1980, 1, 1, 0, 0, 0));
    assert_eq!(resolve_zip_datetime(951_782_400), Some(zt(2000, 2, 29, 0, 0, 0)));
    assert_eq!(resolve_zip_datetime(i64::MAX), None);
}

#[test]
fn package_files() {
    let mut pkg = ModPackage::new(ModInfo::default_from("P".to_string()));
    assert!(pkg.is_empty());
    pkg.set_files(vec![std::path::PathBuf::from("mod.txt")]);
    assert!(!pkg.is_empty());
    assert_eq!(pkg.files().len(), 1);
    assert_eq!(pkg.info.base.name, "P");
}

fn zip_bytes(entries: &[(&str, &[u8])]) -> Vec<u8> {
    let mut writer = zip::ZipWriter::new(std::io::Cursor::new(Vec::new()));
    for (name, data) in entries {
        writer.start_file(*name, zip::write::SimpleFileOptions::default()).unwrap();
        writer.write_all(data).unwrap();
    }
    writer.finish().unwrap().into_inner()
}

#[test]
fn mod_txt_from_archive() {
    let bytes = zip_bytes(&[("mods/A/Main.gd", b"extends Node"), ("mod.txt", b"[mod]\nname=\"A\"\n")]);
    assert_eq!(mod_txt_in_archive(&bytes), Some("[mod]\nname=\"A\"\n".to_string()));
}

#[test]
fn mod_txt_missing_from_archive() {
    let bytes = zip_bytes(&[("mods/A/Main.gd", b"extends Node")]);
    assert_eq!(mod_txt_in_archive(&bytes), None);
    assert_eq!(mod_txt_in_archive(b"not a zip archive"), None);
    let bytes = zip_bytes(&[("mod.txt", &[0xff, 0xfe, 0x00])]);
    assert_eq!(mod_txt_in_archive(&bytes), None);
}
