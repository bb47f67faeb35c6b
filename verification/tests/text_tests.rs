use vmb::ini::{ini_to_toml, toml_to_ini};
use vmb::util::{to_safe_name, to_skewer_case};

#[test]
fn ini_to_toml_quotes_keys_that_are_not_bare() {
    let out = ini_to_toml("a b=c\n[x]\nk=v");
    assert_eq!(out, "\"a b\" = c\n[x]\nk=v");
}

#[test]
fn ini_to_toml_keeps_headers_quoted_keys_and_plain_lines() {
    assert_eq!(ini_to_toml("[mods]=x"), "[mods]=x");
    assert_eq!(ini_to_toml("\"q r\"=1"), "\"q r\"=1");
    assert_eq!(ini_to_toml("no equals here"), "no equals here");
    assert_eq!(ini_to_toml("under_score-key=1"), "under_score-key=1");
    assert_eq!(ini_to_toml(" =1"), " =1");
}

#[test]
fn ini_to_toml_trims_key_but_not_value() {
    assert_eq!(ini_to_toml("  my key  =  v "), "\"my key\" =   v ");
    assert_eq!(ini_to_toml("\u{3000}k.x\u{3000}=1"), "\"k.x\" = 1");
}

#[test]
fn ini_to_toml_line_endings() {
    assert_eq!(ini_to_toml(""), "");
    assert_eq!(ini_to_toml("a=b\r\n"), "a=b");
    assert_eq!(ini_to_toml("a=b\n\nc=d\n"), "a=b\n\nc=d");
    assert_eq!(ini_to_toml("x\r"), "x\r");
}

#[test]
fn toml_to_ini_unquotes_and_normalizes() {
    assert_eq!(toml_to_ini("\"a b\" = c\n[x]\nk=v"), "a b = c\n[x]\nk = v");
    assert_eq!(toml_to_ini("[table] = 1"), "[table] = 1");
    assert_eq!(toml_to_ini("\"\" = 1"), " = 1");
    assert_eq!(toml_to_ini("\" = 1"), "\" = 1");
    assert_eq!(toml_to_ini("key =  value  "), "key = value");
}

#[test]
fn ini_toml_roundtrip_matches_direct_ini() {
    let src = "my key=1\n[profile.Default]\nplain=2";
    let back = toml_to_ini(&ini_to_toml(src));
    assert_eq!(back, toml_to_ini(src));
    assert_eq!(back, "my key = 1\n[profile.Default]\nplain = 2");
}

#[test]
fn safe_name_examples() {
    assert_eq!(to_safe_name("My Mod!"), "MyMod_");
    assert_eq!(to_safe_name("3d mod"), "_3dmod");
    assert_eq!(to_safe_name("   "), "unknown");
    assert_eq!(to_safe_name(""), "unknown");
    assert_eq!(to_safe_name("\u{3000}x"), "_x");
    assert_eq!(to_safe_name("a_b\tc"), "a_bc");
}

#[test]
fn safe_name_is_an_identifier() {
    for name in ["9 lives", "héllo wörld", "--", "ok_name"] {
        let s = to_safe_name(name);
        assert!(!s.is_empty());
        assert!(s.chars().all(|c| c.is_ascii_alphanumeric() || c == '_'));
        assert!(!s.chars().next().unwrap().is_ascii_digit());
    }
}

#[test]
fn skewer_case_examples() {
    assert_eq!(to_skewer_case("My  Cool Mod"), "my-cool-mod");
    assert_eq!(to_skewer_case("A\u{3000}B"), "a-b");
    assert_eq!(to_skewer_case("  lead and trail  "), "lead-and-trail");
    assert_eq!(to_skewer_case(""), "");
    assert_eq!(to_skewer_case("ÄBC x"), "Äbc-x");
}

#[test]
fn plain_ini_text_survives_round_trip() {
    let ini = "[enabled]\nMy Mod@1.0.0 = true\nother = false\n[priority]\nMy Mod@1.0.0 = 3";
    assert_eq!(toml_to_ini(&ini_to_toml(ini)), ini);
}

#[test]
fn converting_to_toml_twice_is_converting_once() {
    let ini = "[enabled]\nMy Mod@1.0.0=true\n\"q\" = 1\nplain=2\n  spaced key  =  x  ";
    let once = ini_to_toml(ini);
    assert_eq!(ini_to_toml(&once), once);
}
