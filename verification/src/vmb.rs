//! The decisions behind the tool's commands: what to create, where to install,
//! what to run, and how a mod's description changes.
use vstd::prelude::*;
use crate::mod_info::{ModBaseView, ModInfo, ModInfoOverride, ModUpdatesInfo};
use crate::rendering_api::{driver_name, RenderingAPI};
use crate::str_map::StrMap;
use crate::text::{
    append_chars, chars_of, decimal, decimal_of, eq_ignore_ascii_case, eq_ignore_case, lower_ascii,
    lowercase_ascii, signed_decimal, signed_decimal_of, string_of,
};
use crate::util::{safe_name, skewer_case, to_safe_name, to_skewer_case};
use crate::version::{opt_version_view, version_text, VersionView};

verus! {

/// The tool's commands.
pub struct Vmb;

/// Why a command refuses to go on.
#[derive(Debug)]
pub enum VmbError {
    /// No template of that name is embedded.
    TemplateNotFound(String),
    /// `pack` was given no inputs.
    NoInputs,
    /// Two inputs would be stored under the same archive name.
    DuplicateEntry(String),
    /// An install source file is neither `.zip` nor `.vmz`.
    NotAnArchive,
    /// An install source is neither a file nor a directory.
    SourceMissing,
    /// An install source directory lacks `mod.txt` or `mods/`.
    NotModRoot,
    /// `VOSTOK_PATH` does not name a directory.
    VostokPathNotADirectory,
    /// No install directory could be determined.
    InstallPathRequired,
    /// The given executable is not a file.
    ExecutableNotAFile,
    /// `VOSTOK_PATH` does not lead to an executable.
    ExecutableNotInVostokPath,
    /// No executable could be located.
    ExecutableNotFound,
    /// `modify` was asked to overwrite a `mod.txt` that does not exist.
    InfoFileMissing,
}

/// Where `install` puts a mod.
#[derive(Clone, Copy, Debug, PartialEq, Eq, Structural)]
pub enum InstallDir {
    /// The `mods` directory under `VOSTOK_PATH`.
    UnderVostokPath,
    /// The directory the user gave.
    Given,
    /// The `mods` directory next to the default executable.
    NextToDefaultExe,
}

/// What `install` does with its source.
#[derive(Clone, Copy, Debug, PartialEq, Eq, Structural)]
pub enum InstallSource {
    /// Copy the archive as it is.
    Archive,
    /// Pack the mod root into a temporary `.vmz` first.
    PackModRoot,
}

/// Which executable `run` starts.
#[derive(Clone, Copy, Debug, PartialEq, Eq, Structural)]
pub enum ExeChoice {
    /// The one the caller gave.
    Given,
    /// The one `VOSTOK_PATH` leads to.
    FromVostokPath,
    /// The one at the default install location.
    Default,
}

/// What `modify` did: one line per changed part, and whether `mod.txt` is to
/// be written.
pub struct ModifyReport {
    pub changes: Vec<String>,
    pub write: bool,
}

/// Every non-overlapping occurrence of `pat` in `s`, from the left, replaced by
/// `with` (`str::replace` for a non-empty pattern).
pub open spec fn replace_all(s: Seq<char>, pat: Seq<char>, with: Seq<char>) -> Seq<char>
    decreases s.len(),
{
    if pat.len() == 0 || s.len() < pat.len() {
        s
    } else if s.take(pat.len() as int) == pat {
        with + replace_all(s.skip(pat.len() as int), pat, with)
    } else {
        seq![s[0]] + replace_all(s.drop_first(), pat, with)
    }
}

/// A template with its macros filled in for a mod name.
pub open spec fn fill_template(template: Seq<char>, mod_name: Seq<char>) -> Seq<char> {
    replace_all(
        replace_all(replace_all(template, "${MOD_NAME}"@, mod_name), "${MOD_SAFE_NAME}"@, safe_name(mod_name)),
        "${MOD_ID}"@,
        skewer_case(mod_name),
    )
}

fn matches_at(s: &[char], i: usize, pat: &[char]) -> (res: bool)
    requires
        i + pat@.len() <= s@.len(),
    ensures
        res == (s@.skip(i as int).take(pat@.len() as int) == pat@),
{
    for j in 0..pat.len()
        invariant
            i + pat@.len() <= s@.len(),
            forall|k: int| 0 <= k < j ==> s@[i + k] == pat@[k],
    {
        assert(i + j < s.len());
        if s[i + j] != pat[j] {
            assert(s@.skip(i as int).take(pat@.len() as int)[j as int] != pat@[j as int]);
            return false;
        }
    }
    assert(s@.skip(i as int).take(pat@.len() as int) =~= pat@);
    true
}

/// `str::replace` for a non-empty pattern.
pub fn replace_chars(s: &[char], pat: &[char], with: &[char]) -> (res: Vec<char>)
    requires
        pat@.len() > 0,
    ensures
        res@ == replace_all(s@, pat@, with@),
{
    let mut out: Vec<char> = Vec::new();
    let mut i: usize = 0;
    assert(s@.skip(0) == s@);
    while i < s.len()
        invariant
            pat@.len() > 0,
            i <= s@.len(),
            replace_all(s@, pat@, with@) == out@ + replace_all(s@.skip(i as int), pat@, with@),
        decreases s.len() - i,
    {
        let ghost rest = s@.skip(i as int);
        if pat.len() <= s.len() - i && matches_at(s, i, pat) {
            assert(rest.skip(pat@.len() as int) == s@.skip(i + pat@.len()));
            let ghost before = out@;
            append_chars(&mut out, with);
            assert(before + replace_all(rest, pat@, with@) == out@ + replace_all(
                s@.skip(i + pat@.len()),
                pat@,
                with@,
            ));
            i = i + pat.len();
        } else {
            proof {
                assert(rest.drop_first() == s@.skip(i + 1));
                if rest.len() < pat@.len() {
                    assert(replace_all(rest.drop_first(), pat@, with@) == rest.drop_first());
                    assert(rest =~= seq![rest[0]] + rest.drop_first());
                }
            }
            out.push(s[i]);
            i = i + 1;
        }
    }
    assert(s@.skip(i as int).len() == 0);
    out
}

/// The view of what an override would set.
pub type OverrideView = (
    Option<Seq<char>>,
    Option<Seq<char>>,
    Option<VersionView>,
    Option<i32>,
    Option<ModUpdatesInfo>,
);

pub open spec fn opt_string_view(s: Option<String>) -> Option<Seq<char>> {
    match s {
        Some(x) => Some(x@),
        None => None,
    }
}

pub open spec fn override_view(o: ModInfoOverride) -> OverrideView {
    (opt_string_view(o.name), opt_string_view(o.id), opt_version_view(o.version), o.priority, o.updates)
}

/// A mod's base table and update info after an override: each part the
/// override gives replaces the old one.
pub open spec fn apply_override(
    base: ModBaseView,
    updates: Option<ModUpdatesInfo>,
    o: OverrideView,
) -> (ModBaseView, Option<ModUpdatesInfo>) {
    (
        (
            match o.0 {
                Some(n) => n,
                None => base.0,
            },
            match o.1 {
                Some(i) => i,
                None => base.1,
            },
            match o.2 {
                Some(v) => v,
                None => base.2,
            },
            match o.3 {
                Some(p) => Some(p),
                None => base.3,
            },
        ),
        match o.4 {
            Some(u) => Some(u),
            None => updates,
        },
    )
}

pub open spec fn null_text() -> Seq<char> {
    "null"@
}

pub open spec fn change_line(label: Seq<char>, old: Seq<char>, new: Seq<char>) -> Seq<char> {
    label + ": "@ + old + " -> "@ + new
}

/// The lines `modify` reports, in order: name, id, priority, version,
/// modworkshop id, one for each part the override gives.
pub open spec fn change_lines(
    base: ModBaseView,
    updates: Option<ModUpdatesInfo>,
    o: OverrideView,
) -> Seq<Seq<char>> {
    let l1 = match o.0 {
        Some(n) => seq![change_line("name"@, base.0, n)],
        None => Seq::empty(),
    };
    let l2 = match o.1 {
        Some(i) => seq![change_line("id"@, base.1, i)],
        None => Seq::empty(),
    };
    let l3 = match o.3 {
        Some(p) => seq![
            change_line(
                "priority"@,
                match base.3 {
                    Some(q) => signed_decimal(q as int),
                    None => null_text(),
                },
                signed_decimal(p as int),
            ),
        ],
        None => Seq::empty(),
    };
    let l4 = match o.2 {
        Some(v) => seq![change_line("version"@, version_text(base.2), version_text(v))],
        None => Seq::empty(),
    };
    let l5 = match o.4 {
        Some(u) => seq![
            change_line(
                "modworkshop"@,
                match updates {
                    Some(w) => decimal(w.modworkshop as nat),
                    None => null_text(),
                },
                decimal(u.modworkshop as nat),
            ),
        ],
        None => Seq::empty(),
    };
    l1 + l2 + l3 + l4 + l5
}

pub open spec fn string_views(s: Seq<String>) -> Seq<Seq<char>> {
    s.map_values(|x: String| x@)
}

fn change_text(label: &str, old: &[char], new: &[char]) -> (res: String)
    ensures
        res@ == change_line(label@, old@, new@),
{
    let mut out = chars_of(label);
    let sep = chars_of(": ");
    append_chars(&mut out, &sep);
    append_chars(&mut out, old);
    let arrow = chars_of(" -> ");
    append_chars(&mut out, &arrow);
    append_chars(&mut out, new);
    string_of(&out)
}

fn push_line(lines: &mut Vec<String>, line: String)
    ensures
        string_views(final(lines)@) == string_views(old(lines)@).push(line@),
{
    lines.push(line);
    assert(string_views(lines@) =~= string_views(old(lines)@).push(line@));
}

impl Vmb {
    /// The embedded template called `name`.
    pub fn load_template(templates: &StrMap<String>, name: &str) -> (res: Result<String, VmbError>)
        ensures
            templates@.dom().contains(name@) ==> (res matches Ok(t) && t == templates@[name@]),
            !templates@.dom().contains(name@) ==> (res matches Err(VmbError::TemplateNotFound(n))
                && n@ == name@),
    {
        match templates.get(name) {
            Some(t) => Ok(t.clone()),
            None => Err(VmbError::TemplateNotFound(String::from_str(name))),
        }
    }

    /// Fills the `${MOD_NAME}`, `${MOD_SAFE_NAME}` and `${MOD_ID}` macros of a
    /// template, in that order.
    pub fn replace_macros(template: &str, mod_name: &str) -> (res: String)
        ensures
            res@ == fill_template(template@, mod_name@),
    {
        let safe = to_safe_name(mod_name);
        let id = to_skewer_case(mod_name);
        let t = chars_of(template);
        let name_chars = chars_of(mod_name);
        let safe_chars = chars_of(safe.as_str());
        let id_chars = chars_of(id.as_str());
        let p1 = chars_of("${MOD_NAME}");
        let p2 = chars_of("${MOD_SAFE_NAME}");
        let p3 = chars_of("${MOD_ID}");
        proof {
            reveal_strlit("${MOD_NAME}");
            reveal_strlit("${MOD_SAFE_NAME}");
            reveal_strlit("${MOD_ID}");
        }
        let a = replace_chars(&t, &p1, &name_chars);
        let b = replace_chars(&a, &p2, &safe_chars);
        let c = replace_chars(&b, &p3, &id_chars);
        string_of(&c)
    }

    /// Whether a path's extension already is `extension`, ignoring ASCII case
    /// (a path without an extension, or one that is not UTF-8, gets it set).
    pub fn has_extension(current: Option<&str>, extension: &str) -> (res: bool)
        ensures
            res == (current matches Some(e) && eq_ignore_ascii_case(e@, extension@)),
    {
        match current {
            Some(e) => {
                let a = chars_of(e);
                let b = chars_of(extension);
                eq_ignore_case(&a, &b)
            },
            None => false,
        }
    }

    /// What to do with an install source: a file must be a `.zip` or `.vmz`
    /// archive (its extension compared in ASCII lower case); a directory must be
    /// a mod root.
    pub fn classify_install_source(
        is_file: bool,
        extension: Option<&str>,
        is_dir: bool,
        is_mod_root: bool,
    ) -> (res: Result<InstallSource, VmbError>)
        ensures
            is_file ==> ({
                let ext = match extension {
                    Some(e) => lower_ascii(e@),
                    None => Seq::<char>::empty(),
                };
                if ext == "zip"@ || ext == "vmz"@ {
                    res matches Ok(InstallSource::Archive)
                } else {
                    res matches Err(VmbError::NotAnArchive)
                }
            }),
            !is_file && !is_dir ==> res matches Err(VmbError::SourceMissing),
            !is_file && is_dir && !is_mod_root ==> res matches Err(VmbError::NotModRoot),
            !is_file && is_dir && is_mod_root ==> res matches Ok(InstallSource::PackModRoot),
    {
        if is_file {
            let ext: Vec<char> = match extension {
                Some(e) => {
                    let c = chars_of(e);
                    lowercase_ascii(&c)
                },
                None => Vec::new(),
            };
            let zip = chars_of("zip");
            let vmz = chars_of("vmz");
            if crate::text::chars_eq(&ext, &zip) || crate::text::chars_eq(&ext, &vmz) {
                return Ok(InstallSource::Archive);
            }
            return Err(VmbError::NotAnArchive);
        }
        if !is_dir {
            return Err(VmbError::SourceMissing);
        }
        if !is_mod_root {
            return Err(VmbError::NotModRoot);
        }
        Ok(InstallSource::PackModRoot)
    }

    /// The file name of the archive a mod root is packed into:
    /// `<safe name>.vmz`.
    pub fn packed_archive_name(mod_name: &str) -> (res: String)
        ensures
            res@ == safe_name(mod_name@) + ".vmz"@,
    {
        let safe = to_safe_name(mod_name);
        let mut out = chars_of(safe.as_str());
        let ext = chars_of(".vmz");
        append_chars(&mut out, &ext);
        string_of(&out)
    }

    /// Whether an installed archive gets the `.vmz` extension: exactly when its
    /// extension is `zip`, in any ASCII case.
    pub fn install_as_vmz(extension: Option<&str>) -> (res: bool)
        ensures
            res == (extension matches Some(e) && eq_ignore_ascii_case(e@, "zip"@)),
    {
        match extension {
            Some(e) => {
                let a = chars_of(e);
                let b = chars_of("zip");
                eq_ignore_case(&a, &b)
            },
            None => false,
        }
    }

    /// Whether `modify` may go on: overwriting `mod.txt` needs the file to
    /// exist already.
    pub fn check_modify(overwrite: bool, info_file_exists: bool) -> (res: Result<(), VmbError>)
        ensures
            overwrite && !info_file_exists ==> res matches Err(VmbError::InfoFileMissing),
            !(overwrite && !info_file_exists) ==> res is Ok,
    {
        if overwrite && !info_file_exists {
            Err(VmbError::InfoFileMissing)
        } else {
            Ok(())
        }
    }

    /// What `pack` packs when it is given no inputs: `./mod.txt` and `./mods`.
    /// With inputs given there is nothing to fill in (`None`).
    pub fn default_pack_inputs(given: usize) -> (res: Option<Vec<String>>)
        ensures
            given > 0 ==> res is None,
            given == 0 ==> (res matches Some(v) && string_views(v@) == seq!["./mod.txt"@, "./mods"@]),
    {
        if given > 0 {
            return None;
        }
        let mut v: Vec<String> = Vec::new();
        v.push(String::from_str("./mod.txt"));
        v.push(String::from_str("./mods"));
        proof {
            reveal_strlit("./mod.txt");
            reveal_strlit("./mods");
            assert(string_views(v@) =~= seq!["./mod.txt"@, "./mods"@]);
        }
        Some(v)
    }

    /// Where to install: under `VOSTOK_PATH` when it is set (it must be a
    /// directory), else the given directory, else next to the default
    /// executable when that exists.
    pub fn resolve_install_dir(
        vostok_path_is_dir: Option<bool>,
        path_given: bool,
        default_exe_is_file: bool,
    ) -> (res: Result<InstallDir, VmbError>)
        ensures
            vostok_path_is_dir == Some(true) ==> res matches Ok(InstallDir::UnderVostokPath),
            vostok_path_is_dir == Some(false) ==> res matches Err(VmbError::VostokPathNotADirectory),
            vostok_path_is_dir is None && path_given ==> res matches Ok(InstallDir::Given),
            vostok_path_is_dir is None && !path_given && default_exe_is_file ==> res matches Ok(
                InstallDir::NextToDefaultExe,
            ),
            vostok_path_is_dir is None && !path_given && !default_exe_is_file ==> res matches Err(
                VmbError::InstallPathRequired,
            ),
    {
        match vostok_path_is_dir {
            Some(true) => Ok(InstallDir::UnderVostokPath),
            Some(false) => Err(VmbError::VostokPathNotADirectory),
            None => if path_given {
                Ok(InstallDir::Given)
            } else if default_exe_is_file {
                Ok(InstallDir::NextToDefaultExe)
            } else {
                Err(VmbError::InstallPathRequired)
            },
        }
    }

    /// Which executable to run: the given one (it must be a file), else the
    /// one `VOSTOK_PATH` leads to (it must be a file), else the default one
    /// when it exists.
    pub fn resolve_exe_path(
        given_is_file: Option<bool>,
        vostok_candidate_is_file: Option<bool>,
        default_exe_is_file: bool,
    ) -> (res: Result<ExeChoice, VmbError>)
        ensures
            given_is_file == Some(true) ==> res matches Ok(ExeChoice::Given),
            given_is_file == Some(false) ==> res matches Err(VmbError::ExecutableNotAFile),
            given_is_file is None && vostok_candidate_is_file == Some(true) ==> res matches Ok(
                ExeChoice::FromVostokPath,
            ),
            given_is_file is None && vostok_candidate_is_file == Some(false) ==> res matches Err(
                VmbError::ExecutableNotInVostokPath,
            ),
            given_is_file is None && vostok_candidate_is_file is None && default_exe_is_file
                ==> res matches Ok(ExeChoice::Default),
            given_is_file is None && vostok_candidate_is_file is None && !default_exe_is_file
                ==> res matches Err(VmbError::ExecutableNotFound),
    {
        match given_is_file {
            Some(true) => Ok(ExeChoice::Given),
            Some(false) => Err(VmbError::ExecutableNotAFile),
            None => match vostok_candidate_is_file {
                Some(true) => Ok(ExeChoice::FromVostokPath),
                Some(false) => Err(VmbError::ExecutableNotInVostokPath),
                None => if default_exe_is_file {
                    Ok(ExeChoice::Default)
                } else {
                    Err(VmbError::ExecutableNotFound)
                },
            },
        }
    }

    /// The file name of the game's executable.
    pub fn default_vostok_exe_name(windows: bool) -> (res: &'static str)
        ensures
            res@ == (if windows {
                "RTV.exe"@
            } else {
                "RTV.x86_64"@
            }),
    {
        if windows {
            "RTV.exe"
        } else {
            "RTV.x86_64"
        }
    }

    /// The directory the game is installed in by default.
    pub fn default_vostok_dir(windows: bool) -> (res: &'static str)
        ensures
            res@ == (if windows {
                "C:\\Program Files (x86)\\Steam\\steamapps\\common\\Road to Vostok\\"@
            } else {
                "~/.steam/steam/steamapps/common/Road to Vostok/"@
            }),
    {
        if windows {
            "C:\\Program Files (x86)\\Steam\\steamapps\\common\\Road to Vostok\\"
        } else {
            "~/.steam/steam/steamapps/common/Road to Vostok/"
        }
    }

    /// The path components, under the user's data directory, of the game's
    /// own data: `Road to Vostok` on Windows, and the Proton prefix of app
    /// 1963610 elsewhere.
    pub fn vostok_data_components(windows: bool) -> (res: Vec<String>)
        ensures
            windows ==> string_views(res@) == seq!["Road to Vostok"@],
            !windows ==> string_views(res@) == seq![
                "Steam"@,
                "steamapps"@,
                "compatdata"@,
                decimal(1963610),
                "pfx"@,
                "drive_c"@,
                "users"@,
                "steamuser"@,
                "AppData"@,
                "Roaming"@,
                "Road to Vostok"@,
            ],
    {
        let mut out: Vec<String> = Vec::new();
        if windows {
            push_line(&mut out, String::from_str("Road to Vostok"));
        } else {
            push_line(&mut out, String::from_str("Steam"));
            push_line(&mut out, String::from_str("steamapps"));
            push_line(&mut out, String::from_str("compatdata"));
            let id = decimal_of(1963610);
            push_line(&mut out, string_of(&id));
            push_line(&mut out, String::from_str("pfx"));
            push_line(&mut out, String::from_str("drive_c"));
            push_line(&mut out, String::from_str("users"));
            push_line(&mut out, String::from_str("steamuser"));
            push_line(&mut out, String::from_str("AppData"));
            push_line(&mut out, String::from_str("Roaming"));
            push_line(&mut out, String::from_str("Road to Vostok"));
        }
        out
    }

    /// The path components, under the user's data directory, of the game's
    /// log directory: the data directory's `logs`.
    pub fn vostok_log_components(windows: bool) -> (res: Vec<String>)
        ensures
            res@.len() > 0,
            string_views(res@) == ({
                let d = if windows {
                    seq!["Road to Vostok"@]
                } else {
                    seq![
                        "Steam"@,
                        "steamapps"@,
                        "compatdata"@,
                        decimal(1963610),
                        "pfx"@,
                        "drive_c"@,
                        "users"@,
                        "steamuser"@,
                        "AppData"@,
                        "Roaming"@,
                        "Road to Vostok"@,
                    ]
                };
                d.push("logs"@)
            }),
    {
        let mut out = Self::vostok_data_components(windows);
        push_line(&mut out, String::from_str("logs"));
        assert(string_views(out@).len() == out@.len());
        out
    }

    /// The arguments the game is started with (the given ones, then the
    /// rendering driver when one is chosen) and the command line shown to the
    /// user.
    pub fn run(exe_path: &str, api: Option<RenderingAPI>, args: Vec<String>) -> (res: (
        Vec<String>,
        String,
    ))
        ensures
            string_views(res.0@) == (match api {
                Some(a) => string_views(args@) + seq!["--rendering-driver"@, driver_name(a)],
                None => string_views(args@),
            }),
            res.1@ == (if res.0@.len() == 0 {
                exe_path@
            } else {
                exe_path@ + seq![' '] + crate::text::join(string_views(res.0@), seq![' '])
            }),
    {
        let mut launch_args = args;
        match api {
            Some(a) => {
                push_line(&mut launch_args, String::from_str("--rendering-driver"));
                push_line(&mut launch_args, String::from_str(a.as_driver_name()));
            },
            None => {},
        }
        let mut shown = chars_of(exe_path);
        if launch_args.len() > 0 {
            shown.push(' ');
            let mut parts: Vec<Vec<char>> = Vec::new();
            for i in 0..launch_args.len()
                invariant
                    parts@.map_values(|p: Vec<char>| p@) == string_views(launch_args@).take(i as int),
            {
                let p = chars_of(launch_args[i].as_str());
                let ghost before = parts@.map_values(|p: Vec<char>| p@);
                parts.push(p);
                assert(parts@.map_values(|p: Vec<char>| p@) == before.push(p@));
                assert(string_views(launch_args@).take(i + 1) == string_views(launch_args@).take(
                    i as int,
                ).push(launch_args@[i as int]@));
            }
            assert(string_views(launch_args@).take(launch_args@.len() as int) == string_views(
                launch_args@,
            ));
            let joined = crate::text::join_chars(&parts, ' ');
            append_chars(&mut shown, &joined);
        }
        (launch_args, string_of(&shown))
    }

    /// Applies an override to a mod's description: every part the override
    /// gives replaces the old one. Reports one line per part, and whether
    /// `mod.txt` is to be written (when something changed and `overwrite` is
    /// asked for).
    pub fn modify(mod_info: &mut ModInfo, mod_info_override: ModInfoOverride, overwrite: bool) -> (res:
        ModifyReport)
        ensures
            (final(mod_info).base@, final(mod_info).updates) == apply_override(
                old(mod_info).base@,
                old(mod_info).updates,
                override_view(mod_info_override),
            ),
            final(mod_info).autoload == old(mod_info).autoload,
            string_views(res.changes@) == change_lines(
                old(mod_info).base@,
                old(mod_info).updates,
                override_view(mod_info_override),
            ),
            res.write == (res.changes@.len() > 0 && overwrite),
    {
        let ghost ov = override_view(mod_info_override);
        let ghost base0 = mod_info.base@;
        let ghost updates0 = mod_info.updates;
        let mut changes: Vec<String> = Vec::new();
        let ModInfoOverride { name, id, version, priority, autoload: _, updates } = mod_info_override;
        match name {
            Some(n) => {
                let old_name = chars_of(mod_info.base.name.as_str());
                let new_name = chars_of(n.as_str());
                push_line(&mut changes, change_text("name", &old_name, &new_name));
                mod_info.base.name = n;
            },
            None => {},
        }
        let ghost c1 = string_views(changes@);
        match id {
            Some(i) => {
                let old_id = chars_of(mod_info.base.id.as_str());
                let new_id = chars_of(i.as_str());
                push_line(&mut changes, change_text("id", &old_id, &new_id));
                mod_info.base.id = i;
            },
            None => {},
        }
        let ghost c2 = string_views(changes@);
        match priority {
            Some(p) => {
                let old_p: Vec<char> = match mod_info.base.priority {
                    Some(q) => signed_decimal_of(q as i64),
                    None => chars_of("null"),
                };
                let new_p = signed_decimal_of(p as i64);
                push_line(&mut changes, change_text("priority", &old_p, &new_p));
                mod_info.base.priority = Some(p);
            },
            None => {},
        }
        let ghost c3 = string_views(changes@);
        match version {
            Some(v) => {
                let old_v = mod_info.base.version.to_chars();
                let new_v = v.to_chars();
                push_line(&mut changes, change_text("version", &old_v, &new_v));
                mod_info.base.version = v;
            },
            None => {},
        }
        let ghost c4 = string_views(changes@);
        match updates {
            Some(u) => {
                let old_u: Vec<char> = match mod_info.updates {
                    Some(w) => decimal_of(w.modworkshop as u64),
                    None => chars_of("null"),
                };
                let new_u = decimal_of(u.modworkshop as u64);
                push_line(&mut changes, change_text("modworkshop", &old_u, &new_u));
                mod_info.updates = Some(u);
            },
            None => {},
        }
        proof {
            let lines = change_lines(base0, updates0, ov);
            assert(string_views(changes@) =~= lines);
        }
        let write = changes.len() > 0 && overwrite;
        ModifyReport { changes, write }
    }
}


/// Applying the same override twice changes nothing more than applying it
/// once.
pub proof fn law_override_idempotent(base: ModBaseView, updates: Option<ModUpdatesInfo>, o: OverrideView)
    ensures
        ({
            let once = apply_override(base, updates, o);
            apply_override(once.0, once.1, o) == once
        }),
{
}

/// An override that gives nothing changes nothing and reports no change.
pub proof fn law_empty_override(base: ModBaseView, updates: Option<ModUpdatesInfo>)
    ensures
        ({
            let none: OverrideView = (None, None, None, None, None);
            &&& apply_override(base, updates, none) == (base, updates)
            &&& change_lines(base, updates, none).len() == 0
        }),
{
    let none: OverrideView = (None, None, None, None, None);
    assert(change_lines(base, updates, none) =~= Seq::<Seq<char>>::empty());
}

/// `modify` reports exactly one line for each part the override gives.
pub proof fn law_one_line_per_change(base: ModBaseView, updates: Option<ModUpdatesInfo>, o: OverrideView)
    ensures
        change_lines(base, updates, o).len() == (if o.0 is Some { 1int } else { 0int }) + (if o.1 is Some {
            1int
        } else {
            0int
        }) + (if o.2 is Some { 1int } else { 0int }) + (if o.3 is Some { 1int } else { 0int }) + (
        if o.4 is Some {
            1int
        } else {
            0int
        }),
{
}


impl Vmb {
    /// Where `init` writes a new mod's main script, relative to the mod root:
    /// `mods/<safe name>/Main.gd`.
    pub fn main_script_components(mod_name: &str) -> (res: Vec<String>)
        ensures
            string_views(res@) == seq!["mods"@, safe_name(mod_name@), "Main.gd"@],
    {
        let mut out: Vec<String> = Vec::new();
        push_line(&mut out, String::from_str("mods"));
        push_line(&mut out, to_safe_name(mod_name));
        push_line(&mut out, String::from_str("Main.gd"));
        out
    }
}

/// Each part an override gives replaces the mod's old one, whatever it was;
/// each part it does not give is kept.
pub proof fn law_override_parts_replace(base: ModBaseView, updates: Option<ModUpdatesInfo>, o: OverrideView)
    ensures
        ({
            let (b, u) = apply_override(base, updates, o);
            &&& (o.0 matches Some(n) ==> b.0 == n) && (o.0 is None ==> b.0 == base.0)
            &&& (o.1 matches Some(x) ==> b.1 == x) && (o.1 is None ==> b.1 == base.1)
            &&& (o.2 matches Some(v) ==> b.2 == v) && (o.2 is None ==> b.2 == base.2)
            &&& (o.3 matches Some(p) ==> b.3 == Some(p)) && (o.3 is None ==> b.3 == base.3)
            &&& (o.4 matches Some(w) ==> u == Some(w)) && (o.4 is None ==> u == updates)
        }),
{
}

} // verus!
