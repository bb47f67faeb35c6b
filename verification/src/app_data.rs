//! The tool's own settings: where the game is installed.
use vstd::prelude::*;
use crate::text::{append_chars, chars_of, string_of};

verus! {

/// The tool's settings, and whether they changed since they were loaded.
pub struct AppData {
    game_path: Option<String>,
    is_dirty: bool,
}

pub open spec fn opt_path_view(p: Option<String>) -> Option<Seq<char>> {
    match p {
        Some(s) => Some(s@),
        None => None,
    }
}

impl View for AppData {
    type V = (Option<Seq<char>>, bool);

    closed spec fn view(&self) -> (Option<Seq<char>>, bool) {
        (opt_path_view(self.game_path), self.is_dirty)
    }
}

impl Default for AppData {
    fn default() -> (res: Self)
        ensures
            res@ == (None::<Seq<char>>, false),
    {
        AppData { game_path: None, is_dirty: false }
    }
}

fn clone_opt_string(s: &Option<String>) -> (res: Option<String>)
    ensures
        opt_path_view(res) == opt_path_view(*s),
{
    match s {
        Some(x) => Some(x.clone()),
        None => None,
    }
}

/// Text with no `/`, `\\` or `:`: on every platform it is a path of at most one
/// component and no prefix or root.
pub open spec fn is_single_component(s: Seq<char>) -> bool {
    forall|i: int| 0 <= i < s.len() ==> #[trigger] s[i] != '/' && s[i] != '\\' && s[i] != ':'
}

/// `Path::new(a) == Path::new(b)`: std compares paths component by component.
/// Claimed: the same text names the same path; two texts that are each at
/// most one component (no separator, no prefix) name the same path exactly
/// when they are the same text.
#[verifier::external_body]
fn same_path(a: &str, b: &str) -> (res: bool)
    ensures
        a@ == b@ ==> res,
        is_single_component(a@) && is_single_component(b@) ==> res == (a@ == b@),
{
    std::path::Path::new(a) == std::path::Path::new(b)
}

impl AppData {
    /// The settings as loaded (a game path, unchanged so far).
    pub fn from_game_path(game_path: Option<String>) -> (res: AppData)
        ensures
            res@ == (opt_path_view(game_path), false),
    {
        AppData { game_path, is_dirty: false }
    }

    /// The loaded settings, or the defaults when none could be loaded.
    pub fn new(loaded: Option<AppData>) -> (res: AppData)
        ensures
            loaded matches Some(d) ==> res@ == d@,
            loaded is None ==> res@ == (None::<Seq<char>>, false),
    {
        match loaded {
            Some(d) => d,
            None => AppData::default(),
        }
    }

    /// The game's installation path, if known.
    pub fn game_path(&self) -> (res: &Option<String>)
        ensures
            opt_path_view(*res) == self@.0,
    {
        &self.game_path
    }

    /// Whether the settings changed and are to be saved.
    pub fn is_dirty(&self) -> (res: bool)
        ensures
            res == self@.1,
    {
        self.is_dirty
    }

    /// Sets the game path when it names another path than the one kept; the
    /// settings then become dirty. Whether two different texts name the same
    /// path (`a/b` and `a/b/`) is decided by `std::path`, component by
    /// component, as the platform reads paths; `apply_game_path` states what
    /// follows from each answer.
    pub fn set_game_path(&mut self, value: Option<String>)
        ensures
            old(self)@.0 == opt_path_view(value) ==> final(self)@ == old(self)@,
            (old(self)@.0 is None) != (value is None) ==> final(self)@ == (opt_path_view(value), true),
            (old(self)@.0 matches Some(a) && value matches Some(b) && is_single_component(a)
                && is_single_component(b@) && a != b@) ==> final(self)@ == (opt_path_view(value), true),
            final(self)@ == old(self)@ || final(self)@ == (opt_path_view(value), true),
    {
        let same = match (&self.game_path, &value) {
            (None, None) => true,
            (Some(a), Some(b)) => same_path(a.as_str(), b.as_str()),
            _ => false,
        };
        self.apply_game_path(value, same);
    }

    /// Sets the game path given whether it names the path already kept
    /// (`same`): the same path leaves the settings as they are; another one is
    /// stored and makes the settings dirty.
    pub fn apply_game_path(&mut self, value: Option<String>, same: bool)
        ensures
            final(self)@ == if same {
                old(self)@
            } else {
                (opt_path_view(value), true)
            },
    {
        if !same {
            self.game_path = value;
            self.is_dirty = true;
        }
    }

    /// The name of the settings file.
    pub fn config_filename() -> (res: &'static str)
        ensures
            res@ == "config.toml"@,
    {
        "config.toml"
    }

    /// The name of the directory backups go to.
    pub fn backup_dir_name() -> (res: &'static str)
        ensures
            res@ == "backup"@,
    {
        "backup"
    }

    /// The name a backup of `file_name` gets: `<file_name>.bak`.
    pub fn backup_file_name(file_name: &str) -> (res: String)
        ensures
            res@ == file_name@ + ".bak"@,
    {
        let mut out = chars_of(file_name);
        let ext = chars_of(".bak");
        append_chars(&mut out, &ext);
        string_of(&out)
    }
}

} // verus!
