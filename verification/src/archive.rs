//! What goes into a `.vmz` archive: entry names and entry timestamps; and
//! what comes out of one: the text of its `mod.txt`.
use vstd::prelude::*;
use crate::mod_info::ModInfo;
use crate::str_map::StrMap;
use crate::text::{chars_of, join, join_chars, string_of};
use crate::vmb::{string_views, VmbError};

verus! {

#[verifier::external_type_specification]
#[verifier::external_body]
pub struct ExPathBuf(std::path::PathBuf);

/// A mod's files, to be packed together with its description.
pub struct ModPackage {
    inputs: Vec<std::path::PathBuf>,
    pub info: ModInfo,
}

impl ModPackage {
    /// A package with no files yet.
    pub fn new(info: ModInfo) -> (res: ModPackage)
        ensures
            res.inputs().len() == 0,
            res.package_info() == info,
    {
        ModPackage { inputs: Vec::new(), info }
    }

    pub closed spec fn inputs(&self) -> Seq<std::path::PathBuf> {
        self.inputs@
    }

    pub closed spec fn package_info(&self) -> ModInfo {
        self.info
    }

    /// Replaces the files to pack.
    pub fn set_files(&mut self, inputs: Vec<std::path::PathBuf>)
        ensures
            final(self).inputs() == inputs@,
            final(self).package_info() == old(self).package_info(),
    {
        self.inputs = inputs;
    }

    /// The files to pack.
    pub fn files(&self) -> (res: &Vec<std::path::PathBuf>)
        ensures
            res@ == self.inputs(),
    {
        &self.inputs
    }

    /// Whether there is nothing to pack.
    pub fn is_empty(&self) -> (res: bool)
        ensures
            res == (self.inputs().len() == 0),
    {
        self.inputs.len() == 0
    }
}

/// The names already given to archive entries.
pub struct PackState {
    used: StrMap<()>,
}

impl View for PackState {
    type V = Set<Seq<char>>;

    closed spec fn view(&self) -> Set<Seq<char>> {
        self.used@.dom()
    }
}

impl PackState {
    pub fn new() -> (res: PackState)
        ensures
            res@ == Set::<Seq<char>>::empty(),
    {
        let res = PackState { used: StrMap::new() };
        assert(res@ =~= Set::<Seq<char>>::empty());
        res
    }

    /// Takes `name` for an entry; a name used before is refused.
    pub fn record(&mut self, name: &str) -> (res: Result<(), VmbError>)
        ensures
            old(self)@.contains(name@) ==> (res matches Err(VmbError::DuplicateEntry(n)) && n@
                == name@ && final(self)@ == old(self)@),
            !old(self)@.contains(name@) ==> (res is Ok && final(self)@ == old(self)@.insert(name@)),
    {
        if self.used.contains_key(name) {
            return Err(VmbError::DuplicateEntry(String::from_str(name)));
        }
        self.used.insert(String::from_str(name), ());
        assert(self@ =~= old(self)@.insert(name@));
        Ok(())
    }
}

/// `pack` needs at least one input.
pub fn check_inputs(count: usize) -> (res: Result<(), VmbError>)
    ensures
        count == 0 ==> res matches Err(VmbError::NoInputs),
        count > 0 ==> res is Ok,
{
    if count == 0 {
        Err(VmbError::NoInputs)
    } else {
        Ok(())
    }
}

/// The name an archive entry gets from its path components: the components
/// joined with `/`.
pub fn path_to_zip_name(components: &Vec<String>) -> (res: String)
    ensures
        res@ == join(string_views(components@), seq!['/']),
{
    let mut parts: Vec<Vec<char>> = Vec::new();
    for i in 0..components.len()
        invariant
            parts@.map_values(|p: Vec<char>| p@) == string_views(components@).take(i as int),
    {
        let p = chars_of(components[i].as_str());
        let ghost before = parts@.map_values(|p: Vec<char>| p@);
        parts.push(p);
        assert(parts@.map_values(|p: Vec<char>| p@) == before.push(p@));
        assert(string_views(components@).take(i + 1) == string_views(components@).take(i as int).push(
            components@[i as int]@,
        ));
    }
    assert(string_views(components@).take(components@.len() as int) == string_views(components@));
    let joined = join_chars(&parts, '/');
    string_of(&joined)
}

/// The top-level name of a packed directory: its file name, or `root` when it
/// has none that is UTF-8.
pub fn root_name(file_name: Option<&str>) -> (res: String)
    ensures
        file_name matches Some(n) ==> res@ == n@,
        file_name is None ==> res@ == "root"@,
{
    match file_name {
        Some(n) => String::from_str(n),
        None => String::from_str("root"),
    }
}

/// A timestamp as a zip archive stores it.
#[derive(Clone, Copy, Debug, PartialEq, Eq, Structural)]
pub struct ZipTime {
    pub year: u16,
    pub month: u8,
    pub day: u8,
    pub hour: u8,
    pub minute: u8,
    pub second: u8,
}

pub open spec fn is_leap_year(year: int) -> bool {
    year % 4 == 0 && (year % 100 != 0 || year % 400 == 0)
}

pub open spec fn days_in_month(year: int, month: int) -> int {
    if month == 2 {
        if is_leap_year(year) {
            29
        } else {
            28
        }
    } else if month == 4 || month == 6 || month == 9 || month == 11 {
        30
    } else {
        31
    }
}

/// The dates and times `zip::DateTime::from_date_and_time` accepts.
pub open spec fn zip_accepts(y: int, mo: int, d: int, h: int, mi: int, s: int) -> bool {
    &&& 1980 <= y <= 2107
    &&& 1 <= mo <= 12
    &&& 1 <= d <= days_in_month(y, mo)
    &&& 0 <= h <= 23
    &&& 0 <= mi <= 59
    &&& 0 <= s <= 60
}

/// The second a zip timestamp keeps: at most 58, rounded down to even.
pub open spec fn zip_second(s: int) -> int {
    let c = if s > 58 {
        58
    } else {
        s
    };
    (c / 2) * 2
}

pub open spec fn zip_time_view(t: ZipTime) -> (int, int, int, int, int, int) {
    (t.year as int, t.month as int, t.day as int, t.hour as int, t.minute as int, t.second as int)
}

/// `zip::DateTime::from_date_and_time`, read back through the type's getters.
/// Claimed (from the crate's source): it succeeds exactly for the dates and
/// times `zip_accepts` describes, and then keeps every part but the second,
/// which it caps at 58 and rounds down to even.
#[verifier::external_body]
fn zip_datetime(y: u16, mo: u8, d: u8, h: u8, mi: u8, s: u8) -> (res: Option<ZipTime>)
    ensures
        res is Some == zip_accepts(y as int, mo as int, d as int, h as int, mi as int, s as int),
        res matches Some(t) ==> zip_time_view(t) == (
            y as int,
            mo as int,
            d as int,
            h as int,
            mi as int,
            zip_second(s as int),
        ),
{
    zip::DateTime::from_date_and_time(y, mo, d, h, mi, s).ok().map(
        |t|
            ZipTime {
                year: t.year(),
                month: t.month(),
                day: t.day(),
                hour: t.hour(),
                minute: t.minute(),
                second: t.second(),
            },
    )
}

/// `zip::DateTime::default()`. Claimed: 1980-01-01 00:00:00.
#[verifier::external_body]
fn zip_default_time() -> (res: ZipTime)
    ensures
        zip_time_view(res) == (1980int, 1int, 1int, 0int, 0int, 0int),
{
    let t = zip::DateTime::default();
    ZipTime {
        year: t.year(),
        month: t.month(),
        day: t.day(),
        hour: t.hour(),
        minute: t.minute(),
        second: t.second(),
    }
}

/// The proleptic Gregorian date `days` days after 1970-01-01 (before it when
/// negative): year, month (1 to 12), day of the month.
pub open spec fn civil_from_days(days: int) -> (int, int, int) {
    let z = days + 719468;
    let era = z / 146097;
    let doe = z - era * 146097;
    let yoe = (doe - doe / 1460 + doe / 36524 - doe / 146096) / 365;
    let doy = doe - (365 * yoe + yoe / 4 - yoe / 100);
    let mp = (5 * doy + 2) / 153;
    let d = doy - (153 * mp + 2) / 5 + 1;
    let m = if mp < 10 {
        mp + 3
    } else {
        mp - 9
    };
    let y = yoe + era * 400 + if m <= 2 {
        1int
    } else {
        0int
    };
    (y, m, d)
}

/// The UTC calendar date and time of a Unix timestamp: year, month, day, hour,
/// minute, second.
pub open spec fn civil_of(unix_seconds: int) -> (int, int, int, int, int, int) {
    let days = unix_seconds / 86400;
    let secs = unix_seconds % 86400;
    let (y, mo, d) = civil_from_days(days);
    (y, mo, d, secs / 3600, (secs % 3600) / 60, secs % 60)
}

/// Whether `time::OffsetDateTime` represents the timestamp: whether it lies
/// between the first moment of the crate's earliest date and the last moment
/// of its latest (a range the crate's build features set).
pub uninterp spec fn time_represents(unix_seconds: int) -> bool;

/// The UTC calendar date and time `time` gives a Unix timestamp, or `None`
/// where the crate cannot represent it.
pub open spec fn utc_civil(unix_seconds: int) -> Option<(int, int, int, int, int, int)> {
    if time_represents(unix_seconds) {
        Some(civil_of(unix_seconds))
    } else {
        None
    }
}

pub open spec fn civil_view(c: Option<(i32, u8, u8, u8, u8, u8)>) -> Option<
    (int, int, int, int, int, int),
> {
    match c {
        Some((y, mo, d, h, mi, s)) => Some((y as int, mo as int, d as int, h as int, mi as int, s as int)),
        None => None,
    }
}

/// The timestamps `time::OffsetDateTime` surely represents (from its documented
/// range of years -9999 to 9999).
pub open spec fn in_time_range(unix_seconds: int) -> bool {
    -100_000_000_000 <= unix_seconds <= 253_402_300_799
}

/// `time::OffsetDateTime::from_unix_timestamp` and its calendar getters (UTC).
/// Claimed: it succeeds where `time_represents` says, and then gives the
/// proleptic Gregorian date and the time of day of `civil_of` (the crate takes
/// the day by floor division by 86400 and the second of the day by the
/// Euclidean remainder); months run 1 to 12, days 1 to 31, hours 0 to 23,
/// minutes and seconds 0 to 59; every timestamp in `in_time_range` is
/// represented.
#[verifier::external_body]
fn utc_fields(unix_seconds: i64) -> (res: Option<(i32, u8, u8, u8, u8, u8)>)
    ensures
        res is Some == time_represents(unix_seconds as int),
        civil_view(res) == utc_civil(unix_seconds as int),
        res matches Some((y, mo, d, h, mi, s)) ==> 1 <= mo <= 12 && 1 <= d <= 31 && h <= 23 && mi
            <= 59 && s <= 59,
        in_time_range(unix_seconds as int) ==> res is Some,
{
    time::OffsetDateTime::from_unix_timestamp(unix_seconds).ok().map(
        |dt| (dt.year(), u8::from(dt.month()), dt.day(), dt.hour(), dt.minute(), dt.second()),
    )
}

/// The zip timestamp of a file modified at `unix_seconds`: its UTC date and
/// time (the year cut to 16 bits), or 1980-01-01 00:00:00 when zip cannot
/// store that date.
pub open spec fn zip_time_for(unix_seconds: int) -> (int, int, int, int, int, int) {
    match utc_civil(unix_seconds) {
        Some((y, mo, d, h, mi, s)) => {
            let y16 = (y as i32) as u16;
            if zip_accepts(y16 as int, mo, d, h, mi, s) {
                (y16 as int, mo, d, h, mi, zip_second(s))
            } else {
                (1980, 1, 1, 0, 0, 0)
            }
        },
        None => (1980, 1, 1, 0, 0, 0),
    }
}

/// The zip timestamp of a file modified at `unix_seconds` (seconds since the
/// Unix epoch, rounded down).
pub fn sys_time_to_zip_datetime(unix_seconds: i64) -> (res: ZipTime)
    requires
        utc_civil(unix_seconds as int) is Some,
    ensures
        zip_time_view(res) == zip_time_for(unix_seconds as int),
{
    match utc_fields(unix_seconds) {
        Some((y, mo, d, h, mi, s)) => {
            let y16: u16 = y as u16;
            match zip_datetime(y16, mo, d, h, mi, s) {
                Some(t) => t,
                None => zip_default_time(),
            }
        },
        None => zip_default_time(),
    }
}

/// The zip timestamp of a file modified at `unix_seconds`, or `None` when
/// `time` cannot represent that moment.
pub fn resolve_zip_datetime(unix_seconds: i64) -> (res: Option<ZipTime>)
    ensures
        res is Some == (utc_civil(unix_seconds as int) is Some),
        res matches Some(t) ==> zip_time_view(t) == zip_time_for(unix_seconds as int),
        in_time_range(unix_seconds as int) ==> res is Some,
{
    match utc_fields(unix_seconds) {
        Some(_) => Some(sys_time_to_zip_datetime(unix_seconds)),
        None => None,
    }
}


/// Whether packing shows a progress bar: only for something to pack, on a
/// terminal.
pub fn wants_progress(total_bytes: u64, is_terminal: bool) -> (res: bool)
    ensures
        res == (total_bytes > 0 && is_terminal),
{
    total_bytes != 0 && is_terminal
}


/// The text the zip reader finds in the archive bytes `archive` under the entry
/// `name`, or `None` where the bytes are no zip archive it reads, it holds no
/// entry of that name, or the entry cannot be read as UTF-8 text.
pub uninterp spec fn zip_entry_text(archive: Seq<u8>, name: Seq<char>) -> Option<Seq<char>>;

pub open spec fn opt_string_text(s: Option<String>) -> Option<Seq<char>> {
    match s {
        Some(t) => Some(t@),
        None => None,
    }
}

/// `zip::ZipArchive::new` over the bytes, `ZipArchive::by_name`, and
/// `Read::read_to_string` of the entry. Claimed: the result is the text
/// `zip_entry_text` names for these bytes and this name.
#[verifier::external_body]
fn archive_entry_text(archive: &[u8], name: &str) -> (res: Option<String>)
    ensures
        opt_string_text(res) == zip_entry_text(archive@, name@),
{
    let mut zip = zip::ZipArchive::new(std::io::Cursor::new(archive)).ok()?;
    let mut entry = zip.by_name(name).ok()?;
    let mut text = String::new();
    std::io::Read::read_to_string(&mut entry, &mut text).ok()?;
    Some(text)
}

/// The text of the `mod.txt` a mod archive carries, or `None` where the
/// archive cannot be read or has no readable `mod.txt`.
pub fn mod_txt_in_archive(archive: &[u8]) -> (res: Option<String>)
    ensures
        opt_string_text(res) == zip_entry_text(archive@, "mod.txt"@),
{
    archive_entry_text(archive, "mod.txt")
}

} // verus!
