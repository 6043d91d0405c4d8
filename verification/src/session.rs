//! What is kept from one run to the next, and how a run starts.
use crate::numerals::{decimal, to_padded, zero_padded};
use crate::paths::{FsPath, PathMap, PathPrefix, PathView, PlaceView, PrefixView};
use crate::text::{begins_with, byte_len, has_part, has_prefix, joined, lowercase, occurs_in, texts};
use crate::text::{copy_text, to_lower};
use crate::types::{SortColumn, TabState};
use crate::versions::{can_cut, cut_bytes, first_bytes};
use vstd::prelude::*;

verus! {

// ---------------------------------------------------------------------------
// Settings
// ---------------------------------------------------------------------------

/// What is kept from one run to the next, but for the place of the window.
pub struct Config {
    pub last_path: String,
    pub show_date_columns: Vec<(String, bool)>,
    pub thumb_view: Vec<(String, bool)>,
    pub sort_column: SortColumn,
    pub sort_ascending: bool,
    pub favorites: Vec<String>,
    pub tabs: Option<Vec<TabState>>,
    pub active_tab: Option<usize>,
}

/// The settings of the first run.
pub fn first_config() -> (r: Config)
    ensures
        r.last_path@ == "C:\\"@,
        r.show_date_columns@.len() == 0,
        r.thumb_view@.len() == 0,
        r.sort_column == SortColumn::Name,
        r.sort_ascending,
        r.favorites@.len() == 0,
        r.tabs is None,
        r.active_tab is None,
{
    Config {
        last_path: copy_text("C:\\"),
        show_date_columns: Vec::new(),
        thumb_view: Vec::new(),
        sort_column: SortColumn::Name,
        sort_ascending: true,
        favorites: Vec::new(),
        tabs: None,
        active_tab: None,
    }
}

/// The path of one name.
pub open spec fn lone(name: &str) -> PathView {
    PathView { prefix: PrefixView::Bare, rooted: false, names: seq![name@], spelling: None }
}

/// The path `.`.
pub open spec fn here() -> PathView {
    lone(".")
}

/// The path of one name.
fn lone_name(name: &str) -> (r: FsPath)
    ensures
        r@ == lone(name),
{
    let mut names: Vec<String> = Vec::new();
    names.push(copy_text(name));
    assert(texts(names@) =~= seq![name@]);
    FsPath::plain(PathPrefix::Bare, false, names)
}

/// The path of the program as far as it is known.
pub open spec fn program_path(exe: Option<PathView>) -> PathView {
    match exe {
        Some(p) => p,
        None => lone("rusplorer.exe"),
    }
}

/// The folder of a path.
pub open spec fn folder_of(p: PathView) -> PathView {
    match p.parent() {
        Some(d) => d,
        None => here(),
    }
}

/// Where the settings are kept: beside the program.
pub fn config_path(exe: Option<FsPath>) -> (r: FsPath)
    ensures
        r@ == folder_of(
            program_path(
                match exe {
                    Some(p) => Some(p@),
                    None => None,
                },
            ),
        ).join("rusplorer.config.json"@),
{
    let program = match exe {
        Some(p) => p,
        None => lone_name("rusplorer.exe"),
    };
    let folder = match program.parent() {
        Some(d) => d,
        None => lone_name("."),
    };
    folder.join("rusplorer.config.json")
}

/// The folder that sessions are saved to: that of the program where it is known.
pub fn session_folder(exe: Option<FsPath>) -> (r: FsPath)
    ensures
        r@ == match exe {
            Some(p) => folder_of(p@),
            None => here(),
        },
{
    match exe {
        Some(p) => match p.parent() {
            Some(d) => d,
            None => lone_name("."),
        },
        None => lone_name("."),
    }
}

/// The root of the drive `C:`.
pub open spec fn first_root() -> PathView {
    PathView {
        prefix: PrefixView::Disk(0x43),
        rooted: true,
        names: Seq::empty(),
        spelling: None,
    }
}

/// The folder that a run starts in: the last one where it still exists.
pub fn start_path(last: FsPath, present: bool) -> (r: FsPath)
    ensures
        r@ == if present {
            last@
        } else {
            first_root()
        },
{
    if present {
        last
    } else {
        let r = FsPath::plain(PathPrefix::Disk(0x43), true, Vec::new());
        assert(texts(r.names@) =~= Seq::empty());
        r
    }
}

/// A setting of single folders, which is off where it was never set.
pub open spec fn flag_of(flags: Map<PlaceView, bool>, p: PathView) -> bool {
    flags.dom().contains(p.place()) && flags[p.place()]
}

/// The setting of the folder `p`.
pub fn read_flag(flags: &PathMap<bool>, p: &FsPath) -> (r: bool)
    requires
        flags.wf(),
    ensures
        r == flag_of(flags@, p@),
{
    match flags.get(p) {
        Some(b) => *b,
        None => false,
    }
}

/// Turns the setting of the folder `p` on or off.
pub fn toggle_flag(flags: &mut PathMap<bool>, p: &FsPath) -> (r: bool)
    requires
        old(flags).wf(),
    ensures
        final(flags).wf(),
        r == !flag_of(old(flags)@, p@),
        final(flags)@ == old(flags)@.insert(p@.place(), r),
{
    let on = !read_flag(flags, p);
    flags.insert(p, on);
    on
}

// ---------------------------------------------------------------------------
// Saved sessions
// ---------------------------------------------------------------------------

/// What is shown after a session was saved, or was not.
pub fn save_status(path: &str, error: Option<&str>) -> (r: String)
    ensures
        r@ == match error {
            None => "Saved to "@ + path@,
            Some(e) => "Error: "@ + e@,
        },
{
    match error {
        None => joined("Saved to ", path),
        Some(e) => joined("Error: ", e),
    }
}

/// Whether a status is shown as good news.
pub fn is_good_status(status: &str) -> (r: bool)
    ensures
        r == begins_with(status@, "Saved"@),
{
    has_prefix(status, "Saved")
}

/// A status is good news if and only if the session was saved.
pub proof fn only_a_saved_session_is_good_news(path: Seq<char>, error: Seq<char>)
    ensures
        begins_with("Saved to "@ + path, "Saved"@),
        !begins_with("Error: "@ + error, "Saved"@),
{
    reveal_strlit("Saved");
    reveal_strlit("Saved to ");
    reveal_strlit("Error: ");
    assert(("Saved to "@ + path).subrange(0, 5) =~= "Saved"@);
    assert(("Error: "@ + error)[0] == 'E');
    assert("Saved"@[0] == 'S');
    assert(("Error: "@ + error).subrange(0, 5)[0] == 'E');
}

// ---------------------------------------------------------------------------
// Windows and tabs
// ---------------------------------------------------------------------------

/// A minute of the local time.
#[derive(Clone, Copy, PartialEq, Eq, Structural)]
pub struct LocalMinute {
    pub year: u16,
    pub month: u16,
    pub day: u16,
    pub hour: u16,
    pub minute: u16,
}

/// A minute as it is written, such as `2026-02-17 14:30`.
pub open spec fn minute_text(m: LocalMinute) -> Seq<char> {
    zero_padded(decimal(m.year as nat), 4) + "-"@ + zero_padded(decimal(m.month as nat), 2) + "-"@
        + zero_padded(decimal(m.day as nat), 2) + " "@ + zero_padded(decimal(m.hour as nat), 2)
        + ":"@ + zero_padded(decimal(m.minute as nat), 2)
}

/// Writes a minute down.
pub fn write_minute(m: LocalMinute) -> (r: String)
    ensures
        r@ == minute_text(m),
{
    let mut s = to_padded(m.year as u64, 4);
    s = joined(s.as_str(), "-");
    s = joined(s.as_str(), to_padded(m.month as u64, 2).as_str());
    s = joined(s.as_str(), "-");
    s = joined(s.as_str(), to_padded(m.day as u64, 2).as_str());
    s = joined(s.as_str(), " ");
    s = joined(s.as_str(), to_padded(m.hour as u64, 2).as_str());
    s = joined(s.as_str(), ":");
    joined(s.as_str(), to_padded(m.minute as u64, 2).as_str())
}

/// Whether a program of this name is a trial version.
pub open spec fn is_trial_name(lower: Seq<char>) -> bool {
    occurs_in(lower, "dev"@)
}

/// The title of the window: the time of the start, and a word where the name of the program,
/// in small letters, is that of a trial version.
pub fn title_for(lower_stem: Option<&str>, now: LocalMinute) -> (r: String)
    ensures
        r@ == (if lower_stem is Some && is_trial_name(lower_stem->0@) {
            "Rusplorer (dev) ("@
        } else {
            "Rusplorer ("@
        }) + minute_text(now) + ")"@,
{
    let trial = match lower_stem {
        Some(s) => has_part(s, "dev"),
        None => false,
    };
    let start = if trial {
        "Rusplorer (dev) ("
    } else {
        "Rusplorer ("
    };
    joined(joined(start, write_minute(now).as_str()).as_str(), ")")
}

/// The title of the window of the program called `stem`.
pub fn window_title(stem: Option<&str>, now: LocalMinute) -> (r: String)
    ensures
        r@ == (if stem is Some && is_trial_name(lowercase(stem->0@)) {
            "Rusplorer (dev) ("@
        } else {
            "Rusplorer ("@
        }) + minute_text(now) + ")"@,
{
    match stem {
        Some(s) => {
            let lower = to_lower(s);
            title_for(Some(lower.as_str()), now)
        },
        None => title_for(None, now),
    }
}

/// Whether a start failed for want of a graphics adapter, so that another renderer is tried.
pub fn lacks_adapter(error: &str) -> (r: bool)
    ensures
        r == occurs_in(error@, "NoSuitableAdapterFound"@),
{
    has_part(error, "NoSuitableAdapterFound")
}

/// How often the window is moved to its own desktop before that is given up.
pub const DESKTOP_ATTEMPTS: u8 = 10;

/// Counts an attempt to move the window to its own desktop, and says whether it was the last
/// one.
pub fn count_desktop_attempt(before: u8, moved: bool) -> (r: (u8, bool))
    requires
        before < DESKTOP_ATTEMPTS,
    ensures
        r.0 == before + 1,
        r.1 == (moved || r.0 == DESKTOP_ATTEMPTS),
{
    let now: u8 = before + 1;
    (now, moved || now >= DESKTOP_ATTEMPTS)
}

/// What a tab shows of its label: all of it up to twenty bytes, else its first nineteen bytes
/// and the mark of a cut.
pub open spec fn tab_text(label: Seq<char>) -> Seq<char> {
    if byte_len(label) > 20 {
        first_bytes(label, 19) + "\u{EF}\u{BF}\u{BD}"@
    } else {
        label
    }
}

/// What a tab shows of its label. A label is not cut through a character.
pub fn shown_label(label: &str) -> (r: String)
    requires
        byte_len(label@) > 20 ==> can_cut(label@, 19),
    ensures
        r@ == tab_text(label@),
{
    if label.as_bytes().len() > 20 {
        let (start, _whole) = cut_bytes(label, 19);
        joined(start.as_str(), "\u{EF}\u{BF}\u{BD}")
    } else {
        copy_text(label)
    }
}

/// What lies beside the program lies in the folder of the program; a program without a folder is
/// taken to lie here.
pub proof fn settings_lie_beside_the_program(dir: PathView, name: Seq<char>)
    ensures
        folder_of(dir.join(name)).is_same(dir),
        dir.names.len() == 0 ==> folder_of(dir) == here(),
        program_path(Some(dir)) == dir,
        folder_of(program_path(None)).names.len() == 0,
{
    crate::paths::an_entry_has_the_names_of_its_folder(dir, name);
}

/// A setting of a folder is off until it is set, and then what it was set to, however the folder's
/// path is written; the settings of other folders stay.
pub proof fn a_setting_is_kept_by_folder(
    flags: Map<PlaceView, bool>,
    p: PathView,
    q: PathView,
    on: bool,
)
    ensures
        !flag_of(Map::empty(), p),
        p.is_same(q) ==> flag_of(flags.insert(p.place(), on), q) == on,
        !p.is_same(q) ==> flag_of(flags.insert(p.place(), on), q) == flag_of(flags, q),
{
}

/// A minute that is written down holds its numbers at their places, with zeros before them.
pub proof fn a_minute_is_written_in_order(m: LocalMinute)
    requires
        m.year <= 9999,
        m.month <= 99,
        m.day <= 99,
        m.hour <= 99,
        m.minute <= 99,
    ensures
        ({
            let t = minute_text(m);
            &&& t.len() == 16
            &&& t[4] == '-' && t[7] == '-' && t[10] == ' ' && t[13] == ':'
            &&& crate::numerals::digits_value(t.subrange(0, 4), 10) == m.year
            &&& crate::numerals::digits_value(t.subrange(5, 7), 10) == m.month
            &&& crate::numerals::digits_value(t.subrange(8, 10), 10) == m.day
            &&& crate::numerals::digits_value(t.subrange(11, 13), 10) == m.hour
            &&& crate::numerals::digits_value(t.subrange(14, 16), 10) == m.minute
        }),
{
    reveal_strlit("-");
    reveal_strlit(" ");
    reveal_strlit(":");
    crate::numerals::zeros_before_a_number_do_not_count(m.year as nat, 4);
    crate::numerals::zeros_before_a_number_do_not_count(m.month as nat, 2);
    crate::numerals::zeros_before_a_number_do_not_count(m.day as nat, 2);
    crate::numerals::zeros_before_a_number_do_not_count(m.hour as nat, 2);
    crate::numerals::zeros_before_a_number_do_not_count(m.minute as nat, 2);
    crate::numerals::short_numbers_have_few_digits(m.year as nat, 4);
    crate::numerals::short_numbers_have_few_digits(m.month as nat, 2);
    crate::numerals::short_numbers_have_few_digits(m.day as nat, 2);
    crate::numerals::short_numbers_have_few_digits(m.hour as nat, 2);
    crate::numerals::short_numbers_have_few_digits(m.minute as nat, 2);
    let t = minute_text(m);
    assert(t.subrange(0, 4) =~= zero_padded(decimal(m.year as nat), 4));
    assert(t.subrange(5, 7) =~= zero_padded(decimal(m.month as nat), 2));
    assert(t.subrange(8, 10) =~= zero_padded(decimal(m.day as nat), 2));
    assert(t.subrange(11, 13) =~= zero_padded(decimal(m.hour as nat), 2));
    assert(t.subrange(14, 16) =~= zero_padded(decimal(m.minute as nat), 2));
}

/// A label of plain text is shown whole up to twenty characters, and longer ones by their first
/// nineteen and a mark.
pub proof fn long_labels_are_cut(label: Seq<char>)
    requires
        crate::versions::is_plain_text(label),
    ensures
        label.len() <= 20 ==> tab_text(label) == label,
        label.len() > 20 ==> tab_text(label).take(19) == label.take(19) && tab_text(label).len()
            == 22,
{
    reveal_strlit("\u{EF}\u{BF}\u{BD}");
    if label.len() > 20 {
        crate::versions::plain_texts_are_cut_by_characters(label, 19);
        assert(tab_text(label).take(19) =~= label.take(19));
    } else {
        crate::versions::plain_texts_are_cut_by_characters(label, 0);
    }
}

/// A program is a trial version where its name holds that word anywhere.
pub proof fn trial_versions_are_told_by_their_name(before: Seq<char>, behind: Seq<char>)
    ensures
        is_trial_name(before + "dev"@ + behind),
        is_trial_name(before) ==> exists|a: Seq<char>, b: Seq<char>|
            before == #[trigger] (a + "dev"@ + b),
{
    crate::text::a_part_is_found(before, "dev"@, behind);
    crate::text::what_is_found_is_there(before, "dev"@);
}

/// A first run starts at the root of the first drive.
pub proof fn a_first_run_starts_at_a_root()
    ensures
        first_root().written() == "C:\\"@,
        first_root().parent() is None,
{
    reveal_strlit("C:\\");
    assert(first_root().written_names(0) =~= Seq::empty());
    assert(first_root().written() =~= "C:\\"@);
}

} // verus!
