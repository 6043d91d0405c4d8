//! What is shown of running jobs, and what is taken over from finished ones.
use crate::clipboard::{nothing_kept, FileClipboard};
use crate::copy_job::{ConflictChoice, CopyJobState};
use crate::numerals::{decimal, to_decimal};
use crate::selection::{Selection, SelectionView};
use crate::text::{copy_text, joined, texts};
use vstd::prelude::*;

verus! {

// ---------------------------------------------------------------------------
// Progress
// ---------------------------------------------------------------------------

/// The headline of a running job: which file of how many it works on, and where they go. Until
/// the files are counted, it says that it counts.
pub open spec fn progress_title(is_move: bool, done: nat, total: nat, dest: Seq<char>) -> Seq<
    char,
> {
    let verb = if is_move {
        "Moving"@
    } else {
        "Copying"@
    };
    if total > 0 {
        verb + " "@ + decimal(done + 1) + " of "@ + decimal(total) + " files to "@ + dest
    } else {
        verb + " \u{EF}\u{BF}\u{BD} scanning \u{EF}\u{BF}\u{BD}"@
    }
}

/// The headline of a running job.
pub fn job_title(is_move: bool, done: usize, total: usize, dest: &str) -> (r: String)
    requires
        done < usize::MAX,
    ensures
        r@ == progress_title(is_move, done as nat, total as nat, dest@),
{
    let verb = if is_move {
        "Moving"
    } else {
        "Copying"
    };
    if total > 0 {
        let now: usize = done + 1;
        let mut s = joined(verb, " ");
        s = joined(s.as_str(), to_decimal(now as u64).as_str());
        s = joined(s.as_str(), " of ");
        s = joined(s.as_str(), to_decimal(total as u64).as_str());
        s = joined(s.as_str(), " files to ");
        joined(s.as_str(), dest)
    } else {
        joined(verb, " \u{EF}\u{BF}\u{BD} scanning \u{EF}\u{BF}\u{BD}")
    }
}

/// The line of a job that waits.
pub fn queued_line(is_move: bool, count: usize, dest: &str) -> (r: String)
    ensures
        r@ == "\u{23F3} Queued: "@ + (if is_move {
            "Move"@
        } else {
            "Copy"@
        }) + " "@ + decimal(count as nat) + " "@ + (if count == 1 {
            "file"@
        } else {
            "files"@
        }) + " ? "@ + dest@,
{
    let verb = if is_move {
        "Move"
    } else {
        "Copy"
    };
    let noun = if count == 1 {
        "file"
    } else {
        "files"
    };
    let mut s = joined("\u{23F3} Queued: ", verb);
    s = joined(s.as_str(), " ");
    s = joined(s.as_str(), to_decimal(count as u64).as_str());
    s = joined(s.as_str(), " ");
    s = joined(s.as_str(), noun);
    s = joined(s.as_str(), " ? ");
    joined(s.as_str(), dest)
}

/// The line of a file that was left out because it was there already.
pub fn skipped_line(name: &str) -> (r: String)
    ensures
        r@ == "Skipped identical: "@ + name@,
{
    joined("Skipped identical: ", name)
}

/// The line of an error.
pub fn error_line(error: &str) -> (r: String)
    ensures
        r@ == "Error: "@ + error@,
{
    joined("Error: ", error)
}

/// After how many milliseconds the window is drawn again without a cause: soon while something
/// goes on in the background, else only to notice drives that came or went.
pub fn redraw_after(busy: bool) -> (r: u64)
    ensures
        r == if busy {
            100u64
        } else {
            2000u64
        },
{
    if busy {
        100
    } else {
        2000
    }
}

// ---------------------------------------------------------------------------
// Conflicts
// ---------------------------------------------------------------------------

/// How long ago a file was changed, in words; both times are in seconds since the start of 1970.
pub open spec fn age_in_words(now: nat, changed: nat) -> Seq<char> {
    if changed > now {
        "future date"@
    } else {
        let age = (now - changed) as nat;
        if age < 60 {
            decimal(age) + "s ago"@
        } else if age < 3600 {
            decimal(age / 60) + "m ago"@
        } else if age < 86400 {
            decimal(age / 3600) + "h ago"@
        } else {
            decimal(age / 86400) + " days ago"@
        }
    }
}

/// How long ago a file was changed, in words.
pub fn age_text(now: u64, changed: u64) -> (r: String)
    ensures
        r@ == age_in_words(now as nat, changed as nat),
{
    if changed > now {
        return copy_text("future date");
    }
    let age: u64 = now - changed;
    if age < 60 {
        joined(to_decimal(age).as_str(), "s ago")
    } else if age < 3600 {
        joined(to_decimal(age / 60).as_str(), "m ago")
    } else if age < 86400 {
        joined(to_decimal(age / 3600).as_str(), "h ago")
    } else {
        joined(to_decimal(age / 86400).as_str(), " days ago")
    }
}

/// What is said of one of two files in conflict: its size, and its age where it is known.
pub fn conflict_line(is_source: bool, size: &str, age: Option<&str>) -> (r: String)
    ensures
        r@ == (if is_source {
            "Source:       "@
        } else {
            "Destination:  "@
        }) + size@ + match age {
            Some(a) => "  ("@ + a@ + ")"@,
            None => ""@,
        },
{
    let start = if is_source {
        "Source:       "
    } else {
        "Destination:  "
    };
    let rest = match age {
        Some(a) => joined(joined("  (", a).as_str(), ")"),
        None => copy_text(""),
    };
    joined(joined(start, size).as_str(), rest.as_str())
}

/// The question about a file that is there already.
pub fn conflict_title(is_move: bool, name: &str) -> (r: String)
    ensures
        r@ == (if is_move {
            "Moving"@
        } else {
            "Copying"@
        }) + " \""@ + name@ + "\" \u{EF}\u{BF}\u{BD} file already exists"@,
{
    let verb = if is_move {
        "Moving"
    } else {
        "Copying"
    };
    let s = joined(joined(verb, " \"").as_str(), name);
    joined(s.as_str(), "\" \u{EF}\u{BF}\u{BD} file already exists")
}

/// The answers to a conflict, from top to bottom.
pub fn conflict_choices() -> (r: Vec<ConflictChoice>)
    ensures
        r@ == seq![
            ConflictChoice::Overwrite,
            ConflictChoice::Skip,
            ConflictChoice::OverwriteAll,
            ConflictChoice::SkipAll,
            ConflictChoice::Abort,
        ],
{
    let r: Vec<ConflictChoice> = vec![
        ConflictChoice::Overwrite,
        ConflictChoice::Skip,
        ConflictChoice::OverwriteAll,
        ConflictChoice::SkipAll,
        ConflictChoice::Abort,
    ];
    assert(r@ =~= seq![
        ConflictChoice::Overwrite,
        ConflictChoice::Skip,
        ConflictChoice::OverwriteAll,
        ConflictChoice::SkipAll,
        ConflictChoice::Abort,
    ]);
    r
}

/// The text of an answer.
pub fn choice_label(c: ConflictChoice) -> (r: &'static str)
    ensures
        r@ == match c {
            ConflictChoice::Overwrite => "Overwrite this file"@,
            ConflictChoice::Skip => "Skip this file"@,
            ConflictChoice::OverwriteAll => "Overwrite all if different"@,
            ConflictChoice::SkipAll => "Skip all with same name"@,
            ConflictChoice::Abort => "?  Abort"@,
        },
{
    match c {
        ConflictChoice::Overwrite => "Overwrite this file",
        ConflictChoice::Skip => "Skip this file",
        ConflictChoice::OverwriteAll => "Overwrite all if different",
        ConflictChoice::SkipAll => "Skip all with same name",
        ConflictChoice::Abort => "?  Abort",
    }
}

// ---------------------------------------------------------------------------
// Finished jobs
// ---------------------------------------------------------------------------

/// Takes over what a finished job has left: what it put into the folder is selected, and a job
/// that ends a cut empties the clipboard.
pub fn harvest(job: &CopyJobState, selection: &mut Selection, clipboard: &mut FileClipboard)
    requires
        old(selection).wf(),
    ensures
        final(selection).wf(),
        final(selection)@ == (SelectionView {
            names: if job.pasted_names@.len() == 0 {
                old(selection)@.names
            } else {
                texts(job.pasted_names@).to_set()
            },
            ..old(selection)@
        }),
        final(clipboard)@ == if job.clear_clipboard {
            nothing_kept()
        } else {
            old(clipboard)@
        },
{
    selection.select_pasted(&job.pasted_names);
    if job.clear_clipboard {
        clipboard.clear();
    }
}

/// An age is told in whole seconds, minutes, hours or days, in the largest of these that fits: `n`
/// of them and a rest that does not make another one.
pub proof fn ages_are_told_in_the_largest_unit(changed: nat, n: nat, rest: nat)
    ensures
        n < 60 ==> age_in_words(changed + n, changed) == decimal(n) + "s ago"@,
        1 <= n < 60 && rest < 60 ==> age_in_words(changed + n * 60 + rest, changed) == decimal(n)
            + "m ago"@,
        1 <= n < 24 && rest < 3600 ==> age_in_words(changed + n * 3600 + rest, changed) == decimal(
            n,
        ) + "h ago"@,
        1 <= n && rest < 86400 ==> age_in_words(changed + n * 86400 + rest, changed) == decimal(n)
            + " days ago"@,
        n > 0 ==> age_in_words(changed, changed + n) == "future date"@,
{
    assert(rest < 60 ==> (n * 60 + rest) / 60 == n);
    assert(rest < 3600 ==> (n * 3600 + rest) / 3600 == n);
    assert(rest < 86400 ==> (n * 86400 + rest) / 86400 == n);
}

/// The headline tells of the file that comes next and of all files, once they are counted, and
/// ends with where they go; a move and a copy are told apart.
pub proof fn the_headline_tells_how_far_a_job_is(done: nat, total: nat, dest: Seq<char>)
    ensures
        total > 0 ==> progress_title(true, done, total, dest) == "Moving "@ + decimal(done + 1)
            + " of "@ + decimal(total) + " files to "@ + dest,
        total > 0 ==> progress_title(false, done, total, dest) == "Copying "@ + decimal(done + 1)
            + " of "@ + decimal(total) + " files to "@ + dest,
        progress_title(true, done, 0, dest) == progress_title(true, 0, 0, Seq::empty()),
        progress_title(true, done, 0, dest) != progress_title(false, done, 0, dest),
{
    reveal_strlit("Moving");
    reveal_strlit("Copying");
    reveal_strlit("Moving ");
    reveal_strlit("Copying ");
    reveal_strlit(" ");
    assert(total > 0 ==> progress_title(true, done, total, dest) =~= "Moving "@ + decimal(done + 1)
        + " of "@ + decimal(total) + " files to "@ + dest);
    assert(total > 0 ==> progress_title(false, done, total, dest) =~= "Copying "@ + decimal(
        done + 1,
    ) + " of "@ + decimal(total) + " files to "@ + dest);
    assert(progress_title(true, done, 0, dest)[0] == 'M');
    assert(progress_title(false, done, 0, dest)[0] == 'C');
}

} // verus!
