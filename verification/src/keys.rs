//! Keys: those that act on files, read from the keyboard's state, and those that act on the
//! window.
use vstd::prelude::*;

verus! {

/// One flag for each of the keys that act on files.
#[derive(Clone, Copy, PartialEq, Eq, Structural)]
pub struct FileKeys {
    pub copy: bool,
    pub cut: bool,
    pub paste: bool,
    pub delete: bool,
}

/// The keys that are held, from the state of the single keys: all but the last act only
/// together with the control key.
pub fn file_keys(ctrl: bool, c: bool, x: bool, v: bool, del: bool) -> (r: FileKeys)
    ensures
        r == (FileKeys { copy: ctrl && c, cut: ctrl && x, paste: ctrl && v, delete: del }),
{
    FileKeys { copy: ctrl && c, cut: ctrl && x, paste: ctrl && v, delete: del }
}

/// The keys of which one press begins: they are held, were not held `before`, and someone
/// listens. A cut goes before a copy.
pub open spec fn pressed(before: FileKeys, held: FileKeys, listening: bool) -> FileKeys {
    let cut = listening && held.cut && !before.cut;
    FileKeys {
        copy: listening && held.copy && !before.copy && !cut,
        cut,
        paste: listening && held.paste && !before.paste,
        delete: listening && held.delete && !before.delete,
    }
}

/// The keys that were held when last looked at.
pub struct KeyWatch {
    pub held: FileKeys,
}

impl KeyWatch {
    /// A watch that has seen no key.
    pub fn new() -> (r: KeyWatch)
        ensures
            r.held == (FileKeys { copy: false, cut: false, paste: false, delete: false }),
    {
        KeyWatch { held: FileKeys { copy: false, cut: false, paste: false, delete: false } }
    }

    /// Looks at the keys that are held, and says of which a press begins. Keys that go down
    /// while nobody listens are remembered all the same.
    pub fn look(&mut self, held: FileKeys, listening: bool) -> (r: FileKeys)
        ensures
            final(self).held == held,
            r == pressed(old(self).held, held, listening),
    {
        let before = self.held;
        self.held = held;
        let cut = listening && held.cut && !before.cut;
        FileKeys {
            copy: listening && held.copy && !before.copy && !cut,
            cut,
            paste: listening && held.paste && !before.paste,
            delete: listening && held.delete && !before.delete,
        }
    }
}

/// The keys that went down, and the two that change what others mean.
#[derive(Clone, Copy, PartialEq, Eq, Structural)]
pub struct WindowKeys {
    pub alt: bool,
    pub ctrl: bool,
    pub left: bool,
    pub right: bool,
    pub a: bool,
    pub escape: bool,
    pub f2: bool,
}

/// What keys ask of the window.
#[derive(Clone, Copy, PartialEq, Eq, Structural)]
pub struct WindowCommands {
    pub back: bool,
    pub forward: bool,
    pub select_all: bool,
    pub deselect: bool,
    pub rename: bool,
}

/// What the keys ask for. Nothing is selected while a dialog is open, and nothing is renamed
/// while the window is in the background or a name is being asked for.
pub fn window_commands(keys: WindowKeys, focused: bool, dialog: bool, naming: bool) -> (r:
    WindowCommands)
    ensures
        r == (WindowCommands {
            back: keys.alt && keys.left,
            forward: keys.alt && keys.right,
            select_all: keys.ctrl && keys.a && !dialog,
            deselect: keys.escape && !dialog,
            rename: keys.f2 && focused && !naming,
        }),
{
    WindowCommands {
        back: keys.alt && keys.left,
        forward: keys.alt && keys.right,
        select_all: keys.ctrl && keys.a && !dialog,
        deselect: keys.escape && !dialog,
        rename: keys.f2 && focused && !naming,
    }
}

/// A key that stays down acts once at most: what is held through two looks is not pressed at
/// the second, whoever listened at the first.
pub proof fn a_held_key_acts_once(before: FileKeys, held: FileKeys, later: FileKeys)
    ensures
        held.copy ==> !pressed(held, later, true).copy,
        held.cut ==> !pressed(held, later, true).cut,
        held.paste ==> !pressed(held, later, true).paste,
        held.delete ==> !pressed(held, later, true).delete,
        pressed(before, held, false) == (FileKeys {
            copy: false,
            cut: false,
            paste: false,
            delete: false,
        }),
{
}

/// One look never asks for a copy and for a cut.
pub proof fn a_cut_is_no_copy(before: FileKeys, held: FileKeys, listening: bool)
    ensures
        !(pressed(before, held, listening).copy && pressed(before, held, listening).cut),
{
}

/// A key that goes down while someone listens acts, each key for itself; only a copy gives way to
/// a cut that goes down with it.
pub proof fn a_key_that_goes_down_acts(before: FileKeys, held: FileKeys)
    ensures
        held.cut && !before.cut ==> pressed(before, held, true).cut,
        held.paste && !before.paste ==> pressed(before, held, true).paste,
        held.delete && !before.delete ==> pressed(before, held, true).delete,
        held.copy && !before.copy && !held.cut ==> pressed(before, held, true).copy,
        held.copy && !before.copy && before.cut ==> pressed(before, held, true).copy,
        !held.copy ==> !pressed(before, held, true).copy,
        !held.cut ==> !pressed(before, held, true).cut,
        !held.paste ==> !pressed(before, held, true).paste,
        !held.delete ==> !pressed(before, held, true).delete,
{
}

} // verus!
