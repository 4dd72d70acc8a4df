//! The key handling of `rux tui`, as a state machine: the dashboard's
//! state and a key press give the next state and one command for the
//! caller to carry out (reloading rows, saving the registry, toggling an
//! extension, archiving in the background). Reading keys, drawing and the
//! commands' file work are the caller's side; after a command it reports
//! back what it found (row counts, whether the registry was empty, how
//! archiving ended).
use vstd::prelude::*;
use crate::text::{sub_chars, trim, trim_bounds};
use crate::tui::{move_selection, select_index, select_index_or, wrap_index, Tab};

verus! {

/// A key press.
#[derive(Debug, Clone, Copy, PartialEq, Eq, Structural)]
pub enum Key {
    Char(char),
    Enter,
    Esc,
    Backspace,
    Tab,
    Up,
    Down,
    Left,
    Right,
    Other,
}

/// Where typed characters go: nowhere (keys are commands), into the name
/// of a PHP install being added, or into its path once the name is given.
#[derive(Debug, Clone)]
pub enum Input {
    Normal,
    AddName(Vec<char>),
    AddPath(Vec<char>, Vec<char>),
}

/// What an `Input` holds.
pub enum InputView {
    Normal,
    AddName(Seq<char>),
    AddPath(Seq<char>, Seq<char>),
}

impl View for Input {
    type V = InputView;

    open spec fn view(&self) -> InputView {
        match self {
            Input::Normal => InputView::Normal,
            Input::AddName(b) => InputView::AddName(b@),
            Input::AddPath(n, b) => InputView::AddPath(n@, b@),
        }
    }
}

/// The dashboard: the tab shown, the input mode, the selected row of the
/// PHP list (`php_len` rows) and of the extension list (`ext_len` rows,
/// those of PHP row `ext_php`), and whether archiving runs in the
/// background.
#[derive(Debug, Clone)]
pub struct Dashboard {
    pub tab: Tab,
    pub input: Input,
    pub php_selected: Option<usize>,
    pub php_len: usize,
    pub ext_php: Option<usize>,
    pub ext_selected: Option<usize>,
    pub ext_len: usize,
    pub archiving: bool,
}

/// What a `Dashboard` holds.
pub struct DashboardView {
    pub tab: Tab,
    pub input: InputView,
    pub php_selected: Option<usize>,
    pub php_len: usize,
    pub ext_php: Option<usize>,
    pub ext_selected: Option<usize>,
    pub ext_len: usize,
    pub archiving: bool,
}

impl View for Dashboard {
    type V = DashboardView;

    open spec fn view(&self) -> DashboardView {
        DashboardView {
            tab: self.tab,
            input: self.input@,
            php_selected: self.php_selected,
            php_len: self.php_len,
            ext_php: self.ext_php,
            ext_selected: self.ext_selected,
            ext_len: self.ext_len,
            archiving: self.archiving,
        }
    }
}

/// What the caller is to do after a key press.
#[derive(Debug)]
pub enum Command {
    Nothing,
    /// Leave the dashboard.
    Quit,
    /// Clear the status line.
    ClearStatus,
    /// Unregister the PHP install of this row, then reload the PHP rows.
    RemovePhp(usize),
    /// Archive every registered install in the background (see
    /// `Dashboard::archive_requested`).
    ArchiveAll,
    /// Recompute the Doctor tab.
    RefreshDoctor,
    /// Reload the PHP rows.
    RefreshPhp,
    /// Reload the extension rows of this PHP row.
    RefreshExt(usize),
    /// Show the extensions of this PHP row instead (see
    /// `Dashboard::ext_rows_switched`).
    LoadExt(usize),
    /// Toggle this extension row of this PHP row.
    ToggleExt(usize, usize),
    /// Register the install at this path (trimmed) under this name.
    Register(String, String),
}

/// What a `Command` holds.
pub enum CommandView {
    Nothing,
    Quit,
    ClearStatus,
    RemovePhp(usize),
    ArchiveAll,
    RefreshDoctor,
    RefreshPhp,
    RefreshExt(usize),
    LoadExt(usize),
    ToggleExt(usize, usize),
    Register(Seq<char>, Seq<char>),
}

impl View for Command {
    type V = CommandView;

    open spec fn view(&self) -> CommandView {
        match self {
            Command::Nothing => CommandView::Nothing,
            Command::Quit => CommandView::Quit,
            Command::ClearStatus => CommandView::ClearStatus,
            Command::RemovePhp(i) => CommandView::RemovePhp(*i),
            Command::ArchiveAll => CommandView::ArchiveAll,
            Command::RefreshDoctor => CommandView::RefreshDoctor,
            Command::RefreshPhp => CommandView::RefreshPhp,
            Command::RefreshExt(i) => CommandView::RefreshExt(*i),
            Command::LoadExt(i) => CommandView::LoadExt(*i),
            Command::ToggleExt(p, e) => CommandView::ToggleExt(*p, *e),
            Command::Register(n, p) => CommandView::Register(n@, p@),
        }
    }
}

/// The selection after moving it by `delta` in `len` rows, wrapping around.
pub open spec fn moved(sel: Option<usize>, len: usize, delta: int) -> Option<usize> {
    if len == 0 {
        None
    } else {
        Some(
            (((match sel {
                Some(s) => s as int,
                None => 0int,
            }) + delta) % (len as int)) as usize,
        )
    }
}

/// `+1` for Down and Right, `-1` for Up and Left.
pub open spec fn key_delta(k: Key) -> int {
    if k == Key::Down || k == Key::Right {
        1
    } else {
        -1
    }
}

/// `buf` without its last character, if any.
pub open spec fn backspaced(buf: Seq<char>) -> Seq<char> {
    if buf.len() > 0 {
        buf.drop_last()
    } else {
        buf
    }
}

/// A key in normal mode.
pub open spec fn normal_step(s: DashboardView, k: Key) -> (DashboardView, CommandView) {
    if k == Key::Esc || k == Key::Char('q') {
        (s, CommandView::Quit)
    } else if k == Key::Tab {
        (DashboardView { tab: s.tab.following(), ..s }, CommandView::ClearStatus)
    } else if k == Key::Down || k == Key::Up {
        match s.tab {
            Tab::Php => (
                DashboardView { php_selected: moved(s.php_selected, s.php_len, key_delta(k)), ..s },
                CommandView::Nothing,
            ),
            Tab::Ext => (
                DashboardView { ext_selected: moved(s.ext_selected, s.ext_len, key_delta(k)), ..s },
                CommandView::Nothing,
            ),
            Tab::Doctor => (s, CommandView::Nothing),
        }
    } else if (k == Key::Left || k == Key::Right) && s.tab == Tab::Ext {
        if s.php_len == 0 {
            (s, CommandView::Nothing)
        } else {
            let i = moved(s.ext_php, s.php_len, key_delta(k)).unwrap();
            (DashboardView { ext_php: Some(i), ..s }, CommandView::LoadExt(i))
        }
    } else if k == Key::Char('a') && s.tab == Tab::Php {
        (DashboardView { input: InputView::AddName(seq![]), ..s }, CommandView::Nothing)
    } else if k == Key::Char('d') && s.tab == Tab::Php {
        match s.php_selected {
            Some(i) => if i < s.php_len {
                (s, CommandView::RemovePhp(i))
            } else {
                (s, CommandView::Nothing)
            },
            None => (s, CommandView::Nothing),
        }
    } else if k == Key::Char('x') && s.tab == Tab::Php && !s.archiving {
        (s, CommandView::ArchiveAll)
    } else if k == Key::Char('r') {
        match s.tab {
            Tab::Doctor => (s, CommandView::RefreshDoctor),
            Tab::Php => (s, CommandView::RefreshPhp),
            Tab::Ext => match s.ext_php {
                Some(i) => if i < s.php_len {
                    (s, CommandView::RefreshExt(i))
                } else {
                    (s, CommandView::Nothing)
                },
                None => (s, CommandView::Nothing),
            },
        }
    } else if k == Key::Enter && s.tab == Tab::Ext {
        match (s.ext_php, s.ext_selected) {
            (Some(p), Some(e)) => if p < s.php_len && e < s.ext_len {
                (s, CommandView::ToggleExt(p, e))
            } else {
                (s, CommandView::Nothing)
            },
            _ => (s, CommandView::Nothing),
        }
    } else {
        (s, CommandView::Nothing)
    }
}

/// The dashboard's answer to a key: its next state and the command for
/// the caller.
pub open spec fn step(s: DashboardView, k: Key) -> (DashboardView, CommandView) {
    match s.input {
        InputView::Normal => normal_step(s, k),
        InputView::AddName(buf) => if k == Key::Enter {
            if trim(buf).len() > 0 {
                (
                    DashboardView { input: InputView::AddPath(trim(buf), seq![]), ..s },
                    CommandView::Nothing,
                )
            } else {
                (s, CommandView::Nothing)
            }
        } else if k == Key::Esc {
            (DashboardView { input: InputView::Normal, ..s }, CommandView::Nothing)
        } else if k == Key::Backspace {
            (DashboardView { input: InputView::AddName(backspaced(buf)), ..s }, CommandView::Nothing)
        } else {
            match k {
                Key::Char(c) => (
                    DashboardView { input: InputView::AddName(buf.push(c)), ..s },
                    CommandView::Nothing,
                ),
                _ => (s, CommandView::Nothing),
            }
        },
        InputView::AddPath(name, buf) => if k == Key::Enter {
            (
                DashboardView { input: InputView::Normal, ..s },
                CommandView::Register(name, trim(buf)),
            )
        } else if k == Key::Esc {
            (DashboardView { input: InputView::Normal, ..s }, CommandView::Nothing)
        } else if k == Key::Backspace {
            (
                DashboardView { input: InputView::AddPath(name, backspaced(buf)), ..s },
                CommandView::Nothing,
            )
        } else {
            match k {
                Key::Char(c) => (
                    DashboardView { input: InputView::AddPath(name, buf.push(c)), ..s },
                    CommandView::Nothing,
                ),
                _ => (s, CommandView::Nothing),
            }
        },
    }
}

/// `move_selection`, stated with `moved`.
fn move_sel(sel: Option<usize>, len: usize, delta: i32) -> (r: Option<usize>)
    ensures
        r == moved(sel, len, delta as int),
{
    move_selection(sel, len, delta)
}

/// The characters of `buf` with whitespace trimmed at both ends.
fn trimmed(buf: &Vec<char>) -> (r: Vec<char>)
    ensures
        r@ == trim(buf@),
{
    assert(buf@.subrange(0, buf@.len() as int) == buf@);
    let (a, b) = trim_bounds(buf.as_slice(), 0, buf.len());
    sub_chars(buf.as_slice(), a, b)
}

/// A string of the characters `v`.
fn text_of(v: &Vec<char>) -> (s: String)
    ensures
        s@ == v@,
{
    crate::text::string_of(v.as_slice())
}

impl Dashboard {
    /// The dashboard as it opens: the PHP tab, the first PHP row and the
    /// first extension row (of the first PHP row) selected when there are
    /// any.
    pub fn new(php_len: usize, ext_len: usize) -> (d: Dashboard)
        ensures
            d@ == (DashboardView {
                tab: Tab::Php,
                input: InputView::Normal,
                php_selected: if php_len == 0 { None } else { Some(0usize) },
                php_len,
                ext_php: if php_len == 0 { None } else { Some(0usize) },
                ext_selected: if ext_len == 0 { None } else { Some(0usize) },
                ext_len,
                archiving: false,
            }),
    {
        Dashboard {
            tab: Tab::Php,
            input: Input::Normal,
            php_selected: if php_len == 0 { None } else { Some(0) },
            php_len,
            ext_php: if php_len == 0 { None } else { Some(0) },
            ext_selected: if ext_len == 0 { None } else { Some(0) },
            ext_len,
            archiving: false,
        }
    }

    /// Handles one key press (see `step`).
    pub fn press(&mut self, k: Key) -> (c: Command)
        ensures
            final(self)@ == step(old(self)@, k).0,
            c@ == step(old(self)@, k).1,
    {
        let mut input = Input::Normal;
        std::mem::swap(&mut input, &mut self.input);
        match input {
            Input::Normal => self.press_normal(k),
            Input::AddName(mut buf) => {
                if k == Key::Enter {
                    let name = trimmed(&buf);
                    if name.len() > 0 {
                        self.input = Input::AddPath(name, Vec::new());
                    } else {
                        self.input = Input::AddName(buf);
                    }
                } else if k == Key::Esc {
                } else if k == Key::Backspace {
                    if buf.len() > 0 {
                        buf.pop();
                    }
                    self.input = Input::AddName(buf);
                } else if let Key::Char(c) = k {
                    buf.push(c);
                    self.input = Input::AddName(buf);
                } else {
                    self.input = Input::AddName(buf);
                }
                Command::Nothing
            },
            Input::AddPath(name, mut buf) => {
                if k == Key::Enter {
                    let path = trimmed(&buf);
                    Command::Register(text_of(&name), text_of(&path))
                } else if k == Key::Esc {
                    Command::Nothing
                } else if k == Key::Backspace {
                    if buf.len() > 0 {
                        buf.pop();
                    }
                    self.input = Input::AddPath(name, buf);
                    Command::Nothing
                } else if let Key::Char(c) = k {
                    buf.push(c);
                    self.input = Input::AddPath(name, buf);
                    Command::Nothing
                } else {
                    self.input = Input::AddPath(name, buf);
                    Command::Nothing
                }
            },
        }
    }

    /// A key in normal mode (`self.input` is already `Normal`).
    fn press_normal(&mut self, k: Key) -> (c: Command)
        requires
            old(self).input is Normal,
        ensures
            final(self)@ == normal_step(old(self)@, k).0,
            c@ == normal_step(old(self)@, k).1,
    {
        if k == Key::Esc || k == Key::Char('q') {
            Command::Quit
        } else if k == Key::Tab {
            self.tab = self.tab.next();
            Command::ClearStatus
        } else if k == Key::Down || k == Key::Up {
            let d: i32 = if k == Key::Down { 1 } else { -1 };
            match self.tab {
                Tab::Php => {
                    self.php_selected = move_sel(self.php_selected, self.php_len, d);
                },
                Tab::Ext => {
                    self.ext_selected = move_sel(self.ext_selected, self.ext_len, d);
                },
                Tab::Doctor => {},
            }
            Command::Nothing
        } else if (k == Key::Left || k == Key::Right) && self.tab == Tab::Ext {
            if self.php_len == 0 {
                Command::Nothing
            } else {
                let d: i32 = if k == Key::Right { 1 } else { -1 };
                let i = move_sel(self.ext_php, self.php_len, d);
                match i {
                    Some(i) => {
                        self.ext_php = Some(i);
                        Command::LoadExt(i)
                    },
                    None => Command::Nothing,
                }
            }
        } else if k == Key::Char('a') && self.tab == Tab::Php {
            self.input = Input::AddName(Vec::new());
            Command::Nothing
        } else if k == Key::Char('d') && self.tab == Tab::Php {
            match self.php_selected {
                Some(i) => if i < self.php_len {
                    Command::RemovePhp(i)
                } else {
                    Command::Nothing
                },
                None => Command::Nothing,
            }
        } else if k == Key::Char('x') && self.tab == Tab::Php && !self.archiving {
            Command::ArchiveAll
        } else if k == Key::Char('r') {
            match self.tab {
                Tab::Doctor => Command::RefreshDoctor,
                Tab::Php => Command::RefreshPhp,
                Tab::Ext => match self.ext_php {
                    Some(i) => if i < self.php_len {
                        Command::RefreshExt(i)
                    } else {
                        Command::Nothing
                    },
                    None => Command::Nothing,
                },
            }
        } else if k == Key::Enter && self.tab == Tab::Ext {
            match (self.ext_php, self.ext_selected) {
                (Some(p), Some(e)) => if p < self.php_len && e < self.ext_len {
                    Command::ToggleExt(p, e)
                } else {
                    Command::Nothing
                },
                _ => Command::Nothing,
            }
        } else {
            Command::Nothing
        }
    }
}


/// The selection kept in bounds after a list changed to `len` rows.
pub open spec fn clamped(sel: Option<usize>, len: usize) -> Option<usize> {
    if len == 0 {
        None
    } else {
        let cur = match sel {
            Some(s) => s,
            None => 0usize,
        };
        Some(if cur < len { cur } else { (len - 1) as usize })
    }
}

/// Both list selections point at a row that exists.
pub open spec fn selections_in_bounds(s: DashboardView) -> bool {
    &&& (s.php_selected matches Some(i) ==> i < s.php_len)
    &&& (s.ext_selected matches Some(i) ==> i < s.ext_len)
}

/// The status line and whether it reports an error.
pub open spec fn archive_outcome(result: Result<Seq<char>, Seq<char>>) -> (Seq<char>, bool) {
    match result {
        Ok(summary) => (summary, false),
        Err(e) => ("Archiving failed: "@ + e, true),
    }
}

impl Dashboard {
    /// The PHP rows were reloaded and are now `len`: the selection is kept
    /// in bounds.
    pub fn php_rows_reloaded(&mut self, len: usize)
        ensures
            final(self)@ == (DashboardView {
                php_len: len,
                php_selected: clamped(old(self)@.php_selected, len),
                ..old(self)@
            }),
    {
        self.php_selected = select_index(self.php_selected, len);
        self.php_len = len;
    }

    /// The extension rows of the same PHP row were reloaded (after a
    /// refresh or a toggle) and are now `len`: the selection is kept in
    /// bounds.
    pub fn ext_rows_reloaded(&mut self, len: usize)
        ensures
            final(self)@ == (DashboardView {
                ext_len: len,
                ext_selected: clamped(old(self)@.ext_selected, len),
                ..old(self)@
            }),
    {
        self.ext_selected = select_index(self.ext_selected, len);
        self.ext_len = len;
    }

    /// The extension rows of another PHP row were loaded (`LoadExt`) and
    /// are `len`: the first is selected.
    pub fn ext_rows_switched(&mut self, len: usize)
        ensures
            final(self)@ == (DashboardView {
                ext_len: len,
                ext_selected: if len == 0 { None } else { Some(0usize) },
                ..old(self)@
            }),
    {
        self.ext_selected = select_index_or(len, 0);
        self.ext_len = len;
    }

    /// Answers `ArchiveAll`: with nothing registered there is nothing to
    /// archive (an error status); otherwise archiving starts. Returns the
    /// status line and whether it is an error.
    pub fn archive_requested(&mut self, registry_empty: bool) -> (r: (String, bool))
        ensures
            final(self)@ == (DashboardView {
                archiving: old(self)@.archiving || !registry_empty,
                ..old(self)@
            }),
            registry_empty ==> r.0@ == "No PHP versions registered yet — press 'a' to add one."@ && r.1,
            !registry_empty ==> r.0@ == "Archiving all registered PHP versions..."@ && !r.1,
    {
        if registry_empty {
            ("No PHP versions registered yet — press 'a' to add one.".to_owned(), true)
        } else {
            self.archiving = true;
            ("Archiving all registered PHP versions...".to_owned(), false)
        }
    }

    /// Background archiving ended with `result` (a summary, or why it
    /// failed). Returns the status line and whether it is an error.
    pub fn archive_finished(&mut self, result: &Result<String, String>) -> (r: (String, bool))
        ensures
            final(self)@ == (DashboardView { archiving: false, ..old(self)@ }),
            (r.0@, r.1) == archive_outcome(match result {
                Ok(s) => Ok(s@),
                Err(e) => Err(e@),
            }),
    {
        self.archiving = false;
        match result {
            Ok(summary) => (summary.clone(), false),
            Err(e) => {
                let mut m = String::new();
                crate::text::push_str(&mut m, "Archiving failed: ");
                crate::text::push_str(&mut m, e.as_str());
                (m, true)
            },
        }
    }
}

/// No key press moves a selection off its list: from a state whose
/// selections point at existing rows, every step leads to such a state.
pub proof fn law_step_keeps_selections(s: DashboardView, k: Key)
    requires
        selections_in_bounds(s),
    ensures
        selections_in_bounds(step(s, k).0),
{
    assert forall|sel: Option<usize>, len: usize, d: int| #![trigger moved(sel, len, d)]
        (moved(sel, len, d) matches Some(i) ==> i < len) by {
        if len > 0 {
            let c = match sel {
                Some(x) => x as int,
                None => 0int,
            };
            assert(0 <= (c + d) % (len as int) < len);
        }
    }
}

/// Reloading either list keeps its selection on an existing row.
pub proof fn law_reload_keeps_selections(sel: Option<usize>, len: usize)
    ensures
        clamped(sel, len) matches Some(i) ==> i < len,
        clamped(sel, len) is None <==> len == 0,
{
}

} // verus!
