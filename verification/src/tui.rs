//! The decisions behind `rux tui`: its tabs, list selection, the rows it
//! shows and the status lines it reports. Drawing with `ratatui`, reading
//! keys and running background work are the caller's side.
use vstd::prelude::*;
use crate::error::LauncherError;
use crate::ext::{AvailableExtension, ExtensionStatus, ToggleOutcome};
use crate::text::{decimal, decimal_string, push_str};

verus! {

/// The dashboard's tabs.
#[derive(Debug, Clone, Copy, PartialEq, Eq, Structural)]
pub enum Tab {
    Php,
    Ext,
    Doctor,
}

impl Tab {
    /// The tab titles, in order.
    pub fn titles() -> (r: [&'static str; 3])
        ensures
            r[0]@ == "PHP Versions"@,
            r[1]@ == "Extensions"@,
            r[2]@ == "Doctor"@,
    {
        ["PHP Versions", "Extensions", "Doctor"]
    }

    /// The tab's position among the titles.
    pub open spec fn spec_position(self) -> nat {
        match self {
            Tab::Php => 0,
            Tab::Ext => 1,
            Tab::Doctor => 2,
        }
    }

    /// The tab's position among the titles.
    pub fn index(self) -> (i: usize)
        ensures
            i == self.spec_position(),
    {
        match self {
            Tab::Php => 0,
            Tab::Ext => 1,
            Tab::Doctor => 2,
        }
    }

    /// The tab after this one, wrapping around.
    pub open spec fn following(self) -> Tab {
        match self {
            Tab::Php => Tab::Ext,
            Tab::Ext => Tab::Doctor,
            Tab::Doctor => Tab::Php,
        }
    }

    /// The tab after this one, wrapping around.
    pub fn next(self) -> (t: Tab)
        ensures
            t == self.following(),
            t.spec_position() == (self.spec_position() + 1) % 3,
    {
        match self {
            Tab::Php => Tab::Ext,
            Tab::Ext => Tab::Doctor,
            Tab::Doctor => Tab::Php,
        }
    }
}

/// Three steps of `next` come back to the same tab.
pub proof fn law_tab_cycle(t: Tab)
    ensures
        t.following().following().following() == t,
{
}

/// The footer's key help for a tab.
pub fn help_text(tab: Tab) -> (s: &'static str)
    ensures
        s@ == match tab {
            Tab::Php => "Tab: switch view  ↑/↓: select  a: add  d: remove  x: archive all  r: refresh  q: quit"@,
            Tab::Ext => "Tab: switch view  ↑/↓: select ext  ←/→: switch PHP  Enter: toggle  q: quit"@,
            Tab::Doctor => "Tab: switch view  r: refresh  q: quit"@,
        },
{
    match tab {
        Tab::Php => "Tab: switch view  ↑/↓: select  a: add  d: remove  x: archive all  r: refresh  q: quit",
        Tab::Ext => "Tab: switch view  ↑/↓: select ext  ←/→: switch PHP  Enter: toggle  q: quit",
        Tab::Doctor => "Tab: switch view  r: refresh  q: quit",
    }
}

/// For `k >= 0`, `-k` modulo `n` is `0` when `n` divides `k`, else
/// `n - k % n`.
proof fn lemma_mod_of_negative(k: int, n: int)
    requires
        k >= 0,
        n > 0,
    ensures
        (-k) % n == if k % n == 0 {
            0
        } else {
            n - k % n
        },
{
    vstd::arithmetic::div_mod::lemma_fundamental_div_mod(k, n);
    let q = k / n;
    let m = k % n;
    assert(0 <= m < n) by {
        vstd::arithmetic::div_mod::lemma_mod_bound(k, n);
    }
    if m == 0 {
        assert(-k == (-q) * n + 0) by (nonlinear_arith)
            requires
                k == n * q + m,
                m == 0,
        ;
        vstd::arithmetic::div_mod::lemma_fundamental_div_mod_converse(-k, n, -q, 0);
    } else {
        assert(-k == (-q - 1) * n + (n - m)) by (nonlinear_arith)
            requires
                k == n * q + m,
        ;
        vstd::arithmetic::div_mod::lemma_fundamental_div_mod_converse(-k, n, -q - 1, n - m);
    }
}

/// `(current + delta)` wrapped into `0..len`, as `rem_euclid` does.
pub fn wrap_index(current: usize, delta: i32, len: usize) -> (r: usize)
    requires
        len > 0,
    ensures
        r as int == (current as int + delta as int) % (len as int),
        r < len,
{
    let n = len as u128;
    if delta >= 0 {
        let x: u128 = current as u128 + delta as u128;
        (x % n) as usize
    } else {
        let back: u128 = (0i64 - (delta as i64)) as u128;
        let c = current as u128;
        if c >= back {
            ((c - back) % n) as usize
        } else {
            let m = (back - c) % n;
            proof {
                lemma_mod_of_negative((back - c) as int, n as int);
                assert(current as int + delta as int == -((back - c) as int));
            }
            if m == 0 {
                0
            } else {
                (n - m) as usize
            }
        }
    }
}

/// The selection after moving it by `delta` in a list of `len` items,
/// wrapping around; nothing is selected in an empty list.
pub fn move_selection(selected: Option<usize>, len: usize, delta: i32) -> (r: Option<usize>)
    ensures
        len == 0 ==> r is None,
        len > 0 ==> (r matches Some(i) && i as int == (match selected {
            Some(s) => s as int,
            None => 0int,
        } + delta as int) % (len as int)),
{
    if len == 0 {
        return None;
    }
    let current = match selected {
        Some(s) => s,
        None => 0,
    };
    Some(wrap_index(current, delta, len))
}

/// The selection kept in bounds after the list changed to `len` items.
pub fn select_index(selected: Option<usize>, len: usize) -> (r: Option<usize>)
    ensures
        len == 0 ==> r is None,
        len > 0 ==> (r matches Some(i) && i == ({
            let cur = match selected {
                Some(s) => s,
                None => 0usize,
            };
            if cur < len {
                cur
            } else {
                (len - 1) as usize
            }
        })),
{
    if len == 0 {
        return None;
    }
    let current = match selected {
        Some(s) => s,
        None => 0,
    };
    if current < len - 1 {
        Some(current)
    } else {
        Some(len - 1)
    }
}

/// Selects `want`, kept in bounds, in a list of `len` items.
pub fn select_index_or(len: usize, want: usize) -> (r: Option<usize>)
    ensures
        len == 0 ==> r is None,
        len > 0 ==> r == Some(if want < len { want } else { (len - 1) as usize }),
{
    if len == 0 {
        return None;
    }
    if want < len - 1 {
        Some(want)
    } else {
        Some(len - 1)
    }
}

/// One row of the Extensions tab.
#[derive(Debug, Clone)]
pub struct ExtRow {
    pub name: String,
    pub enabled: bool,
    pub configured: bool,
}

/// The Extensions tab's rows: what php.ini configures, then what `ext/`
/// offers besides.
pub fn ext_rows(configured: &Vec<ExtensionStatus>, available: &Vec<AvailableExtension>) -> (r: Vec<ExtRow>)
    ensures
        r.len() == configured.len() + available.len(),
        forall|i: int| 0 <= i < configured.len() ==> {
            &&& (#[trigger] r@[i]).name@ == configured@[i].name@
            &&& r@[i].enabled == configured@[i].enabled
            &&& r@[i].configured
        },
        forall|i: int| 0 <= i < available.len() ==> {
            &&& (#[trigger] r@[configured.len() + i]).name@ == available@[i].name@
            &&& !r@[configured.len() + i].enabled
            &&& !r@[configured.len() + i].configured
        },
{
    let mut rows: Vec<ExtRow> = Vec::new();
    for i in 0..configured.len()
        invariant
            rows.len() == i,
            forall|k: int| 0 <= k < i ==> {
                &&& (#[trigger] rows@[k]).name@ == configured@[k].name@
                &&& rows@[k].enabled == configured@[k].enabled
                &&& rows@[k].configured
            },
    {
        let c = &configured[i];
        let nm = c.name.clone();
        rows.push(ExtRow { name: nm, enabled: c.enabled, configured: true });
        assert(rows@[i as int].name@ == configured@[i as int].name@);
    }
    let n = configured.len();
    for i in 0..available.len()
        invariant
            n == configured.len(),
            rows.len() == n + i,
            forall|k: int| 0 <= k < n ==> {
                &&& (#[trigger] rows@[k]).name@ == configured@[k].name@
                &&& rows@[k].enabled == configured@[k].enabled
                &&& rows@[k].configured
            },
            forall|k: int| 0 <= k < i ==> {
                &&& (#[trigger] rows@[n + k]).name@ == available@[k].name@
                &&& !rows@[n + k].enabled
                &&& !rows@[n + k].configured
            },
    {
        let nm = available[i].name.clone();
        rows.push(ExtRow { name: nm, enabled: false, configured: false });
        assert(rows@[n + i].name@ == available@[i as int].name@);
    }
    rows
}

/// `enabled` or `disabled`.
pub open spec fn state_word(enabling: bool) -> Seq<char> {
    if enabling {
        "enabled"@
    } else {
        "disabled"@
    }
}

/// The status line for toggling the extension `name` on (`enabling`) or
/// off, by what `set_enabled` reported.
pub fn toggle_message(name: &str, enabling: bool, outcome: ToggleOutcome) -> (r: Result<String, LauncherError>)
    ensures
        match outcome {
            ToggleOutcome::Changed => r matches Ok(s) && s@ == "'"@ + name@ + "' is now "@ + state_word(enabling) + "."@,
            ToggleOutcome::AddedNewLine => r matches Ok(s) && s@ == "'"@ + name@ + "' enabled (new line added to php.ini)."@,
            ToggleOutcome::AlreadyInThatState => r matches Ok(s) && s@ == "'"@ + name@ + "' was already "@ + state_word(enabling) + "."@,
            ToggleOutcome::NotAvailable => r matches Err(LauncherError::Extraction(s)) && s@ == "'"@ + name@ + "' isn't configured and no matching DLL was found in ext/."@,
        },
{
    let word = if enabling {
        "enabled"
    } else {
        "disabled"
    };
    let mut s = String::new();
    push_str(&mut s, "'");
    push_str(&mut s, name);
    match outcome {
        ToggleOutcome::Changed => {
            push_str(&mut s, "' is now ");
            push_str(&mut s, word);
            push_str(&mut s, ".");
            Ok(s)
        },
        ToggleOutcome::AddedNewLine => {
            push_str(&mut s, "' enabled (new line added to php.ini).");
            Ok(s)
        },
        ToggleOutcome::AlreadyInThatState => {
            push_str(&mut s, "' was already ");
            push_str(&mut s, word);
            push_str(&mut s, ".");
            Ok(s)
        },
        ToggleOutcome::NotAvailable => {
            push_str(&mut s, "' isn't configured and no matching DLL was found in ext/.");
            Err(LauncherError::Extraction(s))
        },
    }
}

/// The status line after archiving every registered PHP install.
pub fn archive_summary(ok: u64, failed: u64) -> (r: String)
    ensures
        r@ == if failed == 0 {
            "Archived "@ + decimal(ok as nat) + " PHP version(s)."@
        } else {
            "Archived "@ + decimal(ok as nat) + " PHP version(s), "@ + decimal(failed as nat)
                + " failed (check `rux php list`)."@
        },
{
    let mut s = String::new();
    push_str(&mut s, "Archived ");
    let o = decimal_string(ok);
    push_str(&mut s, o.as_str());
    if failed == 0 {
        push_str(&mut s, " PHP version(s).");
    } else {
        push_str(&mut s, " PHP version(s), ");
        let f = decimal_string(failed);
        push_str(&mut s, f.as_str());
        push_str(&mut s, " failed (check `rux php list`).");
    }
    s
}

} // verus!
