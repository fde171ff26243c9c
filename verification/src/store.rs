//! What the tables of the store hold: how an execution mode is written in a
//! row, and how the register of workspaces changes.

use crate::chars::{cat3, opt_text, str_eq, text_from};
use crate::json::{json_text, parse_json, Json, JsonV};
use crate::protocol::ExecMode;
use vstd::prelude::*;

verus! {

// ---------------------------------------------------------------------------
// Execution modes
// ---------------------------------------------------------------------------

/// The name under which an execution mode is stored.
pub open spec fn mode_row(mode: ExecMode) -> Seq<char> {
    match mode {
        ExecMode::ConfirmBeforeEdit => "ConfirmBeforeEdit"@,
        ExecMode::AutoEdit => "AutoEdit"@,
        ExecMode::Plan => "Plan"@,
        ExecMode::FullAccess => "FullAccess"@,
        ExecMode::Yolo => "Yolo"@,
    }
}

/// The name under which an execution mode is stored.
pub fn mode_to_row(mode: ExecMode) -> (r: &'static str)
    ensures
        r@ == mode_row(mode),
{
    match mode {
        ExecMode::ConfirmBeforeEdit => "ConfirmBeforeEdit",
        ExecMode::AutoEdit => "AutoEdit",
        ExecMode::Plan => "Plan",
        ExecMode::FullAccess => "FullAccess",
        ExecMode::Yolo => "Yolo",
    }
}

/// The execution mode of a name.
pub open spec fn mode_named(name: Seq<char>) -> Option<ExecMode> {
    if name == "ConfirmBeforeEdit"@ {
        Some(ExecMode::ConfirmBeforeEdit)
    } else if name == "AutoEdit"@ {
        Some(ExecMode::AutoEdit)
    } else if name == "Plan"@ {
        Some(ExecMode::Plan)
    } else if name == "FullAccess"@ {
        Some(ExecMode::FullAccess)
    } else if name == "Yolo"@ {
        Some(ExecMode::Yolo)
    } else {
        None
    }
}

fn find_mode(name: &str) -> (r: Option<ExecMode>)
    ensures
        r == mode_named(name@),
{
    if str_eq(name, "ConfirmBeforeEdit") {
        Some(ExecMode::ConfirmBeforeEdit)
    } else if str_eq(name, "AutoEdit") {
        Some(ExecMode::AutoEdit)
    } else if str_eq(name, "Plan") {
        Some(ExecMode::Plan)
    } else if str_eq(name, "FullAccess") {
        Some(ExecMode::FullAccess)
    } else if str_eq(name, "Yolo") {
        Some(ExecMode::Yolo)
    } else {
        None
    }
}

/// The execution mode that a row holds: the one of that name, written plainly
/// or as in a JSON string. Anything else counts as the most careful one.
pub open spec fn mode_in_row(raw: Seq<char>) -> ExecMode {
    match mode_named(raw) {
        Some(m) => m,
        None => match json_text("\""@ + raw + "\""@) {
            Some(JsonV::Str(s)) => match mode_named(s) {
                Some(m) => m,
                None => ExecMode::ConfirmBeforeEdit,
            },
            _ => ExecMode::ConfirmBeforeEdit,
        },
    }
}

/// Reads the execution mode of a row.
pub fn mode_from_row(raw: &str) -> (r: ExecMode)
    ensures
        r == mode_in_row(raw@),
{
    match find_mode(raw) {
        Some(m) => return m,
        None => {},
    }
    match parse_json(cat3("\"", raw, "\"").as_str()) {
        Some(Json::Str(s)) => match find_mode(s.as_str()) {
            Some(m) => m,
            None => ExecMode::ConfirmBeforeEdit,
        },
        _ => ExecMode::ConfirmBeforeEdit,
    }
}

// ---------------------------------------------------------------------------
// Workspaces
// ---------------------------------------------------------------------------

/// A workspace of the register.
#[derive(Debug, PartialEq)]
pub struct WorkspaceMeta {
    pub path: String,
    pub added_at: u64,
    /// The name under which the user sees it.
    pub alias: Option<String>,
    pub hidden: bool,
}

/// What a `WorkspaceMeta` says.
#[verifier::ext_equal]
pub struct WorkspaceMetaV {
    pub path: Seq<char>,
    pub added_at: u64,
    pub alias: Option<Seq<char>>,
    pub hidden: bool,
}

impl View for WorkspaceMeta {
    type V = WorkspaceMetaV;

    open spec fn view(&self) -> WorkspaceMetaV {
        WorkspaceMetaV {
            path: self.path@,
            added_at: self.added_at,
            alias: opt_text(self.alias),
            hidden: self.hidden,
        }
    }
}

/// What an optional entry says.
pub open spec fn opt_entry(v: Option<WorkspaceMeta>) -> Option<WorkspaceMetaV> {
    match v {
        Some(w) => Some(w@),
        None => None,
    }
}

/// The entry that replaces `known` when the workspace is added; none where
/// nothing changes. A hidden workspace comes back with its name.
pub open spec fn added_workspace(
    known: Option<WorkspaceMetaV>,
    path: Seq<char>,
    now: u64,
) -> Option<WorkspaceMetaV> {
    match known {
        Some(w) => if w.hidden {
            Some(WorkspaceMetaV { hidden: false, ..w })
        } else {
            None
        },
        None => Some(WorkspaceMetaV { path, added_at: now, alias: None, hidden: false }),
    }
}

/// The entry that replaces `known` when the workspace gets another name.
pub open spec fn renamed_workspace(
    known: Option<WorkspaceMetaV>,
    path: Seq<char>,
    alias: Option<Seq<char>>,
    now: u64,
) -> WorkspaceMetaV {
    match known {
        Some(w) => WorkspaceMetaV { alias, ..w },
        None => WorkspaceMetaV { path, added_at: now, alias, hidden: false },
    }
}

/// The entry that replaces `known` when the workspace is hidden; none where
/// nothing changes.
pub open spec fn hidden_workspace(
    known: Option<WorkspaceMetaV>,
    path: Seq<char>,
    now: u64,
) -> Option<WorkspaceMetaV> {
    match known {
        Some(w) => if w.hidden {
            None
        } else {
            Some(WorkspaceMetaV { hidden: true, ..w })
        },
        None => Some(WorkspaceMetaV { path, added_at: now, alias: None, hidden: true }),
    }
}

/// The entry that replaces `known` when the workspace is shown again; none
/// where nothing changes.
pub open spec fn unhidden_workspace(known: Option<WorkspaceMetaV>) -> Option<WorkspaceMetaV> {
    match known {
        Some(w) => if w.hidden {
            Some(WorkspaceMetaV { hidden: false, ..w })
        } else {
            None
        },
        None => None,
    }
}

/// Adds a workspace to the register: what is to be written in place of the
/// entry `known`, if anything.
pub fn add_workspace(known: Option<WorkspaceMeta>, path: &str, now: u64) -> (r: Option<
    WorkspaceMeta,
>)
    ensures
        opt_entry(r) == added_workspace(opt_entry(known), path@, now),
{
    match known {
        Some(w) => if w.hidden {
            Some(WorkspaceMeta { hidden: false, ..w })
        } else {
            None
        },
        None => Some(
            WorkspaceMeta { path: text_from(path), added_at: now, alias: None, hidden: false },
        ),
    }
}

/// Gives a workspace another name, or none: what is to be written in place of
/// the entry `known`.
pub fn rename_workspace(
    known: Option<WorkspaceMeta>,
    path: &str,
    alias: Option<String>,
    now: u64,
) -> (r: WorkspaceMeta)
    ensures
        r@ == renamed_workspace(opt_entry(known), path@, opt_text(alias), now),
{
    match known {
        Some(w) => WorkspaceMeta { alias, ..w },
        None => WorkspaceMeta { path: text_from(path), added_at: now, alias, hidden: false },
    }
}

/// Hides a workspace: what is to be written in place of the entry `known`, if
/// anything.
pub fn hide_workspace(known: Option<WorkspaceMeta>, path: &str, now: u64) -> (r: Option<
    WorkspaceMeta,
>)
    ensures
        opt_entry(r) == hidden_workspace(opt_entry(known), path@, now),
{
    match known {
        Some(w) => if w.hidden {
            None
        } else {
            Some(WorkspaceMeta { hidden: true, ..w })
        },
        None => Some(
            WorkspaceMeta { path: text_from(path), added_at: now, alias: None, hidden: true },
        ),
    }
}

/// Shows a workspace again: what is to be written in place of the entry
/// `known`, if anything.
pub fn unhide_workspace(known: Option<WorkspaceMeta>) -> (r: Option<WorkspaceMeta>)
    ensures
        opt_entry(r) == unhidden_workspace(opt_entry(known)),
{
    match known {
        Some(w) => if w.hidden {
            Some(WorkspaceMeta { hidden: false, ..w })
        } else {
            None
        },
        None => None,
    }
}

/// The entry of a workspace after a change: what was written, or else the one
/// that was known.
pub open spec fn entry_after(
    known: Option<WorkspaceMetaV>,
    written: Option<WorkspaceMetaV>,
) -> Option<WorkspaceMetaV> {
    match written {
        Some(w) => Some(w),
        None => known,
    }
}

// ---------------------------------------------------------------------------
// Laws
// ---------------------------------------------------------------------------

/// An execution mode is read back from its row as it was written.
pub proof fn law_mode_reads_back(mode: ExecMode)
    ensures
        mode_in_row(mode_row(mode)) == mode,
{
    reveal_strlit("ConfirmBeforeEdit");
    reveal_strlit("AutoEdit");
    reveal_strlit("Plan");
    reveal_strlit("FullAccess");
    reveal_strlit("Yolo");
    assert("ConfirmBeforeEdit"@.len() == 17);
    assert("AutoEdit"@.len() == 8);
    assert("FullAccess"@.len() == 10);
    assert("Plan"@.len() == 4);
    assert("Yolo"@.len() == 4);
    assert("Plan"@[0] == 'P');
    assert("Yolo"@[0] == 'Y');
}

/// A workspace that was added is in the register and not hidden, and adding it
/// again changes nothing.
pub proof fn law_add_workspace_twice(
    known: Option<WorkspaceMetaV>,
    path: Seq<char>,
    now: u64,
    later: u64,
)
    ensures
        entry_after(known, added_workspace(known, path, now)) is Some,
        !entry_after(known, added_workspace(known, path, now))->0.hidden,
        added_workspace(entry_after(known, added_workspace(known, path, now)), path, later) is None,
{
}

/// Hiding a workspace and showing it again gives back its entry, name and all.
pub proof fn law_hide_and_show(w: WorkspaceMetaV, now: u64)
    requires
        !w.hidden,
    ensures
        entry_after(
            hidden_workspace(Some(w), w.path, now),
            unhidden_workspace(hidden_workspace(Some(w), w.path, now)),
        ) == Some(w),
        entry_after(
            hidden_workspace(Some(w), w.path, now),
            added_workspace(hidden_workspace(Some(w), w.path, now), w.path, now),
        ) == Some(w),
{
}

/// Another name changes nothing of a workspace but its name, hiding nothing but
/// whether it is shown; a workspace that is not known begins with its path and
/// the time.
pub proof fn law_changes_keep_the_rest(
    w: WorkspaceMetaV,
    path: Seq<char>,
    alias: Option<Seq<char>>,
    now: u64,
)
    ensures
        ({
            let r = renamed_workspace(Some(w), path, alias, now);
            r.alias == alias && r.path == w.path && r.added_at == w.added_at && r.hidden
                == w.hidden
        }),
        hidden_workspace(Some(w), path, now) matches Some(h) ==> h.hidden && h.path == w.path
            && h.alias == w.alias && h.added_at == w.added_at,
        added_workspace(Some(w), path, now) matches Some(a) ==> !a.hidden && a.path == w.path
            && a.alias == w.alias && a.added_at == w.added_at,
        added_workspace(None, path, now) matches Some(a) && a.path == path && a.added_at == now
            && a.alias is None && !a.hidden,
        ({
            let r = renamed_workspace(None, path, alias, now);
            r.alias == alias && r.path == path && r.added_at == now && !r.hidden
        }),
{
}

} // verus!
