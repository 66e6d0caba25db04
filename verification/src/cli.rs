//! Start-up decisions: which theme applies, and which packet a run works on.

use vstd::prelude::*;

use crate::config::AppConfig;
use crate::model::{files_view, Packet, PacketView, PACKET_VERSION};
use crate::paths::{file_name, is_absolute, join, path_file_name, path_is_absolute, path_join};
use crate::storage::{default_session_id, spec_default_session_id, workspace_root_string};
use crate::text::push_str;
use crate::theme::{names_theme, ThemeName};
use crate::util::{human_title, spec_human_title};

verus! {

pub open spec fn configured_theme(config: Option<&AppConfig>) -> Option<Seq<char>> {
    match config {
        Some(c) => c.theme.deep_view(),
        None => None,
    }
}

/// The theme for this run: the command line's, else the one the configuration
/// names, else the default (gruvbox dark).
pub fn resolve_theme(cli_theme: Option<ThemeName>, config: Option<&AppConfig>) -> (r: ThemeName)
    ensures
        cli_theme matches Some(t) ==> r == t,
        cli_theme is None ==> match configured_theme(config) {
            Some(s) => if exists|n: ThemeName| names_theme(s, n) {
                names_theme(s, r)
            } else {
                r == ThemeName::GruvboxDark
            },
            None => r == ThemeName::GruvboxDark,
        },
{
    if let Some(theme) = cli_theme {
        return theme;
    }
    if let Some(c) = config {
        if let Some(theme_str) = &c.theme {
            if let Some(theme) = ThemeName::parse_config(theme_str.as_str()) {
                return theme;
            }
        }
    }
    ThemeName::GruvboxDark
}

/// The title of a packet created for a root: the root's last component (or
/// the packet id when it has none) as a human title.
pub open spec fn root_title(root: Seq<char>) -> Seq<char> {
    match path_file_name(root) {
        Some(name) => spec_human_title(name),
        None => spec_human_title(spec_default_session_id(root)),
    }
}

pub open spec fn override_or(title_override: Option<Seq<char>>, fallback: Seq<char>) -> Seq<char> {
    match title_override {
        Some(t) => t,
        None => fallback,
    }
}

/// The packet a run works on. A loaded packet keeps its contents and is
/// brought up to date (version, root, id, any new title), stamped only when
/// something changed; `fresh` starts over while keeping the tracked files; with
/// nothing loaded a new packet is titled after the root.
pub fn build_packet(
    project_root: &str,
    title_override: Option<String>,
    fresh: bool,
    existing: Option<Packet>,
) -> (r: Packet)
    ensures
        r@.version == PACKET_VERSION,
        r@.workspace_root == project_root@,
        r@.session_id == spec_default_session_id(project_root@),
        match existing {
            Some(p) => if !fresh {
                &&& r@ == (PacketView {
                    version: PACKET_VERSION,
                    workspace_root: project_root@,
                    session_id: spec_default_session_id(project_root@),
                    title: override_or(title_override.deep_view(), p@.title),
                    updated_at: r@.updated_at,
                    ..p@
                })
                &&& (p@.version == PACKET_VERSION && p@.workspace_root == project_root@
                    && p@.session_id == spec_default_session_id(project_root@) && (
                title_override is None || title_override->0@ == p@.title)) ==> r@.updated_at
                    == p@.updated_at
            } else {
                &&& r@.title == override_or(title_override.deep_view(), p@.title)
                &&& r@.files == p@.files
                &&& r@.notes.len() == 0
                &&& r@.questions.len() == 0
            },
            None => {
                &&& r@.title == override_or(title_override.deep_view(), root_title(project_root@))
                &&& r@.files.len() == 0
                &&& r@.notes.len() == 0
                &&& r@.questions.len() == 0
            },
        },
{
    let workspace_root = workspace_root_string(project_root);
    let packet_id = default_session_id(project_root);
    match existing {
        Some(mut packet) => {
            if !fresh {
                let mut changed = false;
                if packet.version != PACKET_VERSION {
                    packet.version = PACKET_VERSION;
                    changed = true;
                }
                if !(packet.workspace_root == workspace_root) {
                    packet.workspace_root = workspace_root;
                    changed = true;
                }
                if !(packet.session_id == packet_id) {
                    packet.session_id = packet_id;
                    changed = true;
                }
                if let Some(title) = title_override {
                    if !(packet.title == title) {
                        packet.title = title;
                        changed = true;
                    }
                }
                if changed {
                    packet.touch();
                }
                packet
            } else {
                let title = match title_override {
                    Some(t) => t,
                    None => packet.title,
                };
                let r = Packet::new(packet_id, title, workspace_root, packet.files);
                r
            }
        },
        None => {
            let title = match title_override {
                Some(t) => t,
                None => match file_name(project_root) {
                    Some(name) => human_title(name.as_str()),
                    None => human_title(packet_id.as_str()),
                },
            };
            let r = Packet::new(packet_id, title, workspace_root, Vec::new());
            assert(r@.files =~= Seq::empty());
            r
        },
    }
}

// ---------------------------------------------------------------------------
// The command line.
// ---------------------------------------------------------------------------

/// The command line, as the program reads it.
#[derive(Debug, Clone)]
pub struct Cli {
    /// Source files to attach to the packet.
    pub files: Vec<String>,
    /// The session to open instead of the project's own.
    pub session: Option<String>,
    /// Title to use when a new packet is created.
    pub title: Option<String>,
    /// Recreate the packet, keeping its tracked files.
    pub fresh: bool,
    /// Print the packet's path and stop.
    pub print_packet_path: bool,
    /// Export the questions waiting for an agent reply and stop.
    pub export: bool,
    /// Print exports instead of copying them to the clipboard.
    pub stdout: bool,
    /// Review commits or uncommitted changes instead of the tracked files.
    pub diff: bool,
    /// Apply an agent response plan (a file, or `-` for standard input) and stop.
    pub apply_agent_response: Option<String>,
    /// Built-in UI theme.
    pub theme: Option<ThemeName>,
}

/// What a run does once its packet is built.
#[derive(Debug, Clone, PartialEq, Eq)]
pub enum RunMode {
    /// Apply the agent's response plan named by the argument, save, and stop.
    ApplyPlan(String),
    /// Print the packet's path and stop.
    PrintPath,
    /// Export the threads waiting for a reply, to standard output or the
    /// clipboard, and stop.
    Export { to_stdout: bool },
    /// Open the review session: over a diff or over the tracked files.
    Review { diff: bool, to_stdout: bool },
}

pub open spec fn missing_packet_text(root: Seq<char>) -> Seq<char> {
    "no copanion packet exists for "@ + root + "; run `copanion` there first"@
}

/// What the command line asks for: applying a plan comes first (and needs a
/// saved packet; otherwise the run is refused with a message naming the
/// root), then printing the path, then exporting, else the review session.
pub fn run_mode(cli: &Cli, root: &str, has_packet: bool) -> (r: Result<RunMode, String>)
    ensures
        match cli.apply_agent_response {
            Some(plan) => if has_packet {
                r matches Ok(RunMode::ApplyPlan(p)) && p@ == plan@
            } else {
                r matches Err(m) && m@ == missing_packet_text(root@)
            },
            None => if cli.print_packet_path {
                r == Ok::<RunMode, String>(RunMode::PrintPath)
            } else if cli.export {
                r == Ok::<RunMode, String>(RunMode::Export { to_stdout: cli.stdout })
            } else {
                r == Ok::<RunMode, String>(RunMode::Review { diff: cli.diff, to_stdout: cli.stdout })
            },
        },
{
    match &cli.apply_agent_response {
        Some(plan) => {
            if has_packet {
                Ok(RunMode::ApplyPlan(plan.clone()))
            } else {
                let mut m = "no copanion packet exists for ".to_string();
                push_str(&mut m, root);
                push_str(&mut m, "; run `copanion` there first");
                proof {
                    reveal_strlit("no copanion packet exists for ");
                    reveal_strlit("; run `copanion` there first");
                }
                Err(m)
            }
        },
        None => {
            if cli.print_packet_path {
                Ok(RunMode::PrintPath)
            } else if cli.export {
                Ok(RunMode::Export { to_stdout: cli.stdout })
            } else {
                Ok(RunMode::Review { diff: cli.diff, to_stdout: cli.stdout })
            }
        },
    }
}

/// The session a run opens: the one the command line names, else the
/// project's default session.
pub fn session_ref(cli: &Cli, root: &str) -> (r: String)
    ensures
        r@ == match cli.session {
            Some(s) => s@,
            None => spec_default_session_id(root@),
        },
{
    match &cli.session {
        Some(s) => s.clone(),
        None => default_session_id(root),
    }
}

pub open spec fn resolved_path(cwd: Seq<char>, file: Seq<char>) -> Seq<char> {
    if path_is_absolute(file) {
        file
    } else {
        path_join(cwd, file)
    }
}

/// The files to attach, each as given when absolute, else under the working
/// directory.
pub fn resolve_files(cwd: &str, files: &Vec<String>) -> (r: Vec<String>)
    ensures
        r@.len() == files@.len(),
        forall|i: int| 0 <= i < files@.len() ==> (#[trigger] r@[i])@ == resolved_path(cwd@, files@[i]@),
{
    let mut out: Vec<String> = Vec::new();
    let mut i: usize = 0;
    while i < files.len()
        invariant
            i <= files@.len(),
            out@.len() == i,
            forall|k: int| 0 <= k < i ==> (#[trigger] out@[k])@ == resolved_path(cwd@, files@[k]@),
        decreases files.len() - i,
    {
        let file = files[i].as_str();
        let resolved = if is_absolute(file) {
            file.to_string()
        } else {
            join(cwd, file)
        };
        out.push(resolved);
        i = i + 1;
    }
    out
}

} // verus!
