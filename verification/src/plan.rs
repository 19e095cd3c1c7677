//! Turning a command into the work it takes, on both sides of the privilege
//! drop.
//!
//! Each command is one arm of [`plan`]: what it does as root, and what it does
//! afterwards as the account. A command cannot be added without deciding both.

use vstd::prelude::*;

use crate::cli::{AdminCommands, Commands};
use crate::cli;
use crate::sys::output;
use crate::sys::output::Response;

verus! {

/// A piece of work that needs root. What it is about stands in the command.
#[derive(Debug, Clone, Copy, PartialEq, Eq, Structural)]
pub enum RootWork {
    /// Read the account's allowance, which is the pool that the limits of its
    /// apps are divided from, and which is unreadable after the drop.
    ReadAllowance,
    /// Apply the allowance to the account's slice.
    CapSlice,
    /// Push the limits onto the account's running apps.
    ReapplyLimits,
    /// The same, with the app of the command treated as already gone.
    ReapplyLimitsExcluding,
    /// Bring the app and its whole process tree down.
    StopTree,
    /// Launch the app into a scope of its own (see [`spawn_for`]).
    SpawnIntoScope,
    /// Write the file that says what to execute.
    CreateAppFile,
    /// Load the app's metadata and remove its file.
    RemoveAppFile,
    /// Record the runtime in the app's file.
    UpdateNodeVersion,
    /// Record the memory cap in the app's file.
    ApplyMemoryMax,
    /// Record the isolation mode and restart the running apps.
    SwitchIsolation,
    /// Stop the account's apps that bound an externally reachable port.
    SweepAccount,
    ReadDomains,
    SetLocaleUser,
    CollectAdminList,
    RunDiagnostic,
    SaveNodeVersions,
    SaveDefaultIsolated,
    SetLocaleGlobal,
}

/// What a command does as the account, once privileges have been dropped.
#[derive(Debug, Clone, Copy, PartialEq, Eq, Structural)]
pub enum Deferred {
    List,
    Status,
    StatusIsolated,
    Logs,
    Stats,
    Domains,
    Start,
    Stop,
    Restart,
    Add,
    Remove,
    SetNodeVersion,
    SetMemoryMax,
    SetIsolated,
    NetguardReport,
    /// Answers with what the work as root produced.
    EmitPreludeResult,
    AdminVersion,
    AdminList,
    AdminDetectNodes,
}

/// Both sides of a command.
pub struct Plan {
    pub root: Vec<RootWork>,
    pub after: Deferred,
}

/// What a command does as root, in order.
pub open spec fn root_side(c: Commands) -> Seq<RootWork> {
    match c {
        Commands::List => Seq::empty(),
        Commands::Status { .. } => Seq::empty(),
        Commands::StatusIsolated => Seq::empty(),
        Commands::Logs { .. } => Seq::empty(),
        Commands::Stats { .. } => seq![RootWork::ReadAllowance, RootWork::CapSlice],
        Commands::Domains { .. } => seq![RootWork::ReadDomains],
        Commands::SetLocale { .. } => seq![RootWork::SetLocaleUser],
        Commands::Start { .. } => seq![
            RootWork::ReadAllowance,
            RootWork::CapSlice,
            RootWork::SpawnIntoScope,
        ],
        Commands::Stop { .. } => seq![
            RootWork::ReadAllowance,
            RootWork::CapSlice,
            RootWork::ReapplyLimitsExcluding,
        ],
        Commands::Restart { .. } => seq![
            RootWork::ReadAllowance,
            RootWork::CapSlice,
            RootWork::StopTree,
            RootWork::SpawnIntoScope,
        ],
        Commands::Add { .. } => seq![RootWork::CreateAppFile],
        Commands::Remove { .. } => seq![
            RootWork::ReadAllowance,
            RootWork::CapSlice,
            RootWork::ReapplyLimitsExcluding,
            RootWork::RemoveAppFile,
        ],
        Commands::SetNodeVersion { .. } => seq![RootWork::UpdateNodeVersion],
        Commands::SetMemoryMax { .. } => seq![
            RootWork::ReadAllowance,
            RootWork::ApplyMemoryMax,
            RootWork::CapSlice,
            RootWork::ReapplyLimits,
        ],
        Commands::SetIsolated { .. } => seq![RootWork::SwitchIsolation],
        Commands::Netguard { .. } => seq![RootWork::SweepAccount],
        Commands::BootRecover => Seq::empty(),
        Commands::SyncProxy => Seq::empty(),
        Commands::Setup => Seq::empty(),
        Commands::Teardown => Seq::empty(),
        Commands::Admin { command } => match command {
            AdminCommands::Version => Seq::empty(),
            AdminCommands::DetectNodes => Seq::empty(),
            AdminCommands::List => seq![RootWork::CollectAdminList],
            AdminCommands::Diagnose => seq![RootWork::RunDiagnostic],
            AdminCommands::SaveNodeVersions { .. } => seq![RootWork::SaveNodeVersions],
            AdminCommands::SaveDefaultIsolated { .. } => seq![RootWork::SaveDefaultIsolated],
            AdminCommands::SetLocale { .. } => seq![RootWork::SetLocaleGlobal],
        },
    }
}

/// What a command does as the account. Maintenance has no such side: it never
/// gets this far.
pub open spec fn account_side(c: Commands) -> Option<Deferred> {
    match c {
        Commands::List => Some(Deferred::List),
        Commands::Status { .. } => Some(Deferred::Status),
        Commands::StatusIsolated => Some(Deferred::StatusIsolated),
        Commands::Logs { .. } => Some(Deferred::Logs),
        Commands::Stats { .. } => Some(Deferred::Stats),
        Commands::Domains { .. } => Some(Deferred::Domains),
        Commands::SetLocale { .. } => Some(Deferred::EmitPreludeResult),
        Commands::Start { .. } => Some(Deferred::Start),
        Commands::Stop { .. } => Some(Deferred::Stop),
        Commands::Restart { .. } => Some(Deferred::Restart),
        Commands::Add { .. } => Some(Deferred::Add),
        Commands::Remove { .. } => Some(Deferred::Remove),
        Commands::SetNodeVersion { .. } => Some(Deferred::SetNodeVersion),
        Commands::SetMemoryMax { .. } => Some(Deferred::SetMemoryMax),
        Commands::SetIsolated { .. } => Some(Deferred::SetIsolated),
        Commands::Netguard { .. } => Some(Deferred::NetguardReport),
        Commands::BootRecover => None,
        Commands::SyncProxy => None,
        Commands::Setup => None,
        Commands::Teardown => None,
        Commands::Admin { command } => match command {
            AdminCommands::Version => Some(Deferred::AdminVersion),
            AdminCommands::DetectNodes => Some(Deferred::AdminDetectNodes),
            AdminCommands::List => Some(Deferred::AdminList),
            AdminCommands::Diagnose => Some(Deferred::EmitPreludeResult),
            AdminCommands::SaveNodeVersions { .. } => Some(Deferred::EmitPreludeResult),
            AdminCommands::SaveDefaultIsolated { .. } => Some(Deferred::EmitPreludeResult),
            AdminCommands::SetLocale { .. } => Some(Deferred::EmitPreludeResult),
        },
    }
}

/// The answer to maintenance that was asked for as if it had an account.
pub open spec fn misplaced() -> output::ResponseV {
    output::broken("internal"@, "server-wide commands run before the privilege drop"@)
}

fn admin_plan(command: &AdminCommands) -> (r: Plan)
    ensures
        r.root@ == root_side(Commands::Admin { command: *command }),
        Some(r.after) == account_side(Commands::Admin { command: *command }),
{
    let mut root: Vec<RootWork> = Vec::new();
    let after = match command {
        AdminCommands::Version => Deferred::AdminVersion,
        AdminCommands::DetectNodes => Deferred::AdminDetectNodes,
        AdminCommands::List => {
            root.push(RootWork::CollectAdminList);
            Deferred::AdminList
        },
        AdminCommands::Diagnose => {
            root.push(RootWork::RunDiagnostic);
            Deferred::EmitPreludeResult
        },
        AdminCommands::SaveNodeVersions { .. } => {
            root.push(RootWork::SaveNodeVersions);
            Deferred::EmitPreludeResult
        },
        AdminCommands::SaveDefaultIsolated { .. } => {
            root.push(RootWork::SaveDefaultIsolated);
            Deferred::EmitPreludeResult
        },
        AdminCommands::SetLocale { .. } => {
            root.push(RootWork::SetLocaleGlobal);
            Deferred::EmitPreludeResult
        },
    };
    assert(root@ =~= root_side(Commands::Admin { command: *command }));
    Plan { root, after }
}

/// Decides what a command does, as root and afterwards.
///
/// A restart stops the app while still root: that is what lets the respawn land
/// in a fresh scope. Spawned after the drop it would land outside systemd
/// altogether, escaping the account's cap and invisible to the sweep.
pub fn plan(c: &Commands) -> (r: Result<Plan, Response>)
    ensures
        match r {
            Ok(p) => account_side(*c) == Some(p.after) && p.root@ == root_side(*c),
            Err(e) => account_side(*c) is None && e@ == misplaced(),
        },
{
    let mut root: Vec<RootWork> = Vec::new();
    let after = match c {
        Commands::List => Deferred::List,
        Commands::Status { .. } => Deferred::Status,
        Commands::StatusIsolated => Deferred::StatusIsolated,
        Commands::Logs { .. } => Deferred::Logs,
        Commands::Stats { .. } => {
            root.push(RootWork::ReadAllowance);
            root.push(RootWork::CapSlice);
            Deferred::Stats
        },
        Commands::Domains { .. } => {
            root.push(RootWork::ReadDomains);
            Deferred::Domains
        },
        Commands::SetLocale { .. } => {
            root.push(RootWork::SetLocaleUser);
            Deferred::EmitPreludeResult
        },
        Commands::Start { .. } => {
            root.push(RootWork::ReadAllowance);
            root.push(RootWork::CapSlice);
            root.push(RootWork::SpawnIntoScope);
            Deferred::Start
        },
        // Stopping frees the app's share, so the survivors are resized while
        // its scope is still alive.
        Commands::Stop { .. } => {
            root.push(RootWork::ReadAllowance);
            root.push(RootWork::CapSlice);
            root.push(RootWork::ReapplyLimitsExcluding);
            Deferred::Stop
        },
        Commands::Restart { .. } => {
            root.push(RootWork::ReadAllowance);
            root.push(RootWork::CapSlice);
            root.push(RootWork::StopTree);
            root.push(RootWork::SpawnIntoScope);
            Deferred::Restart
        },
        Commands::Add { .. } => {
            root.push(RootWork::CreateAppFile);
            Deferred::Add
        },
        Commands::Remove { .. } => {
            root.push(RootWork::ReadAllowance);
            root.push(RootWork::CapSlice);
            root.push(RootWork::ReapplyLimitsExcluding);
            root.push(RootWork::RemoveAppFile);
            Deferred::Remove
        },
        Commands::SetNodeVersion { .. } => {
            root.push(RootWork::UpdateNodeVersion);
            Deferred::SetNodeVersion
        },
        // A pin applies to the live scope at once; waiting for a restart would
        // leave the app on its old, larger ceiling.
        Commands::SetMemoryMax { .. } => {
            root.push(RootWork::ReadAllowance);
            root.push(RootWork::ApplyMemoryMax);
            root.push(RootWork::CapSlice);
            root.push(RootWork::ReapplyLimits);
            Deferred::SetMemoryMax
        },
        Commands::SetIsolated { .. } => {
            root.push(RootWork::SwitchIsolation);
            Deferred::SetIsolated
        },
        Commands::Netguard { .. } => {
            root.push(RootWork::SweepAccount);
            Deferred::NetguardReport
        },
        Commands::BootRecover | Commands::SyncProxy | Commands::Setup | Commands::Teardown => {
            return Err(
                output::system_error(
                    "internal",
                    "server-wide commands run before the privilege drop",
                ),
            );
        },
        Commands::Admin { command } => {
            return Ok(admin_plan(command));
        },
    };
    assert(root@ =~= root_side(*c));
    Ok(Plan { root, after })
}

/// A step of launching an app while still root.
#[derive(Debug, Clone, Copy, PartialEq, Eq, Structural)]
pub enum SpawnStep {
    /// Push the limits onto the siblings as if the app ran already, so that
    /// they shrink first.
    ReapplyLimitsIncluding,
    /// Prepare the directory of the app's logs.
    PrepareLogs,
    /// Launch it where scopes can be run.
    Launch,
    /// Apply the allowance to the slice once the launch gave a pid: the first
    /// app of an account creates the slice.
    CapSliceOnceUp,
}

/// How an app is launched while still root; not at all when its metadata cannot
/// be loaded. Shared by start and restart, which must stay identical here.
pub fn spawn_for(known: bool) -> (r: Vec<SpawnStep>)
    ensures
        r@ == (if known {
            seq![
                SpawnStep::ReapplyLimitsIncluding,
                SpawnStep::PrepareLogs,
                SpawnStep::Launch,
                SpawnStep::CapSliceOnceUp,
            ]
        } else {
            Seq::empty()
        }),
{
    let mut steps: Vec<SpawnStep> = Vec::new();
    if known {
        steps.push(SpawnStep::ReapplyLimitsIncluding);
        steps.push(SpawnStep::PrepareLogs);
        steps.push(SpawnStep::Launch);
        steps.push(SpawnStep::CapSliceOnceUp);
        assert(steps@ =~= seq![
            SpawnStep::ReapplyLimitsIncluding,
            SpawnStep::PrepareLogs,
            SpawnStep::Launch,
            SpawnStep::CapSliceOnceUp,
        ]);
    }
    steps
}

/// Start and restart both launch the app into a scope, as the last thing they do
/// as root; a restart brings the old one down first.
pub proof fn law_start_and_restart_both_spawn_into_a_scope(c: Commands)
    requires
        c is Start || c is Restart,
    ensures
        root_side(c).last() == RootWork::SpawnIntoScope,
        c is Restart ==> root_side(c)[root_side(c).len() - 2] == RootWork::StopTree,
{
}

/// Every command either is maintenance of the whole server or acts for an
/// account: none is without a place, and only the sweep of all accounts, which
/// the plan takes for an account's own, has both.
pub proof fn law_every_command_has_its_place(c: Commands)
    ensures
        account_side(c) is None ==> cli::maintenance(c) is Some,
        cli::maintenance(c) is Some && !(c is Netguard) ==> account_side(c) is None,
{
}

/// The allowance is read before the slice is capped by it, and limits are only
/// pushed onto apps after that.
pub proof fn law_slice_is_capped_before_limits_apply(c: Commands, i: int)
    requires
        0 <= i < root_side(c).len(),
        root_side(c)[i] == RootWork::ReapplyLimits || root_side(c)[i]
            == RootWork::ReapplyLimitsExcluding || root_side(c)[i] == RootWork::SpawnIntoScope,
    ensures
        exists|j: int| 0 <= j < i && root_side(c)[j] == RootWork::CapSlice,
        root_side(c)[0] == RootWork::ReadAllowance,
{
    if c is SetMemoryMax {
        assert(root_side(c)[2] == RootWork::CapSlice);
    } else {
        assert(root_side(c)[1] == RootWork::CapSlice);
    }
}

/// What only looks at an account's apps needs nothing from root.
pub proof fn law_looking_needs_no_root(c: Commands)
    requires
        c is List || c is Status || c is StatusIsolated || c is Logs,
    ensures
        root_side(c).len() == 0,
        account_side(c) is Some,
{
}

/// The metadata of apps is root's, and root changes it: before the account's side of
/// the command, which only answers.
pub proof fn law_root_changes_the_metadata(c: Commands)
    ensures
        c is Add ==> root_side(c) == seq![RootWork::CreateAppFile],
        c is Remove ==> root_side(c).last() == RootWork::RemoveAppFile,
        c is SetNodeVersion ==> root_side(c) == seq![RootWork::UpdateNodeVersion],
        c is SetMemoryMax ==> root_side(c)[1] == RootWork::ApplyMemoryMax && root_side(c).last()
            == RootWork::ReapplyLimits,
        c is SetIsolated ==> root_side(c) == seq![RootWork::SwitchIsolation],
        c is Stop || c is Remove ==> root_side(c)[2] == RootWork::ReapplyLimitsExcluding,
        c is Netguard ==> root_side(c) == seq![RootWork::SweepAccount],
{
}

/// Each command is answered by its own side.
pub proof fn law_commands_are_answered_by_their_own_side(c: Commands)
    ensures
        c is List ==> account_side(c) == Some(Deferred::List),
        c is Status ==> account_side(c) == Some(Deferred::Status),
        c is StatusIsolated ==> account_side(c) == Some(Deferred::StatusIsolated),
        c is Logs ==> account_side(c) == Some(Deferred::Logs),
        c is Stats ==> account_side(c) == Some(Deferred::Stats),
        c is Domains ==> account_side(c) == Some(Deferred::Domains),
        c is Start ==> account_side(c) == Some(Deferred::Start),
        c is Stop ==> account_side(c) == Some(Deferred::Stop),
        c is Restart ==> account_side(c) == Some(Deferred::Restart),
        c is Add ==> account_side(c) == Some(Deferred::Add),
        c is Remove ==> account_side(c) == Some(Deferred::Remove),
        c is SetNodeVersion ==> account_side(c) == Some(Deferred::SetNodeVersion),
        c is SetMemoryMax ==> account_side(c) == Some(Deferred::SetMemoryMax),
        c is SetIsolated ==> account_side(c) == Some(Deferred::SetIsolated),
        c is SetLocale ==> account_side(c) == Some(Deferred::EmitPreludeResult),
        misplaced() == output::broken(
            "internal"@,
            "server-wide commands run before the privilege drop"@,
        ),
{
}

} // verus!
