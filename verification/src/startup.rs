//! How the application starts and ends: what is done in which order, when its window appears, and what
//! must be over before the database is closed.
use vstd::prelude::*;
use vstd::string::*;

use crate::text::{concat3, replace, replaced, same};

verus! {

// ---------------------------------------------------------------------------------------------
// Start
// ---------------------------------------------------------------------------------------------
/// Which halves of the application are ready: what the user sees, and what works behind it.
pub struct SetupState {
    pub frontend_done: bool,
    pub backend_done: bool,
}

/// What happens to the windows.
#[derive(Clone, Copy, PartialEq, Eq, Structural)]
pub enum WindowAction {
    CloseSplash,
    ShowMain,
    FocusMain,
}

impl SetupState {
    /// Nothing is ready.
    pub fn new() -> (r: SetupState)
        ensures
            !r.frontend_done && !r.backend_done,
    {
        SetupState { frontend_done: false, backend_done: false }
    }

    /// What the user sees is ready.
    pub fn set_complete(&mut self)
        ensures
            final(self).frontend_done,
            final(self).backend_done == old(self).backend_done,
    {
        self.frontend_done = true;
    }

    /// What works behind it is ready.
    pub fn backend_complete(&mut self)
        ensures
            final(self).backend_done,
            final(self).frontend_done == old(self).frontend_done,
    {
        self.backend_done = true;
    }

    /// What happens to the windows: nothing until both halves are ready. Behind that the splash window
    /// goes, if there is one, and the main window appears, if there is one.
    pub open spec fn finish(self, splash: bool, main: bool) -> Seq<WindowAction> {
        if !(self.frontend_done && self.backend_done) {
            Seq::empty()
        } else {
            (if splash {
                seq![WindowAction::CloseSplash]
            } else {
                Seq::empty()
            }) + (if main {
                seq![WindowAction::ShowMain, WindowAction::FocusMain]
            } else {
                Seq::empty()
            })
        }
    }

    /// What happens to the windows.
    pub fn try_finish_startup(&self, splash: bool, main: bool) -> (r: Vec<WindowAction>)
        ensures
            r@ == self.finish(splash, main),
    {
        let mut v: Vec<WindowAction> = Vec::new();
        if !(self.frontend_done && self.backend_done) {
            return v;
        }
        if splash {
            v.push(WindowAction::CloseSplash);
        }
        if main {
            v.push(WindowAction::ShowMain);
            v.push(WindowAction::FocusMain);
        }
        assert(v@ =~= self.finish(splash, main));
        v
    }
}

/// The main window appears when both halves are ready, in whichever order they get ready, and not
/// before.
pub proof fn law_main_window_waits(state: SetupState, splash: bool)
    ensures
        state.finish(splash, true).contains(WindowAction::ShowMain) == (state.frontend_done
            && state.backend_done),
{
    let f = state.finish(splash, true);
    if state.frontend_done && state.backend_done {
        if splash {
            assert(f[1] == WindowAction::ShowMain);
        } else {
            assert(f[0] == WindowAction::ShowMain);
        }
    }
}

/// A step of the start.
pub enum StartupStep {
    /// The splash window says what is going on.
    Phase(String),
    OpenDatabase,
    RefreshSettings,
    MoveAccountData,
    StartLogger,
    CreatePet,
    StartScheduler,
    StartDiscovery,
    RestoreSync,
    BackendDone,
}

/// A step, read as its text.
pub enum StartupModel {
    Phase(Seq<char>),
    OpenDatabase,
    RefreshSettings,
    MoveAccountData,
    StartLogger,
    CreatePet,
    StartScheduler,
    StartDiscovery,
    RestoreSync,
    BackendDone,
}

impl StartupStep {
    /// The text of a step.
    pub open spec fn model(self) -> StartupModel {
        match self {
            StartupStep::Phase(s) => StartupModel::Phase(s@),
            StartupStep::OpenDatabase => StartupModel::OpenDatabase,
            StartupStep::RefreshSettings => StartupModel::RefreshSettings,
            StartupStep::MoveAccountData => StartupModel::MoveAccountData,
            StartupStep::StartLogger => StartupModel::StartLogger,
            StartupStep::CreatePet => StartupModel::CreatePet,
            StartupStep::StartScheduler => StartupModel::StartScheduler,
            StartupStep::StartDiscovery => StartupModel::StartDiscovery,
            StartupStep::RestoreSync => StartupModel::RestoreSync,
            StartupStep::BackendDone => StartupModel::BackendDone,
        }
    }
}

/// The texts of steps.
pub open spec fn startup_models(v: Seq<StartupStep>) -> Seq<StartupModel> {
    Seq::new(v.len(), |i: int| v[i].model())
}

/// The steps until the settings are known.
pub open spec fn opening() -> Seq<StartupModel> {
    seq![
        StartupModel::Phase("正在初始化数据库..."@),
        StartupModel::OpenDatabase,
        StartupModel::RefreshSettings,
        StartupModel::MoveAccountData,
    ]
}

/// The steps once the settings are known: the pet appears where the user wants it, once its troubles
/// can be logged.
pub open spec fn running(show_pet: bool) -> Seq<StartupModel> {
    seq![StartupModel::Phase("正在初始化日志系统..."@), StartupModel::StartLogger] + (if show_pet {
        seq![StartupModel::CreatePet]
    } else {
        Seq::empty()
    }) + seq![
        StartupModel::Phase("即将就绪..."@),
        StartupModel::StartScheduler,
        StartupModel::StartDiscovery,
        StartupModel::RestoreSync,
        StartupModel::BackendDone,
    ]
}

/// The steps until the settings are known.
pub fn opening_steps() -> (r: Vec<StartupStep>)
    ensures
        startup_models(r@) == opening(),
{
    let v = vec![
        StartupStep::Phase("正在初始化数据库...".to_owned()),
        StartupStep::OpenDatabase,
        StartupStep::RefreshSettings,
        StartupStep::MoveAccountData,
    ];
    assert(startup_models(v@) =~= opening());
    v
}

/// The steps once the settings are known.
pub fn running_steps(show_pet: bool) -> (r: Vec<StartupStep>)
    ensures
        startup_models(r@) == running(show_pet),
{
    let mut v: Vec<StartupStep> = Vec::new();
    v.push(StartupStep::Phase("正在初始化日志系统...".to_owned()));
    v.push(StartupStep::StartLogger);
    if show_pet {
        v.push(StartupStep::CreatePet);
    }
    v.push(StartupStep::Phase("即将就绪...".to_owned()));
    v.push(StartupStep::StartScheduler);
    v.push(StartupStep::StartDiscovery);
    v.push(StartupStep::RestoreSync);
    v.push(StartupStep::BackendDone);
    assert(startup_models(v@) =~= running(show_pet));
    v
}

// ---------------------------------------------------------------------------------------------
// The account
// ---------------------------------------------------------------------------------------------
/// How the sync of an account is taken up again.
#[derive(Clone, Copy, PartialEq, Eq, Structural)]
pub enum SyncStart {
    /// There is no account.
    Skip,
    /// The token that is stored is used.
    UseStored,
    /// A fresh token is asked for first.
    Refresh,
}

/// How the sync of an account is taken up again: only with an address and a token, and never with a
/// token that has run out.
pub fn restore_sync(relay_url: &str, token: &str, fresh: bool) -> (r: SyncStart)
    ensures
        r == (if relay_url@.len() == 0 || token@.len() == 0 {
            SyncStart::Skip
        } else if fresh {
            SyncStart::UseStored
        } else {
            SyncStart::Refresh
        }),
{
    if relay_url.is_empty() || token.is_empty() {
        SyncStart::Skip
    } else if fresh {
        SyncStart::UseStored
    } else {
        SyncStart::Refresh
    }
}

/// What follows once a fresh token was asked for.
pub enum AfterRefresh {
    /// The sync goes on with this token.
    Start(String),
    /// What is stored of the account is no good any more.
    ClearCredentials,
    /// Nothing.
    Skip,
}

/// What follows once a fresh token was asked for: without one, the account is signed out.
pub fn after_refresh(reply: Result<String, String>) -> (r: AfterRefresh)
    ensures
        match reply {
            Ok(t) => if t@.len() > 0 {
                r == AfterRefresh::Start(t)
            } else {
                r == AfterRefresh::Skip
            },
            Err(_) => r == AfterRefresh::ClearCredentials,
        },
{
    match reply {
        Ok(t) => if t.as_str().is_empty() {
            AfterRefresh::Skip
        } else {
            AfterRefresh::Start(t)
        },
        Err(_) => AfterRefresh::ClearCredentials,
    }
}

// ---------------------------------------------------------------------------------------------
// End
// ---------------------------------------------------------------------------------------------
/// A step of the end.
#[derive(Clone, Copy, PartialEq, Eq, Structural)]
pub enum ShutdownStep {
    /// The loops in the background are told to stop.
    SignalLoops,
    /// The agents are told to stop.
    CancelTurns,
    /// So many milliseconds for what still runs.
    Wait(u64),
    /// The tasks in the background are ended.
    AbortTasks,
    /// The database is closed.
    FinalizeDatabase,
}

/// Whether the application was ended already.
pub struct Shutdown {
    pub done: bool,
}

/// The steps of the end, where so many agents and tasks run: without any of them there is nothing to
/// wait for.
pub open spec fn ending(turns: nat, tasks: nat) -> Seq<ShutdownStep> {
    let busy = turns > 0 || tasks > 0;
    seq![ShutdownStep::SignalLoops, ShutdownStep::CancelTurns] + (if busy {
        seq![
            ShutdownStep::Wait(2500),
            ShutdownStep::AbortTasks,
            ShutdownStep::Wait(500),
        ]
    } else {
        seq![ShutdownStep::AbortTasks]
    }) + seq![ShutdownStep::FinalizeDatabase]
}

impl Shutdown {
    /// An application that runs.
    pub fn new() -> (r: Shutdown)
        ensures
            !r.done,
    {
        Shutdown { done: false }
    }

    /// The steps of the end. Whichever event asks for them first gets them, and every later one gets
    /// none; so does one that comes before there is anything to end.
    pub fn run_cleanup(&mut self, has_state: bool, turns: usize, tasks: usize) -> (r: Vec<
        ShutdownStep,
    >)
        ensures
            final(self).done,
            r@ == (if old(self).done || !has_state {
                Seq::empty()
            } else {
                ending(turns as nat, tasks as nat)
            }),
    {
        let mut v: Vec<ShutdownStep> = Vec::new();
        let again = self.done;
        self.done = true;
        if again || !has_state {
            return v;
        }
        let busy = turns > 0 || tasks > 0;
        v.push(ShutdownStep::SignalLoops);
        v.push(ShutdownStep::CancelTurns);
        if busy {
            v.push(ShutdownStep::Wait(2500));
        }
        v.push(ShutdownStep::AbortTasks);
        if busy {
            v.push(ShutdownStep::Wait(500));
        }
        v.push(ShutdownStep::FinalizeDatabase);
        assert(v@ =~= ending(turns as nat, tasks as nat));
        v
    }
}

/// The database is closed last, and only once all tasks that could hold a connection to it are ended.
pub proof fn law_database_closes_last(turns: nat, tasks: nat)
    ensures
        ending(turns, tasks).last() == ShutdownStep::FinalizeDatabase,
        exists|k: int|
            0 <= k < ending(turns, tasks).len() - 1 && #[trigger] ending(turns, tasks)[k]
                == ShutdownStep::AbortTasks,
        forall|k: int|
            0 <= k < ending(turns, tasks).len() - 1 ==> #[trigger] ending(turns, tasks)[k]
                != ShutdownStep::FinalizeDatabase,
{
    let e = ending(turns, tasks);
    if turns > 0 || tasks > 0 {
        assert(e[3] == ShutdownStep::AbortTasks);
        assert(e.len() == 6);
    } else {
        assert(e[2] == ShutdownStep::AbortTasks);
        assert(e.len() == 4);
    }
}

/// Whether the pet goes along when a window closes: only with the main window, whose end is that of
/// the application.
pub fn closes_pet(label: &str) -> (r: bool)
    ensures
        r == (label@ == "main"@),
{
    same(label, "main")
}

// ---------------------------------------------------------------------------------------------
// Panics
// ---------------------------------------------------------------------------------------------
/// What the user is told before the application breaks off.
pub open spec fn panic_words(message: Seq<char>) -> Seq<char> {
    "应用遇到内部错误,即将退出：\n"@ + message + "\n\n详情见日志文件。"@
}

/// What the user is told before the application breaks off.
pub fn panic_text(message: &str) -> (r: String)
    ensures
        r@ == panic_words(message@),
{
    concat3("应用遇到内部错误,即将退出：\n", message, "\n\n详情见日志文件。")
}

/// The script that shows a text on a Mac, with its quotes escaped.
pub fn alert_script(title: &str, text: &str) -> (r: String)
    ensures
        r@ == "display alert \""@ + title@ + "\" message \""@ + replace(text@, "\""@, "\\\""@)
            + "\" as critical"@,
{
    proof {
        reveal_strlit("\"");
    }
    let mut s = concat3("display alert \"", title, "\" message \"");
    s.append(replaced(text, "\"", "\\\"").as_str());
    s.append("\" as critical");
    s
}

} // verus!
