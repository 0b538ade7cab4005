use vstd::prelude::*;

use crate::hotkeys::message3;

verus! {

/// Why start at login cannot be changed where the platform keeps no
/// start-up list.
pub open spec fn unsupported_message() -> Seq<char> {
    "当前平台暂不支持开机启动设置"@
}

/// What reading the login entry of the desktop's start-up list gave.
#[derive(Clone, Debug, PartialEq, Eq)]
pub enum RunKeyRead {
    /// The platform keeps no such list.
    Unsupported,
    /// The list itself does not exist.
    KeyMissing,
    /// The list could not be opened, with the system's reason.
    Failed(String),
    /// The list was read; whether it holds this program's entry.
    Read(bool),
}

/// What writing (or deleting) the login entry gave.
#[derive(Clone, Debug, PartialEq, Eq)]
pub enum RunKeyWrite {
    /// The platform keeps no such list.
    Unsupported,
    /// The list could not be opened or created, with the reason.
    OpenFailed(String),
    /// The program's own path could not be found, with the reason.
    PathFailed(String),
    /// The entry was written or deleted.
    Done,
    /// There was no entry to delete, so nothing was to be done.
    EntryMissing,
    /// Writing or deleting the entry failed, with the reason.
    Failed(String),
}

/// Whether start at login is on, from what reading the start-up list
/// gave: no list means off; a failed read is reported.
pub open spec fn enabled_from(read: RunKeyRead) -> Result<bool, Seq<char>> {
    match read {
        RunKeyRead::Unsupported => Ok(false),
        RunKeyRead::KeyMissing => Ok(false),
        RunKeyRead::Failed(e) => Err("无法读取开机启动配置："@ + e@),
        RunKeyRead::Read(present) => Ok(present),
    }
}

/// The outcome of turning start at login to `enabled`, from what writing
/// the entry gave. Deleting an entry that is not there succeeds; a failed
/// write or delete is reported with what was being done.
pub open spec fn set_outcome(enabled: bool, write: RunKeyWrite) -> Result<(), Seq<char>> {
    match write {
        RunKeyWrite::Unsupported => Err(unsupported_message()),
        RunKeyWrite::OpenFailed(e) => Err("无法打开开机启动配置："@ + e@),
        RunKeyWrite::PathFailed(e) => Err("无法获取程序路径："@ + e@),
        RunKeyWrite::Done => Ok(()),
        RunKeyWrite::EntryMissing => Ok(()),
        RunKeyWrite::Failed(e) => if enabled {
            Err("无法启用开机启动："@ + e@)
        } else {
            Err("无法禁用开机启动："@ + e@)
        },
    }
}

/// Whether the program starts at login, from what reading the start-up
/// list gave.
pub fn is_enabled(read: RunKeyRead) -> (r: Result<bool, String>)
    ensures
        match (r, enabled_from(read)) {
            (Ok(a), Ok(b)) => a == b,
            (Err(a), Err(b)) => a@ == b,
            _ => false,
        },
{
    proof {
        reveal_strlit("");
    }
    match read {
        RunKeyRead::Unsupported => Ok(false),
        RunKeyRead::KeyMissing => Ok(false),
        RunKeyRead::Failed(e) => Err(message3("无法读取开机启动配置：", e.as_str(), "")),
        RunKeyRead::Read(present) => Ok(present),
    }
}

/// The result of turning start at login to `enabled`, from what writing
/// the entry gave.
pub fn set_enabled(enabled: bool, write: RunKeyWrite) -> (r: Result<(), String>)
    ensures
        match (r, set_outcome(enabled, write)) {
            (Ok(_), Ok(_)) => true,
            (Err(a), Err(b)) => a@ == b,
            _ => false,
        },
{
    proof {
        reveal_strlit("");
    }
    match write {
        RunKeyWrite::Unsupported => Err(String::from_str("当前平台暂不支持开机启动设置")),
        RunKeyWrite::OpenFailed(e) => Err(message3("无法打开开机启动配置：", e.as_str(), "")),
        RunKeyWrite::PathFailed(e) => Err(message3("无法获取程序路径：", e.as_str(), "")),
        RunKeyWrite::Done => Ok(()),
        RunKeyWrite::EntryMissing => Ok(()),
        RunKeyWrite::Failed(e) => if enabled {
            Err(message3("无法启用开机启动：", e.as_str(), ""))
        } else {
            Err(message3("无法禁用开机启动：", e.as_str(), ""))
        },
    }
}

/// The next step of bringing start at login to `enabled` from the state
/// `current` that was read: the read error passed on, nothing to do
/// (`None`) when it already is so, else the value to write.
pub fn sync(current: Result<bool, String>, enabled: bool) -> (r: Result<Option<bool>, String>)
    ensures
        match current {
            Err(e) => r == Err::<Option<bool>, String>(e),
            Ok(on) => if on == enabled {
                r == Ok::<Option<bool>, String>(None)
            } else {
                r == Ok::<Option<bool>, String>(Some(enabled))
            },
        },
{
    match current {
        Err(e) => Err(e),
        Ok(on) => if on == enabled {
            Ok(None)
        } else {
            Ok(Some(enabled))
        },
    }
}

/// The command line stored in the login entry for the program at `exe`:
/// the path in double quotes, then `--autostart`.
pub fn autostart_command(exe: &str) -> (r: String)
    ensures
        r@ == "\""@ + exe@ + "\" --autostart"@,
{
    message3("\"", exe, "\" --autostart")
}

/// The host's step that brings start at login to a value (`step`), with the
/// values it was asked for so far, in order.
pub struct AutostartSync<F> {
    step: F,
    requests: Ghost<Seq<bool>>,
}

impl<F: Fn(bool) -> Result<(), String>> AutostartSync<F> {
    /// The host's step.
    pub closed spec fn step(&self) -> F {
        self.step
    }

    /// The values the step was asked for so far.
    pub closed spec fn requests(&self) -> Seq<bool> {
        self.requests@
    }

    /// Wraps `step`, nothing asked yet.
    pub fn new(step: F) -> (s: Self)
        ensures
            s.step() == step,
            s.requests().len() == 0,
    {
        AutostartSync { step, requests: Ghost(Seq::empty()) }
    }

    /// Asks the step to bring start at login to `enabled`; its answer.
    pub fn sync(&mut self, enabled: bool) -> (r: Result<(), String>)
        requires
            old(self).step().requires((enabled,)),
        ensures
            final(self).step() == old(self).step(),
            final(self).requests() == old(self).requests().push(enabled),
            old(self).step().ensures((enabled,), r),
    {
        let r = (self.step)(enabled);
        self.requests = Ghost(self.requests@.push(enabled));
        r
    }
}

} // verus!
