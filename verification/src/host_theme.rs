//! The host's palette mode, read off the system's setting where the terminal
//! does not report it.
use vstd::prelude::*;

verus! {

#[derive(Clone, Copy, Debug, PartialEq, Eq, Structural)]
pub enum HostTerminalThemeMode {
    Dark,
    Light,
}

/// The mode the system's setting stands for: zero is dark.
pub open spec fn mode_of(setting: u32) -> HostTerminalThemeMode {
    if setting == 0 {
        HostTerminalThemeMode::Dark
    } else {
        HostTerminalThemeMode::Light
    }
}

pub fn theme_mode(setting: u32) -> (r: HostTerminalThemeMode)
    ensures
        r == mode_of(setting),
{
    if setting == 0 {
        HostTerminalThemeMode::Dark
    } else {
        HostTerminalThemeMode::Light
    }
}

/// What the watcher does about a reading.
#[derive(Clone, Copy, Debug, PartialEq, Eq, Structural)]
pub enum WatchStep {
    /// Report the mode, then wait and read again.
    Report(HostTerminalThemeMode),
    /// Wait and read again.
    Wait,
    /// Stop watching: the setting cannot be read, and a retry won't fare better.
    Stop,
}

/// Watches the setting. The mode is what was last reported.
#[derive(Debug)]
pub struct Watcher {
    pub mode: Option<HostTerminalThemeMode>,
}

impl Watcher {
    pub fn new() -> (r: Self)
        ensures
            r.mode is None,
    {
        Watcher { mode: None }
    }

    /// Take in a reading of the setting, `None` where it could not be read. Only
    /// a mode that was not just reported is reported.
    pub fn observe(&mut self, setting: Option<u32>) -> (r: WatchStep)
        ensures
            match setting {
                None => r == WatchStep::Stop && final(self).mode == old(self).mode,
                Some(s) => final(self).mode == Some(mode_of(s)) && r == (if old(self).mode == Some(
                    mode_of(s),
                ) {
                    WatchStep::Wait
                } else {
                    WatchStep::Report(mode_of(s))
                }),
            },
    {
        let current = match setting {
            Some(s) => theme_mode(s),
            None => return WatchStep::Stop,
        };
        let known = match self.mode {
            Some(m) => m == current,
            None => false,
        };
        self.mode = Some(current);
        if known {
            WatchStep::Wait
        } else {
            WatchStep::Report(current)
        }
    }
}

/// A setting of zero is dark, and every other one light.
pub proof fn zero_is_dark(setting: u32)
    ensures
        mode_of(0) is Dark,
        setting > 0 ==> mode_of(setting) is Light,
{
}

} // verus!
