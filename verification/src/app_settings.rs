//! The settings that the user can change.

use vstd::prelude::*;

verus! {

#[derive(Debug, Clone, Copy, PartialEq, Eq, Structural)]
pub struct AppSettings {
    pub notifications_enabled: bool,
}

impl Default for AppSettings {
    /// Notifications are on unless the user switches them off.
    fn default() -> (r: AppSettings)
        ensures
            r.notifications_enabled,
    {
        AppSettings { notifications_enabled: true }
    }
}

/// The settings to start with: those that were stored, or the defaults where
/// none could be read.
pub fn settings_or_default(stored: Option<AppSettings>) -> (r: AppSettings)
    ensures
        r == match stored {
            Some(settings) => settings,
            None => AppSettings { notifications_enabled: true },
        },
{
    match stored {
        Some(settings) => settings,
        None => AppSettings::default(),
    }
}

} // verus!
