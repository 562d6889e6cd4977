//! The modem's stored profile.
//!
//! Writing the profile keeps the active settings; a soft reset reloads them
//! in place of the factory defaults. Nothing is read or written until a
//! frontend asks for persistence.
use vstd::prelude::*;

verus! {

/// Whether profiles are read and written this run.
#[derive(Clone, Copy, Debug, PartialEq, Eq, Structural)]
pub struct Persistence {
    pub on: bool,
}

impl Default for Persistence {
    fn default() -> (r: Persistence)
        ensures
            !r.on,
    {
        Persistence { on: false }
    }
}

/// Turn persistence on or off.
pub fn set_persistence(persistence: &mut Persistence, on: bool)
    ensures
        final(persistence).on == on,
{
    persistence.on = on;
}

/// The modem's non-volatile settings.
#[derive(Clone, Copy, Debug, PartialEq, Eq, Structural)]
pub struct ModemProfile {
    /// Echo command-mode bytes back to the guest.
    pub echo: bool,
    /// Verbose instead of numeric result codes.
    pub verbose: bool,
    /// Suppress all result codes.
    pub quiet: bool,
    /// Rings before auto-answer; zero is off.
    pub s0: u8,
    /// The escape character.
    pub s2: u8,
    /// Carrier-detect response time, in tenths of a second.
    pub s9: u8,
    /// Escape guard time, in fiftieths of a second.
    pub s12: u8,
    /// Carrier detect reports asserted regardless of the carrier.
    pub dcd_always: bool,
    /// What dropping DTR does.
    pub dtr_action: u8,
    /// Telnet translation is on by default.
    pub telnet: bool,
    /// The port a listening modem answers on, where the profile sets it.
    pub listen_port: Option<u16>,
    /// The port dialed where a host names none.
    pub default_port: u16,
}

/// What became of the stored profile's file.
#[derive(Clone, Copy, Debug, PartialEq, Eq, Structural)]
pub enum Stored {
    /// There is none: an ordinary first run.
    Missing,
    /// It was there and could not be read or understood.
    Damaged,
    /// The settings it holds.
    Profile(ModemProfile),
}

/// What loading a profile comes to.
#[derive(Clone, Copy, Debug, PartialEq, Eq, Structural)]
pub struct Loaded {
    pub profile: Option<ModemProfile>,
    /// Settings that were meant to come back have not.
    pub warn: bool,
}

/// The profile that a run starts with: none where persistence is off,
/// whatever is stored, and none where nothing usable is stored.
pub open spec fn recalled(persistence: Persistence, stored: Stored) -> Option<ModemProfile> {
    match stored {
        Stored::Profile(profile) if persistence.on => Some(profile),
        _ => None,
    }
}

/// What saving a profile leaves stored.
pub open spec fn kept(
    persistence: Persistence,
    profile: ModemProfile,
    stored: Stored,
) -> Stored {
    if persistence.on {
        Stored::Profile(profile)
    } else {
        stored
    }
}

impl ModemProfile {
    /// Load the stored profile. Only a damaged file is worth a warning.
    pub fn load(persistence: Persistence, stored: Stored) -> (r: Loaded)
        ensures
            r.profile == recalled(persistence, stored),
            r.warn == (persistence.on && stored is Damaged),
    {
        if !persistence.on {
            return Loaded { profile: None, warn: false };
        }
        match stored {
            Stored::Missing => Loaded { profile: None, warn: false },
            Stored::Damaged => Loaded { profile: None, warn: true },
            Stored::Profile(profile) => Loaded { profile: Some(profile), warn: false },
        }
    }

    /// What saving this profile leaves stored.
    pub fn save(&self, persistence: Persistence, stored: Stored) -> (r: Stored)
        ensures
            r == kept(persistence, *self, stored),
    {
        if persistence.on {
            Stored::Profile(*self)
        } else {
            stored
        }
    }
}

/// What is saved comes back where persistence is on, and nothing is touched
/// where it is off.
pub proof fn law_saved_profiles_come_back(
    persistence: Persistence,
    profile: ModemProfile,
    stored: Stored,
)
    ensures
        persistence.on ==> recalled(persistence, kept(persistence, profile, stored)) == Some(
            profile,
        ),
        !persistence.on ==> kept(persistence, profile, stored) == stored && recalled(
            persistence,
            stored,
        ) is None,
{
}

} // verus!
