//! The desired state at startup.
use vstd::prelude::*;
use vstd::string::*;

use crate::model::DesiredState;
use crate::text::owned;

verus! {

/// What the environment says of the startup configuration.
#[derive(Debug)]
pub enum StartupEnv {
    NotPresent,
    NotUnicode,
    Path(String),
}

/// The desired state at startup.
pub enum StartupDesired {
    /// None is configured.
    Empty,
    /// One was read.
    Loaded(DesiredState),
}

/// The desired state at startup, given what reading the configured file came to.
/// A file that is configured and cannot be taken is an error, never an empty
/// state.
pub fn load_startup_desired(env: &StartupEnv, config: Result<DesiredState, String>) -> (r: Result<
    StartupDesired,
    String,
>)
    ensures
        match *env {
            StartupEnv::NotPresent => r == Ok::<StartupDesired, String>(StartupDesired::Empty),
            StartupEnv::NotUnicode => r matches Err(e) && e@ == "BALANSIR_CONFIG is not valid UTF-8"@,
            StartupEnv::Path(path) => match config {
                Ok(state) => r == Ok::<StartupDesired, String>(StartupDesired::Loaded(state)),
                Err(why) => r matches Err(e) && e@ == "startup config "@ + path@ + ": "@ + why@,
            },
        },
{
    match env {
        StartupEnv::NotPresent => Ok(StartupDesired::Empty),
        StartupEnv::NotUnicode => Err(owned("BALANSIR_CONFIG is not valid UTF-8")),
        StartupEnv::Path(path) => match config {
            Ok(state) => Ok(StartupDesired::Loaded(state)),
            Err(why) => {
                let mut s = owned("startup config ");
                s.append(path.as_str());
                s.append(": ");
                s.append(why.as_str());
                Err(s)
            },
        },
    }
}

} // verus!
