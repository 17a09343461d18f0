//! Configuration as a plain value: the base directory boxes live under
//! and the icon-blink flag. Reading a configuration file, and resolving
//! a default base directory under the user's home, are the driver's
//! business; the merge rule lives here.

use vstd::prelude::*;

verus! {

/// The settings a driver threads into box-path resolution.
#[derive(Debug)]
pub struct Config {
    /// Base directory for box files; `None` until a driver resolves one.
    pub basedir: Option<String>,
    /// Whether list output may blink icons.
    pub blink: Option<bool>,
}

impl Config {
    /// Takes every setting the other configuration actually carries,
    /// keeping the rest unchanged.
    pub fn update_with(&mut self, aconf: &Config)
        ensures
            final(self).basedir == if aconf.basedir is Some {
                aconf.basedir
            } else {
                old(self).basedir
            },
            final(self).blink == if aconf.blink is Some {
                aconf.blink
            } else {
                old(self).blink
            },
    {
        match &aconf.basedir {
            Some(basedir) => {
                self.basedir = Some(basedir.clone());
            },
            None => {},
        }
        match aconf.blink {
            Some(blink) => {
                self.blink = Some(blink);
            },
            None => {},
        }
    }
}

impl Default for Config {
    /// A configuration with no base directory resolved yet and blinking
    /// on.
    fn default() -> (c: Config)
        ensures
            c.basedir is None,
            c.blink == Some(true),
    {
        Config { basedir: None, blink: Some(true) }
    }
}

} // verus!
