use vstd::prelude::*;

use crate::error::{Error, ErrorKind};
use crate::utils::{duration_error, duration_secs, parse_duration};

verus! {

/// Seconds a file is kept when neither the caller nor the configuration says: 7 days.
pub const DEFAULT_RETENTION_SECS: u64 = 604800;

/// The configuration: a default retention duration, such as `"7d"`.
#[derive(Debug)]
pub struct Config {
    pub default_duration: Option<String>,
}

/// Whether `key` names a configuration setting.
pub open spec fn known_key(key: Seq<char>) -> bool {
    key == "default_duration"@
}

/// The retention in seconds chosen from the caller's duration, else the
/// configured one, else the default; `None` when the chosen text is malformed.
pub open spec fn retention_spec(given: Option<Seq<char>>, configured: Option<Seq<char>>) -> Option<
    int,
> {
    match given {
        Some(g) => duration_secs(g),
        None => match configured {
            Some(c) => duration_secs(c),
            None => Some(DEFAULT_RETENTION_SECS as int),
        },
    }
}

/// The duration text in force: the caller's, else the configured one.
pub open spec fn chosen_text(given: Option<&str>, configured: Option<String>) -> Seq<char> {
    match given {
        Some(g) => g@,
        None => match configured {
            Some(c) => c@,
            None => Seq::empty(),
        },
    }
}

impl Config {
    pub fn new() -> (r: Config)
        ensures
            r.default_duration is None,
    {
        Config { default_duration: None }
    }

    /// The value of setting `key`; fails on an unknown key.
    pub fn get(&self, key: &str) -> (r: Result<Option<String>, Error>)
        ensures
            r is Ok <==> known_key(key@),
            r matches Ok(v) ==> v == self.default_duration,
            r matches Err(e) ==> e.kind matches ErrorKind::InvalidArg(m) && m@ == "Unknown key: "@
                + key@,
    {
        if String::from_str(key) == String::from_str("default_duration") {
            match &self.default_duration {
                Some(d) => Ok(Some(d.clone())),
                None => Ok(None),
            }
        } else {
            let mut msg = String::from_str("Unknown key: ");
            msg.append(key);
            Err(Error::new(ErrorKind::InvalidArg(msg)))
        }
    }

    /// Sets `key` to `value`; fails, changing nothing, on an unknown key.
    pub fn set(&mut self, key: &str, value: String) -> (r: Result<(), Error>)
        ensures
            r is Ok <==> known_key(key@),
            r is Ok ==> final(self).default_duration == Some(value),
            r is Err ==> final(self).default_duration == old(self).default_duration,
            r matches Err(e) ==> e.kind matches ErrorKind::InvalidArg(m) && m@ == "Unknown key: "@
                + key@,
    {
        if String::from_str(key) == String::from_str("default_duration") {
            self.default_duration = Some(value);
            Ok(())
        } else {
            let mut msg = String::from_str("Unknown key: ");
            msg.append(key);
            Err(Error::new(ErrorKind::InvalidArg(msg)))
        }
    }

    /// The retention in seconds for a file: `given` if the caller supplied a
    /// duration, else the configured default, else 7 days.
    pub fn retention_secs(&self, given: Option<&str>) -> (r: Result<u64, Error>)
        ensures
            r is Ok <==> retention_spec(
                match given {
                    Some(g) => Some(g@),
                    None => None,
                },
                match self.default_duration {
                    Some(c) => Some(c@),
                    None => None,
                },
            ) is Some,
            r matches Ok(v) ==> v as int == retention_spec(
                match given {
                    Some(g) => Some(g@),
                    None => None,
                },
                match self.default_duration {
                    Some(c) => Some(c@),
                    None => None,
                },
            )->Some_0,
            r matches Err(e) ==> e.kind matches ErrorKind::InvalidArg(m) && m@
                == "Error parsing duration '"@ + chosen_text(given, self.default_duration) + "': "@
                + duration_error(chosen_text(given, self.default_duration)),
    {
        let chosen: &str = match given {
            Some(g) => g,
            None => match &self.default_duration {
                Some(c) => c.as_str(),
                None => {
                    return Ok(DEFAULT_RETENTION_SECS);
                },
            },
        };
        match parse_duration(chosen) {
            Ok(v) => Ok(v),
            Err(e) => {
                let mut msg = String::from_str("Error parsing duration '");
                msg.append(chosen);
                msg.append("': ");
                msg.append(e.as_str());
                Err(Error::new(ErrorKind::InvalidArg(msg)))
            },
        }
    }
}

} // verus!
