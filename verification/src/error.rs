use vstd::prelude::*;

verus! {

/// Error taxonomy of the control plane.
///
/// Startup errors (a listener that cannot bind, a readiness signal nobody
/// listens to, a missing configuration directory) are fatal to the process;
/// request-level errors are turned into HTTP error responses by the caller.
#[derive(Debug, Clone)]
pub enum SkadiError {
    /// An operating-system I/O failure, carried as its message text.
    Io(String),
    /// The per-user configuration directory could not be resolved.
    PathNotFound,
    /// No configuration file was found among the candidate paths.
    ConfigNotSpecified(Vec<String>),
    /// A configuration file exists but could not be parsed: path and reason.
    ConfigParsing(String, String),
    /// A UI surface could not be created.
    WindowCreation(String),
    /// The local server could not be set up or signalled ready.
    ServerError(String),
}

impl SkadiError {
    /// The fixed description of the error kind, without the carried detail.
    pub open spec fn spec_kind_message(self) -> Seq<char> {
        match self {
            SkadiError::Io(_) => "I/O error"@,
            SkadiError::PathNotFound => "Failed to find configuration directory"@,
            SkadiError::ConfigNotSpecified(_) => "Configuration file not specified"@,
            SkadiError::ConfigParsing(_, _) => "Failed to parse configuration"@,
            SkadiError::WindowCreation(_) => "Failed to create application window"@,
            SkadiError::ServerError(_) => "Failed to setup server"@,
        }
    }

    /// A short, fixed description of the error kind.
    pub fn kind_message(&self) -> (r: String)
        ensures
            r@ == self.spec_kind_message(),
    {
        match self {
            SkadiError::Io(_) => String::from_str("I/O error"),
            SkadiError::PathNotFound => String::from_str("Failed to find configuration directory"),
            SkadiError::ConfigNotSpecified(_) => String::from_str(
                "Configuration file not specified",
            ),
            SkadiError::ConfigParsing(_, _) => String::from_str("Failed to parse configuration"),
            SkadiError::WindowCreation(_) => String::from_str(
                "Failed to create application window",
            ),
            SkadiError::ServerError(_) => String::from_str("Failed to setup server"),
        }
    }

    /// The detail text carried by the error, where one exists.
    pub fn detail(&self) -> (r: Option<&String>)
        ensures
            match self {
                SkadiError::Io(m) => r == Some(m),
                SkadiError::ConfigParsing(_, m) => r == Some(m),
                SkadiError::WindowCreation(m) => r == Some(m),
                SkadiError::ServerError(m) => r == Some(m),
                _ => r is None,
            },
    {
        match self {
            SkadiError::Io(m) => Some(m),
            SkadiError::ConfigParsing(_, m) => Some(m),
            SkadiError::WindowCreation(m) => Some(m),
            SkadiError::ServerError(m) => Some(m),
            SkadiError::PathNotFound => None,
            SkadiError::ConfigNotSpecified(_) => None,
        }
    }
}

} // verus!
