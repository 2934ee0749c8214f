//! The error type shared by every component.

use vstd::prelude::*;
use vstd::string::*;
use crate::text::join2;

verus! {

/// What can go wrong in the plugin runtime. Each variant carries a message.
#[derive(Debug, Clone)]
pub enum Error {
    /// An I/O operation failed.
    Io(String),
    /// A manifest is malformed or fails validation.
    InvalidManifest(String),
    /// A dependency is missing, or the dependencies are circular.
    Dependency(String),
    /// A configuration value or file is unusable.
    Config(String),
    /// A lifecycle operation was asked for in the wrong state.
    Runtime(String),
    /// A plugin of that name is already loaded.
    AlreadyLoaded(String),
    /// No plugin of that name is loaded.
    NotFound(String),
    /// The plugin was built against an interface this host does not offer.
    UnsupportedAbiVersion(String),
    /// A resource limit or a security policy was violated.
    SecurityViolation(String),
    /// The event bus refused an operation.
    Event(String),
    /// The command registry refused an operation.
    Command(String),
    /// A host API call failed.
    Api(String),
    /// A value could not be serialized or deserialized.
    Serialization(String),
    /// Anything else.
    Other(String),
}

impl Error {
    /// The message carried by the error.
    pub open spec fn detail(self) -> Seq<char> {
        match self {
            Error::Io(m) => m@,
            Error::InvalidManifest(m) => m@,
            Error::Dependency(m) => m@,
            Error::Config(m) => m@,
            Error::Runtime(m) => m@,
            Error::AlreadyLoaded(m) => m@,
            Error::NotFound(m) => m@,
            Error::UnsupportedAbiVersion(m) => m@,
            Error::SecurityViolation(m) => m@,
            Error::Event(m) => m@,
            Error::Command(m) => m@,
            Error::Api(m) => m@,
            Error::Serialization(m) => m@,
            Error::Other(m) => m@,
        }
    }

    /// The fixed text that introduces each kind of error.
    pub open spec fn prefix(self) -> Seq<char> {
        match self {
            Error::Io(_) => "I/O error: "@,
            Error::InvalidManifest(_) => "Invalid plugin manifest: "@,
            Error::Dependency(_) => "Plugin dependency error: "@,
            Error::Config(_) => "Plugin configuration error: "@,
            Error::Runtime(_) => "Plugin runtime error: "@,
            Error::AlreadyLoaded(_) => "Plugin already loaded: "@,
            Error::NotFound(_) => "Plugin not found: "@,
            Error::UnsupportedAbiVersion(_) => "Unsupported plugin ABI version: "@,
            Error::SecurityViolation(_) => "Security violation: "@,
            Error::Event(_) => "Event system error: "@,
            Error::Command(_) => "Command system error: "@,
            Error::Api(_) => "API error: "@,
            Error::Serialization(_) => "Serialization error: "@,
            Error::Other(_) => "Other error: "@,
        }
    }

    /// The message carried by the error.
    pub fn message(&self) -> (r: &str)
        ensures
            r@ == self.detail(),
    {
        match self {
            Error::Io(m) => m.as_str(),
            Error::InvalidManifest(m) => m.as_str(),
            Error::Dependency(m) => m.as_str(),
            Error::Config(m) => m.as_str(),
            Error::Runtime(m) => m.as_str(),
            Error::AlreadyLoaded(m) => m.as_str(),
            Error::NotFound(m) => m.as_str(),
            Error::UnsupportedAbiVersion(m) => m.as_str(),
            Error::SecurityViolation(m) => m.as_str(),
            Error::Event(m) => m.as_str(),
            Error::Command(m) => m.as_str(),
            Error::Api(m) => m.as_str(),
            Error::Serialization(m) => m.as_str(),
            Error::Other(m) => m.as_str(),
        }
    }

    /// The error as one line of text: the kind's prefix, then the message.
    pub fn describe(&self) -> (r: String)
        ensures
            r@ == self.prefix() + self.detail(),
    {
        match self {
            Error::Io(m) => join2("I/O error: ", m.as_str()),
            Error::InvalidManifest(m) => join2("Invalid plugin manifest: ", m.as_str()),
            Error::Dependency(m) => join2("Plugin dependency error: ", m.as_str()),
            Error::Config(m) => join2("Plugin configuration error: ", m.as_str()),
            Error::Runtime(m) => join2("Plugin runtime error: ", m.as_str()),
            Error::AlreadyLoaded(m) => join2("Plugin already loaded: ", m.as_str()),
            Error::NotFound(m) => join2("Plugin not found: ", m.as_str()),
            Error::UnsupportedAbiVersion(m) => join2("Unsupported plugin ABI version: ", m.as_str()),
            Error::SecurityViolation(m) => join2("Security violation: ", m.as_str()),
            Error::Event(m) => join2("Event system error: ", m.as_str()),
            Error::Command(m) => join2("Command system error: ", m.as_str()),
            Error::Api(m) => join2("API error: ", m.as_str()),
            Error::Serialization(m) => join2("Serialization error: ", m.as_str()),
            Error::Other(m) => join2("Other error: ", m.as_str()),
        }
    }
}

impl From<String> for Error {
    /// A bare message is an error of the kind `Other`.
    fn from(s: String) -> (r: Self) {
        Error::Other(s)
    }
}

impl vstd::std_specs::convert::FromSpecImpl<String> for Error {
    open spec fn obeys_from_spec() -> bool {
        true
    }

    open spec fn from_spec(s: String) -> Error {
        Error::Other(s)
    }
}

} // verus!
