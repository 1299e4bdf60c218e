use vstd::prelude::*;
use vstd::string::StringExecFns;

verus! {

#[verifier::external_type_specification]
#[verifier::external_body]
pub struct ExIoError(std::io::Error);

#[verifier::external_type_specification]
#[verifier::external_body]
pub struct ExJsonError(serde_json::Error);

#[verifier::external_type_specification]
#[verifier::external_body]
pub struct ExUrlParseError(url::ParseError);

/// Errors of loading and checking a configuration.
#[derive(Debug)]
pub enum ConfigError {
    Io(String, std::io::Error),
    Parse(String, serde_json::Error),
    Serialize(serde_json::Error),
    Empty,
    SniTooLong(String),
    SelfLoop(String),
}

/// Errors of the raw packet backends.
#[derive(Debug)]
pub enum SnifferError {
    SocketOpen(std::io::Error),
    SocketBind(std::io::Error),
    FilterAttach(std::io::Error),
    Recv(std::io::Error),
    Inject(std::io::Error),
    Other(String),
}

/// Errors of handling one client connection.
#[derive(Debug)]
pub enum HandlerError {
    Connect(std::io::Error),
    Registration,
    Timeout,
    SnifferFailed(String),
    Relay(std::io::Error),
}

/// Errors of starting the proxy.
#[derive(Debug)]
pub enum ProxyError {
    Config(ConfigError),
    NoLocalIp,
    Sniffer(SnifferError),
    Runtime(std::io::Error),
    ThreadSpawn(std::io::Error),
}

/// Errors of reading an Xray share link.
#[derive(Debug)]
pub enum XrayParseError {
    Empty,
    UnsupportedScheme(String),
    Url(url::ParseError),
    Base64,
    Json(serde_json::Error),
    MissingHost,
    InvalidPort(String),
}

/// The text of an I/O error (`Display`). Trusted; the text comes from the platform, so
/// nothing is stated of it.
#[verifier::external_body]
fn io_error_text(e: &std::io::Error) -> String {
    e.to_string()
}

/// The text of a JSON error (`Display`). Trusted; nothing is stated of it.
#[verifier::external_body]
fn json_error_text(e: &serde_json::Error) -> String {
    e.to_string()
}

/// The messages of the errors that `validate` gives.
pub open spec fn config_error_text(e: ConfigError) -> Seq<char> {
    match e {
        ConfigError::Empty => "config has no listeners"@,
        ConfigError::SniTooLong(s) => "fake_sni too long (max 219 bytes): '"@ + s@ + "'"@,
        ConfigError::SelfLoop(s) => "listener connects back to itself: "@ + s@,
        _ => Seq::empty(),
    }
}

/// The message of a configuration file that could not be read, around the I/O error's text.
pub open spec fn io_message(path: Seq<char>, err: Seq<char>) -> Seq<char> {
    "failed to read config file '"@ + path + "': "@ + err
}

/// The message of a configuration file that is no valid configuration, around the JSON
/// error's text.
pub open spec fn parse_message(path: Seq<char>, err: Seq<char>) -> Seq<char> {
    "failed to parse config file '"@ + path + "': "@ + err
}

/// The message of a configuration that could not be written as JSON, around the JSON
/// error's text.
pub open spec fn serialize_message(err: Seq<char>) -> Seq<char> {
    "failed to serialize config: "@ + err
}

impl ConfigError {
    /// The error as text (`Display`); exact for the errors of a configuration check, and
    /// exact but for the outside error's own text for the others.
    pub fn message(&self) -> (r: String)
        ensures
            (*self is Empty || *self is SniTooLong || *self is SelfLoop) ==> r@ == config_error_text(
                *self,
            ),
            *self matches ConfigError::Io(path, _) ==> exists|t: Seq<char>|
                r@ == #[trigger] io_message(path@, t),
            *self matches ConfigError::Parse(path, _) ==> exists|t: Seq<char>|
                r@ == #[trigger] parse_message(path@, t),
            *self is Serialize ==> exists|t: Seq<char>| r@ == #[trigger] serialize_message(t),
    {
        match self {
            ConfigError::Io(path, e) => {
                let t = io_error_text(e);
                let r = String::from_str("failed to read config file '").concat(path.as_str()).concat(
                    "': ",
                ).concat(t.as_str());
                assert(r@ == io_message(path@, t@));
                r
            },
            ConfigError::Parse(path, e) => {
                let t = json_error_text(e);
                let r = String::from_str("failed to parse config file '").concat(path.as_str()).concat(
                    "': ",
                ).concat(t.as_str());
                assert(r@ == parse_message(path@, t@));
                r
            },
            ConfigError::Serialize(e) => {
                let t = json_error_text(e);
                let r = String::from_str("failed to serialize config: ").concat(t.as_str());
                assert(r@ == serialize_message(t@));
                r
            },
            ConfigError::Empty => String::from_str("config has no listeners"),
            ConfigError::SniTooLong(s) => String::from_str(
                "fake_sni too long (max 219 bytes): '",
            ).concat(s.as_str()).concat("'"),
            ConfigError::SelfLoop(s) => String::from_str(
                "listener connects back to itself: ",
            ).concat(s.as_str()),
        }
    }
}

} // verus!
