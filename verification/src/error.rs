//! Error kinds of the server and the HTTP status each one is answered with.

use crate::permission::{ChannelPermission, HubPermission};
use vstd::prelude::*;
use vstd::std_specs::convert::FromSpecImpl;
use vstd::string::*;

verus! {

/// Errors related to data processing.
#[derive(Clone, Copy, PartialEq, Eq, Structural, Debug)]
pub enum DataError {
    WriteFile,
    Deserialize,
    Directory,
    ReadFile,
    Serialize,
    DeleteFailed,
}

/// Errors related to web socket handling.
#[derive(Clone, Copy, PartialEq, Eq, Structural, Debug)]
pub enum WebSocketError {
    ConnectionClosed,
    AlreadyClosed,
    Protocol,
    Utf8,
    Tls,
    Io,
    Url,
    Capacity,
    SendQueueFull,
    Http,
    HttpFormat,
}

/// Errors related to message indexing and searching.
#[derive(Clone, Copy, PartialEq, Eq, Structural, Debug)]
pub enum IndexError {
    OpenCreateIndex,
    CreateReader,
    CreateWriter,
    GetReader,
    GetWriter,
    ParseQuery,
    Search,
    GetDoc,
    Commit,
    Reload,
}

/// Errors related to authentication.
#[derive(Clone, Copy, PartialEq, Eq, Structural, Debug)]
pub enum AuthError {
    NoResponse,
    BadJson,
    OAuthExchangeFailed,
    InvalidToken,
    InvalidSession,
    MalformedIDToken,
}

/// General errors that can occur when using the server.
#[derive(Clone, Copy, PartialEq, Eq, Structural, Debug)]
pub enum Error {
    Muted,
    Banned,
    HubNotFound,
    ChannelNotFound,
    MissingHubPermission(HubPermission),
    MissingChannelPermission(ChannelPermission),
    NotAMember,
    UserNotFound,
    MemberNotFound,
    MessageNotFound,
    NotAuthenticated,
    GroupNotFound,
    InvalidName,
    UnexpectedServerArg,
    TooBig,
    InvalidText,
    MessageSendFailed,
    Warp,
    CannotAuthenticate,
    AlreadyTyping,
    NotTyping,
    Internal,
    ServerStartFailed,
    Io,
    Auth(AuthError),
    Data(DataError),
    Index(IndexError),
}

/// General result type, whose error defaults to [`Error`].
pub type Result<T = (), E = Error> = std::result::Result<T, E>;

pub const BAD_REQUEST: u16 = 400;

pub const UNAUTHORIZED: u16 = 401;

pub const FORBIDDEN: u16 = 403;

pub const NOT_FOUND: u16 = 404;

pub const CONFLICT: u16 = 409;

pub const INTERNAL_SERVER_ERROR: u16 = 500;

pub const BAD_GATEWAY: u16 = 502;

impl AuthError {
    /// HTTP status of an authentication error: 401 for a token that is not
    /// valid, 400 for one that cannot be read, 502 for a failure of the
    /// service that was asked.
    pub open spec fn spec_status_code(self) -> u16 {
        match self {
            AuthError::InvalidToken => UNAUTHORIZED,
            AuthError::MalformedIDToken => BAD_REQUEST,
            _ => BAD_GATEWAY,
        }
    }

    #[verifier::when_used_as_spec(spec_status_code)]
    pub fn status_code(self) -> (code: u16)
        ensures
            code == self.spec_status_code(),
    {
        match self {
            AuthError::InvalidToken => UNAUTHORIZED,
            AuthError::MalformedIDToken => BAD_REQUEST,
            _ => BAD_GATEWAY,
        }
    }
}

impl Error {
    /// Whether the error says that something asked for does not exist.
    pub open spec fn is_not_found(self) -> bool {
        self == Error::ChannelNotFound || self == Error::GroupNotFound || self
            == Error::HubNotFound || self == Error::MemberNotFound || self
            == Error::MessageNotFound || self == Error::NotAMember || self == Error::UserNotFound
    }

    /// Whether the error says that the caller may not do what was asked.
    pub open spec fn is_forbidden(self) -> bool {
        self == Error::Banned || self == Error::Muted || self is MissingChannelPermission
            || self is MissingHubPermission
    }

    /// Whether the error says that the request itself was not acceptable.
    pub open spec fn is_bad_request(self) -> bool {
        self == Error::InvalidName || self == Error::TooBig || self == Error::InvalidText
    }

    /// HTTP status of an error: by the group it falls in, that of the
    /// authentication error it carries, 409 for a typing state that does
    /// not fit, and 500 for everything else.
    pub open spec fn spec_status_code(self) -> u16 {
        if self == Error::NotAuthenticated {
            UNAUTHORIZED
        } else if self.is_bad_request() {
            BAD_REQUEST
        } else if self.is_forbidden() {
            FORBIDDEN
        } else if self.is_not_found() {
            NOT_FOUND
        } else if self == Error::AlreadyTyping || self == Error::NotTyping {
            CONFLICT
        } else if let Error::Auth(error) = self {
            error.spec_status_code()
        } else {
            INTERNAL_SERVER_ERROR
        }
    }

    #[verifier::when_used_as_spec(spec_status_code)]
    pub fn status_code(self) -> (code: u16)
        ensures
            code == self.spec_status_code(),
    {
        match self {
            Error::NotAuthenticated => UNAUTHORIZED,
            Error::InvalidName => BAD_REQUEST,
            Error::Banned => FORBIDDEN,
            Error::ChannelNotFound => NOT_FOUND,
            Error::GroupNotFound => NOT_FOUND,
            Error::HubNotFound => NOT_FOUND,
            Error::MemberNotFound => NOT_FOUND,
            Error::MessageNotFound => NOT_FOUND,
            Error::Muted => FORBIDDEN,
            Error::MissingChannelPermission(_) => FORBIDDEN,
            Error::MissingHubPermission(_) => FORBIDDEN,
            Error::NotAMember => NOT_FOUND,
            Error::UserNotFound => NOT_FOUND,
            Error::ServerStartFailed => INTERNAL_SERVER_ERROR,
            Error::UnexpectedServerArg => INTERNAL_SERVER_ERROR,
            Error::TooBig => BAD_REQUEST,
            Error::CannotAuthenticate => INTERNAL_SERVER_ERROR,
            Error::InvalidText => BAD_REQUEST,
            Error::MessageSendFailed => INTERNAL_SERVER_ERROR,
            Error::AlreadyTyping => CONFLICT,
            Error::NotTyping => CONFLICT,
            Error::Internal => INTERNAL_SERVER_ERROR,
            Error::Auth(error) => error.status_code(),
            Error::Data(_) => INTERNAL_SERVER_ERROR,
            Error::Index(_) => INTERNAL_SERVER_ERROR,
            Error::Warp => INTERNAL_SERVER_ERROR,
            Error::Io => INTERNAL_SERVER_ERROR,
        }
    }
}

impl DataError {
    /// The kind of the error as clients are told.
    pub open spec fn spec_kind(self) -> Seq<char> {
        match self {
            DataError::WriteFile => "write"@,
            DataError::Deserialize => "deserialize"@,
            DataError::Directory => "directory"@,
            DataError::ReadFile => "read"@,
            DataError::Serialize => "serialize"@,
            DataError::DeleteFailed => "delete"@,
        }
    }

    /// The kind of the error as clients are told.
    pub fn kind(self) -> (kind: &'static str)
        ensures
            kind@ == self.spec_kind(),
    {
        match self {
            DataError::WriteFile => "write",
            DataError::Deserialize => "deserialize",
            DataError::Directory => "directory",
            DataError::ReadFile => "read",
            DataError::Serialize => "serialize",
            DataError::DeleteFailed => "delete",
        }
    }
}

impl IndexError {
    /// The kind of the error as clients are told: what failed, be it on
    /// making the thing or on getting it.
    pub open spec fn spec_kind(self) -> Seq<char> {
        match self {
            IndexError::OpenCreateIndex => "open"@,
            IndexError::CreateReader => "reader"@,
            IndexError::CreateWriter => "writer"@,
            IndexError::GetReader => "reader"@,
            IndexError::GetWriter => "writer"@,
            IndexError::ParseQuery => "parse"@,
            IndexError::Search => "search"@,
            IndexError::GetDoc => "get"@,
            IndexError::Commit => "commit"@,
            IndexError::Reload => "reload"@,
        }
    }

    /// The kind of the error as clients are told.
    pub fn kind(self) -> (kind: &'static str)
        ensures
            kind@ == self.spec_kind(),
    {
        match self {
            IndexError::OpenCreateIndex => "open",
            IndexError::CreateReader => "reader",
            IndexError::CreateWriter => "writer",
            IndexError::GetReader => "reader",
            IndexError::GetWriter => "writer",
            IndexError::ParseQuery => "parse",
            IndexError::Search => "search",
            IndexError::GetDoc => "get",
            IndexError::Commit => "commit",
            IndexError::Reload => "reload",
        }
    }
}

/// A tag with what it carries in brackets.
pub open spec fn tagged(tag: Seq<char>, carried: Seq<char>) -> Seq<char> {
    tag + "("@ + carried + ")"@
}

fn tag_with(tag: &str, carried: &str) -> (text: String)
    ensures
        text@ == tagged(tag@, carried@),
{
    let mut text = String::from_str(tag);
    text.append("(");
    text.append(carried);
    text.append(")");
    text
}

impl Error {
    /// The tag under which clients are told of the error. An error that
    /// clients are not told the nature of goes as `Internal`.
    pub open spec fn spec_wire_tag(self) -> Seq<char> {
        match self {
            Error::NotAuthenticated => "NotAuthenticated"@,
            Error::NotAMember => "NotAMember"@,
            Error::Banned => "Banned"@,
            Error::Muted => "Muted"@,
            Error::HubNotFound => "HubNotFound"@,
            Error::ChannelNotFound => "ChannelNotFound"@,
            Error::MissingHubPermission(p) => tagged("MissingHubPermission"@, p.spec_name()),
            Error::MissingChannelPermission(p) => tagged(
                "MissingChannelPermission"@,
                p.spec_name(),
            ),
            Error::InvalidName => "InvalidName"@,
            Error::InvalidText => "InvalidText"@,
            Error::TooBig => "TooBig"@,
            Error::Index(e) => tagged("IndexError"@, e.spec_kind()),
            Error::Data(e) => tagged("DataError"@, e.spec_kind()),
            _ => "Internal"@,
        }
    }

    /// The tag under which clients are told of the error.
    pub fn wire_tag(self) -> (tag: String)
        ensures
            tag@ == self.spec_wire_tag(),
    {
        match self {
            Error::NotAuthenticated => String::from_str("NotAuthenticated"),
            Error::NotAMember => String::from_str("NotAMember"),
            Error::Banned => String::from_str("Banned"),
            Error::Muted => String::from_str("Muted"),
            Error::HubNotFound => String::from_str("HubNotFound"),
            Error::ChannelNotFound => String::from_str("ChannelNotFound"),
            Error::MissingHubPermission(p) => tag_with("MissingHubPermission", p.name()),
            Error::MissingChannelPermission(p) => tag_with("MissingChannelPermission", p.name()),
            Error::InvalidName => String::from_str("InvalidName"),
            Error::InvalidText => String::from_str("InvalidText"),
            Error::TooBig => String::from_str("TooBig"),
            Error::Index(e) => tag_with("IndexError", e.kind()),
            Error::Data(e) => tag_with("DataError", e.kind()),
            _ => String::from_str("Internal"),
        }
    }
}

impl From<IndexError> for Error {
    fn from(err: IndexError) -> (e: Self) {
        Error::Index(err)
    }
}

impl FromSpecImpl<IndexError> for Error {
    open spec fn obeys_from_spec() -> bool {
        true
    }

    open spec fn from_spec(err: IndexError) -> Self {
        Error::Index(err)
    }
}

impl From<AuthError> for Error {
    fn from(err: AuthError) -> (e: Self) {
        Error::Auth(err)
    }
}

impl FromSpecImpl<AuthError> for Error {
    open spec fn obeys_from_spec() -> bool {
        true
    }

    open spec fn from_spec(err: AuthError) -> Self {
        Error::Auth(err)
    }
}

impl From<DataError> for Error {
    fn from(err: DataError) -> (e: Self) {
        Error::Data(err)
    }
}

impl FromSpecImpl<DataError> for Error {
    open spec fn obeys_from_spec() -> bool {
        true
    }

    open spec fn from_spec(err: DataError) -> Self {
        Error::Data(err)
    }
}

} // verus!
