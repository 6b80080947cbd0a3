//! Errors the engine reports.
use vstd::prelude::*;
use crate::json::JsonValue;

verus! {

/// A credential slot that an operation needed and that was not configured.
#[derive(PartialEq, Eq, Structural, Clone, Copy, Debug)]
pub enum CredentialSlot {
    AccessToken,
    ClientId,
    ClientSecret,
    ConversionToken,
}

/// Which required field a media registration response lacked.
#[derive(PartialEq, Eq, Structural, Clone, Copy, Debug)]
pub enum RegistrationField {
    MediaId,
    UploadUrl,
    UploadParameters,
}

/// The body form that an operation required and that was not given.
#[derive(PartialEq, Eq, Structural, Clone, Copy, Debug)]
pub enum BodyForm {
    Json,
    Form,
}

/// Everything that can go wrong while building, sending or interpreting a request.
#[derive(Debug)]
pub enum EngineError {
    /// A path parameter had neither an explicit value nor a default.
    MissingRequiredParam(String),
    /// The path still held a `{` after substitution; carries the template.
    UnresolvedPathTemplate(String),
    /// The HTTP method is not one of GET, POST, PATCH, PUT, DELETE.
    UnsupportedMethod(String),
    /// A body was given for a GET or DELETE.
    BodyNotAllowed,
    /// A body was given for an operation that declares none.
    BodyNotDeclared,
    /// The operation requires a body of this form and none was given.
    MissingBody(BodyForm),
    /// The operation accepts neither JSON nor form-urlencoded bodies; carries
    /// the content types it declares.
    UnsupportedContentTypes(Vec<String>),
    /// A credential was needed and is not configured.
    MissingCredential(CredentialSlot),
    /// A structured input was not a JSON object.
    NotAnObject,
    /// A non-success status came back with an empty body.
    EmptyErrorResponse(u16),
    /// A non-empty response body was not JSON.
    DecodeError,
    /// A non-success status came back with a JSON body.
    ApiError(u16, JsonValue),
    /// Pagination was asked for a method other than GET.
    PaginationUnsupported,
    /// A paginated response had no `items` array.
    MalformedPaginatedResponse,
    /// A media registration response lacked a field.
    MalformedRegistration(RegistrationField),
    /// The storage upload returned a non-success status.
    UploadFailed(u16, String),
    /// Media processing ended in `failed`.
    ProcessingFailed,
    /// Media processing did not finish within the time budget.
    ProcessingTimeout,
    /// Media processing reported a status the workflow does not know.
    UnexpectedStatus(String),
    /// An object-storage locator was not of the form `s3://bucket/key`.
    InvalidStorageLocator(String),
    /// A source value named nothing that could be read.
    SourceNotFound(String),
}

} // verus!
