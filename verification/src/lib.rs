//! Codec for a phone-authenticator request/response protocol: the JSON-shaped
//! envelope for outbound requests and inbound responses, the tagged-union
//! payload variants, the success/error unwrapping of responses, and the
//! one-byte wire framing around sealed transport payloads.

pub mod blob;
pub mod error;
pub mod json;
pub mod protocol;
pub mod text;

pub use blob::Base64Buffer;
pub use error::Error;
pub use json::Json;
pub use protocol::{
    AuthenticateRequest, AuthenticateResponse, ClientResult, IdData, IdRequest, IdResponse,
    RegisterRequest, RegisterResponse, Request, RequestBody, Response, ResponseBody, UserData,
    WireMessage, PROTOCOL_VERSION,
};
