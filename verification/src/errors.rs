//! Error kinds surfaced by the request pipeline and the WebSocket session.

use vstd::prelude::*;

verus! {

/// Every failure the client execution engine can report.
#[derive(Debug)]
pub enum ClientError {
    /// The request named an HTTP method outside the supported set.
    UnsupportedMethod { method: String },
    /// A credential could not be resolved into wire effects
    /// (missing or expired token, or an unregistered custom scheme).
    AuthError { detail: String },
    /// The transport reported a network-level failure (connect error,
    /// timeout, broken exchange).
    RequestFailed { cause: String },
    /// The response body could not be read from the transport.
    BodyReadError { detail: String },
    /// The response body could not be decoded (not UTF-8, or a malformed
    /// structured value).
    BodyDecodeError { detail: String },
    /// `connect()` was called while a session was already active.
    WsAlreadyActive,
    /// `send()` was called while the session was not connected.
    WsNotConnected,
    /// The session's command channel is not available.
    WsCommandChannelClosed,
    /// The WebSocket transport failed.
    WsTransportError { cause: String },
}

impl ClientError {
    /// A short stable label for the error kind, usable in diagnostics.
    pub fn kind_label(&self) -> (r: &'static str)
        ensures
            r@ == self.spec_kind_label(),
    {
        match self {
            ClientError::UnsupportedMethod { .. } => "unsupported method",
            ClientError::AuthError { .. } => "auth error",
            ClientError::RequestFailed { .. } => "request failed",
            ClientError::BodyReadError { .. } => "body read error",
            ClientError::BodyDecodeError { .. } => "body decode error",
            ClientError::WsAlreadyActive => "websocket already active",
            ClientError::WsNotConnected => "websocket not connected",
            ClientError::WsCommandChannelClosed => "websocket command channel closed",
            ClientError::WsTransportError { .. } => "websocket transport error",
        }
    }

    /// What `kind_label` returns for each variant.
    pub open spec fn spec_kind_label(&self) -> Seq<char> {
        match self {
            ClientError::UnsupportedMethod { .. } => "unsupported method"@,
            ClientError::AuthError { .. } => "auth error"@,
            ClientError::RequestFailed { .. } => "request failed"@,
            ClientError::BodyReadError { .. } => "body read error"@,
            ClientError::BodyDecodeError { .. } => "body decode error"@,
            ClientError::WsAlreadyActive => "websocket already active"@,
            ClientError::WsNotConnected => "websocket not connected"@,
            ClientError::WsCommandChannelClosed => "websocket command channel closed"@,
            ClientError::WsTransportError { .. } => "websocket transport error"@,
        }
    }
}

} // verus!
