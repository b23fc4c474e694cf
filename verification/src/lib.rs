//! Connection front-end building blocks for a REST server: a WebSocket frame
//! codec with masking and a control-frame side channel, TLS/plaintext
//! connection sniffing with admission control, HTTP upgrade handshake logic,
//! and the small configuration helpers that live alongside them.

mod apt_file;
mod apt_repository;
mod connection;
mod digits;
mod rrd;
mod server;
mod ticket;
mod websocket;

pub use apt_file::{suite_variant, APTRepositoryFile, APTRepositoryFileError, APTRepositoryInfo};
pub use apt_repository::{host_from_uri, quote_for_one_line, str_contains_char,
    str_ends_with_char, uri_to_filename, write_one_line, write_stanza, APTRepository,
    APTRepositoryFileType, APTRepositoryOption, APTRepositoryPackageType, RepoError};
pub use connection::{contains_tls_handshake_fragment, sniff_step, AcceptBuilder, AcceptCounter,
    SniffDecision, Tls, TlsAcceptorBuilder, TlsAcceptorPlan, SELF_SIGNED_VALIDITY_DAYS};
pub use digits::{i64_dec_string, u64_dec_bytes};
pub use rrd::DST;
pub use server::{ctrl_sock_from_pid, extract_cookie, fail_on_shutdown, normalize_uri_path,
    our_ctrl_sock, parse_pid, pid_file_contents, request_shutdown, shutdown_requested, AuthError,
    ServerError, ShutdownFlag};
pub use ticket::TicketError;
pub use websocket::{control_reply, create_frame, mask_bytes, relay_close_frame,
    websocket_accept_key, ControlDisposition, FrameHeader, HandshakeError, OpCode, ProtocolError,
    ReadStep, UpgradeRequest, UpgradeResponse, WebSocket, WebSocketReader, WebSocketWriter,
    MAGIC_WEBSOCKET_GUID};
