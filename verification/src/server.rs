//! The local server's startup handshake and health probe. Binding the
//! loopback listener and accepting connections are the caller's I/O; what the
//! library owns is the readiness decision — the signal is fired exactly once,
//! and a signal nobody listens for is a fatal startup error — and the health
//! answer.

use vstd::prelude::*;

use crate::bus::EventBus;
use crate::error::SkadiError;
use crate::runner::ExecResponse;

verus! {

/// The declaration of tokio's single-use channel sender, which carries the
/// readiness signal from the server to the window host.
#[verifier::external_type_specification]
#[verifier::external_body]
#[verifier::reject_recursive_types(T)]
pub struct ExOneshotSender<T>(tokio::sync::oneshot::Sender<T>);

/// Relies on `tokio::sync::oneshot::Sender::send`: delivers the single
/// readiness value, failing exactly when the receiving half is gone. The
/// sender is consumed, so the signal fires at most once.
#[verifier::external_body]
fn send_ready_signal(tx: tokio::sync::oneshot::Sender<()>) -> (r: bool) {
    tx.send(()).is_ok()
}

/// Whether a fired readiness signal reached its consumer: a signal that
/// nobody was waiting for is a fatal startup error, not retried.
pub fn ready_outcome(sent: bool) -> (r: Result<(), SkadiError>)
    ensures
        r is Ok <==> sent,
        r matches Err(e) ==> (e matches SkadiError::ServerError(m) && m@
            == "Failed to send ready signal"@),
{
    if sent {
        Ok(())
    } else {
        Err(SkadiError::ServerError(String::from_str("Failed to send ready signal")))
    }
}

/// Fires the readiness signal, exactly once: the sender is consumed. To be
/// called after the listener is bound and before serving begins, so the
/// window host only loads the UI once traffic can be served.
pub fn signal_ready(tx: tokio::sync::oneshot::Sender<()>) -> (r: Result<(), SkadiError>)
    ensures
        r matches Err(e) ==> (e matches SkadiError::ServerError(m) && m@
            == "Failed to send ready signal"@),
{
    let sent = send_ready_signal(tx);
    ready_outcome(sent)
}

/// The health probe. It answers 200 "OK" in every server state: the bus — the
/// only state that request handling can reach — is borrowed and ignored, and
/// execution requests never alter it (delivery only ever borrows it too), so
/// the probe's answer is the same before and after any number of execution
/// requests.
pub fn healthcheck_response(bus: &EventBus) -> (r: ExecResponse)
    ensures
        r.status == 200,
        r.body@ == "OK"@,
{
    let _ = bus;
    ExecResponse { status: 200, body: String::from_str("OK") }
}

} // verus!
