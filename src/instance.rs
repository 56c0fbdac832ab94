use tokio::sync::oneshot::Sender;
use tokio::task::{JoinError, JoinHandle};
use vstd::prelude::*;

verus! {

/// A one-shot send handle of tokio.
#[verifier::external_type_specification]
#[verifier::external_body]
#[verifier::reject_recursive_types(T)]
pub struct ExSender<T>(Sender<T>);

/// A handle to a task spawned on the tokio runtime.
#[verifier::external_type_specification]
#[verifier::external_body]
#[verifier::reject_recursive_types(T)]
pub struct ExJoinHandle<T>(JoinHandle<T>);

/// The error of a task that panicked or was cancelled. Declared because
/// tokio's `Future` impl for `JoinHandle` names it.
#[verifier::external_type_specification]
#[verifier::external_body]
pub struct ExJoinError(JoinError);

/// Relies on `tokio::sync::oneshot::Sender::send`: it consumes the sender and
/// never panics; it hands the value back when the receiver is gone.
pub assume_specification<T>[ Sender::<T>::send ](tx: Sender<T>, t: T) -> Result<(), T>;

/// Relies on `tokio::task::JoinHandle::is_finished`: it only reads the task's
/// state, which may change at any moment, so nothing is promised of it.
pub assume_specification<T>[ JoinHandle::<T>::is_finished ](h: &JoinHandle<T>) -> bool;

/// What the registry knows of an instance: its port, and whether its external
/// shutdown signal can still be fired.
pub struct InstanceView {
    pub port: u16,
    pub armed: bool,
}

/// The view of an instance after its external shutdown signal was fired.
pub open spec fn fired(v: InstanceView) -> InstanceView {
    InstanceView { port: v.port, armed: false }
}

/// A running service instance: the port it listens on, the one-shot handle
/// that asks it to shut down, and the task that serves it.
pub struct GGInstance {
    port: u16,
    shutdown_tx: Option<Sender<()>>,
    server_handle: JoinHandle<()>,
}

impl View for GGInstance {
    type V = InstanceView;

    open spec fn view(&self) -> InstanceView {
        InstanceView { port: self.spec_port(), armed: self.spec_armed() }
    }
}

impl GGInstance {
    pub closed spec fn spec_port(&self) -> u16 {
        self.port
    }

    pub closed spec fn spec_armed(&self) -> bool {
        self.shutdown_tx.is_some()
    }

    /// A fresh record for a task that serves on `port`, with its shutdown
    /// signal not yet fired.
    pub fn new(port: u16, shutdown_tx: Sender<()>, server_handle: JoinHandle<()>) -> (r: Self)
        ensures
            r@ == (InstanceView { port, armed: true }),
    {
        GGInstance { port, shutdown_tx: Some(shutdown_tx), server_handle }
    }

    pub fn port(&self) -> (r: u16)
        ensures
            r == self@.port,
    {
        self.port
    }

    /// Whether the external shutdown signal can still be fired.
    pub fn is_armed(&self) -> (r: bool)
        ensures
            r == self@.armed,
    {
        self.shutdown_tx.is_some()
    }

    /// Whether the serving task is still running. The answer reflects the
    /// moment of the call: a task may finish at any time.
    pub fn is_running(&self) -> (r: bool) {
        !self.server_handle.is_finished()
    }

    /// Fires the external shutdown signal. The handle is consumed by the
    /// first call; a later call finds it gone and does nothing.
    pub fn fire_shutdown(&mut self)
        ensures
            final(self)@ == fired(old(self)@),
            !old(self)@.armed ==> final(self)@ == old(self)@,
    {
        if let Some(tx) = self.shutdown_tx.take() {
            let _ = tx.send(());
        }
    }
}

} // verus!
