//! The retirement signal of a connection: dropping the hook tells the shard's
//! guard that its manager left the directory.

use std::sync::mpsc::Sender;
use vstd::prelude::*;

verus! {

#[verifier::external_type_specification]
#[verifier::external_body]
#[verifier::reject_recursive_types(T)]
pub struct ExSender<T>(Sender<T>);

/// Relies on `std::sync::mpsc::Sender::send`: it hands `()` to the receiver if
/// that still exists, else returns an error, and never blocks; either outcome
/// is fine for a retirement signal.
#[verifier::external_body]
fn signal(tx: &Sender<()>)
    opens_invariants none
    no_unwind
{
    let _ = tx.send(());
}

/// Sends one signal on the channel when it is dropped.
#[derive(Debug)]
pub struct MongoHook {
    tx: Sender<()>,
}

impl MongoHook {
    /// The sender this hook signals on.
    pub closed spec fn sender(&self) -> Sender<()> {
        self.tx
    }

    /// A hook that signals on `tx` when dropped.
    pub fn new(tx: Sender<()>) -> (r: Self)
        ensures
            r.sender() == tx,
    {
        MongoHook { tx }
    }
}

impl Drop for MongoHook {
    fn drop(&mut self)
        opens_invariants none
        no_unwind
    {
        signal(&self.tx);
    }
}

} // verus!
