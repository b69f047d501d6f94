use vstd::prelude::*;
use std::sync::mpsc::{Receiver, RecvError, RecvTimeoutError, SendError, Sender, TryRecvError, Iter, TryIter};
use std::time::Duration;

verus! {

#[verifier::external_type_specification]
#[verifier::external_body]
#[verifier::reject_recursive_types(T)]
pub struct ExSender<T>(std::sync::mpsc::Sender<T>);

#[verifier::external_type_specification]
#[verifier::external_body]
#[verifier::reject_recursive_types(T)]
pub struct ExReceiver<T>(std::sync::mpsc::Receiver<T>);

#[verifier::external_type_specification]
#[verifier::external_body]
#[verifier::reject_recursive_types(T)]
pub struct ExSendError<T>(std::sync::mpsc::SendError<T>);

#[verifier::external_type_specification]
#[verifier::external_body]
pub struct ExRecvError(std::sync::mpsc::RecvError);

#[verifier::external_type_specification]
#[verifier::external_body]
pub struct ExTryRecvError(std::sync::mpsc::TryRecvError);

#[verifier::external_type_specification]
#[verifier::external_body]
pub struct ExRecvTimeoutError(std::sync::mpsc::RecvTimeoutError);

#[verifier::external_type_specification]
#[verifier::external_body]
#[verifier::reject_recursive_types(T)]
pub struct ExIter<'a, T: 'a>(std::sync::mpsc::Iter<'a, T>);

#[verifier::external_type_specification]
#[verifier::external_body]
#[verifier::reject_recursive_types(T)]
pub struct ExTryIter<'a, T: 'a>(std::sync::mpsc::TryIter<'a, T>);

/// `std::sync::mpsc::channel`: a new connected sender and receiver.
#[verifier::external_body]
fn channel<T>() -> (Sender<T>, Receiver<T>) {
    std::sync::mpsc::channel::<T>()
}

/// One end of a two-way link between threads: it receives values of type
/// `R` and sends values of type `W`.
#[verifier::reject_recursive_types(R)]
#[verifier::reject_recursive_types(W)]
pub struct Channel<R, W> {
    receiver: Receiver<R>,
    sender: Sender<W>,
    handed: Ghost<Seq<W>>,
}

impl<R, W> Channel<R, W> {
    /// Every value this end was given to send, oldest first, whether or not
    /// the other end was still there to take it.
    pub closed spec fn handed(&self) -> Seq<W> {
        self.handed@
    }

    /// Two ends of a new link: what the one sends, the other receives.
    /// Neither end has sent anything yet.
    pub fn new_pair() -> (r: (Channel<W, R>, Channel<R, W>))
        ensures
            r.0.handed() == Seq::<R>::empty(),
            r.1.handed() == Seq::<W>::empty(),
    {
        let (sender1, receiver1) = channel::<R>();
        let (sender2, receiver2) = channel::<W>();
        let com1 = Channel { sender: sender1, receiver: receiver2, handed: Ghost(Seq::empty()) };
        let com2 = Channel { sender: sender2, receiver: receiver1, handed: Ghost(Seq::empty()) };
        (com1, com2)
    }

    /// `Sender::send`: hands `t` to the other end; gives it back in the error
    /// if that end is gone. The contract records `t` as handed over, in
    /// either case; it does not say which case comes, since that rests on
    /// the other thread.
    #[verifier::external_body]
    pub fn send(&mut self, t: W) -> (r: Result<(), SendError<W>>)
        ensures
            final(self).handed() == old(self).handed().push(t),
    {
        self.sender.send(t)
    }

    /// `Receiver::iter`: the values received, waiting for each, until the
    /// other end is gone.
    #[verifier::external_body]
    pub fn iter(&self) -> Iter<'_, R> {
        self.receiver.iter()
    }

    /// `Receiver::try_iter`: the values already received, without waiting.
    #[verifier::external_body]
    pub fn try_iter(&self) -> TryIter<'_, R> {
        self.receiver.try_iter()
    }

    /// `Receiver::recv`: the next value, waiting for it; an error once the
    /// other end is gone and nothing is left.
    #[verifier::external_body]
    pub fn recv(&self) -> Result<R, RecvError> {
        self.receiver.recv()
    }

    /// `Receiver::try_recv`: the next value if one is waiting.
    #[verifier::external_body]
    pub fn try_recv(&self) -> Result<R, TryRecvError> {
        self.receiver.try_recv()
    }

    /// `Receiver::recv_timeout`: the next value, waiting for it at most
    /// `timeout`.
    #[verifier::external_body]
    pub fn recv_timeout(&self, timeout: Duration) -> Result<R, RecvTimeoutError> {
        self.receiver.recv_timeout(timeout)
    }
}

} // verus!
