use vstd::prelude::*;
use core::ops::{Add, Mul};
use crate::error::Error;
use crate::vector::{Vector, dot_product, dot_computable, is_dot};

verus! {

/// The sending half of a one-shot channel, `oneshot::Sender`: a worker
/// answers a task on it. Nothing is known of the channel behind it.
#[verifier::external_type_specification]
#[verifier::external_body]
#[verifier::reject_recursive_types(T)]
pub struct ExSender<T>(oneshot::Sender<T>);

/// The receiving half of a one-shot channel, `oneshot::Receiver`: the reply
/// to a task arrives on it. Nothing is known of the channel behind it.
#[verifier::external_type_specification]
#[verifier::external_body]
#[verifier::reject_recursive_types(T)]
pub struct ExReceiver<T>(oneshot::Receiver<T>);

/// `oneshot::RecvError`, which a receiving half gives when its sending half
/// went away without a message. It holds nothing.
#[verifier::external_type_specification]
#[verifier::external_body]
pub struct ExRecvError(oneshot::RecvError);

/// `oneshot::channel` makes a new channel and gives its two halves. Nothing
/// is claimed of them.
pub assume_specification<T>[ oneshot::channel::<T> ]() -> (halves: (oneshot::Sender<T>, oneshot::Receiver<T>));

/// One cell's work: a row of the left matrix, a column of the right one, and
/// the place of the cell in the row-major buffer of the product.
pub struct MsgInput<T> {
    pub inx: usize,
    pub row: Vector<T>,
    pub col: Vector<T>,
}

/// One cell's result, with the place it belongs to.
pub struct MsgOutput<T> {
    pub inx: usize,
    pub result: T,
}

/// A task on its way to a worker, with the channel on which the worker is to
/// answer it.
#[verifier::reject_recursive_types(T)]
pub struct Msg<T> {
    pub input: MsgInput<T>,
    pub sender: oneshot::Sender<MsgOutput<T>>,
}

impl<T> MsgInput<T> {
    /// The task of computing `row` times `col` for place `inx`.
    pub fn new(inx: usize, row: Vector<T>, col: Vector<T>) -> (input: Self)
        ensures
            input.inx == inx,
            input.row == row,
            input.col == col,
    {
        MsgInput { inx, row, col }
    }

    /// What a worker computes for a task: the dot product of its row and
    /// column, bound for the task's own place.
    pub fn compute(self) -> (r: Result<MsgOutput<T>, Error>)
        where T: Default + Add<Output = T> + Mul<Output = T> + Copy
        requires
            dot_computable(self.row@, self.col@),
        ensures
            self.row@.len() != self.col@.len() ==> r is Err && r->Err_0 == Error::DimensionMismatch,
            self.row@.len() == self.col@.len() ==> r is Ok && r->Ok_0.inx == self.inx && is_dot(
                self.row@,
                self.col@,
                r->Ok_0.result,
            ),
    {
        let inx = self.inx;
        match dot_product(self.row, self.col) {
            Ok(result) => Ok(MsgOutput { inx, result }),
            Err(e) => Err(e),
        }
    }
}

/// Sends `output` with `oneshot::Sender::send`. The channel takes the
/// message, or, where its receiver is gone, refuses it with an error that
/// still holds it: `oneshot::SendError::into_inner` then gives the same
/// message back.
#[verifier::external_body]
fn send_reply<T>(sender: oneshot::Sender<MsgOutput<T>>, output: MsgOutput<T>) -> (undelivered: Option<
    MsgOutput<T>,
>)
    ensures
        undelivered matches Some(back) ==> back == output,
{
    match sender.send(output) {
        Ok(()) => None,
        Err(refused) => Some(refused.into_inner()),
    }
}

impl<T> Msg<T> {
    /// The task `input`, to be answered on `sender`.
    pub fn new(input: MsgInput<T>, sender: oneshot::Sender<MsgOutput<T>>) -> (msg: Self)
        ensures
            msg.input == input,
            msg.sender == sender,
    {
        Msg { input, sender }
    }

    /// A task with a fresh channel for its reply: the message for the
    /// worker, and the half on which the reply will arrive.
    pub fn with_reply(input: MsgInput<T>) -> (r: (Msg<T>, oneshot::Receiver<MsgOutput<T>>))
        ensures
            r.0.input == input,
    {
        let (sender, receiver) = oneshot::channel::<MsgOutput<T>>();
        (Msg::new(input, sender), receiver)
    }

    /// One step of a worker: computes the task and answers it on the task's
    /// own channel. Where nobody listens any more, the result comes back in
    /// `Some`, and the worker may go on with its next task. A task whose row
    /// and column differ in length is not answered.
    pub fn serve(self) -> (r: Result<Option<MsgOutput<T>>, Error>)
        where T: Default + Add<Output = T> + Mul<Output = T> + Copy
        requires
            dot_computable(self.input.row@, self.input.col@),
        ensures
            self.input.row@.len() != self.input.col@.len() ==> r is Err && r->Err_0
                == Error::DimensionMismatch,
            self.input.row@.len() == self.input.col@.len() ==> r is Ok && (r->Ok_0 matches Some(back)
                ==> back.inx == self.input.inx && is_dot(self.input.row@, self.input.col@, back.result)),
    {
        let Msg { input, sender } = self;
        match input.compute() {
            Ok(output) => Ok(send_reply(sender, output)),
            Err(e) => Err(e),
        }
    }
}

} // verus!
