//! The queue in which requests wait for the connection to a server.

use futures::channel::mpsc::Sender as Queue;
use vstd::prelude::*;

use crate::buffer::Buffer;
use crate::config::Config;
use crate::proto::{Message, MessageView};

verus! {

/// What the connection to a server is asked to do.
#[derive(Debug)]
pub enum Request {
    /// Send a message, with the buffer from which it was written.
    Send(Message, Option<Buffer>),
    /// Go by what the user has set anew.
    ConfigUpdated(Config),
}

/// What a request holds.
pub enum RequestView {
    Send(MessageView, Option<Buffer>),
    ConfigUpdated(Config),
}

impl View for Request {
    type V = RequestView;

    open spec fn view(&self) -> RequestView {
        match *self {
            Request::Send(message, buffer) => RequestView::Send(message@, buffer),
            Request::ConfigUpdated(config) => RequestView::ConfigUpdated(config),
        }
    }
}

/// What a list of requests holds.
pub open spec fn request_views(requests: Seq<Request>) -> Seq<RequestView> {
    requests.map_values(|request: Request| request@)
}

/// A request that found no place in the queue.
#[derive(Debug)]
pub struct Rejected {
    pub request: Request,
    /// Whether nothing takes requests out of the queue any more; else the queue is full.
    pub disconnected: bool,
}

/// What a list of rejections holds.
pub open spec fn rejected_views(rejected: Seq<Rejected>) -> Seq<RequestView> {
    rejected.map_values(|rejected: Rejected| rejected.request@)
}

/// The sending end of a queue.
#[verifier::external_type_specification]
#[verifier::external_body]
#[verifier::reject_recursive_types(T)]
pub struct ExQueue<T>(Queue<T>);

/// The requests that have been put in a queue through one sending end of it, in order.
pub uninterp spec fn put_through(queue: Queue<Request>) -> Seq<Request>;

/// The requests for which a place in a queue has been sought through one sending end of it, in
/// order, whether or not there was one.
pub uninterp spec fn tried_through(queue: Queue<Request>) -> Seq<Request>;

/// Which queue a sending end puts requests in. It is the same for two ends where the requests that
/// go through them come out at the same receiver.
pub uninterp spec fn queue_behind(queue: Queue<Request>) -> int;

/// Calls `futures::channel::mpsc::Sender::try_send`. The end stays one of the same queue. Either
/// way a place has been sought for the request. Where it succeeds, the request has been put behind
/// those that went through this end before. Where it fails, nothing has been put in, and the
/// request comes back. Whether there is room, and whether anything still takes requests out, is up
/// to the other ends of the queue, and nothing is claimed of it. The call gives up only where more
/// requests wait than any memory holds.
#[verifier::external_body]
fn queue_try_send(queue: &mut Queue<Request>, request: Request) -> (res: Result<(), Rejected>)
    ensures
        queue_behind(*final(queue)) == queue_behind(*old(queue)),
        tried_through(*final(queue)) == tried_through(*old(queue)).push(request),
        match res {
            Ok(_) => put_through(*final(queue)) == put_through(*old(queue)).push(request),
            Err(rejected) => {
                &&& rejected.request == request
                &&& put_through(*final(queue)) == put_through(*old(queue))
            },
        },
{
    queue.try_send(request).map_err(
        |error|
            {
                let disconnected = error.is_disconnected();
                Rejected { request: error.into_inner(), disconnected }
            },
    )
}

/// Calls `futures::channel::mpsc::Sender::clone`, which opens another sending end: it puts requests
/// in the same queue as the one that it was made of. Nothing is claimed of what went through it.
/// The call gives up only where there are more ends than any memory holds.
#[verifier::external_body]
fn queue_clone(queue: &Queue<Request>) -> (other: Queue<Request>)
    ensures
        queue_behind(other) == queue_behind(*queue),
{
    queue.clone()
}

/// Where requests for the connection to a server are put.
#[derive(Debug)]
pub struct Sender(Queue<Request>);

/// Which queue a sender puts requests in, and what went through the sender: the requests that were
/// put in the queue, and those for which a place was sought.
#[verifier::ext_equal]
pub struct SenderView {
    pub queue: int,
    pub put: Seq<RequestView>,
    pub tried: Seq<RequestView>,
}

impl SenderView {
    /// What went through one end of a queue.
    pub open spec fn of(queue: Queue<Request>) -> SenderView {
        SenderView {
            queue: queue_behind(queue),
            put: request_views(put_through(queue)),
            tried: request_views(tried_through(queue)),
        }
    }

    /// The sender after a request that found a place.
    pub open spec fn accepted(self, request: RequestView) -> SenderView {
        SenderView { put: self.put.push(request), tried: self.tried.push(request), ..self }
    }

    /// The sender after a request that found no place.
    pub open spec fn refused(self, request: RequestView) -> SenderView {
        SenderView { tried: self.tried.push(request), ..self }
    }
}

impl View for Sender {
    type V = SenderView;

    closed spec fn view(&self) -> SenderView {
        SenderView::of(self.0)
    }
}

impl Clone for Sender {
    fn clone(&self) -> (other: Self)
        ensures
            other@.queue == self@.queue,
    {
        Sender(queue_clone(&self.0))
    }
}

impl Sender {
    /// Sends through one end of a queue.
    pub fn new(sender: Queue<Request>) -> (res: Self)
        ensures
            res@ == SenderView::of(sender),
    {
        Sender(sender)
    }

    /// The end of the queue through which this sends.
    pub fn queue(&mut self) -> (queue: &mut Queue<Request>)
        ensures
            old(self)@ == SenderView::of(*queue),
            final(self)@ == SenderView::of(*final(queue)),
    {
        &mut self.0
    }

    /// Puts a request in the queue.
    pub fn request(&mut self, request: Request) -> (res: Result<(), Rejected>)
        ensures
            match res {
                Ok(_) => final(self)@ == old(self)@.accepted(request@),
                Err(rejected) => {
                    &&& rejected.request == request
                    &&& final(self)@ == old(self)@.refused(request@)
                },
            },
    {
        let res = queue_try_send(&mut self.0, request);
        proof {
            let put = put_through(old(self).0);
            let tried = tried_through(old(self).0);
            assert(request_views(put.push(request)) =~= request_views(put).push(request@));
            assert(request_views(tried.push(request)) =~= request_views(tried).push(request@));
        }
        res
    }

    /// Asks for a message to be sent.
    pub fn try_send(&mut self, message: Message) -> (res: Result<(), Rejected>)
        ensures
            match res {
                Ok(_) => final(self)@ == old(self)@.accepted(RequestView::Send(message@, None)),
                Err(rejected) => {
                    &&& rejected.request == Request::Send(message, None)
                    &&& final(self)@ == old(self)@.refused(RequestView::Send(message@, None))
                },
            },
    {
        self.request(Request::Send(message, None))
    }

    /// Asks for a message to be sent that was written from a buffer.
    pub fn try_send_with_buffer(&mut self, message: Message, buffer: Buffer) -> (res: Result<
        (),
        Rejected,
    >)
        ensures
            match res {
                Ok(_) => final(self)@ == old(self)@.accepted(
                    RequestView::Send(message@, Some(buffer)),
                ),
                Err(rejected) => {
                    &&& rejected.request == Request::Send(message, Some(buffer))
                    &&& final(self)@ == old(self)@.refused(
                        RequestView::Send(message@, Some(buffer)),
                    )
                },
            },
    {
        self.request(Request::Send(message, Some(buffer)))
    }

    /// Passes on what the user has set anew.
    pub fn config_updated(&mut self, config: Config) -> (res: Result<(), Rejected>)
        ensures
            match res {
                Ok(_) => final(self)@ == old(self)@.accepted(RequestView::ConfigUpdated(config)),
                Err(rejected) => {
                    &&& rejected.request == Request::ConfigUpdated(config)
                    &&& final(self)@ == old(self)@.refused(RequestView::ConfigUpdated(config))
                },
            },
    {
        self.request(Request::ConfigUpdated(config))
    }
}

} // verus!
