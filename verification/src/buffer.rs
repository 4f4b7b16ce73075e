//! Servers, and the buffers in which what they say is shown.

use vstd::prelude::*;

use crate::user::Nick;

verus! {

/// The name of a server.
#[derive(Debug)]
pub struct Server(pub String);

impl View for Server {
    type V = Seq<char>;

    open spec fn view(&self) -> Seq<char> {
        self.0@
    }
}

impl Clone for Server {
    fn clone(&self) -> (res: Self)
        ensures
            res == *self,
    {
        Server(self.0.clone())
    }
}

/// Where messages are shown: what a server says, what is said in a channel, or what is said with
/// another user.
#[derive(Debug)]
pub enum Buffer {
    Server(Server),
    Channel(Server, String),
    Query(Server, Nick),
}

impl Clone for Buffer {
    fn clone(&self) -> (res: Self)
        ensures
            res == *self,
    {
        match self {
            Buffer::Server(server) => Buffer::Server(server.clone()),
            Buffer::Channel(server, channel) => Buffer::Channel(server.clone(), channel.clone()),
            Buffer::Query(server, nick) => Buffer::Query(server.clone(), nick.clone()),
        }
    }
}

impl Buffer {
    /// The server that a buffer belongs to.
    pub open spec fn of_server(self) -> Seq<char> {
        match self {
            Buffer::Server(server) => server@,
            Buffer::Channel(server, _) => server@,
            Buffer::Query(server, _) => server@,
        }
    }

    /// The server that a buffer belongs to.
    pub fn server(&self) -> (server: &Server)
        ensures
            server@ == self.of_server(),
    {
        match self {
            Buffer::Server(server) => server,
            Buffer::Channel(server, _) => server,
            Buffer::Query(server, _) => server,
        }
    }
}

} // verus!
