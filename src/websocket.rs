//! A socket seen as two message queues.
//!
//! The transport owns the connection and tells the socket what happened: that
//! it opened, that a message came in. The game reads the socket once per
//! frame and queues what it sends; the transport takes the queued messages
//! out and delivers them. Nothing calls back into the game.
use vstd::prelude::*;

verus! {

/// A socket identified by the transport's handle.
pub struct WebSocket {
    handle: u32,
    open: bool,
    incoming: Vec<String>,
    outgoing: Vec<String>,
}

impl WebSocket {
    pub closed spec fn spec_handle(&self) -> u32 {
        self.handle
    }

    pub closed spec fn is_open(&self) -> bool {
        self.open
    }

    /// Messages received and not read yet, oldest first.
    pub closed spec fn incoming(&self) -> Seq<String> {
        self.incoming@
    }

    /// Messages sent and not delivered yet, oldest first.
    pub closed spec fn outgoing(&self) -> Seq<String> {
        self.outgoing@
    }

    /// A socket on the transport's connection `handle`, not open yet.
    pub fn new(handle: u32) -> (r: WebSocket)
        ensures
            r.spec_handle() == handle,
            !r.is_open(),
            r.incoming().len() == 0,
            r.outgoing().len() == 0,
    {
        WebSocket { handle, open: false, incoming: Vec::new(), outgoing: Vec::new() }
    }

    pub fn handle(&self) -> (r: u32)
        ensures
            r == self.spec_handle(),
    {
        self.handle
    }

    /// Whether the connection has opened.
    pub fn open(&self) -> (r: bool)
        ensures
            r == self.is_open(),
    {
        self.open
    }

    /// The transport reports that the connection opened.
    pub fn on_open(&mut self)
        ensures
            final(self).is_open(),
            final(self).spec_handle() == old(self).spec_handle(),
            final(self).incoming() == old(self).incoming(),
            final(self).outgoing() == old(self).outgoing(),
    {
        self.open = true;
    }

    /// The transport hands over a message that came in.
    pub fn on_message(&mut self, msg: String)
        ensures
            final(self).incoming() == old(self).incoming().push(msg),
            final(self).is_open() == old(self).is_open(),
            final(self).spec_handle() == old(self).spec_handle(),
            final(self).outgoing() == old(self).outgoing(),
    {
        self.incoming.push(msg);
    }

    /// Queues `msg` for the transport to send.
    pub fn send(&mut self, msg: &str) -> (r: Result<(), ()>)
        ensures
            r is Ok,
            final(self).outgoing().len() == old(self).outgoing().len() + 1,
            final(self).outgoing().drop_last() == old(self).outgoing(),
            final(self).outgoing().last()@ == msg@,
            final(self).is_open() == old(self).is_open(),
            final(self).spec_handle() == old(self).spec_handle(),
            final(self).incoming() == old(self).incoming(),
    {
        let m = msg.to_owned();
        self.outgoing.push(m);
        proof {
            assert(self.outgoing@.drop_last() =~= old(self).outgoing@);
        }
        Ok(())
    }

    /// The oldest message received since the last read. The read drains the
    /// queue: messages that came in with it are dropped.
    pub fn next(&mut self) -> (r: Option<String>)
        ensures
            old(self).incoming().len() == 0 ==> r is None,
            old(self).incoming().len() > 0 ==> r == Some(old(self).incoming()[0]),
            final(self).incoming().len() == 0,
            final(self).is_open() == old(self).is_open(),
            final(self).spec_handle() == old(self).spec_handle(),
            final(self).outgoing() == old(self).outgoing(),
    {
        if self.incoming.len() == 0 {
            return None;
        }
        let first = self.incoming.remove(0);
        self.incoming.clear();
        Some(first)
    }

    /// Takes the queued outgoing messages, oldest first, for the transport to
    /// deliver.
    pub fn take_outgoing(&mut self) -> (r: Vec<String>)
        ensures
            r@ == old(self).outgoing(),
            final(self).outgoing().len() == 0,
            final(self).is_open() == old(self).is_open(),
            final(self).spec_handle() == old(self).spec_handle(),
            final(self).incoming() == old(self).incoming(),
    {
        let mut out: Vec<String> = Vec::new();
        std::mem::swap(&mut out, &mut self.outgoing);
        out
    }
}

} // verus!
