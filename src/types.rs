use vstd::prelude::*;

verus! {

/// Name of a room, taken from the URL path.
pub type RoomID = String;

/// Identifier of a client connection, allocated from 1 upwards.
pub type ConnID = u32;

/// A local TCP port handed to a child process.
pub type PortID = u16;

/// Routing header of a message travelling from a child to its clients.
#[derive(Debug, Clone, Copy, Default, PartialEq, Eq, Structural)]
pub struct Header {
    /// The one connection the message is meant for; `None` broadcasts it.
    pub to: Option<ConnID>,
    /// The message is room metadata and never reaches a socket.
    pub is_meta: bool,
    /// The message asks to be kept in the room's cache.
    pub is_cache: bool,
}

impl Header {
    /// A header routing a message to connection `to` alone.
    pub fn to(to: ConnID) -> (r: Header)
        ensures
            r == (Header { to: Some(to), is_meta: false, is_cache: false }),
    {
        Header { to: Some(to), is_meta: false, is_cache: false }
    }

    /// A header sending a message to every connection of the room.
    pub fn broadcast() -> (r: Header)
        ensures
            r == (Header { to: None, is_meta: false, is_cache: false }),
    {
        Header { to: None, is_meta: false, is_cache: false }
    }
}

/// Envelope of the messages exchanged with a child.
#[derive(Debug, Clone, Copy, PartialEq, Eq, Structural)]
pub enum Frame {
    /// Messages are JSON objects with routing fields.
    JSON,
    /// Messages carry a 12-byte binary header.
    GWSocket,
}

/// Incoming and outgoing framing for a room.
#[derive(Debug, Clone, Copy, PartialEq, Eq, Structural)]
pub enum Framing {
    /// Messages pass unchanged and are broadcast.
    Unframed,
    /// Common framing for incoming and outgoing messages.
    Symmetric(Frame),
    /// Independent framing: client to child first, child to client second.
    Asymmetric(Option<Frame>, Option<Frame>),
}

impl Framing {
    pub open spec fn spec_socket_to_process(self) -> Option<Frame> {
        match self {
            Framing::Unframed => None,
            Framing::Symmetric(f) => Some(f),
            Framing::Asymmetric(f, _) => f,
        }
    }

    pub open spec fn spec_process_to_socket(self) -> Option<Frame> {
        match self {
            Framing::Unframed => None,
            Framing::Symmetric(f) => Some(f),
            Framing::Asymmetric(_, f) => f,
        }
    }

    /// Framing applied to messages going from clients to the child.
    pub fn socket_to_process(&self) -> (r: Option<Frame>)
        ensures
            r == self.spec_socket_to_process(),
    {
        match self {
            Framing::Unframed => None,
            Framing::Symmetric(f) => Some(*f),
            Framing::Asymmetric(f, _) => *f,
        }
    }

    /// Framing applied to messages going from the child to clients.
    pub fn process_to_socket(&self) -> (r: Option<Frame>)
        ensures
            r == self.spec_process_to_socket(),
    {
        match self {
            Framing::Unframed => None,
            Framing::Symmetric(f) => Some(*f),
            Framing::Asymmetric(_, f) => *f,
        }
    }

    /// Framing chosen by the options: a direction-specific option wins over the
    /// common one.
    pub fn from_options(
        frame: Option<Frame>,
        client_frame: Option<Frame>,
        server_frame: Option<Frame>,
    ) -> (r: Framing)
        ensures
            (client_frame is Some || server_frame is Some) ==> r == Framing::Asymmetric(
                client_frame,
                server_frame,
            ),
            (client_frame is None && server_frame is None) ==> r == match frame {
                Some(f) => Framing::Symmetric(f),
                None => Framing::Unframed,
            },
    {
        if client_frame.is_some() || server_frame.is_some() {
            return Framing::Asymmetric(client_frame, server_frame);
        }
        match frame {
            Some(f) => Framing::Symmetric(f),
            None => Framing::Unframed,
        }
    }
}

/// Log output format.
#[derive(Debug, Clone, Copy, PartialEq, Eq, Structural)]
pub enum Log {
    JSON,
    Text,
}

/// Cache option: admission policy and ring size.
#[derive(Debug, Clone, Copy, PartialEq, Eq, Structural)]
pub enum Cache {
    All(usize),
    Tagged(usize),
}

impl Cache {
    pub open spec fn spec_size(self) -> usize {
        match self {
            Cache::All(n) => n,
            Cache::Tagged(n) => n,
        }
    }

    /// Number of messages the cache keeps.
    pub fn size(&self) -> (r: usize)
        ensures
            r == self.spec_size(),
    {
        match self {
            Cache::All(n) => *n,
            Cache::Tagged(n) => *n,
        }
    }
}

/// Outgoing caching policy for a room.
#[derive(Debug, Clone, Copy, PartialEq, Eq, Structural)]
pub enum Caching {
    /// Nothing is cached.
    Disabled,
    All,
    Tagged,
}

impl Caching {
    pub open spec fn spec_matches(self, h: Header) -> bool {
        match self {
            Caching::All => true,
            Caching::Tagged => h.is_cache,
            Caching::Disabled => false,
        }
    }

    /// Whether a message with header `h` is admitted to the cache.
    pub fn matches(&self, h: &Header) -> (r: bool)
        ensures
            r == self.spec_matches(*h),
    {
        match self {
            Caching::All => true,
            Caching::Tagged => h.is_cache,
            Caching::Disabled => false,
        }
    }

    /// Policy that the cache option selects.
    pub fn from_cache(cache: Option<Cache>) -> (r: Caching)
        ensures
            r == match cache {
                Some(Cache::All(_)) => Caching::All,
                Some(Cache::Tagged(_)) => Caching::Tagged,
                None => Caching::Disabled,
            },
    {
        match cache {
            Some(Cache::All(_)) => Caching::All,
            Some(Cache::Tagged(_)) => Caching::Tagged,
            None => Caching::Disabled,
        }
    }
}

} // verus!
