//! The far end of a connection: what a daemon does with the channels that are
//! opened on it.
use vstd::prelude::*;
use crate::text::same;

verus! {

/// The size of a terminal.
#[derive(Debug, Clone, Copy, PartialEq, Eq, Structural)]
pub struct PtySize {
    pub rows: u16,
    pub cols: u16,
    pub pixel_width: u16,
    pub pixel_height: u16,
}

/// How a command is started on a channel.
#[derive(Debug, Clone, Copy, PartialEq, Eq, Structural)]
pub enum Launch {
    /// On a terminal of this size.
    Pty(PtySize),
    Piped,
}

/// The channels of one connection.
#[derive(Debug)]
pub struct Handler {
    /// Channels opened but not yet claimed: opening one does not say yet what
    /// it will become.
    pending: std::collections::HashSet<u32>,
    /// A terminal request that arrived before the command it describes.
    pty_size: std::collections::HashMap<u32, PtySize>,
    /// Channels that something is running on, and which input is forwarded to.
    stdin: std::collections::HashSet<u32>,
}

impl Handler {
    /// The channels nothing has claimed.
    pub closed spec fn unclaimed(&self) -> Set<u32> {
        self.pending@
    }

    /// The terminals that were asked for and not used yet.
    pub closed spec fn terminals(&self) -> Map<u32, PtySize> {
        self.pty_size@
    }

    /// The channels that take input.
    pub closed spec fn listening(&self) -> Set<u32> {
        self.stdin@
    }

    pub fn new() -> (r: Handler)
        ensures
            r.unclaimed() == Set::<u32>::empty(),
            r.terminals() == Map::<u32, PtySize>::empty(),
            r.listening() == Set::<u32>::empty(),
    {
        broadcast use vstd::std_specs::hash::group_hash_axioms;

        Handler {
            pending: std::collections::HashSet::new(),
            pty_size: std::collections::HashMap::new(),
            stdin: std::collections::HashSet::new(),
        }
    }

    /// A channel was opened.
    pub fn channel_open_session(&mut self, channel: u32)
        ensures
            final(self).unclaimed() == old(self).unclaimed().insert(channel),
            final(self).terminals() == old(self).terminals(),
            final(self).listening() == old(self).listening(),
    {
        broadcast use vstd::std_specs::hash::group_hash_axioms;

        self.pending.insert(channel);
    }

    /// A terminal was asked for. Sizes come as 32 bits, of which a terminal
    /// takes the lower half.
    #[verifier::truncate]
    pub fn pty_request(
        &mut self,
        channel: u32,
        col_width: u32,
        row_height: u32,
        pix_width: u32,
        pix_height: u32,
    )
        ensures
            final(self).unclaimed() == old(self).unclaimed(),
            final(self).terminals() == old(self).terminals().insert(
                channel,
                PtySize {
                    rows: row_height as u16,
                    cols: col_width as u16,
                    pixel_width: pix_width as u16,
                    pixel_height: pix_height as u16,
                },
            ),
            final(self).listening() == old(self).listening(),
    {
        broadcast use vstd::std_specs::hash::group_hash_axioms;

        self.pty_size.insert(
            channel,
            PtySize {
                rows: row_height as u16,
                cols: col_width as u16,
                pixel_width: pix_width as u16,
                pixel_height: pix_height as u16,
            },
        );
    }

    /// A command or a shell was asked for: on the terminal that was asked for
    /// before it, else piped.
    pub fn exec_request(&mut self, channel: u32) -> (r: Launch)
        ensures
            r == if old(self).terminals().dom().contains(channel) {
                Launch::Pty(old(self).terminals()[channel])
            } else {
                Launch::Piped
            },
            final(self).unclaimed() == old(self).unclaimed().remove(channel),
            final(self).terminals() == old(self).terminals().remove(channel),
            final(self).listening() == old(self).listening(),
    {
        broadcast use vstd::std_specs::hash::group_hash_axioms;

        self.pending.remove(&channel);
        let asked = self.pty_size.remove(&channel);
        match asked {
            Some(size) => Launch::Pty(size),
            None => {
                assert(self.pty_size@ =~= old(self).pty_size@.remove(channel));
                Launch::Piped
            },
        }
    }

    /// Something runs on a channel now.
    pub fn started(&mut self, channel: u32)
        ensures
            final(self).unclaimed() == old(self).unclaimed(),
            final(self).terminals() == old(self).terminals(),
            final(self).listening() == old(self).listening().insert(channel),
    {
        broadcast use vstd::std_specs::hash::group_hash_axioms;

        self.stdin.insert(channel);
    }

    /// Whether a channel's input is forwarded.
    pub fn data(&self, channel: u32) -> (r: bool)
        ensures
            r == self.listening().contains(channel),
    {
        broadcast use vstd::std_specs::hash::group_hash_axioms;

        self.stdin.contains(&channel)
    }

    /// Whether a subsystem is served: only file transfer, and only on a
    /// channel that nothing has claimed.
    pub fn subsystem_request(&mut self, channel: u32, name: &str) -> (r: bool)
        ensures
            r == (name@ == "sftp"@ && old(self).unclaimed().contains(channel)),
            final(self).unclaimed() == if name@ == "sftp"@ {
                old(self).unclaimed().remove(channel)
            } else {
                old(self).unclaimed()
            },
            final(self).terminals() == old(self).terminals(),
            final(self).listening() == old(self).listening(),
    {
        broadcast use vstd::std_specs::hash::group_hash_axioms;

        if !same(name, "sftp") {
            return false;
        }
        self.pending.remove(&channel)
    }
}

/// The port to connect to. The wire carries 32 bits; a port has sixteen.
pub fn tcp_port(port_to_connect: u32) -> (r: Option<u16>)
    ensures
        match r {
            Some(port) => port == port_to_connect,
            None => port_to_connect > u16::MAX,
        },
{
    if port_to_connect <= 65535 {
        Some(port_to_connect as u16)
    } else {
        None
    }
}

/// The shell to serve, given what the environment names.
pub fn default_shell(named: Option<String>) -> (r: String)
    ensures
        r@ == match named {
            Some(shell) => shell@,
            None => "/bin/sh"@,
        },
{
    match named {
        Some(shell) => shell,
        None => "/bin/sh".to_owned(),
    }
}

} // verus!
