//! Messages exchanged with browser clients and with the upstream agent.

use vstd::prelude::*;

verus! {

/// Position and size of a terminal window.
#[derive(Debug, Clone, Copy, PartialEq, Eq, Structural)]
pub struct WsWinsize {
    /// The top-left x-coordinate of the window, offset from origin.
    pub x: i32,
    /// The top-left y-coordinate of the window, offset from origin.
    pub y: i32,
    /// The number of rows in the window.
    pub rows: u16,
    /// The number of columns in the terminal.
    pub cols: u16,
}

impl WsWinsize {
    /// The geometry a shell has until a client moves or resizes it.
    pub open spec fn initial() -> WsWinsize {
        WsWinsize { x: 0, y: 0, rows: 24, cols: 80 }
    }
}

impl Default for WsWinsize {
    fn default() -> (size: Self)
        ensures
            size == WsWinsize::initial(),
    {
        WsWinsize { x: 0, y: 0, rows: 24, cols: 80 }
    }
}

/// One entry of a shell's log: milliseconds since the session was created,
/// and the text that arrived.
pub type Chunk = (u64, String);

/// The model of a chunk: its timestamp and its characters.
pub type ChunkView = (u64, Seq<char>);

/// The model of a list of chunks.
pub open spec fn chunks_view(chunks: Seq<Chunk>) -> Seq<ChunkView> {
    Seq::new(chunks.len(), |i: int| (chunks[i].0, chunks[i].1@))
}

/// Appending a chunk to a list appends its model to the list's model.
pub proof fn lemma_chunks_view_push(chunks: Seq<Chunk>, chunk: Chunk)
    ensures
        chunks_view(chunks.push(chunk)) == chunks_view(chunks).push((chunk.0, chunk.1@)),
{
    assert(chunks_view(chunks.push(chunk)) =~= chunks_view(chunks).push((chunk.0, chunk.1@)));
}

/// A real-time message sent from the server to a browser client.
#[derive(Debug, Clone, PartialEq, Eq)]
pub enum WsServer {
    /// Notification when the set of open shells has changed.
    Shells(Vec<(u32, WsWinsize)>),
    /// Subscription results, chunks of terminal data.
    Chunks(u32, Vec<(u64, String)>),
    /// The current session has been terminated.
    Terminated(),
    /// Send an error message to the client.
    Error(String),
}

/// A real-time message sent from a browser client to the server.
#[derive(Debug, Clone, PartialEq, Eq)]
pub enum WsClient {
    /// Create a new shell.
    Create(),
    /// Close a specific shell.
    Close(u32),
    /// Move a shell window to a new position and focus it.
    Move(u32, Option<WsWinsize>),
    /// Add user data to a given shell.
    Data(u32, Vec<u8>),
    /// Subscribe to a shell, starting at a given chunk index.
    Subscribe(u32, u64),
}

/// A command queued for the upstream agent.
#[derive(Debug, Clone, PartialEq, Eq)]
pub enum ServerMessage {
    /// Ask the agent to start a shell under the given id.
    CreateShell(u32),
    /// Ask the agent to end the shell with the given id.
    CloseShell(u32),
    /// Tell the agent the new size of a shell's terminal.
    Resize { id: u32, rows: u32, cols: u32 },
    /// Keystrokes typed by a client into a shell.
    Input { id: u32, data: Vec<u8> },
}

} // verus!
