//! One shell's log and the rule by which fragments from the agent enter it.
//!
//! The agent sends fragments tagged with the byte offset at which they start.
//! Fragments may overlap what is already stored, arrive twice or leave a gap.
//! A shell turns them into one append-only stream: a fragment is taken only
//! if it reaches across the current end of the stream, and only its new part
//! is stored.

use crate::error::SessionError;
use crate::protocol::{chunks_view, lemma_chunks_view_push, Chunk, ChunkView};
use crate::wake::{new_notifier, share_notifier, wake_waiters};
use std::sync::Arc;
use tokio::sync::Notify;
use vstd::prelude::*;
use vstd::string::StringSliceAdditionalSpecFns;
use vstd::utf8::{decode_utf8, encode_utf8, is_char_boundary};

verus! {

broadcast use vstd::utf8::group_utf8_lib;

/// The bytes of a log: the encodings of its fragments, one after the other.
pub open spec fn stream_bytes(data: Seq<ChunkView>) -> Seq<u8>
    decreases data.len(),
{
    if data.len() == 0 {
        Seq::empty()
    } else {
        stream_bytes(data.drop_last()) + encode_utf8(data.last().1)
    }
}

/// The model of a shell.
pub ghost struct ShellView {
    /// How many bytes have been accepted so far.
    pub seqnum: u64,
    /// The fragments in the order in which they were appended.
    pub data: Seq<ChunkView>,
    /// Whether the shell has been terminated.
    pub closed: bool,
    /// The notifier on which the shell's readers park. A shell has the same
    /// one all its life.
    pub notify: Arc<Notify>,
}

impl ShellView {
    /// A shell that has just been added, with the notifier it was given:
    /// open and empty.
    pub open spec fn fresh(notify: Arc<Notify>) -> ShellView {
        ShellView { seqnum: 0, data: Seq::empty(), closed: false, notify }
    }

    /// The bytes stored so far.
    pub open spec fn stream(self) -> Seq<u8> {
        stream_bytes(self.data)
    }

    /// The sequence number counts exactly the bytes that are stored.
    pub open spec fn wf(self) -> bool {
        self.seqnum == self.stream().len()
    }

    /// The same shell, terminated.
    pub open spec fn close(self) -> ShellView {
        ShellView { closed: true, ..self }
    }
}

/// Whether a fragment of `len` bytes that starts at offset `seq` reaches across
/// the end of a stream of `seqnum` bytes.
pub open spec fn accepts(seqnum: u64, seq: u64, len: nat) -> bool {
    seq <= seqnum < seq + len
}

/// The ingestion rule. A fragment that does not reach across the end of the
/// stream changes nothing. One that does must have a character boundary where
/// the stream ends; its part from there on becomes a new entry stamped `ts`.
pub open spec fn ingest(shell: ShellView, text: Seq<char>, seq: u64, ts: u64) -> Result<
    ShellView,
    SessionError,
> {
    let bytes = encode_utf8(text);
    let start = shell.seqnum - seq;
    if !accepts(shell.seqnum, seq, bytes.len()) {
        Ok(shell)
    } else if !is_char_boundary(bytes, start) {
        Err(SessionError::BadEncoding)
    } else {
        Ok(
            ShellView {
                seqnum: (seq + bytes.len()) as u64,
                data: shell.data.push((ts, decode_utf8(bytes.subrange(start, bytes.len() as int)))),
                ..shell
            },
        )
    }
}

/// What a reader sees of a shell in one look.
pub ghost struct PeekView {
    pub seqnum: u64,
    pub closed: bool,
    pub len: nat,
    pub tail: Seq<ChunkView>,
    pub notify: Arc<Notify>,
}

/// What a look at `shell` shows to a reader who has seen the first `from`
/// fragments: the counters, the fragments from there on, and the shell's
/// notifier.
pub open spec fn peek(shell: ShellView, from: u64) -> PeekView {
    PeekView {
        seqnum: shell.seqnum,
        closed: shell.closed,
        len: shell.data.len(),
        tail: if from < shell.data.len() {
            shell.data.subrange(from as int, shell.data.len() as int)
        } else {
            Seq::empty()
        },
        notify: shell.notify,
    }
}

/// A copy of what a reader needs of a shell, taken in one look.
pub struct ShellPeek {
    /// Bytes accepted so far.
    pub seqnum: u64,
    /// Whether the shell has been terminated.
    pub closed: bool,
    /// Number of fragments in the log.
    pub len: usize,
    /// The fragments that the reader has not seen yet.
    pub tail: Vec<Chunk>,
    /// The notifier that is woken when the shell changes.
    pub notify: Arc<Notify>,
}

impl View for ShellPeek {
    type V = PeekView;

    open spec fn view(&self) -> PeekView {
        PeekView {
            seqnum: self.seqnum,
            closed: self.closed,
            len: self.len as nat,
            tail: chunks_view(self.tail@),
            notify: self.notify,
        }
    }
}

/// Internal state for each shell.
pub struct ShellState {
    /// Sequence number, indicating how many bytes have been received.
    seqnum: u64,
    /// Terminal data chunks, with associated timestamps in milliseconds.
    data: Vec<Chunk>,
    /// Set when this shell is terminated.
    closed: bool,
    /// Woken when any of the above fields change.
    notify: Arc<Notify>,
}

impl View for ShellState {
    type V = ShellView;

    closed spec fn view(&self) -> ShellView {
        ShellView {
            seqnum: self.seqnum,
            data: chunks_view(self.data@),
            closed: self.closed,
            notify: self.notify,
        }
    }
}

impl ShellState {
    /// An open shell with an empty log and a notifier of its own.
    pub fn new() -> (shell: ShellState)
        ensures
            shell@ == ShellView::fresh(shell@.notify),
    {
        let shell = ShellState {
            seqnum: 0,
            data: Vec::new(),
            closed: false,
            notify: Arc::new(new_notifier()),
        };
        assert(shell@.data =~= Seq::empty());
        shell
    }

    /// The number of bytes accepted so far.
    pub fn seqnum(&self) -> (n: u64)
        ensures
            n == self@.seqnum,
    {
        self.seqnum
    }

    /// Whether the shell has been terminated.
    pub fn is_closed(&self) -> (closed: bool)
        ensures
            closed == self@.closed,
    {
        self.closed
    }

    /// Terminates the shell and wakes the readers parked on it.
    pub fn close(&mut self)
        ensures
            final(self)@ == old(self)@.close(),
    {
        self.closed = true;
        wake_waiters(&self.notify);
    }

    /// Applies the ingestion rule to a fragment that starts at byte offset
    /// `seq`, stamping a new entry with `now_ms`. Readers are woken when an
    /// entry was appended.
    pub fn ingest(&mut self, data: &str, seq: u64, now_ms: u64) -> (result: Result<
        (),
        SessionError,
    >)
        requires
            old(self)@.wf(),
            accepts(old(self)@.seqnum, seq, data.spec_bytes().len()) ==> seq
                + data.spec_bytes().len() <= u64::MAX,
        ensures
            match ingest(old(self)@, data@, seq, now_ms) {
                Ok(shell) => result is Ok && final(self)@ == shell,
                Err(e) => result == Err::<(), SessionError>(e) && final(self)@ == old(self)@,
            },
            final(self)@.wf(),
    {
        let len = data.as_bytes().len();
        if seq <= self.seqnum && self.seqnum - seq < len as u64 {
            let start = (self.seqnum - seq) as usize;
            if !data.is_char_boundary(start) {
                return Err(SessionError::BadEncoding);
            }
            let (_, segment) = data.split_at(start);
            let added = segment.as_bytes().len() as u64;
            let ghost before = self.data@;
            self.data.push((now_ms, segment.to_owned()));
            self.seqnum = self.seqnum + added;
            wake_waiters(&self.notify);
            proof {
                let bytes = encode_utf8(data@);
                let suffix = bytes.subrange(start as int, bytes.len() as int);
                assert(encode_utf8(segment@) == suffix);
                assert(decode_utf8(suffix) == segment@);
                let entry = (now_ms, segment@);
                lemma_chunks_view_push(before, self.data@.last());
                assert(self.data@ =~= before.push(self.data@.last()));
                assert(chunks_view(self.data@) == chunks_view(before).push(entry));
                assert(chunks_view(before).push(entry).drop_last() =~= chunks_view(before));
            }
        }
        Ok(())
    }

    /// Takes a look at the shell for a reader who has seen the first `from`
    /// fragments.
    pub fn peek(&self, from: u64) -> (seen: ShellPeek)
        ensures
            seen@ == peek(self@, from),
    {
        let len = self.data.len();
        let mut tail: Vec<Chunk> = Vec::new();
        if from < len as u64 {
            let mut i: usize = from as usize;
            while i < len
                invariant
                    from <= i <= len,
                    len == self.data@.len(),
                    chunks_view(tail@) == chunks_view(self.data@).subrange(from as int, i as int),
                decreases len - i,
            {
                let ts = self.data[i].0;
                let text = self.data[i].1.clone();
                let ghost copied = tail@;
                tail.push((ts, text));
                proof {
                    lemma_chunks_view_push(copied, (ts, text));
                    assert(chunks_view(tail@) =~= chunks_view(self.data@).subrange(
                        from as int,
                        i + 1,
                    ));
                }
                i = i + 1;
            }
        } else {
            assert(chunks_view(tail@) =~= Seq::empty());
        }
        ShellPeek {
            seqnum: self.seqnum,
            closed: self.closed,
            len,
            tail,
            notify: share_notifier(&self.notify),
        }
    }
}

} // verus!
