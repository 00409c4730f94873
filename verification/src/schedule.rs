//! What holds of a shell over a whole run of fragments.
//!
//! The agent may send a fragment again, send fragments that overlap, or
//! send one that starts beyond the end of what the shell has. The lemmas
//! here say what the ingestion rule makes of any such run: the sequence
//! number never goes back and always counts the bytes that are stored, the
//! stored bytes are what the agent meant to send, and a fragment that has
//! been dealt with changes nothing when it comes again.

use crate::protocol::ChunkView;
use crate::shell::{accepts, ingest, stream_bytes, ShellView};
use std::sync::Arc;
use tokio::sync::Notify;
use vstd::prelude::*;
use vstd::utf8::{
    decode_utf8, encode_utf8, is_char_boundary, is_char_boundary_iff_not_is_continuation_byte,
    length_of_first_scalar, pop_first_scalar, valid_utf8, valid_utf8_concat, valid_utf8_split,
};

verus! {

broadcast use vstd::utf8::group_utf8_lib;

/// One fragment as the agent sends it: the text, the byte offset at which
/// it starts, and the time at which it arrives.
pub ghost struct Fragment {
    pub text: Seq<char>,
    pub seq: u64,
    pub ts: u64,
}

impl Fragment {
    /// The bytes of the text.
    pub open spec fn bytes(self) -> Seq<u8> {
        encode_utf8(self.text)
    }

    /// The offset just past the last byte.
    pub open spec fn end(self) -> int {
        self.seq + self.bytes().len()
    }

    /// The fragment ends at an offset that 64 bits can hold.
    pub open spec fn fits(self) -> bool {
        self.end() <= u64::MAX
    }

    /// Whether the shell can be handed the fragment: if the fragment
    /// reaches across the end of the shell's stream, it ends at an offset
    /// that 64 bits can hold. Any other fragment is ignored wherever it ends.
    pub open spec fn fits_in(self, shell: ShellView) -> bool {
        accepts(shell.seqnum, self.seq, self.bytes().len()) ==> self.fits()
    }

    /// Whether a shell would append part of the fragment: it reaches across
    /// the end of the shell's stream and has a character boundary there.
    pub open spec fn taken_by(self, shell: ShellView) -> bool {
        &&& accepts(shell.seqnum, self.seq, self.bytes().len())
        &&& is_char_boundary(self.bytes(), shell.seqnum - self.seq)
    }

    /// The part of the fragment that a shell does not have yet.
    pub open spec fn news(self, shell: ShellView) -> Seq<u8> {
        self.bytes().subrange(shell.seqnum - self.seq, self.bytes().len() as int)
    }

    /// The fragment says what `ideal` has at its offsets.
    pub open spec fn agrees_with(self, ideal: Seq<u8>) -> bool {
        &&& self.end() <= ideal.len()
        &&& self.bytes() == ideal.subrange(self.seq as int, self.end())
    }
}

/// Every fragment of the run ends at an offset that 64 bits can hold.
pub open spec fn all_fit(calls: Seq<Fragment>) -> bool {
    forall|i: int| 0 <= i < calls.len() ==> (#[trigger] calls[i]).fits()
}

/// Whether the shell can be handed the run: each fragment, when its turn
/// comes, can be handed to the shell as it is by then.
pub open spec fn admitted(shell: ShellView, calls: Seq<Fragment>) -> bool
    decreases calls.len(),
{
    calls.len() == 0 || (admitted(shell, calls.drop_last()) && calls.last().fits_in(
        feed(shell, calls.drop_last()),
    ))
}

/// The shell after one fragment has been handed to it. A fragment that is
/// refused leaves the shell as it was.
pub open spec fn receive(shell: ShellView, call: Fragment) -> ShellView {
    match ingest(shell, call.text, call.seq, call.ts) {
        Ok(after) => after,
        Err(_) => shell,
    }
}

/// The shell after a run of fragments has been handed to it, one by one.
pub open spec fn feed(shell: ShellView, calls: Seq<Fragment>) -> ShellView
    decreases calls.len(),
{
    if calls.len() == 0 {
        shell
    } else {
        receive(feed(shell, calls.drop_last()), calls.last())
    }
}

/// The shell holds the first bytes of `ideal`, as many as its sequence
/// number says.
pub open spec fn holds_start_of(shell: ShellView, ideal: Seq<u8>) -> bool {
    &&& shell.seqnum <= ideal.len()
    &&& shell.stream() == ideal.subrange(0, shell.seqnum as int)
}

/// Whether `earlier` is the beginning of `later`.
pub open spec fn extends<A>(later: Seq<A>, earlier: Seq<A>) -> bool {
    earlier.len() <= later.len() && later.subrange(0, earlier.len() as int) == earlier
}

/// One fragment. A fragment that the shell takes moves the sequence number
/// to the fragment's end and adds one entry, which holds the part that is
/// new; any other fragment changes nothing. Either way the sequence number
/// goes on counting the stored bytes.
pub proof fn lemma_receive(shell: ShellView, call: Fragment)
    requires
        shell.wf(),
        call.fits_in(shell),
    ensures
        receive(shell, call).wf(),
        receive(shell, call).closed == shell.closed,
        receive(shell, call).notify == shell.notify,
        call.taken_by(shell) ==> {
            &&& receive(shell, call).seqnum == call.end()
            &&& receive(shell, call).seqnum > shell.seqnum
            &&& receive(shell, call).data.len() == shell.data.len() + 1
            &&& receive(shell, call).data.drop_last() == shell.data
            &&& receive(shell, call).data.last().0 == call.ts
            &&& receive(shell, call).stream() == shell.stream() + call.news(shell)
        },
        !call.taken_by(shell) ==> receive(shell, call) == shell,
{
    if call.taken_by(shell) {
        let after = receive(shell, call);
        let bytes = call.bytes();
        let start = shell.seqnum - call.seq;
        let news = call.news(shell);
        assert(news == bytes.subrange(start, bytes.len() as int));
        assert(valid_utf8(news)) by {
            valid_utf8_split(bytes, start);
        }
        assert(encode_utf8(decode_utf8(news)) == news);
        assert(after.data == shell.data.push((call.ts, decode_utf8(news))));
        assert(after.data.drop_last() =~= shell.data);
        assert(stream_bytes(after.data) == stream_bytes(after.data.drop_last()) + encode_utf8(
            after.data.last().1,
        ));
    }
}

/// One fragment never takes the sequence number back nor an entry away.
pub proof fn lemma_receive_grows(shell: ShellView, call: Fragment)
    requires
        shell.wf(),
        call.fits_in(shell),
    ensures
        receive(shell, call).seqnum >= shell.seqnum,
        extends(receive(shell, call).data, shell.data),
{
    lemma_receive(shell, call);
    if call.taken_by(shell) {
        let after = receive(shell, call);
        assert(after.data.subrange(0, shell.data.len() as int) =~= after.data.drop_last());
    } else {
        assert(shell.data.subrange(0, shell.data.len() as int) =~= shell.data);
    }
}

/// Whatever run of fragments a shell is handed, its sequence number counts
/// the bytes that it has stored, it never goes back, and no entry of the
/// log is changed or lost.
pub proof fn lemma_feed(shell: ShellView, calls: Seq<Fragment>)
    requires
        shell.wf(),
        admitted(shell, calls),
    ensures
        feed(shell, calls).wf(),
        feed(shell, calls).seqnum == feed(shell, calls).stream().len(),
        feed(shell, calls).seqnum >= shell.seqnum,
        feed(shell, calls).closed == shell.closed,
        feed(shell, calls).notify == shell.notify,
        extends(feed(shell, calls).data, shell.data),
    decreases calls.len(),
{
    if calls.len() == 0 {
        assert(shell.data.subrange(0, shell.data.len() as int) =~= shell.data);
    } else {
        let rest = calls.drop_last();
        let before = feed(shell, rest);
        let after = feed(shell, calls);
        lemma_feed(shell, rest);
        lemma_receive(before, calls.last());
        lemma_receive_grows(before, calls.last());
        assert(after.data.subrange(0, shell.data.len() as int) =~= before.data.subrange(
            0,
            shell.data.len() as int,
        ));
    }
}

/// A run of fragments each of which ends at an offset that 64 bits can
/// hold can be handed to any shell.
pub proof fn lemma_all_fit_admitted(shell: ShellView, calls: Seq<Fragment>)
    requires
        all_fit(calls),
    ensures
        admitted(shell, calls),
    decreases calls.len(),
{
    if calls.len() > 0 {
        let rest = calls.drop_last();
        assert forall|i: int| 0 <= i < rest.len() implies (#[trigger] rest[i]).fits() by {
            assert(calls[i].fits());
        }
        lemma_all_fit_admitted(shell, rest);
        assert(calls.last() == calls[calls.len() - 1]);
    }
}

/// A shell that holds the start of the stream that the agent means, and is
/// handed a fragment that says what that stream has at its offsets, holds
/// the start of that stream after.
pub proof fn lemma_receive_keeps_to(shell: ShellView, call: Fragment, ideal: Seq<u8>)
    requires
        shell.wf(),
        ideal.len() <= u64::MAX,
        holds_start_of(shell, ideal),
        call.agrees_with(ideal),
    ensures
        holds_start_of(receive(shell, call), ideal),
{
    lemma_receive(shell, call);
    if call.taken_by(shell) {
        let after = receive(shell, call);
        assert(after.stream() =~= ideal.subrange(0, after.seqnum as int));
    }
}

/// Byte accounting. Let the agent mean to send one stream, and let every
/// fragment of a run say what that stream has at the fragment's offsets,
/// in whatever order, however often and with whatever overlap. Then a
/// shell that holds the start of that stream before the run, as an empty
/// shell does, holds after the run exactly the first bytes of the stream,
/// as many as its sequence number says.
pub proof fn lemma_feed_keeps_to(shell: ShellView, calls: Seq<Fragment>, ideal: Seq<u8>)
    requires
        shell.wf(),
        ideal.len() <= u64::MAX,
        holds_start_of(shell, ideal),
        forall|i: int| 0 <= i < calls.len() ==> (#[trigger] calls[i]).agrees_with(ideal),
    ensures
        feed(shell, calls).wf(),
        holds_start_of(feed(shell, calls), ideal),
        feed(shell, calls).stream() == ideal.subrange(0, feed(shell, calls).seqnum as int),
    decreases calls.len(),
{
    if calls.len() > 0 {
        let rest = calls.drop_last();
        assert forall|i: int| 0 <= i < rest.len() implies (#[trigger] rest[i]).agrees_with(
            ideal,
        ) by {
            assert(calls[i].agrees_with(ideal));
        }
        lemma_feed_keeps_to(shell, rest, ideal);
        assert(calls.last() == calls[calls.len() - 1]);
        lemma_receive(feed(shell, rest), calls.last());
        lemma_receive_keeps_to(feed(shell, rest), calls.last(), ideal);
    }
}

/// What a shell has stored is well-formed UTF-8.
pub proof fn lemma_stream_valid(data: Seq<ChunkView>)
    ensures
        valid_utf8(stream_bytes(data)),
    decreases data.len(),
{
    if data.len() > 0 {
        lemma_stream_valid(data.drop_last());
        valid_utf8_concat(stream_bytes(data.drop_last()), encode_utf8(data.last().1));
    }
}

/// Where a well-formed text begins with another well-formed text, the
/// shorter one ends on a character boundary of the longer.
pub proof fn lemma_start_ends_on_boundary(start: Seq<u8>, bytes: Seq<u8>)
    requires
        valid_utf8(start),
        valid_utf8(bytes),
        extends(bytes, start),
    ensures
        is_char_boundary(bytes, start.len() as int),
    decreases start.len(),
{
    if start.len() > 0 {
        assert(start[0] == bytes.subrange(0, start.len() as int)[0]);
        let width = length_of_first_scalar(bytes);
        assert(length_of_first_scalar(start) == width);
        assert(start.len() >= width);
        let rest = pop_first_scalar(start);
        let others = pop_first_scalar(bytes);
        assert(others.subrange(0, rest.len() as int) =~= rest) by {
            assert forall|i: int| 0 <= i < rest.len() implies others[i] == rest[i] by {
                assert(bytes.subrange(0, start.len() as int)[width + i] == start[width + i]);
            }
        }
        lemma_start_ends_on_boundary(rest, others);
    }
}

/// A fragment that says what the agent's stream has at its offsets is
/// never refused by a shell that holds the start of that stream: where the
/// shell's stream ends, the fragment has a character boundary.
pub proof fn lemma_agreeing_is_taken(shell: ShellView, call: Fragment, ideal: Seq<u8>)
    requires
        holds_start_of(shell, ideal),
        call.agrees_with(ideal),
        accepts(shell.seqnum, call.seq, call.bytes().len()),
    ensures
        call.taken_by(shell),
        ingest(shell, call.text, call.seq, call.ts) is Ok,
{
    let stored = shell.stream();
    let bytes = call.bytes();
    let start = shell.seqnum - call.seq;
    lemma_stream_valid(shell.data);
    if start > 0 {
        assert(bytes[0] == ideal[call.seq as int]);
        assert(stored[call.seq as int] == ideal[call.seq as int]);
        assert(is_char_boundary(bytes, 0));
        is_char_boundary_iff_not_is_continuation_byte(bytes, 0);
        is_char_boundary_iff_not_is_continuation_byte(stored, call.seq as int);
        valid_utf8_split(stored, call.seq as int);
        let overlap = stored.subrange(call.seq as int, stored.len() as int);
        assert(bytes.subrange(0, start) =~= overlap);
        lemma_start_ends_on_boundary(overlap, bytes);
    }
}

/// An empty shell holds the start of any stream.
pub proof fn lemma_fresh_holds_start(notify: Arc<Notify>, ideal: Seq<u8>)
    ensures
        ShellView::fresh(notify).wf(),
        holds_start_of(ShellView::fresh(notify), ideal),
{
    assert(ShellView::fresh(notify).stream() =~= ideal.subrange(0, 0));
}

/// A fragment that ends at or before the end of the shell's stream is a
/// duplicate and changes nothing.
pub proof fn lemma_duplicate_ignored(shell: ShellView, call: Fragment)
    requires
        call.end() <= shell.seqnum,
    ensures
        receive(shell, call) == shell,
{
}

/// A fragment that starts beyond the end of the shell's stream leaves a
/// gap and changes nothing.
pub proof fn lemma_gap_ignored(shell: ShellView, call: Fragment)
    requires
        call.seq > shell.seqnum,
    ensures
        receive(shell, call) == shell,
{
}

/// A fragment that is handed over twice in a row does the second time
/// nothing.
pub proof fn lemma_receive_twice(shell: ShellView, call: Fragment)
    requires
        shell.wf(),
        call.fits_in(shell),
    ensures
        receive(receive(shell, call), call) == receive(shell, call),
{
    lemma_receive(shell, call);
}

/// A run of fragments none of which the shell would take leaves the shell
/// as it is.
pub proof fn lemma_feed_idle(shell: ShellView, calls: Seq<Fragment>)
    requires
        forall|i: int| 0 <= i < calls.len() ==> !(#[trigger] calls[i]).taken_by(shell),
    ensures
        feed(shell, calls) == shell,
    decreases calls.len(),
{
    if calls.len() > 0 {
        let rest = calls.drop_last();
        assert forall|i: int| 0 <= i < rest.len() implies !(#[trigger] rest[i]).taken_by(
            shell,
        ) by {
            assert(!calls[i].taken_by(shell));
        }
        lemma_feed_idle(shell, rest);
        assert(!calls[calls.len() - 1].taken_by(shell));
    }
}

/// A run that holds a fragment which the shell would take moves the
/// sequence number on, so the shell is not what it was.
pub proof fn lemma_feed_moves(shell: ShellView, calls: Seq<Fragment>, i: int)
    requires
        shell.wf(),
        admitted(shell, calls),
        0 <= i < calls.len(),
        calls[i].taken_by(shell),
    ensures
        feed(shell, calls).seqnum > shell.seqnum,
    decreases calls.len(),
{
    let rest = calls.drop_last();
    let last = calls.last();
    assert(last == calls[calls.len() - 1]);
    lemma_feed(shell, rest);
    lemma_receive(feed(shell, rest), last);
    if i < rest.len() {
        assert(rest[i] == calls[i]);
        lemma_feed_moves(shell, rest, i);
    } else {
        if feed(shell, rest).seqnum == shell.seqnum {
            assert(last.taken_by(feed(shell, rest)));
        }
    }
}

/// Whether each fragment of the run, when its turn comes, starts within
/// what the shell has by then and is not refused: the run leaves no gap.
pub open spec fn in_order(shell: ShellView, calls: Seq<Fragment>) -> bool {
    forall|i: int|
        0 <= i < calls.len() ==> {
            let before = #[trigger] feed(shell, calls.take(i));
            &&& calls[i].seq <= before.seqnum
            &&& ingest(before, calls[i].text, calls[i].seq, calls[i].ts) is Ok
        }
}

/// After a run that leaves no gap, every fragment of the run ends at or
/// before the end of the shell's stream.
pub proof fn lemma_in_order_settles(shell: ShellView, calls: Seq<Fragment>)
    requires
        shell.wf(),
        admitted(shell, calls),
        in_order(shell, calls),
    ensures
        forall|i: int| 0 <= i < calls.len() ==> (#[trigger] calls[i]).end() <= feed(
            shell,
            calls,
        ).seqnum,
    decreases calls.len(),
{
    if calls.len() > 0 {
        let rest = calls.drop_last();
        let last = calls.last();
        let n = calls.len() - 1;
        assert(last == calls[n]);
        assert(rest =~= calls.take(n));
        assert(in_order(shell, rest)) by {
            assert forall|j: int| 0 <= j < rest.len() implies {
                let before = #[trigger] feed(shell, rest.take(j));
                &&& rest[j].seq <= before.seqnum
                &&& ingest(before, rest[j].text, rest[j].seq, rest[j].ts) is Ok
            } by {
                assert(rest.take(j) =~= calls.take(j));
                let before = feed(shell, calls.take(j));
                assert(calls[j].seq <= before.seqnum);
            }
        }
        lemma_in_order_settles(shell, rest);
        lemma_feed(shell, rest);
        let before = feed(shell, calls.take(n));
        assert(last.seq <= before.seqnum);
        lemma_receive(before, last);
        assert forall|i: int| 0 <= i < calls.len() implies (#[trigger] calls[i]).end() <= feed(
            shell,
            calls,
        ).seqnum by {
            if i < n {
                assert(rest[i] == calls[i]);
            }
        }
    }
}

/// Replays. Hand a shell a run of fragments and then any beginning of the
/// same run once more. If none of the fragments that come again reaches
/// across the end of what the shell has by then, the shell stays as the
/// run left it.
pub proof fn lemma_replay_settled(shell: ShellView, calls: Seq<Fragment>, k: int)
    requires
        0 <= k <= calls.len(),
        forall|i: int| 0 <= i < k ==> !(#[trigger] calls[i]).taken_by(feed(shell, calls)),
    ensures
        feed(feed(shell, calls), calls.take(k)) == feed(shell, calls),
{
    let again = calls.take(k);
    assert forall|i: int| 0 <= i < again.len() implies !(#[trigger] again[i]).taken_by(
        feed(shell, calls),
    ) by {
        assert(again[i] == calls[i]);
    }
    lemma_feed_idle(feed(shell, calls), again);
}

/// Replays, the other way round. If one of the fragments that come again
/// does reach across the end of what the shell has after the run, with a
/// character boundary there, the replay moves the sequence number on.
/// This happens only to a fragment that was set aside the first time
/// because it left a gap, or was refused, and fits now.
pub proof fn lemma_replay_unsettled(shell: ShellView, calls: Seq<Fragment>, k: int, i: int)
    requires
        shell.wf(),
        admitted(shell, calls),
        admitted(feed(shell, calls), calls.take(k)),
        0 <= i < k <= calls.len(),
        calls[i].taken_by(feed(shell, calls)),
    ensures
        feed(feed(shell, calls), calls.take(k)).seqnum > feed(shell, calls).seqnum,
{
    let again = calls.take(k);
    lemma_feed(shell, calls);
    assert(again[i] == calls[i]);
    lemma_feed_moves(feed(shell, calls), again, i);
}

/// Idempotence of replays. After a run of fragments that leaves no gap,
/// handing the shell any beginning of the run once more changes nothing.
pub proof fn lemma_replay_in_order(shell: ShellView, calls: Seq<Fragment>, k: int)
    requires
        shell.wf(),
        admitted(shell, calls),
        in_order(shell, calls),
        0 <= k <= calls.len(),
    ensures
        feed(feed(shell, calls), calls.take(k)) == feed(shell, calls),
{
    lemma_in_order_settles(shell, calls);
    assert forall|i: int| 0 <= i < k implies !(#[trigger] calls[i]).taken_by(
        feed(shell, calls),
    ) by {
        assert(calls[i].end() <= feed(shell, calls).seqnum);
    }
    lemma_replay_settled(shell, calls, k);
}

} // verus!
