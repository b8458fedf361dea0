//! Output on its way from a session to a terminal: what is buffered, sent,
//! delivered and shown.

use vstd::prelude::*;
use vstd::utf8::encode_utf8;

use crate::client::session::{
    accepts, commits, covers, cut_from, gap_notice, gapless, law_every_byte_is_shown_exactly_once,
    reads, rendered, resumes, shown, shown_all, spans_of_all, Delivery, FatalSessionError, Incoming,
    Outcome, Piece, ProtocolError, ReaderStep,
};
use crate::proto::frame::{Frame, FrameView};
use crate::server::daemon::{writes, ServerWriter, WriterAction};
use crate::server::session::{RingState, SessionState};
use crate::text::decimal;

verus! {

/// The larger of two numbers.
pub open spec fn larger(a: int, b: int) -> int {
    if a >= b {
        a
    } else {
        b
    }
}

/// The smaller of two numbers.
pub open spec fn smaller(a: int, b: int) -> int {
    if a <= b {
        a
    } else {
        b
    }
}

/// Whether a buffer holds the end of `history`, each byte at its offset.
pub open spec fn is_tail(r: RingState, history: Seq<u8>) -> bool {
    &&& r.start + r.data.len() == history.len()
    &&& r.data == history.skip(r.start as int)
}

/// What is appended to a buffer stands behind what it held. Bytes leave it only
/// from the front, and only where they no longer fit: a buffer that has lost a
/// byte by an append is full.
pub proof fn law_buffer_keeps_the_newest(r: RingState, history: Seq<u8>, bytes: Seq<u8>)
    requires
        is_tail(r, history),
        r.data.len() <= r.cap,
    ensures
        ({
            let n = r.appended(bytes);
            &&& is_tail(n, history + bytes)
            &&& n.cap == r.cap
            &&& n.data.len() == smaller(r.cap as int, (r.data.len() + bytes.len()) as int)
            &&& n.start >= r.start
            &&& n.start > r.start ==> n.data.len() == r.cap
        }),
{
    let n = r.appended(bytes);
    assert(n.data =~= (history + bytes).skip(n.start as int));
}

/// A read at an offset that is still held starts exactly there; one at an offset
/// that is gone starts at the oldest byte left; one past the end gives nothing.
/// It gives all that follows, up to 65536 bytes of it.
pub proof fn law_read_is_exact(r: RingState, history: Seq<u8>, offset: nat)
    requires
        is_tail(r, history),
    ensures
        ({
            let from = r.read_start(offset) as int;
            let chunk = r.read_data(offset);
            &&& offset <= history.len() ==> from == larger(offset as int, r.start as int)
            &&& offset > history.len() ==> from == history.len()
            &&& chunk.len() == smaller(65536, history.len() - from)
            &&& chunk == history.subrange(from, from + chunk.len())
        }),
        r.total() == history.len(),
{
    let from = r.read_start(offset) as int;
    let chunk = r.read_data(offset);
    assert(chunk =~= history.subrange(from, from + chunk.len()));
}

/// A writer stops only once another connection has superseded its own. Until
/// then, while the session has output that it has not sent, it sends the next
/// of it, whether or not the session has ended; and once it has sent all, it
/// says that the session ended, or waits where it has not.
pub proof fn law_current_writer_sends_what_is_left(
    w: ServerWriter,
    s: SessionState,
    history: Seq<u8>,
    action: WriterAction,
    cursor: u64,
)
    requires
        is_tail(s.ring, history),
        history.len() <= u64::MAX,
        writes(w, s, action, cursor),
    ensures
        action is Stop <==> s.epoch != w.epoch,
        s.epoch != w.epoch ==> cursor == w.cursor,
        s.epoch == w.epoch && w.cursor < history.len() ==> {
            let from = larger(w.cursor as int, s.ring.start as int);
            let to = from + smaller(65536, history.len() - from);
            &&& action matches WriterAction::Send(f)
            &&& f@ matches FrameView::Output { offset, data }
            &&& offset == from
            &&& data == history.subrange(from, to)
            &&& cursor == to
        },
        s.epoch == w.epoch && w.cursor >= history.len() ==> {
            &&& cursor == w.cursor
            &&& s.ended ==> action == WriterAction::SendLast(Frame::Ended)
            &&& !s.ended ==> action is Wait
        },
{
    law_read_is_exact(s.ring, history, w.cursor as nat);
}

/// One turn of a writer: the session as it stood, where the writer stood before
/// and after, and what it did.
pub struct Turn {
    pub session: SessionState,
    pub before: u64,
    pub action: WriterAction,
    pub after: u64,
}

/// Whether these are the turns of one writer, from `cursor` on.
pub open spec fn takes_turns(epoch: u64, cursor: u64, turns: Seq<Turn>) -> bool
    decreases turns.len(),
{
    turns.len() > 0 ==> {
        let t = turns.last();
        &&& takes_turns(epoch, cursor, turns.drop_last())
        &&& t.before == stands_at(cursor, turns.drop_last())
        &&& writes(ServerWriter { cursor: t.before, epoch }, t.session, t.action, t.after)
    }
}

/// Where a writer stands after its turns.
pub open spec fn stands_at(cursor: u64, turns: Seq<Turn>) -> u64 {
    if turns.len() == 0 {
        cursor
    } else {
        turns.last().after
    }
}

/// The output in a frame.
pub open spec fn output_in(f: FrameView) -> Seq<u8> {
    match f {
        FrameView::Output { offset, data } => data,
        _ => Seq::empty(),
    }
}

/// All output that a writer sent.
pub open spec fn sent(turns: Seq<Turn>) -> Seq<u8>
    decreases turns.len(),
{
    if turns.len() == 0 {
        Seq::empty()
    } else {
        sent(turns.drop_last()) + match turns.last().action {
            WriterAction::Send(f) => output_in(f@),
            _ => Seq::empty(),
        }
    }
}

/// A session that has ended is sent to its end: turn by turn its writer sends
/// all of its output from where it stood, or from the oldest byte left, and
/// then, and not before, says that the session ended.
pub proof fn law_ended_session_is_sent_to_its_end(
    s: SessionState,
    history: Seq<u8>,
    epoch: u64,
    cursor: u64,
    turns: Seq<Turn>,
)
    requires
        s.ended,
        s.epoch == epoch,
        is_tail(s.ring, history),
        cursor <= history.len() <= u64::MAX,
        takes_turns(epoch, cursor, turns),
        turns.len() > 0,
        forall|i: int| 0 <= i < turns.len() ==> (#[trigger] turns[i]).session == s,
    ensures
        ({
            let from = larger(cursor as int, s.ring.start as int);
            let to = smaller(history.len() as int, from + 65536 * turns.len());
            let last = turns.last();
            &&& last.after == to
            &&& sent(turns) == history.subrange(from, to)
            &&& last.action is Send || last.action == WriterAction::SendLast(Frame::Ended)
            &&& last.action is SendLast <==> last.before == history.len()
            &&& last.action is SendLast ==> sent(turns) == history.skip(from)
            &&& from + 65536 * (turns.len() - 1) > history.len() ==> last.action is SendLast
        }),
    decreases turns.len(),
{
    let from = larger(cursor as int, s.ring.start as int);
    let init = turns.drop_last();
    let last = turns.last();
    assert(last == turns[turns.len() - 1]);
    assert(last.session == s);
    assert forall|i: int| 0 <= i < init.len() implies (#[trigger] init[i]).session == s by {
        assert(init[i] == turns[i]);
    }
    if init.len() > 0 {
        law_ended_session_is_sent_to_its_end(s, history, epoch, cursor, init);
    }
    let w = ServerWriter { cursor: last.before, epoch };
    law_current_writer_sends_what_is_left(w, s, history, last.action, last.after);
    let to = last.after as int;
    if last.before < history.len() {
        let at = larger(last.before as int, s.ring.start as int);
        assert(sent(turns) == sent(init) + history.subrange(at, to));
        assert(sent(turns) =~= history.subrange(from, to));
    } else {
        assert(sent(turns) =~= sent(init));
        assert(sent(turns) =~= history.subrange(from, to));
    }
    if last.action is SendLast {
        assert(history.subrange(from, to) =~= history.skip(from));
    }
}

/// The notice of `n` bytes that are missing.
pub open spec fn notice_of(n: nat) -> Seq<u8> {
    encode_utf8("\x18\r\n[thther] output gap: "@ + decimal(n) + " bytes unavailable\r\n"@)
}

/// A client that has received so much takes output in full. What it has had is
/// passed over, all the rest is delivered to the last byte, and what is missing
/// in between is counted by one notice in front. The offset to commit is where
/// the output ends.
pub proof fn law_output_is_delivered_in_full(
    received: u64,
    offset: u64,
    data: Seq<u8>,
    r: Result<Option<Delivery>, FatalSessionError>,
)
    requires
        accepts(received, offset, data, r),
    ensures
        ({
            let end = offset + data.len();
            &&& r is Err <==> end > u64::MAX
            &&& r matches Err(e) ==> e == FatalSessionError::Protocol(
                ProtocolError::OutputOverflow,
            )
            &&& end <= u64::MAX && end <= received ==> (r matches Ok(d) && d is None)
            &&& end <= u64::MAX && end > received ==> {
                let from = larger(received as int, offset as int);
                let notice = if offset > received {
                    notice_of((offset - received) as nat)
                } else {
                    Seq::empty()
                };
                &&& r matches Ok(Some(d))
                &&& d.end == end
                &&& d.bytes@ == notice + data.subrange(from - offset, data.len() as int)
                &&& d.bytes@.len() == notice.len() + (end - from)
            }
        }),
{
    let end = offset + data.len();
    if received < end <= u64::MAX {
        let from = larger(received as int, offset as int);
        assert(data.skip(from - offset) =~= data.subrange(from - offset, data.len() as int));
    }
}

/// One step of a client's reading side: what it had received before and after,
/// what reached it, and what it did. What it is told to deliver it writes, and
/// then commits.
pub struct Receipt {
    pub before: u64,
    pub incoming: Incoming,
    pub step: ReaderStep,
    pub after: u64,
}

/// Whether `after` is what a client that stood at `before` has received after a
/// step: what it delivered is committed.
pub open spec fn steps_to(before: u64, step: ReaderStep, after: u64) -> bool {
    match step {
        ReaderStep::Deliver(d) => commits(before, d, after),
        _ => after == before,
    }
}

/// Whether these are the steps of one client, from `received` on, over however
/// many connections.
pub open spec fn takes_receipts(received: u64, receipts: Seq<Receipt>) -> bool
    decreases receipts.len(),
{
    receipts.len() > 0 ==> {
        let r = receipts.last();
        &&& takes_receipts(received, receipts.drop_last())
        &&& r.before == has_received(received, receipts.drop_last())
        &&& reads(r.before, r.incoming, r.step)
        &&& steps_to(r.before, r.step, r.after)
    }
}

/// What a client has received after its steps.
pub open spec fn has_received(received: u64, receipts: Seq<Receipt>) -> u64 {
    if receipts.len() == 0 {
        received
    } else {
        receipts.last().after
    }
}

/// All that a client's steps wrote to the terminal.
pub open spec fn displayed(receipts: Seq<Receipt>) -> Seq<u8>
    decreases receipts.len(),
{
    if receipts.len() == 0 {
        Seq::empty()
    } else {
        displayed(receipts.drop_last()) + match receipts.last().step {
            ReaderStep::Deliver(d) => d.bytes@,
            _ => Seq::empty(),
        }
    }
}

/// The pieces of output that reached a client, in the order in which they came.
pub open spec fn pieces_in(receipts: Seq<Receipt>) -> Seq<Piece>
    decreases receipts.len(),
{
    if receipts.len() == 0 {
        Seq::empty()
    } else {
        let before = pieces_in(receipts.drop_last());
        match receipts.last().incoming {
            Incoming::Frame(f) => match f@ {
                FrameView::Output { offset, data } => before.push(
                    Piece { offset: offset as nat, data },
                ),
                _ => before,
            },
            _ => before,
        }
    }
}

/// What the steps of a client write and commit is what its pieces of output come
/// to, one after the other.
proof fn lemma_steps_show_the_pieces(history: Seq<u8>, received: u64, receipts: Seq<Receipt>)
    requires
        received <= history.len() <= u64::MAX,
        cut_from(history, pieces_in(receipts)),
        takes_receipts(received, receipts),
    ensures
        shown_all(received as nat, pieces_in(receipts)) == (
            displayed(receipts),
            has_received(received, receipts) as nat,
        ),
    decreases receipts.len(),
{
    if receipts.len() > 0 {
        let init = receipts.drop_last();
        let last = receipts.last();
        let before = pieces_in(init);
        let all = pieces_in(receipts);
        assert(forall|i: int| 0 <= i < before.len() ==> before[i] == all[i]);
        assert(cut_from(history, before));
        lemma_steps_show_the_pieces(history, received, init);
        if all.len() > before.len() {
            assert(all.drop_last() =~= before);
            let p = all.last();
            assert(p == all[all.len() - 1]);
            assert(p.offset + p.data.len() <= history.len());
            let (bytes, now) = shown(last.before as nat, p.offset, p.data);
            if last.step is Deliver {
                assert(last.step->Deliver_0.bytes@ == bytes);
            } else {
                assert(displayed(init) + bytes =~= displayed(init));
                assert(displayed(receipts) =~= displayed(init));
            }
        } else {
            assert(last.step !is Deliver);
            assert(displayed(receipts) =~= displayed(init));
        }
    }
}

/// Whatever the server sends, and sends again, over however many connections:
/// what the client's steps write to the terminal is the session's own output
/// from where the client stood up to where it then stands, each byte of it
/// either shown, once and in its place, or counted by exactly one notice in its
/// place. Where no output came too early there is no notice, and every byte is
/// shown exactly once. No output that was sent is left out.
pub proof fn law_deliveries_show_every_byte_once(
    history: Seq<u8>,
    received: u64,
    receipts: Seq<Receipt>,
)
    requires
        received <= history.len() <= u64::MAX,
        cut_from(history, pieces_in(receipts)),
        takes_receipts(received, receipts),
    ensures
        ({
            let pieces = pieces_in(receipts);
            let now = has_received(received, receipts);
            let spans = spans_of_all(received as nat, pieces);
            &&& received <= now <= history.len()
            &&& covers(spans, received as nat, now as nat)
            &&& displayed(receipts) == rendered(history, spans)
            &&& gapless(spans) <==> resumes(received as nat, pieces)
            &&& gapless(spans) ==> displayed(receipts) == history.subrange(
                received as int,
                now as int,
            )
            &&& forall|i: int|
                0 <= i < pieces.len() ==> now >= (#[trigger] pieces[i]).offset
                    + pieces[i].data.len()
        }),
{
    lemma_steps_show_the_pieces(history, received, receipts);
    law_every_byte_is_shown_exactly_once(history, received as nat, pieces_in(receipts));
}

/// Whether a receipt is of output that is the session's own, from `history`, and
/// that does not come before what precedes it was received.
pub open spec fn is_on_time(history: Seq<u8>, r: Receipt) -> bool {
    r.incoming matches Incoming::Frame(f) ==> (f@ matches FrameView::Output { offset, data } ==> {
        let end = (offset + data.len()) as int;
        &&& offset <= r.before
        &&& end <= history.len()
        &&& data == history.subrange(offset as int, end)
    })
}

/// Whether output that a receipt is of ends no later than at `now`.
pub open spec fn ends_by(r: Receipt, now: u64) -> bool {
    r.incoming matches Incoming::Frame(f) ==> (f@ matches FrameView::Output { offset, data }
        ==> offset + data.len() <= now)
}

/// Output that comes in time is shown byte for byte, however it is cut and
/// however often it is sent again: what the client's steps wrote is the
/// session's output from where the client stood, to the furthest byte that was
/// sent, and nothing else.
pub proof fn law_output_in_time_is_shown_byte_for_byte(
    history: Seq<u8>,
    received: u64,
    receipts: Seq<Receipt>,
)
    requires
        received <= history.len() <= u64::MAX,
        takes_receipts(received, receipts),
        forall|i: int| 0 <= i < receipts.len() ==> is_on_time(history, #[trigger] receipts[i]),
    ensures
        ({
            let now = has_received(received, receipts);
            &&& received <= now <= history.len()
            &&& displayed(receipts) == history.subrange(received as int, now as int)
            &&& forall|i: int|
                0 <= i < receipts.len() ==> ends_by(#[trigger] receipts[i], now)
        }),
    decreases receipts.len(),
{
    if receipts.len() == 0 {
        assert(history.subrange(received as int, received as int) =~= Seq::<u8>::empty());
    } else {
        let init = receipts.drop_last();
        let r = receipts.last();
        let n = receipts.len() - 1;
        assert(r == receipts[n]);
        assert forall|i: int| 0 <= i < init.len() implies is_on_time(
            history,
            #[trigger] init[i],
        ) by {
            assert(init[i] == receipts[i]);
        }
        law_output_in_time_is_shown_byte_for_byte(history, received, init);
        assert(is_on_time(history, receipts[n]));
        law_client_acts_on_each_frame(r.before, r.incoming, r.step);
        if r.step is Deliver {
            let d = r.step->Deliver_0;
            let f = r.incoming->Frame_0;
            let (offset, data) = (f@->offset, f@->data);
            law_output_is_delivered_in_full(r.before, offset, data, Ok(Some(d)));
            assert(d.bytes@ =~= history.subrange(r.before as int, r.after as int));
            assert(displayed(receipts) =~= history.subrange(received as int, r.after as int));
        } else {
            assert(displayed(receipts) =~= displayed(init));
        }
        let now = has_received(received, receipts);
        assert forall|i: int| 0 <= i < receipts.len() implies ends_by(
            #[trigger] receipts[i],
            now,
        ) by {
            if i < n {
                assert(init[i] == receipts[i]);
                assert(ends_by(init[i], r.before));
            }
        }
    }
}

/// A gap is told in these words, with the exact number of bytes; where nothing
/// is missing, nothing is said.
pub proof fn law_gaps_are_counted(received: nat, offset: nat)
    ensures
        offset > received ==> gap_notice(received, offset) == notice_of((offset - received) as nat),
        offset <= received ==> gap_notice(received, offset).len() == 0,
{
}

/// What the client does about whatever reaches it: only output is delivered,
/// only the end of the session finishes with it, a ping is answered, a pong
/// passes, a broken connection is a disconnect, and nothing else is expected.
pub proof fn law_client_acts_on_each_frame(received: u64, incoming: Incoming, step: ReaderStep)
    requires
        reads(received, incoming, step),
    ensures
        step == ReaderStep::Finish(Outcome::Disconnected) <==> incoming is Broken
            || incoming is Stopped,
        step == ReaderStep::Finish(Outcome::Ended) <==> (incoming matches Incoming::Frame(f)
            && f@ is Ended),
        step != ReaderStep::Finish(Outcome::Detached),
        step is Pong <==> (incoming matches Incoming::Frame(f) && f@ is Ping),
        step is Deliver ==> (incoming matches Incoming::Frame(f) && f@ is Output),
        (incoming matches Incoming::Frame(f) && f@ is Pong) ==> step is Nothing,
        step is Nothing ==> (incoming matches Incoming::Frame(f) && (f@ is Pong || f@ is Output)),
        (incoming matches Incoming::Frame(f) && (f@ is Data || f@ is Resize || f@ is Ack || f@
            is Hello)) <==> step == ReaderStep::Fail(
            FatalSessionError::Protocol(ProtocolError::UnexpectedFrame),
        ),
        incoming matches Incoming::Frame(f) ==> (f@ matches FrameView::Output { offset, data } ==> {
            &&& step is Deliver <==> received < offset + data.len() <= u64::MAX
            &&& step is Nothing <==> offset + data.len() <= received
            &&& step is Fail <==> offset + data.len() > u64::MAX
        }),
{
}

/// Whether each turn sends a frame, and that frame is what the client's step is
/// about.
pub open spec fn reach(turns: Seq<Turn>, receipts: Seq<Receipt>) -> bool {
    &&& turns.len() == receipts.len()
    &&& forall|i: int|
        0 <= i < turns.len() ==> {
            &&& (#[trigger] turns[i]).action matches WriterAction::Send(f)
            &&& receipts[i].incoming == Incoming::Frame(f)
        }
}

/// Whether at each turn the buffer holds the end of what the session had written
/// by then, and has lost nothing that the writer has not sent.
pub open spec fn keeps_up(history: Seq<u8>, turns: Seq<Turn>) -> bool {
    forall|i: int| 0 <= i < turns.len() ==> #[trigger] kept_up(history, turns[i])
}

/// Whether at this turn the buffer holds the end of what the session had written
/// by then, and has lost nothing that the writer has not sent.
pub open spec fn kept_up(history: Seq<u8>, t: Turn) -> bool {
    let written = (t.session.ring.start + t.session.ring.data.len()) as int;
    &&& written <= history.len()
    &&& is_tail(t.session.ring, history.take(written))
    &&& t.session.ring.start <= t.before <= written
}

/// From a session to a terminal: a client that the server resumes where it
/// stands is shown the session's output from there on, byte for byte and once,
/// as long as the buffer keeps what has yet to be sent; and writer and client
/// then still stand at the same place.
pub proof fn law_terminal_shows_what_the_session_wrote(
    history: Seq<u8>,
    epoch: u64,
    cursor: u64,
    turns: Seq<Turn>,
    receipts: Seq<Receipt>,
)
    requires
        cursor <= history.len() <= u64::MAX,
        takes_turns(epoch, cursor, turns),
        takes_receipts(cursor, receipts),
        reach(turns, receipts),
        keeps_up(history, turns),
    ensures
        stands_at(cursor, turns) == has_received(cursor, receipts),
        cursor <= stands_at(cursor, turns) <= history.len(),
        displayed(receipts) == history.subrange(cursor as int, stands_at(cursor, turns) as int),
        displayed(receipts) == sent(turns),
    decreases turns.len(),
{
    if turns.len() == 0 {
        assert(history.subrange(cursor as int, cursor as int) =~= Seq::<u8>::empty());
    } else {
        let n = turns.len() - 1;
        let (ti, ri) = (turns.drop_last(), receipts.drop_last());
        let (t, r) = (turns.last(), receipts.last());
        assert(t == turns[n] && r == receipts[n]);
        assert(kept_up(history, turns[n]));
        assert(reach(ti, ri)) by {
            assert(forall|i: int| 0 <= i < n ==> ti[i] == turns[i] && ri[i] == receipts[i]);
        }
        assert forall|i: int| 0 <= i < ti.len() implies #[trigger] kept_up(history, ti[i]) by {
            assert(ti[i] == turns[i]);
            assert(kept_up(history, turns[i]));
        }
        law_terminal_shows_what_the_session_wrote(history, epoch, cursor, ti, ri);
        let written = history.take((t.session.ring.start + t.session.ring.data.len()) as int);
        let w = ServerWriter { cursor: t.before, epoch };
        law_current_writer_sends_what_is_left(w, t.session, written, t.action, t.after);
        let f = t.action->Send_0;
        let (from, to) = (t.before as int, t.after as int);
        let data = f@->data;
        assert(data =~= history.subrange(from, to));
        assert(r.step is Deliver);
        let d = r.step->Deliver_0;
        law_output_is_delivered_in_full(r.before, f@->offset, data, Ok(Some(d)));
        assert(d.bytes@ =~= history.subrange(from, to));
        assert(displayed(receipts) =~= history.subrange(cursor as int, to));
        assert(sent(turns) == sent(ti) + data);
    }
}

} // verus!
