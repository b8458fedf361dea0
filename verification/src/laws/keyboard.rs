//! Input on its way from a keyboard to a shell, and the way out by detaching.

use vstd::prelude::*;

use crate::client::session::{
    detaches, filters, frames, handles, holds_back, law_input_can_be_cut_anywhere, pending_input,
    sent_on, Outcome, WriterEvent, WriterStep,
};
use crate::proto::frame::{Frame, FrameView};
use crate::server::daemon::{obeys, ReaderAction};
use crate::server::session::PtyMsg;

verus! {

/// Whether Ctrl-\ is followed by `d` somewhere in `s`.
pub open spec fn has_detach_keys(s: Seq<u8>) -> bool {
    exists|i: int| 0 <= i < s.len() - 1 && #[trigger] s[i] == 0x1c && s[i + 1] == 0x64
}

/// `s` without a Ctrl-\ at its very end.
pub open spec fn without_open_prefix(s: Seq<u8>) -> Seq<u8> {
    if s.len() > 0 && s[s.len() - 1] == 0x1c {
        s.subrange(0, s.len() - 1)
    } else {
        s
    }
}

/// What the filter makes of one read: it detaches exactly where Ctrl-\ and `d`
/// meet in what was held back and what was read; otherwise it sends on every
/// byte of that, but for a Ctrl-\ at the end, which it holds back.
pub proof fn law_filter_holds_back_only_an_open_prefix(
    pending: bool,
    bytes: Seq<u8>,
    after: bool,
    r: Option<Vec<u8>>,
)
    requires
        filters(pending, bytes, after, r),
    ensures
        ({
            let s = if pending {
                seq![0x1cu8] + bytes
            } else {
                bytes
            };
            &&& r is None <==> has_detach_keys(s)
            &&& r matches Some(out) ==> out@ == without_open_prefix(s)
            &&& after <==> r is Some && s.len() > 0 && s[s.len() - 1] == 0x1c
        }),
{
    let s = pending_input(pending, bytes);
    assert(detaches(s) == has_detach_keys(s));
    assert(sent_on(s) =~= without_open_prefix(s));
}

/// One thing that the client's writing side is told, whether it held a prefix
/// key back before and after, and what it does.
pub struct Stroke {
    pub before: bool,
    pub event: WriterEvent,
    pub step: WriterStep,
    pub after: bool,
}

/// Whether these are the strokes of one connection, at the start of which
/// nothing is held back.
pub open spec fn takes_strokes(strokes: Seq<Stroke>) -> bool
    decreases strokes.len(),
{
    strokes.len() > 0 ==> {
        let s = strokes.last();
        &&& takes_strokes(strokes.drop_last())
        &&& s.before == held(strokes.drop_last())
        &&& handles(s.before, s.event, s.after, s.step)
    }
}

/// Whether a prefix key is held back after these strokes.
pub open spec fn held(strokes: Seq<Stroke>) -> bool {
    strokes.len() > 0 && strokes.last().after
}

/// All that was typed.
pub open spec fn typed(strokes: Seq<Stroke>) -> Seq<u8>
    decreases strokes.len(),
{
    if strokes.len() == 0 {
        Seq::empty()
    } else {
        typed(strokes.drop_last()) + match strokes.last().event {
            WriterEvent::Input(bytes) => bytes@,
            _ => Seq::empty(),
        }
    }
}

/// The input in frames.
pub open spec fn input_in(fs: Seq<FrameView>) -> Seq<u8>
    decreases fs.len(),
{
    if fs.len() == 0 {
        Seq::empty()
    } else {
        input_in(fs.drop_last()) + match fs.last() {
            FrameView::Data(b) => b,
            _ => Seq::empty(),
        }
    }
}

/// All frames that were sent.
pub open spec fn frames_sent(strokes: Seq<Stroke>) -> Seq<FrameView>
    decreases strokes.len(),
{
    if strokes.len() == 0 {
        Seq::empty()
    } else {
        frames_sent(strokes.drop_last()) + match strokes.last().step {
            WriterStep::Send(v) => frames(v@),
            _ => Seq::empty(),
        }
    }
}

/// Input that frames carry is carried by them one after the other.
proof fn lemma_input_adds_up(a: Seq<FrameView>, b: Seq<FrameView>)
    ensures
        input_in(a + b) == input_in(a) + input_in(b),
    decreases b.len(),
{
    if b.len() == 0 {
        assert(a + b =~= a);
        assert(input_in(a) + input_in(b) =~= input_in(a));
    } else {
        lemma_input_adds_up(a, b.drop_last());
        assert((a + b).drop_last() =~= a + b.drop_last());
        assert((a + b).last() == b.last());
        assert(input_in(a + b) =~= input_in(a) + input_in(b));
    }
}

/// However what is typed is cut into reads, and whatever happens in between:
/// while Ctrl-\ and `d` were not typed one after the other, every byte typed is
/// sent, in order and once, but for a Ctrl-\ that was typed last; and the read
/// that completes the two keys detaches.
pub proof fn law_typing_is_sent_until_it_detaches(strokes: Seq<Stroke>)
    requires
        takes_strokes(strokes),
    ensures
        !has_detach_keys(typed(strokes)) ==> {
            &&& input_in(frames_sent(strokes)) == without_open_prefix(typed(strokes))
            &&& held(strokes) <==> typed(strokes).len() > 0 && typed(strokes)[typed(strokes).len()
                - 1] == 0x1c
            &&& strokes.len() > 0 && strokes.last().event is Input ==> strokes.last().step is Send
        },
        strokes.len() > 0 && !has_detach_keys(typed(strokes.drop_last())) && has_detach_keys(
            typed(strokes),
        ) ==> strokes.last().step == WriterStep::Finish(Outcome::Detached),
    decreases strokes.len(),
{
    if strokes.len() > 0 {
        let init = strokes.drop_last();
        let last = strokes.last();
        law_typing_is_sent_until_it_detaches(init);
        let earlier = typed(init);
        let all = typed(strokes);
        assert(detaches(earlier) == has_detach_keys(earlier));
        assert(detaches(all) == has_detach_keys(all));
        assert(sent_on(all) =~= without_open_prefix(all));
        assert(sent_on(earlier) =~= without_open_prefix(earlier));
        match last.event {
            WriterEvent::Input(bytes) => {
                law_input_can_be_cut_anywhere(false, earlier, bytes@);
                let second = pending_input(holds_back(earlier), bytes@);
                if !detaches(all) {
                    assert(frames(last.step->Send_0@) == (if sent_on(second).len() > 0 {
                        seq![FrameView::Data(sent_on(second))]
                    } else {
                        Seq::empty()
                    }));
                    let more = frames(last.step->Send_0@);
                    lemma_input_adds_up(frames_sent(init), more);
                    assert(input_in(more) =~= sent_on(second)) by {
                        if more.len() > 0 {
                            assert(more.drop_last() =~= Seq::<FrameView>::empty());
                            reveal_with_fuel(input_in, 2);
                        }
                    }
                }
            },
            _ => {
                assert(all =~= earlier);
                if last.step is Send {
                    let more = frames(last.step->Send_0@);
                    lemma_input_adds_up(frames_sent(init), more);
                    assert(input_in(more) =~= Seq::<u8>::empty()) by {
                        reveal_with_fuel(input_in, 3);
                    }
                    assert(input_in(frames_sent(strokes)) =~= input_in(frames_sent(init)));
                } else {
                    assert(frames_sent(strokes) =~= frames_sent(init));
                }
            },
        }
    }
}

/// What happens on the client's side is told as it is: input by one frame of
/// input, or by none where there is nothing to send on; a new size by one frame
/// with that size; a wanted pong by a pong; the heartbeat by how much was
/// received and a ping. Closed input detaches, and a reading side that is gone
/// is a disconnect. None but input touches what the filter holds back.
pub proof fn law_client_tells_what_happens(
    pending: bool,
    event: WriterEvent,
    after: bool,
    r: WriterStep,
)
    requires
        handles(pending, event, after, r),
    ensures
        event !is Input ==> after == pending,
        r is Finish ==> event is Input || event is InputClosed || event is ReaderGone,
        event is Input ==> (r matches WriterStep::Send(v) ==> v@.len() <= 1 && (v@.len() == 1 ==> (
        v@[0]@ matches FrameView::Data(b) && b.len() > 0))),
        event is InputClosed ==> r == WriterStep::Finish(Outcome::Detached),
        event is ReaderGone ==> r == WriterStep::Finish(Outcome::Disconnected),
        event matches WriterEvent::Resized { cols, rows } ==> (r matches WriterStep::Send(v)
            && v@.len() == 1 && v@[0]@ == (FrameView::Resize { cols, rows })),
        event is PongWanted ==> (r matches WriterStep::Send(v) && v@.len() == 1 && v@[0]@
            == FrameView::Pong),
        event matches WriterEvent::Tick { received } ==> (r matches WriterStep::Send(v) && v@.len()
            == 2 && v@[0]@ == FrameView::Ack(received) && v@[1]@ == FrameView::Ping),
{
    if r is Send {
        let v = r->Send_0@;
        assert(frames(v).len() == v.len());
        assert(forall|i: int| 0 <= i < v.len() ==> frames(v)[i] == (#[trigger] v[i])@);
    }
}

/// The input that the server hands to the PTY.
pub open spec fn input_told(actions: Seq<ReaderAction>) -> Seq<u8>
    decreases actions.len(),
{
    if actions.len() == 0 {
        Seq::empty()
    } else {
        input_told(actions.drop_last()) + match actions.last() {
            ReaderAction::Tell(PtyMsg::Input(b)) => b@,
            _ => Seq::empty(),
        }
    }
}

/// Every byte of input that a client sent reaches the PTY, in order and once, and
/// nothing else does; a resize reaches it as it was sent; a ping is answered;
/// and nothing else has an effect.
pub proof fn law_input_reaches_the_shell(received: Seq<Frame>, actions: Seq<ReaderAction>)
    requires
        received.len() == actions.len(),
        forall|i: int| 0 <= i < received.len() ==> #[trigger] obeys(received[i], actions[i]),
    ensures
        input_told(actions) == input_in(frames(received)),
        forall|i: int|
            0 <= i < received.len() ==> {
                let (f, a) = (#[trigger] received[i], actions[i]);
                &&& f@ matches FrameView::Resize { cols, rows } ==> a == ReaderAction::Tell(
                    PtyMsg::Resize { cols, rows },
                )
                &&& f@ matches FrameView::Data(b) ==> (a matches ReaderAction::Tell(
                    PtyMsg::Input(told),
                ) && told@ == b)
                &&& a is Pong <==> f@ is Ping
                &&& a is Tell <==> f@ is Data || f@ is Resize
            },
    decreases received.len(),
{
    assert forall|i: int| 0 <= i < received.len() implies {
        let (f, a) = (#[trigger] received[i], actions[i]);
        &&& f@ matches FrameView::Resize { cols, rows } ==> a == ReaderAction::Tell(
            PtyMsg::Resize { cols, rows },
        )
        &&& f@ matches FrameView::Data(b) ==> (a matches ReaderAction::Tell(PtyMsg::Input(told))
            && told@ == b)
        &&& a is Pong <==> f@ is Ping
        &&& a is Tell <==> f@ is Data || f@ is Resize
    } by {
        assert(obeys(received[i], actions[i]));
    }
    if received.len() > 0 {
        let (fs, ais) = (received.drop_last(), actions.drop_last());
        assert forall|i: int| 0 <= i < fs.len() implies #[trigger] obeys(fs[i], ais[i]) by {
            assert(obeys(received[i], actions[i]));
        }
        law_input_reaches_the_shell(fs, ais);
        let n = received.len() - 1;
        assert(obeys(received[n], actions[n]));
        assert(frames(received).drop_last() =~= frames(fs));
        assert(frames(received).last() == received[n]@);
    }
}

} // verus!
