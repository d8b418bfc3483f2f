//! Where service gossip goes out. While a sink is installed, frames are queued
//! for it, for whoever has the connections to fan out; until then they are only
//! counted.
use crate::ident::{Frame, FrameView};
use crate::mbox::send::{count, counted};
use vstd::prelude::*;

verus! {

/// The outgoing side of service gossip.
pub struct Sink {
    pub installed: bool,
    /// Frames for the sink, oldest first.
    pub queue: Vec<Frame>,
    /// Frames that were emitted without a sink.
    pub unsunk: u64,
}

/// What a [`Sink`] holds.
pub struct SinkView {
    pub installed: bool,
    pub queue: Seq<FrameView>,
    pub unsunk: u64,
}

/// What a list of frames says.
pub open spec fn frames_view(v: Seq<Frame>) -> Seq<FrameView> {
    Seq::new(v.len(), |i: int| v[i]@)
}

impl View for Sink {
    type V = SinkView;

    open spec fn view(&self) -> SinkView {
        SinkView {
            installed: self.installed,
            queue: frames_view(self.queue@),
            unsunk: self.unsunk,
        }
    }
}

impl SinkView {
    /// The sink after a frame was emitted.
    pub open spec fn emitted(self, f: FrameView) -> SinkView {
        if self.installed {
            SinkView { queue: self.queue.push(f), ..self }
        } else {
            SinkView { unsunk: counted(self.unsunk), ..self }
        }
    }
}

impl Sink {
    pub fn new() -> (s: Self)
        ensures
            s@ == (SinkView { installed: false, queue: Seq::empty(), unsunk: 0 }),
    {
        let s = Sink { installed: false, queue: Vec::new(), unsunk: 0 };
        assert(s@.queue =~= Seq::empty());
        s
    }

    /// Hands out the frames that were queued, oldest first.
    pub fn take_frames(&mut self) -> (r: Vec<Frame>)
        ensures
            frames_view(r@) == old(self)@.queue,
            final(self)@ == (SinkView { queue: Seq::empty(), ..old(self)@ }),
    {
        let mut r: Vec<Frame> = Vec::new();
        r.append(&mut self.queue);
        assert(frames_view(r@) =~= old(self)@.queue);
        assert(self@.queue =~= Seq::empty());
        r
    }
}

/// Installs the sink.
pub fn set_sink(sink: &mut Sink)
    ensures
        final(sink)@ == (SinkView { installed: true, ..old(sink)@ }),
{
    sink.installed = true;
}

/// Removes the sink: later frames are only counted.
pub fn clear_sink(sink: &mut Sink)
    ensures
        final(sink)@ == (SinkView { installed: false, ..old(sink)@ }),
{
    sink.installed = false;
}

/// Emits a frame.
pub fn emit(sink: &mut Sink, frame: Frame)
    ensures
        final(sink)@ == old(sink)@.emitted(frame@),
{
    if sink.installed {
        sink.queue.push(frame);
        assert(sink@.queue =~= old(sink)@.queue.push(frame@));
    } else {
        sink.unsunk = count(sink.unsunk);
    }
}

} // verus!
