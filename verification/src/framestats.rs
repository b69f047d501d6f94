use vstd::prelude::*;
use std::time::Duration;
use crate::time::{Stopwatch, secs_duration};

verus! {

/// What the renderer did during a frame.
#[derive(Clone, Copy, Debug, Default, PartialEq, Eq, Structural)]
pub struct RenderLog {
    pub elements: u64,
    pub sprites: u64,
    pub sprites_not_found: u64,
    pub meshes: u64,
    pub texts: u64,
    pub draw_calls: u64,
}

impl RenderLog {
    /// Nothing drawn yet.
    pub fn new() -> (r: RenderLog)
        ensures
            r == (RenderLog {
                elements: 0,
                sprites: 0,
                sprites_not_found: 0,
                meshes: 0,
                texts: 0,
                draw_calls: 0,
            }),
    {
        RenderLog { elements: 0, sprites: 0, sprites_not_found: 0, meshes: 0, texts: 0, draw_calls: 0 }
    }
}

/// The time a frame took, split into its update and its drawing, and what
/// the renderer did in it.
pub struct FrameStats {
    update_time: Stopwatch,
    draw_time: Stopwatch,
    frame_time: Stopwatch,
    render_log: RenderLog,
}

impl View for FrameStats {
    /// The frame, update and draw stopwatches, and the render log.
    type V = (Stopwatch, Stopwatch, Stopwatch, RenderLog);

    closed spec fn view(&self) -> Self::V {
        (self.frame_time, self.update_time, self.draw_time, self.render_log)
    }
}

/// A stopwatch that is stopped and reads zero.
pub open spec fn is_zero(s: Stopwatch) -> bool {
    s matches Stopwatch::Paused { runtime, .. } && runtime == secs_duration(0)
}

impl FrameStats {
    /// Every stopwatch stopped at zero and nothing drawn.
    pub fn new() -> (r: FrameStats)
        ensures
            is_zero(r@.0) && is_zero(r@.1) && is_zero(r@.2),
            r@.3 == (RenderLog {
                elements: 0,
                sprites: 0,
                sprites_not_found: 0,
                meshes: 0,
                texts: 0,
                draw_calls: 0,
            }),
    {
        FrameStats {
            update_time: Stopwatch::new(),
            draw_time: Stopwatch::new(),
            frame_time: Stopwatch::new(),
            render_log: RenderLog::new(),
        }
    }

    pub fn begin_frame(&mut self)
        ensures
            final(self)@.0 is Running,
            final(self)@.1 == old(self)@.1 && final(self)@.2 == old(self)@.2 && final(self)@.3 == old(self)@.3,
    {
        self.frame_time.start()
    }

    pub fn begin_update(&mut self)
        ensures
            final(self)@.1 is Running,
            final(self)@.0 == old(self)@.0 && final(self)@.2 == old(self)@.2 && final(self)@.3 == old(self)@.3,
    {
        self.update_time.start()
    }

    pub fn begin_draw(&mut self)
        ensures
            final(self)@.2 is Running,
            final(self)@.0 == old(self)@.0 && final(self)@.1 == old(self)@.1 && final(self)@.3 == old(self)@.3,
    {
        self.draw_time.start()
    }

    pub fn end_frame(&mut self)
        ensures
            final(self)@.0 is Paused,
            old(self)@.0 is Paused ==> final(self)@.0 == old(self)@.0,
            final(self)@.1 == old(self)@.1 && final(self)@.2 == old(self)@.2 && final(self)@.3 == old(self)@.3,
    {
        self.frame_time.stop()
    }

    pub fn end_update(&mut self)
        ensures
            final(self)@.1 is Paused,
            old(self)@.1 is Paused ==> final(self)@.1 == old(self)@.1,
            final(self)@.0 == old(self)@.0 && final(self)@.2 == old(self)@.2 && final(self)@.3 == old(self)@.3,
    {
        self.update_time.stop()
    }

    pub fn end_draw(&mut self)
        ensures
            final(self)@.2 is Paused,
            old(self)@.2 is Paused ==> final(self)@.2 == old(self)@.2,
            final(self)@.0 == old(self)@.0 && final(self)@.1 == old(self)@.1 && final(self)@.3 == old(self)@.3,
    {
        self.draw_time.stop()
    }

    /// The time the frame took, so far if it is not over.
    pub fn frame_time(&self) -> (r: Duration)
        ensures
            self@.0 matches Stopwatch::Paused { runtime, .. } ==> r == runtime,
    {
        self.frame_time.read()
    }

    /// The time the update took, so far if it is not over.
    pub fn update_time(&self) -> (r: Duration)
        ensures
            self@.1 matches Stopwatch::Paused { runtime, .. } ==> r == runtime,
    {
        self.update_time.read()
    }

    /// The time the drawing took, so far if it is not over.
    pub fn draw_time(&self) -> (r: Duration)
        ensures
            self@.2 matches Stopwatch::Paused { runtime, .. } ==> r == runtime,
    {
        self.draw_time.read()
    }

    pub fn set_render_log(&mut self, render_log: RenderLog)
        ensures
            final(self)@ == (old(self)@.0, old(self)@.1, old(self)@.2, render_log),
    {
        self.render_log = render_log
    }

    pub fn render_log(&self) -> (r: RenderLog)
        ensures
            r == self@.3,
    {
        self.render_log
    }
}

} // verus!
