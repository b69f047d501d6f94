use vstd::prelude::*;

verus! {

/// One flag of an element (hovered, clicked or focused): whether it is on,
/// and whether it changed since the frame began.
#[derive(Clone, Copy, Debug, PartialEq, Eq, Structural)]
pub struct SpecificState {
    inner: bool,
    thisframe: bool,
}

/// What a flag becomes when it is turned on.
pub open spec fn turned_on(s: (bool, bool)) -> (bool, bool) {
    (true, s.1 || !s.0)
}

/// What a flag becomes when it is turned off.
pub open spec fn turned_off(s: (bool, bool)) -> (bool, bool) {
    (false, s.1 || s.0)
}

/// What a flag becomes when a frame begins.
pub open spec fn new_frame_of(s: (bool, bool)) -> (bool, bool) {
    (s.0, false)
}

impl View for SpecificState {
    /// Whether the flag is on, and whether it changed this frame.
    type V = (bool, bool);

    closed spec fn view(&self) -> (bool, bool) {
        (self.inner, self.thisframe)
    }
}

impl Default for SpecificState {
    fn default() -> (r: SpecificState)
        ensures
            r@ == (false, false),
    {
        SpecificState { inner: false, thisframe: false }
    }
}

impl SpecificState {
    fn new_frame(&mut self)
        ensures
            final(self)@ == new_frame_of(old(self)@),
    {
        self.thisframe = false;
    }

    fn set_on(&mut self)
        ensures
            final(self)@ == turned_on(old(self)@),
    {
        if !self.inner {
            self.thisframe = true;
        }
        self.inner = true;
    }

    fn set_off(&mut self)
        ensures
            final(self)@ == turned_off(old(self)@),
    {
        if self.inner {
            self.thisframe = true;
        }
        self.inner = false;
    }
}

/// The pointer and focus state of a user-interface element.
#[derive(Clone, Copy, Debug, PartialEq, Eq, Structural)]
pub struct State {
    hovered: SpecificState,
    clicked: SpecificState,
    focussed: SpecificState,
}

impl View for State {
    /// The hovered, clicked and focused flags.
    type V = ((bool, bool), (bool, bool), (bool, bool));

    closed spec fn view(&self) -> Self::V {
        (self.hovered@, self.clicked@, self.focussed@)
    }
}

impl Default for State {
    fn default() -> (r: State)
        ensures
            r@ == ((false, false), (false, false), (false, false)),
    {
        State {
            hovered: SpecificState::default(),
            clicked: SpecificState::default(),
            focussed: SpecificState::default(),
        }
    }
}

impl State {
    /// A frame begins: no flag has changed in it yet.
    pub fn new_frame(&mut self)
        ensures
            final(self)@ == (new_frame_of(old(self)@.0), new_frame_of(old(self)@.1), new_frame_of(
                old(self)@.2,
            )),
    {
        self.hovered.new_frame();
        self.clicked.new_frame();
        self.focussed.new_frame();
    }

    /// The mouse was pressed on the element.
    pub fn mouse_press_self(&mut self)
        ensures
            final(self)@ == (turned_off(old(self)@.0), turned_on(old(self)@.1), old(self)@.2),
    {
        self.hovered.set_off();
        self.clicked.set_on();
    }

    /// The mouse was pressed somewhere else.
    pub fn mouse_press_not_self(&mut self)
        ensures
            final(self)@ == (turned_off(old(self)@.0), turned_off(old(self)@.1), turned_off(
                old(self)@.2,
            )),
    {
        self.clicked.set_off();
        self.hovered.set_off();
        self.focussed.set_off();
    }

    /// The mouse was released on the element.
    pub fn mouse_release_self(&mut self)
        ensures
            final(self)@ == (turned_on(old(self)@.0), turned_off(old(self)@.1), turned_on(
                old(self)@.2,
            )),
    {
        self.hovered.set_on();
        self.clicked.set_off();
        self.focussed.set_on();
    }

    /// The mouse was released somewhere else.
    pub fn mouse_release_not_self(&mut self)
        ensures
            final(self)@ == (old(self)@.0, turned_off(old(self)@.1), turned_off(old(self)@.2)),
    {
        self.clicked.set_off();
        self.focussed.set_off();
    }

    /// The mouse moved over the element.
    pub fn mouse_hover_self(&mut self)
        ensures
            final(self)@ == (turned_on(old(self)@.0), old(self)@.1, old(self)@.2),
    {
        self.hovered.set_on();
    }

    /// The mouse moved somewhere else.
    pub fn mouse_hover_not_self(&mut self)
        ensures
            final(self)@ == (turned_off(old(self)@.0), old(self)@.1, old(self)@.2),
    {
        self.hovered.set_off()
    }

    pub fn hovered(&self) -> (r: bool)
        ensures
            r == self@.0.0,
    {
        self.hovered.inner
    }

    /// Hovered, and it began this frame.
    pub fn hovered_this_frame(&self) -> (r: bool)
        ensures
            r == (self@.0.0 && self@.0.1),
    {
        self.hovered.inner && self.hovered.thisframe
    }

    pub fn clicked(&self) -> (r: bool)
        ensures
            r == self@.1.0,
    {
        self.clicked.inner
    }

    /// Clicked, and it began this frame.
    pub fn clicked_this_frame(&self) -> (r: bool)
        ensures
            r == (self@.1.0 && self@.1.1),
    {
        self.clicked.inner && self.clicked.thisframe
    }

    pub fn focussed(&self) -> (r: bool)
        ensures
            r == self@.2.0,
    {
        self.focussed.inner
    }

    /// Focused, and it began this frame.
    pub fn focussed_this_frame(&self) -> (r: bool)
        ensures
            r == (self@.2.0 && self@.2.1),
    {
        self.focussed.inner && self.focussed.thisframe
    }
}

/// A flag that is turned on during a frame reads as new in that frame
/// exactly when it was off when the frame began.
pub proof fn lemma_turned_on_this_frame(s: (bool, bool))
    ensures
        turned_on(new_frame_of(s)).0,
        turned_on(new_frame_of(s)).1 == !s.0,
{
}

/// Turning a flag on, or off, a second time changes nothing.
pub proof fn lemma_turning_is_idempotent(s: (bool, bool))
    ensures
        turned_on(turned_on(s)) == turned_on(s),
        turned_off(turned_off(s)) == turned_off(s),
{
}

/// Once a frame begins, whatever a flag was, it reads as unchanged.
pub proof fn lemma_new_frame_clears(s: (bool, bool))
    ensures
        !new_frame_of(s).1,
        new_frame_of(s).0 == s.0,
{
}

} // verus!
