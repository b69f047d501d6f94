use vstd::prelude::*;
use crate::ui::state::{State, turned_on, turned_off, new_frame_of};
use crate::ui::style::{Color, SpriteId};

verus! {

/// A piece of a text element: some text, in its own color if it has one,
/// or a sprite.
#[derive(Clone, Debug)]
pub enum TextBit {
    Text { raw: String, color_opt: Option<Color> },
    Image(SpriteId),
}

impl TextBit {
    pub fn new_text(raw: String, color_opt: Option<Color>) -> (r: TextBit)
        ensures
            r matches TextBit::Text { raw: t, color_opt: c } && t@ == raw@ && c == color_opt,
    {
        TextBit::Text { raw, color_opt }
    }

    pub fn new_img(sprite_id: SpriteId) -> (r: TextBit)
        ensures
            r matches TextBit::Image(s) && s == sprite_id,
    {
        TextBit::Image(sprite_id)
    }
}

/// What every element has: its identifier and its pointer state.
pub struct ElementBase {
    id: String,
    state: State,
}

/// An element of the user interface. Where it is drawn and how it looks
/// stay with the drawing side; this is what its behaviour depends on.
pub enum Element {
    Button(ElementBase),
    Graph(ElementBase),
    Text(ElementBase, Vec<TextBit>),
    /// A text edit: its number of rows and the text typed into it.
    TextEdit(ElementBase, usize, Vec<char>),
}

impl Element {
    pub closed spec fn base(&self) -> &ElementBase {
        match self {
            Element::Button(b) => b,
            Element::Graph(b) => b,
            Element::Text(b, _) => b,
            Element::TextEdit(b, _, _) => b,
        }
    }

    /// The identifier of the element.
    pub closed spec fn spec_id(&self) -> Seq<char> {
        self.base().id@
    }

    /// The pointer state of the element.
    pub closed spec fn spec_state(&self) -> State {
        self.base().state
    }

    /// The same kind of element, holding the same content, with the state
    /// `state`.
    pub closed spec fn with_state(&self, state: State) -> Element {
        match self {
            Element::Button(b) => Element::Button(ElementBase { id: b.id, state }),
            Element::Graph(b) => Element::Graph(ElementBase { id: b.id, state }),
            Element::Text(b, bits) => Element::Text(ElementBase { id: b.id, state }, *bits),
            Element::TextEdit(b, rows, txt) => Element::TextEdit(ElementBase { id: b.id, state }, *rows, *txt),
        }
    }

    /// The number of rows of a text edit; 0 for another element.
    pub closed spec fn spec_rows(&self) -> nat {
        match self {
            Element::TextEdit(_, rows, _) => *rows as nat,
            _ => 0,
        }
    }

    /// The text typed into a text edit; empty for another element.
    pub closed spec fn spec_text(&self) -> Seq<char> {
        match self {
            Element::TextEdit(_, _, txt) => txt@,
            _ => Seq::empty(),
        }
    }

    pub proof fn lemma_with_state(&self, state: State)
        ensures
            self.with_state(state).spec_id() == self.spec_id(),
            self.with_state(state).spec_state() == state,
            self.with_state(state).spec_rows() == self.spec_rows(),
            self.with_state(state).spec_text() == self.spec_text(),
            (self.with_state(state) is TextEdit) == (self is TextEdit),
    {
    }

    pub fn new_button(id: String) -> (r: Element)
        ensures
            r is Button,
            r.spec_id() == id@,
            r.spec_state()@ == ((false, false), (false, false), (false, false)),
    {
        Element::Button(ElementBase { id, state: State::default() })
    }

    pub fn new_graph(id: String) -> (r: Element)
        ensures
            r is Graph,
            r.spec_id() == id@,
            r.spec_state()@ == ((false, false), (false, false), (false, false)),
    {
        Element::Graph(ElementBase { id, state: State::default() })
    }

    /// A text element made of `parts`.
    pub fn new_text(id: String, parts: Vec<TextBit>) -> (r: Element)
        ensures
            r matches Element::Text(_, bits) && bits@ == parts@,
            r.spec_id() == id@,
            r.spec_state()@ == ((false, false), (false, false), (false, false)),
    {
        Element::Text(ElementBase { id, state: State::default() }, parts)
    }

    /// An empty text edit of `rows` rows.
    pub fn new_text_edit(id: String, rows: usize) -> (r: Element)
        ensures
            r is TextEdit,
            r.spec_id() == id@,
            r.spec_state()@ == ((false, false), (false, false), (false, false)),
            r.spec_rows() == rows,
            r.spec_text() == Seq::<char>::empty(),
    {
        Element::TextEdit(ElementBase { id, state: State::default() }, rows, Vec::new())
    }

    /// The identifier of the element.
    pub fn get_id(&self) -> (r: String)
        ensures
            r@ == self.spec_id(),
    {
        match self {
            Element::Button(b) => b.id.clone(),
            Element::Graph(b) => b.id.clone(),
            Element::Text(b, _) => b.id.clone(),
            Element::TextEdit(b, _, _) => b.id.clone(),
        }
    }

    /// The pointer state of the element.
    pub fn get_state(&self) -> (r: State)
        ensures
            r == self.spec_state(),
    {
        match self {
            Element::Button(b) => b.state,
            Element::Graph(b) => b.state,
            Element::Text(b, _) => b.state,
            Element::TextEdit(b, _, _) => b.state,
        }
    }

    fn state_mut(&mut self) -> (r: &mut State)
        ensures
            *r == old(self).spec_state(),
            *final(self) == old(self).with_state(*final(r)),
    {
        match self {
            Element::Button(b) => &mut b.state,
            Element::Graph(b) => &mut b.state,
            Element::Text(b, _) => &mut b.state,
            Element::TextEdit(b, _, _) => &mut b.state,
        }
    }

    /// A frame begins.
    pub fn on_new_frame(&mut self)
        ensures
            *final(self) == old(self).with_state(final(self).spec_state()),
            final(self).spec_state()@ == (new_frame_of(old(self).spec_state()@.0), new_frame_of(
                old(self).spec_state()@.1,
            ), new_frame_of(old(self).spec_state()@.2)),
    {
        let state = self.state_mut();
        state.new_frame();
    }

    /// The mouse was pressed, on the element if `inside`.
    pub fn on_mouse_press(&mut self, inside: bool)
        ensures
            *final(self) == old(self).with_state(final(self).spec_state()),
            final(self).spec_state()@ == if inside {
                (turned_off(old(self).spec_state()@.0), turned_on(old(self).spec_state()@.1), old(
                    self,
                ).spec_state()@.2)
            } else {
                (turned_off(old(self).spec_state()@.0), turned_off(old(self).spec_state()@.1), turned_off(
                    old(self).spec_state()@.2,
                ))
            },
    {
        let state = self.state_mut();
        if inside {
            state.mouse_press_self();
        } else {
            state.mouse_press_not_self();
        }
    }

    /// The mouse was released, on the element if `inside`.
    pub fn on_mouse_release(&mut self, inside: bool)
        ensures
            *final(self) == old(self).with_state(final(self).spec_state()),
            final(self).spec_state()@ == if inside {
                (turned_on(old(self).spec_state()@.0), turned_off(old(self).spec_state()@.1), turned_on(
                    old(self).spec_state()@.2,
                ))
            } else {
                (old(self).spec_state()@.0, turned_off(old(self).spec_state()@.1), turned_off(
                    old(self).spec_state()@.2,
                ))
            },
    {
        let state = self.state_mut();
        if inside {
            state.mouse_release_self();
        } else {
            state.mouse_release_not_self();
        }
    }

    /// The mouse moved, over the element if `inside`.
    pub fn on_mouse_motion(&mut self, inside: bool)
        ensures
            *final(self) == old(self).with_state(final(self).spec_state()),
            final(self).spec_state()@ == if inside {
                (turned_on(old(self).spec_state()@.0), old(self).spec_state()@.1, old(
                    self,
                ).spec_state()@.2)
            } else {
                (turned_off(old(self).spec_state()@.0), old(self).spec_state()@.1, old(
                    self,
                ).spec_state()@.2)
            },
    {
        let state = self.state_mut();
        if inside {
            state.mouse_hover_self();
        } else {
            state.mouse_hover_not_self();
        }
    }

    /// The text typed into a text edit; empty for another element.
    pub fn text(&self) -> (r: Vec<char>)
        ensures
            r@ == self.spec_text(),
    {
        match self {
            Element::TextEdit(_, _, txt) => txt.clone(),
            _ => Vec::new(),
        }
    }

    /// A character was typed: a focused text edit takes it as `typed`
    /// says; any other element ignores it.
    pub fn on_text_input(&mut self, character: char)
        requires
            accepts_input(*old(self), character),
        ensures
            if *old(self) is TextEdit && focused(*old(self)) {
                &&& *final(self) is TextEdit
                &&& final(self).spec_id() == old(self).spec_id()
                &&& final(self).spec_state() == old(self).spec_state()
                &&& final(self).spec_rows() == old(self).spec_rows()
                &&& final(self).spec_text() == typed(old(self).spec_text(), old(self).spec_rows(), character)
            } else {
                *final(self) == *old(self)
            },
    {
        match self {
            Element::TextEdit(b, rows, txt) => {
                if !b.state.focussed() {
                    return;
                }
                if ' ' <= character && character <= '~' {
                    txt.push(character);
                } else if character == '\r' || character == '\n' {
                    let n = new_line_count(txt);
                    if n < *rows - 1 {
                        txt.push(character);
                    }
                } else if character == '\u{8}' {
                    if txt.len() > 0 {
                        txt.pop();
                    }
                }
            },
            _ => {},
        }
    }
}

/// The element is a text edit that has the focus.
pub open spec fn focused(e: Element) -> bool {
    e.spec_state()@.2.0
}

/// How many times `c` occurs in `s`.
pub open spec fn count_char(s: Seq<char>, c: char) -> nat
    decreases s.len(),
{
    if s.len() == 0 {
        0
    } else {
        count_char(s.drop_last(), c) + if s.last() == c {
            1nat
        } else {
            0nat
        }
    }
}

/// The line breaks of `s`: carriage returns and line feeds.
pub open spec fn line_breaks(s: Seq<char>) -> nat {
    count_char(s, '\n') + count_char(s, '\r')
}

/// The text `txt` of a text edit of `rows` rows once `c` is typed: a
/// printable ASCII character is added; a line break is added while the
/// text has fewer than `rows - 1` of them; a backspace removes the last
/// character, if any; anything else is ignored.
pub open spec fn typed(txt: Seq<char>, rows: nat, c: char) -> Seq<char> {
    if ' ' <= c && c <= '~' {
        txt.push(c)
    } else if c == '\r' || c == '\n' {
        if line_breaks(txt) + 1 < rows {
            txt.push(c)
        } else {
            txt
        }
    } else if c == '\u{8}' {
        if txt.len() > 0 {
            txt.drop_last()
        } else {
            txt
        }
    } else {
        txt
    }
}

/// The text `txt` once the characters `cs` are typed, in order.
pub open spec fn typed_all(txt: Seq<char>, rows: nat, cs: Seq<char>) -> Seq<char>
    decreases cs.len(),
{
    if cs.len() == 0 {
        txt
    } else {
        typed(typed_all(txt, rows, cs.drop_last()), rows, cs.last())
    }
}

/// Counting in a sequence one element longer.
proof fn lemma_count_push(s: Seq<char>, x: char, c: char)
    ensures
        count_char(s.push(x), c) == count_char(s, c) + if x == c {
            1nat
        } else {
            0nat
        },
{
    assert(s.push(x).drop_last() =~= s);
}

/// A backspace takes back a printable character just typed.
pub proof fn lemma_backspace_undoes(txt: Seq<char>, rows: nat, c: char)
    requires
        ' ' <= c && c <= '~',
    ensures
        typed(typed(txt, rows, c), rows, '\u{8}') == txt,
{
    assert(txt.push(c).drop_last() =~= txt);
}

/// A text edit never holds as many line breaks as it has rows: typing
/// keeps them below `rows`.
pub proof fn lemma_line_breaks_bounded(txt: Seq<char>, rows: nat, c: char)
    requires
        line_breaks(txt) < rows,
    ensures
        line_breaks(typed(txt, rows, c)) < rows,
{
    lemma_count_push(txt, c, '\n');
    lemma_count_push(txt, c, '\r');
    if c == '\u{8}' && txt.len() > 0 {
        let t = txt.drop_last();
        assert(t.push(txt.last()) =~= txt);
        lemma_count_push(t, txt.last(), '\n');
        lemma_count_push(t, txt.last(), '\r');
    }
}

/// Typing `c` into `e` is defined: a line break typed into a focused text
/// edit needs it to have a row.
pub open spec fn accepts_input(e: Element, c: char) -> bool {
    (e is TextEdit && focused(e) && (c == '\r' || c == '\n')) ==> e.spec_rows() >= 1
}

/// The number of line breaks in `txt`.
fn new_line_count(txt: &Vec<char>) -> (r: usize)
    ensures
        r == line_breaks(txt@),
{
    let mut n: usize = 0;
    let mut i: usize = 0;
    while i < txt.len()
        invariant
            i <= txt@.len(),
            n == line_breaks(txt@.take(i as int)),
            n <= i,
        decreases txt@.len() - i,
    {
        proof {
            assert(txt@.take(i + 1).drop_last() =~= txt@.take(i as int));
        }
        if txt[i] == '\n' || txt[i] == '\r' {
            n = n + 1;
        }
        i = i + 1;
    }
    proof {
        assert(txt@.take(i as int) =~= txt@);
    }
    n
}

} // verus!
