use chess_game::ui::board::{board_square_id, register_board_squares, BoardSquare};
use chess_game::ui::element::TextBit;
use chess_game::ui::manager::Event;
use chess_game::ui::style::{Background, Color, SpriteId};
use chess_game::ui::{Element, Group, State, UiManager};

fn s(text: &str) -> String {
    text.to_string()
}

#[test]
fn state_transitions() {
    let mut st = State::default();
    assert!(!st.hovered() && !st.clicked() && !st.focussed());

    st.mouse_hover_self();
    assert!(st.hovered() && st.hovered_this_frame());

    st.new_frame();
    assert!(st.hovered() && !st.hovered_this_frame());

    st.mouse_press_self();
    assert!(!st.hovered());
    assert!(st.clicked() && st.clicked_this_frame());

    st.mouse_release_self();
    assert!(st.hovered() && st.focussed() && st.focussed_this_frame());
    assert!(!st.clicked() && !st.clicked_this_frame());

    st.new_frame();
    st.mouse_release_not_self();
    assert!(st.hovered());
    assert!(!st.focussed() && !st.focussed_this_frame());

    st.mouse_press_not_self();
    assert!(!st.hovered() && !st.clicked() && !st.focussed());

    st.new_frame();
    st.mouse_hover_self();
    st.mouse_hover_not_self();
    assert!(!st.hovered() && !st.hovered_this_frame());
}

#[test]
fn pressing_twice_is_new_once() {
    let mut st = State::default();
    st.mouse_press_self();
    assert!(st.clicked_this_frame());
    st.new_frame();
    st.mouse_press_self();
    assert!(st.clicked() && !st.clicked_this_frame());
}

#[test]
fn groups() {
    let mut g = Group::new(s("menu"));
    assert_eq!(g.id(), "menu");
    assert!(g.elems().is_empty());
    assert_eq!(g.push(s("a")), Ok(()));
    assert_eq!(g.push(s("b")), Ok(()));
    assert_eq!(g.push(s("a")), Err(()));
    assert_eq!(g.elems(), &vec![s("a"), s("b")]);
    assert_eq!(g.remove(s("c")), Err(()));
    assert_eq!(g.remove(s("a")), Ok(()));
    assert_eq!(g.elems(), &vec![s("b")]);
    assert_eq!(g.remove(s("a")), Err(()));
}

#[test]
fn manager_elements_and_groups() {
    let mut ui = UiManager::default();
    assert_eq!(ui.add_element(Element::new_button(s("play")), s("menu")), "play");
    assert_eq!(ui.add_element(Element::new_button(s("quit")), s("menu")), "quit");
    assert_eq!(ui.add_element(Element::new_graph(s("fps")), s("debug")), "fps");

    assert_eq!(ui.get_group(s("menu")).unwrap().elems(), &vec![s("play"), s("quit")]);
    assert_eq!(ui.get_group(s("debug")).unwrap().elems(), &vec![s("fps")]);
    assert!(ui.get_group(s("none")).is_none());

    assert_eq!(ui.create_group(s("menu")), Err(()));
    assert_eq!(ui.create_group(s("board")), Ok(()));
    assert!(ui.get_group(s("board")).unwrap().elems().is_empty());

    assert_eq!(ui.remove_element(s("play")), Ok(()));
    assert_eq!(ui.remove_element(s("play")), Err(()));
    assert!(ui.try_get_element(s("play")).is_none());
    assert_eq!(ui.get_group(s("menu")).unwrap().elems(), &vec![s("quit")]);

    assert_eq!(ui.remove_group(s("menu")), Ok(()));
    assert_eq!(ui.remove_group(s("menu")), Err(()));
    assert!(ui.try_get_element(s("quit")).is_none());
    assert!(ui.try_get_element(s("fps")).is_some());
}

#[test]
fn manager_element_state() {
    let mut ui = UiManager::default();
    ui.add_element(Element::new_text(s("title"), vec![TextBit::new_text(s("Chess"), None)]), s("menu"));

    ui.get_element(s("title")).on_mouse_motion(true);
    assert!(ui.get_element(s("title")).get_state().hovered());
    ui.get_element(s("title")).on_mouse_press(false);
    assert!(!ui.get_element(s("title")).get_state().hovered());
    assert_eq!(ui.get_element(s("title")).get_id(), "title");

    let el = ui.try_get_element(s("title")).unwrap();
    el.on_mouse_release(true);
    assert!(el.get_state().focussed_this_frame());
    el.on_new_frame();
    assert!(el.get_state().focussed() && !el.get_state().focussed_this_frame());
}

#[test]
fn manager_events() {
    let mut ui = UiManager::default();
    ui.register_text_input('e');
    ui.register_text_input('4');
    assert_eq!(
        ui.pending_events(),
        &vec![Event::TextInput { character: 'e' }, Event::TextInput { character: '4' }]
    );
}

#[test]
fn backgrounds() {
    let b = Background::default();
    assert_eq!(*b.get_color(), Color::from_rgb(24, 24, 24));
    assert!(b.get_img().is_none());

    let mut b = Background::new(Color { r: 1, g: 2, b: 3, a: 4 }, Some(SpriteId(9)));
    assert_eq!(b.get_img(), Some(&SpriteId(9)));
    *b.get_color_mut() = Color::from_rgb(5, 6, 7);
    *b.get_img_mut().unwrap() = SpriteId(11);
    assert_eq!(*b.get_color(), Color { r: 5, g: 6, b: 7, a: 255 });
    assert_eq!(b.get_img(), Some(&SpriteId(11)));
}

#[test]
fn text_bits() {
    match TextBit::new_text(s("hi"), Some(Color::from_rgb(0, 0, 0))) {
        TextBit::Text { raw, color_opt } => {
            assert_eq!(raw, "hi");
            assert_eq!(color_opt, Some(Color { r: 0, g: 0, b: 0, a: 255 }));
        },
        TextBit::Image(_) => panic!("a text bit was expected"),
    }
    assert!(matches!(TextBit::new_img(SpriteId(3)), TextBit::Image(SpriteId(3))));
}

#[test]
fn text_edit_typing() {
    let mut ui = UiManager::default();
    assert_eq!(ui.create_group(s("form")), Ok(()));
    ui.add_element(Element::new_text_edit(s("name"), 2), s("form"));

    // Not focused: typing is ignored.
    ui.register_text_input('x');
    ui.update();
    assert!(ui.pending_events().is_empty());
    assert!(ui.get_element(s("name")).text().is_empty());

    // Clicked: focused, it takes printable characters, one line break
    // (two rows), and backspaces.
    ui.get_element(s("name")).on_mouse_press(true);
    ui.get_element(s("name")).on_mouse_release(true);
    for c in ['a', '\n', 'b', '\r', 'c', '\u{8}', '\u{7}', '~'] {
        ui.register_text_input(c);
    }
    ui.update();
    assert_eq!(ui.get_element(s("name")).text(), vec!['a', '\n', 'b', '~']);

    // Backspaces on an empty text do nothing.
    let mut e = Element::new_text_edit(s("other"), 1);
    e.on_mouse_press(true);
    e.on_mouse_release(true);
    e.on_text_input('\u{8}');
    e.on_text_input('\n');
    assert!(e.text().is_empty());
    e.on_text_input('z');
    e.on_text_input('\u{8}');
    assert!(e.text().is_empty());

    // Other elements ignore typing.
    let mut b = Element::new_button(s("ok"));
    b.on_text_input('q');
    assert!(b.text().is_empty());
}

#[test]
fn board_squares_registered() {
    assert_eq!(board_square_id(3, 7), "board square 3x7");
    let mut ui = UiManager::default();
    ui.add_element(Element::new_button(s("play")), s("board"));
    let squares = register_board_squares(&mut ui);
    assert_eq!(squares.len(), 64);
    assert_eq!(squares[0], BoardSquare { column: 0, row: 0, first_colour: true });
    assert_eq!(squares[1], BoardSquare { column: 0, row: 1, first_colour: false });
    assert_eq!(squares[9], BoardSquare { column: 1, row: 1, first_colour: true });
    assert_eq!(squares[63], BoardSquare { column: 7, row: 7, first_colour: true });
    let members = ui.get_group(s("board")).unwrap().elems();
    assert_eq!(members.len(), 65);
    assert_eq!(members[0], "play");
    assert_eq!(members[1], "board square 0x0");
    assert_eq!(members[64], "board square 7x7");
    assert!(matches!(ui.try_get_element(s("board square 4x2")), Some(Element::Button(_))));
}
