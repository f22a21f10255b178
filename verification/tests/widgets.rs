use voidtui::event::Event;
use voidtui::event::MouseButton;
use voidtui::event::MouseEvent;
use voidtui::event::MouseKind;
use voidtui::geometry::area::Area;
use voidtui::geometry::length::Length;
use voidtui::shell::Shell;
use voidtui::text::Text;
use voidtui::widget::element::Element;
use voidtui::widgets::button::button;
use voidtui::widgets::label::label;
use voidtui::widgets::vertical::Vertical;

#[test]
fn text_measures_wide_glyphs() {
    let text = Text::new("你好，世界！\nok");
    assert_eq!(text.size().width, 12);
    assert_eq!(text.size().height, 2);
    let ascii = Text::new("hello");
    assert_eq!(ascii.size().width, 5);
    assert_eq!(ascii.size().height, 1);
}

#[test]
fn stacked_children_are_spaced() {
    let children: Vec<Element<u8>> = vec![
        Element::Label(label("a").height(Length::Fill)),
        Element::Label(label("b").height(Length::Fill)),
        Element::Label(label("c").height(Length::Fill)),
    ];
    let stack = Vertical::with_children(children).spacing(1);
    let laid = Element::Vertical(stack).layout(Area::new(0, 0, 10, 11));
    match laid {
        Element::Vertical(v) => {
            // heights resolve via Fill to 3, 3, and 5 with the remainder;
            // the spacing pushes the last child past the viewport's edge,
            // so its bounds are clipped to the 3 rows that remain
            let b0 = v.children_bounds[0];
            let b1 = v.children_bounds[1];
            let b2 = v.children_bounds[2];
            assert_eq!(b0.height, 3);
            assert_eq!(b1.height, 3);
            assert_eq!(b2.height, 3);
            // child N+1 starts at child_N.y + child_N.height + spacing
            assert_eq!(b1.y, b0.y + b0.height + 1);
            assert_eq!(b2.y, b1.y + b1.height + 1);
        },
        _ => panic!("expected a vertical stack"),
    }
}

#[test]
fn button_click_emits_message() {
    let mut b = button::<u8>("hi").on_click(7);
    b.layout(Area::new(0, 0, 6, 3));
    let mut shell: Shell<u8> = Shell::new();
    b.process_event(
        Event::Mouse(MouseEvent { kind: MouseKind::Down(MouseButton::Left), column: 1, row: 1 }),
        &mut shell,
    );
    assert_eq!(shell.messages().len(), 1);
    assert_eq!(shell.messages()[0], 7);
    assert!(!shell.is_event_captured());

    // a click outside the bounds emits nothing
    let mut b2 = button::<u8>("hi").on_click(7);
    b2.layout(Area::new(0, 0, 6, 3));
    let mut shell2: Shell<u8> = Shell::new();
    b2.process_event(
        Event::Mouse(MouseEvent { kind: MouseKind::Down(MouseButton::Left), column: 9, row: 9 }),
        &mut shell2,
    );
    assert_eq!(shell2.messages().len(), 0);
}
