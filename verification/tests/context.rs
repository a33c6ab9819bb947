use mesh::context::Context;

#[test]
fn new_context_has_no_events() {
    let c: Context<u32, (i32, i32), String> = Context::new((800, 600), (0, 0));
    assert_eq!(c.current_event(), None);
    assert_eq!(c.window_size(), (800, 600));
    assert_eq!(c.mouse_pos(), (0, 0));
    assert!(!c.has_event(1));
}

#[test]
fn events_come_out_oldest_first() {
    let mut c: Context<u32, (i32, i32), String> = Context::new((0, 0), (0, 0));
    c.new_event(7);
    c.new_event(8);
    assert_eq!(c.current_event(), Some(&7));
    assert!(c.has_event(8));
    assert!(!c.has_event(9));
    c.consume_event(&7);
    assert_eq!(c.current_event(), Some(&8));
}

#[test]
fn consume_removes_only_the_oldest_match() {
    let mut c: Context<u32, (i32, i32), String> = Context::new((0, 0), (0, 0));
    for e in [1, 2, 1, 3] {
        c.new_event(e);
    }
    c.consume_event(&1);
    assert_eq!(c.current_event(), Some(&2));
    assert!(c.has_event(1));
    c.consume_event(&2);
    c.consume_event(&1);
    assert_eq!(c.current_event(), Some(&3));
    assert!(!c.has_event(1));
}

#[test]
fn clear_drops_all_events() {
    let mut c: Context<u32, (i32, i32), String> = Context::new((0, 0), (0, 0));
    c.new_event(1);
    c.new_event(2);
    c.clear_events();
    assert_eq!(c.current_event(), None);
}

#[test]
fn positions_and_fonts_are_kept() {
    let mut c: Context<u32, (i32, i32), String> = Context::new((0, 0), (0, 0));
    c.set_mouse_pos((3, 4));
    c.set_window_size((640, 480));
    c.set_font_context("fonts".to_string());
    c.new_event(5);
    assert_eq!(c.mouse_pos(), (3, 4));
    assert_eq!(c.window_size(), (640, 480));
    assert_eq!(c.font_context(), "fonts");
    assert_eq!(c.current_event(), Some(&5));
}

