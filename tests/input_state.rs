use widget_tree::state::{KeyState, MouseState, MouseType};

#[test]
fn mouse_counts_presses_and_releases() {
    let mut m = MouseState::new();
    assert_eq!(m.m_count, 0);
    m.set_type(MouseType::Pressed(1));
    m.set_type(MouseType::Pressed(2));
    assert_eq!(m.m_count, 2);
    m.set_type(MouseType::Released(1));
    assert_eq!(m.m_count, 1);
    m.set_type(MouseType::CursorMoved);
    assert_eq!(m.m_count, 1);
    assert_eq!(m.m_type, MouseType::CursorMoved);
    m.set_type(MouseType::Released(2));
    m.set_type(MouseType::Released(2));
    assert_eq!(m.m_count, 0);
}

#[test]
fn mouse_press_count_saturates() {
    let mut m = MouseState::new();
    for _ in 0..300 {
        m.set_type(MouseType::Pressed(1));
    }
    assert_eq!(m.m_count, u8::MAX);
}

#[test]
fn mouse_position_and_modifiers() {
    let mut m = MouseState::new();
    m.set_position((30, 40));
    assert_eq!(m.absolute_pos(), (30, 40));
    assert_eq!(m.relative_pos((10, 50)), (20, -10));
    m.set_modifiers(0b101);
    assert!(m.check_modifiers(0b001));
    assert!(m.check_modifiers(0b101));
    assert!(!m.check_modifiers(0b010));
}

#[test]
fn key_modifiers() {
    let k = KeyState::Pressed(65, 0b11);
    assert!(k.check_modifiers(0b10));
    assert!(!k.check_modifiers(0b100));
    let r = KeyState::Released(65, 0);
    assert!(r.check_modifiers(0));
    assert!(!r.check_modifiers(1));
}
