use e_nguyen::input::{KeyTracker, LastKey, MousePos, MouseTracker, ProcessedEvent, UserEvent};

#[test]
fn test_key_tracking() {
    let mut kt = KeyTracker::new();
    let inputs: Vec<ProcessedEvent<f64>> = vec![
        // yields one UserEvent::KeyPress{'c'}
        ProcessedEvent::KeyDown { scancode: 0, no_mods: true },
        ProcessedEvent::KeyChar { character: 'c' },
        ProcessedEvent::KeyUp { scancode: 0, no_mods: true },
        // resets internals so that KeyUp fails to yield a key
        ProcessedEvent::KeyDown { scancode: 1, no_mods: true },
        ProcessedEvent::KeyChar { character: 'c' },
        ProcessedEvent::KeyDown { scancode: 2, no_mods: true },
        ProcessedEvent::KeyChar { character: 'a' },
        ProcessedEvent::KeyUp { scancode: 0, no_mods: true },
        // fails to yield again on final KeyUp with modifiers
        ProcessedEvent::KeyDown { scancode: 7, no_mods: true },
        ProcessedEvent::KeyChar { character: 'z' },
        ProcessedEvent::KeyUp { scancode: 7, no_mods: false },
        // yields one UserEvent::Keypress{'m'}
        ProcessedEvent::KeyDown { scancode: 8, no_mods: true },
        ProcessedEvent::KeyChar { character: 'm' },
        ProcessedEvent::KeyUp { scancode: 8, no_mods: true },
        // fails to yield if KeyUp code is wrong
        ProcessedEvent::KeyDown { scancode: 12, no_mods: true },
        ProcessedEvent::KeyChar { character: 'q' },
        ProcessedEvent::KeyUp { scancode: 24, no_mods: true },
    ];
    let mut outputs: Vec<UserEvent<f64>> = inputs.iter().filter_map(|m| kt.update(m)).collect();
    assert_eq!(2, outputs.len());
    let t1 = outputs.pop().unwrap();
    match t1 {
        UserEvent::KeyPress { character } => assert_eq!('m', character),
        _ => panic!("mismatched"),
    }
    let t2 = outputs.pop().unwrap();
    match t2 {
        UserEvent::KeyPress { character } => assert_eq!('c', character),
        _ => panic!("mismatched"),
    }
}

#[test]
fn test_key_tracker_internals() {
    let mut kt = KeyTracker::new();
    kt.update(&ProcessedEvent::<f64>::KeyDown { scancode: 0, no_mods: true });
    let last_code = if let LastKey::CodeOnly { code } = kt.key_down { code } else { 666 };
    assert_eq!(0, last_code);
    kt.update(&ProcessedEvent::<f64>::KeyDown { scancode: 0, no_mods: false });
    let no_key = if let LastKey::NoKey = kt.key_down { true } else { false };
    assert!(no_key);
}

#[test]
fn test_mouse_tracking() {
    let mut mt = MouseTracker::new();
    let inputs: Vec<ProcessedEvent<f64>> = vec![
        // yields MouseDown at 10, 20 and MouseUp at 20, 30
        ProcessedEvent::CursorMove { x: 10., y: 20. },
        ProcessedEvent::LeftButtonDown { no_mods: true },
        ProcessedEvent::CursorMove { x: 20., y: 30. },
        ProcessedEvent::LeftButtonUp,
        // yields MouseDown at same location and MouseUp with MousePos::NoPos
        ProcessedEvent::LeftButtonDown { no_mods: true },
        ProcessedEvent::CursorLeft,
        ProcessedEvent::LeftButtonUp,
        // does not cause MouseDown as it must be outside window
        ProcessedEvent::LeftButtonDown { no_mods: true },
        // does not cause MousDown due to modifier keys
        ProcessedEvent::CursorMove { x: 30., y: 40. },
        ProcessedEvent::LeftButtonDown { no_mods: false },
    ];
    let mut outputs: Vec<UserEvent<f64>> = inputs.iter().filter_map(|m| mt.update(m)).collect();
    assert_eq!(7, outputs.len());
    outputs.reverse();
    let mut m = outputs.pop().unwrap();
    match m {
        UserEvent::MouseMove { pos: MousePos::Pos { x, y } } => {
            assert_eq!((10., 20.), (x, y));
        }
        _ => panic!("mismatched"),
    }
    m = outputs.pop().unwrap();
    match m {
        UserEvent::MouseDown { pos: MousePos::Pos { x, y } } => {
            assert_eq!((10., 20.), (x, y));
        }
        _ => panic!("mismatched"),
    }
    m = outputs.pop().unwrap();
    match m {
        UserEvent::MouseMove { pos: MousePos::Pos { x, y } } => {
            assert_eq!((20., 30.), (x, y));
        }
        _ => panic!("mismatched"),
    }
    m = outputs.pop().unwrap();
    match m {
        UserEvent::MouseUp { pos: MousePos::Pos { x, y } } => {
            assert_eq!((20., 30.), (x, y));
        }
        _ => panic!("mismatched"),
    }
    m = outputs.pop().unwrap();
    match m {
        UserEvent::MouseDown { pos: MousePos::Pos { x, y } } => {
            assert_eq!((20., 30.), (x, y));
        }
        _ => panic!("mismatched"),
    }
    m = outputs.pop().unwrap();
    match m {
        UserEvent::MouseUp { pos: MousePos::NoPos } => { /* dont panic */ }
        _ => panic!("mismatched"),
    }
    m = outputs.pop().unwrap();
    match m {
        UserEvent::MouseMove { pos: MousePos::Pos { x, y } } => {
            assert_eq!((30., 40.), (x, y));
        }
        _ => panic!("mismatched"),
    }
}
