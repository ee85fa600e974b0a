use aphelion::{key_command, BodyId, KeyCommand, KeyPress};

#[test]
fn named_keys() {
    assert_eq!(key_command(KeyPress::Space, 11), Some(KeyCommand::TogglePause));
    assert_eq!(key_command(KeyPress::Escape, 11), Some(KeyCommand::Quit));
    assert_eq!(key_command(KeyPress::Other, 11), None);
}

#[test]
fn letter_and_bracket_keys() {
    let cases = [
        ('[', KeyCommand::HalveTimeScale),
        (']', KeyCommand::DoubleTimeScale),
        ('o', KeyCommand::ToggleOrbits),
        ('f', KeyCommand::ToggleFollow),
        ('i', KeyCommand::CycleIntegrator),
        ('r', KeyCommand::Reset),
    ];
    for (key, command) in cases {
        assert_eq!(key_command(KeyPress::Character(key), 11), Some(command));
    }
    assert_eq!(key_command(KeyPress::Character('x'), 11), None);
    assert_eq!(key_command(KeyPress::Character('O'), 11), None);
}

#[test]
fn digits_focus_a_body_with_one_being_the_first() {
    assert_eq!(key_command(KeyPress::Character('1'), 11), Some(KeyCommand::Focus(BodyId(0))));
    assert_eq!(key_command(KeyPress::Character('9'), 11), Some(KeyCommand::Focus(BodyId(8))));
    assert_eq!(key_command(KeyPress::Character('0'), 11), Some(KeyCommand::Focus(BodyId(9))));
    // Bodies that do not exist are not selected.
    assert_eq!(key_command(KeyPress::Character('0'), 9), None);
    assert_eq!(key_command(KeyPress::Character('3'), 2), None);
    assert_eq!(key_command(KeyPress::Character('2'), 2), Some(KeyCommand::Focus(BodyId(1))));
}
