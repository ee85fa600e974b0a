use aphelion::{find_body, first_luminous, BodyId, BodyKind};

#[test]
fn a_handle_is_its_index() {
    assert_eq!(BodyId(7).index(), 7);
    assert!(BodyId(2) < BodyId(3));
}

#[test]
fn only_stars_shine() {
    let kinds = [
        BodyKind::Star,
        BodyKind::Planet,
        BodyKind::DwarfPlanet,
        BodyKind::Moon,
        BodyKind::Asteroid,
        BodyKind::Comet,
        BodyKind::Spacecraft,
    ];
    let labels = ["star", "planet", "dwarf planet", "moon", "asteroid", "comet", "spacecraft"];
    for (kind, label) in kinds.iter().zip(labels) {
        assert_eq!(kind.label(), label);
        assert_eq!(kind.is_luminous(), *kind == BodyKind::Star);
    }
    assert_eq!(BodyKind::default(), BodyKind::Planet);
}

#[test]
fn bodies_are_found_by_name_ignoring_case() {
    let names = ["Sun", "Mercury", "Earth", "Moon", "earth"];
    assert_eq!(find_body(&names, "Sun"), Some(BodyId(0)));
    assert_eq!(find_body(&names, "MERCURY"), Some(BodyId(1)));
    assert_eq!(find_body(&names, "earth"), Some(BodyId(2)));
    assert_eq!(find_body(&names, "moon"), Some(BodyId(3)));
    assert_eq!(find_body(&names, "Mars"), None);
    assert_eq!(find_body(&names, "Eart"), None);
    assert_eq!(find_body(&[], "Sun"), None);
    // Only ASCII letters fold.
    assert_eq!(find_body(&["Ébé"], "ébé"), None);
    assert_eq!(find_body(&["Ébé"], "ÉBÉ"), None);
    assert_eq!(find_body(&["Ébé"], "ÉBé"), Some(BodyId(0)));
}

#[test]
fn the_light_sits_on_the_first_star() {
    let kinds = [BodyKind::Planet, BodyKind::Star, BodyKind::Moon, BodyKind::Star];
    assert_eq!(first_luminous(&kinds), Some(BodyId(1)));
    assert_eq!(first_luminous(&[BodyKind::Planet, BodyKind::Moon]), None);
    assert_eq!(first_luminous(&[]), None);
}
