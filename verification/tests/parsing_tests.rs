use logik_lib::aussagen::parsing::append_unspecified_and_move_down;
use logik_lib::aussagen::parsing::is_unspecified;
use logik_lib::aussagen::parsing::move_up;
use logik_lib::aussagen::parsing::ParseKnoten;
use logik_lib::aussagen::parsing::ParseOption::{self, UNSPECIFIED, VARIABLE};
use logik_lib::aussagen::parsing::ParseZustand;
use logik_lib::aussagen::parsing::Parsed;

fn blatt(option: ParseOption) -> ParseKnoten {
    ParseKnoten { parsed: Parsed { option }, kinder: Vec::new() }
}

/// The tree of the original tests: a root variable `ROOT` with one child
/// variable `Var`, the cursor on the child.
fn wurzel_mit_kind() -> ParseZustand {
    ParseZustand {
        fokus: blatt(VARIABLE(String::from("Var"), false)),
        eltern: vec![blatt(VARIABLE(String::from("ROOT"), false))],
    }
}

#[test]
fn parsing_move_up_test() {
    //Given
    let zustand = wurzel_mit_kind();

    //When
    let ret = move_up(zustand).expect("Fehler bei move up");

    //Then: the cursor stands on the root, with the child reattached under it
    assert_eq!(ret.fokus.parsed.option, VARIABLE(String::from("ROOT"), false));
    assert!(ret.eltern.is_empty());
    assert_eq!(ret.fokus.kinder.len(), 1);
    assert_eq!(ret.fokus.kinder[0].parsed.option, VARIABLE(String::from("Var"), false));
}

#[test]
fn aussagen_move_up_test() {
    //Given
    let zustand = wurzel_mit_kind();

    //When
    let ret = move_up(zustand).expect("Fehler bei move up");

    //Then
    assert_eq!(ret.fokus.parsed.option, VARIABLE(String::from("ROOT"), false));
    assert!(ret.eltern.is_empty());
    assert_eq!(ret.fokus.kinder[0].parsed.option, VARIABLE(String::from("Var"), false));
}

#[test]
fn parsing_append_unspecified_and_move_down_test() {
    //Given
    let zustand = wurzel_mit_kind();

    //When
    let ret = append_unspecified_and_move_down(zustand);

    //Then: the cursor stands on a fresh, not-yet-specified node below `Var`
    assert_eq!(ret.fokus.parsed.option, UNSPECIFIED());
    assert_eq!(ret.eltern.len(), 2);
    assert_eq!(
        ret.eltern.last().expect("Kein Parent").parsed.option,
        VARIABLE(String::from("Var"), false)
    );
}

#[test]
fn aussagen_append_unspecified_and_move_down_test() {
    //Given
    let zustand = wurzel_mit_kind();

    //When
    let ret = append_unspecified_and_move_down(zustand);

    //Then
    assert_eq!(ret.fokus.parsed.option, UNSPECIFIED());
    assert_eq!(
        ret.eltern.last().expect("Kein Parent").parsed.option,
        VARIABLE(String::from("Var"), false)
    );
}

#[test]
fn parsing_is_unspecified_test() {
    //Given
    let offen = ParseZustand {
        fokus: blatt(UNSPECIFIED()),
        eltern: vec![blatt(VARIABLE(String::from("ROOT"), false))],
    };
    let variable = wurzel_mit_kind();

    //When / Then
    assert!(is_unspecified(&offen));
    assert!(!is_unspecified(&variable));
}

#[test]
fn aussagen_is_unspecified_test() {
    //Given
    let offen = ParseZustand { fokus: blatt(UNSPECIFIED()), eltern: Vec::new() };
    let variable = ParseZustand {
        fokus: blatt(VARIABLE(String::from("Var"), false)),
        eltern: Vec::new(),
    };

    //When / Then
    assert!(is_unspecified(&offen));
    assert!(!is_unspecified(&variable));
}

#[test]
fn lib_swich_parent() {
    // the node under the cursor keeps its children when its tag changes
    let mut zustand = ParseZustand {
        fokus: blatt(VARIABLE(String::from("1"), false)),
        eltern: Vec::new(),
    };
    zustand.fokus.kinder.push(blatt(VARIABLE(String::from("2"), false)));
    zustand.fokus.parsed.option = ParseOption::AND();

    assert_eq!(zustand.fokus.parsed.option, ParseOption::AND());
    assert_eq!(
        zustand.fokus.kinder.first().unwrap().parsed.option,
        VARIABLE(String::from("2"), false)
    );
}
