use logik_lib::add;
use logik_lib::aussagen::get_wahrheitstabelle;
use logik_lib::aussagen::parsing::parse_function;
use logik_lib::aussagen::structures::AussagenFunktion::{self, AND, BOTTOM, NOT, OR, TOP, VARIABEL};
use logik_lib::aussagen::structures::FormelKontext;
use logik_lib::aussagen::structures::Werte;

fn test_parse(formel: &str) {
    let funktion = parse_function(formel).expect("couldnt parse");
    assert_eq!(funktion.to_utf_string(), formel);
}

fn test_parse_ascii(formel: &str) {
    let funktion = parse_function(formel).expect("couldnt parse");
    assert_eq!(funktion.to_ascii_string(), formel);
}

#[test]
fn lib_it_works() {
    let result = add(2, 2);
    assert_eq!(result, 4);

    let kontext = FormelKontext::new();

    let mut belegung_a = Werte::new();
    belegung_a.set(&String::from("A"), true);
    assert!(VARIABEL(String::from("A")).result(&kontext, &belegung_a, false));
    assert!(TOP().result(&kontext, &Werte::new(), false));
    assert!(!BOTTOM().result(&kontext, &Werte::new(), false));

    assert!(AND(vec![Box::new(TOP()), Box::new(TOP())]).result(&kontext, &Werte::new(), false));
    assert!(OR(vec![Box::new(TOP()), Box::new(TOP())]).result(&kontext, &Werte::new(), false));
    assert!(NOT(Box::new(BOTTOM())).result(&kontext, &Werte::new(), false));

    assert!(
        AND(vec![
            Box::new(OR(vec![Box::new(BOTTOM()), Box::new(NOT(Box::new(BOTTOM())))])),
            Box::new(TOP())
        ])
        .result(&kontext, &Werte::new(), false)
    );

    let mut belegung_map = Werte::new();
    belegung_map.set(&String::from("A"), false);
    belegung_map.set(&String::from("B"), false);
    assert!(!parse_function("(A & B)").expect("parse1").result(&kontext, &belegung_map, false));
    belegung_map.set(&String::from("A"), true);
    belegung_map.set(&String::from("B"), false);
    assert!(!parse_function("(A & B)").expect("parse2").result(&kontext, &belegung_map, false));
    belegung_map.set(&String::from("A"), false);
    belegung_map.set(&String::from("B"), true);
    assert!(!parse_function("(A & B)").expect("parse3").result(&kontext, &belegung_map, false));
    belegung_map.set(&String::from("A"), true);
    belegung_map.set(&String::from("B"), true);
    assert!(parse_function("(A & B)").expect("parse4").result(&kontext, &belegung_map, false));

    test_parse("(F \u{22C0} C)");
    test_parse("(F \u{22C1} (phi1 \u{22C0} phi2))");
    test_parse_ascii("(F & C)");
    test_parse_ascii("-F");
    test_parse_ascii("(F & -(phi1 | phi2))");
}

#[test]
fn lib_ascii1() {
    test_parse_ascii("(F & (-phi1 & phi2))");
}

#[test]
fn lib_test_funktion() {
    let mut belegung = Werte::new();
    belegung.set(&String::from("A"), true);
    belegung.set(&String::from("B"), false);
    belegung.set(&String::from("C"), false);
    let funktion: AussagenFunktion =
        *parse_function("(A & ( B | C))").expect("couldnt parse").to_owned();
    let mut kontext = FormelKontext::new();
    kontext.define(&String::from("phi1"), funktion.clone());
    assert!(!funktion.result(&kontext, &belegung, false))
}

#[test]
fn lib_wahrheitstabelle() {
    let mut kontext = FormelKontext::new();

    let funktion: AussagenFunktion = *parse_function("(A | (B))").expect("couldnt parse").to_owned();
    kontext.define(&String::from("phi1"), funktion.clone());

    let tabelle = get_wahrheitstabelle(&kontext, vec![&funktion]);
    println!("{:?}", tabelle);
}

#[test]
fn lib_test_simple_functions() {
    test_parse_ascii("A");
    test_parse("\u{22A5}");
    test_parse("\u{22A4}");
}

#[test]
fn teste_einzel_variable() {
    let eingabe = String::from("A");
    let formel = AussagenFunktion::VARIABEL(eingabe.clone());

    let parsed = parse_function(&eingabe).expect("Fehler bei parse");
    println!("{} {}", formel.to_utf_string(), parsed.to_utf_string());
    assert_eq!(formel, *parsed);
}

#[test]
fn teste_einfach_negativ() {
    let eingabe = String::from("-A");
    let formel = AussagenFunktion::NOT(Box::from(AussagenFunktion::VARIABEL(String::from("A"))));

    let parsed = parse_function(&eingabe).expect("Fehler bei parse");
    println!("{} {}", formel.to_utf_string(), parsed.to_utf_string());
    assert_eq!(formel, *parsed);
}

#[test]
fn teste_negativ_und() {
    let eingabe = String::from("-(A & B)");
    let formel = NOT(Box::from(AND(vec![
        Box::from(VARIABEL(String::from("A"))),
        Box::from(VARIABEL(String::from("B"))),
    ])));

    let parsed = parse_function(&eingabe).expect("Fehler bei parse");

    println!("{} {}", formel.to_utf_string(), parsed.to_utf_string());
    assert_eq!(formel, *parsed);
}
