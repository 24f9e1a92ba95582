use logik_lib::aussagen::get_belegung;
use logik_lib::aussagen::get_wahrheitstabelle;
use logik_lib::aussagen::is_aequivalent;
use logik_lib::aussagen::parsing::parse_function;
use logik_lib::aussagen::parsing::ParseError;
use logik_lib::aussagen::structures::AussagenFunktion::{self, AND, BOTTOM, NOT, OR, TOP, VARIABEL};
use logik_lib::aussagen::structures::FormelKontext;
use logik_lib::aussagen::structures::Werte;

#[test]
fn konstanten_ergeben_ihre_wahrheitswerte() {
    let leer = FormelKontext::new();
    let mut voll = FormelKontext::new();
    voll.define(&String::from("x"), *parse_function("(A | B)").unwrap());
    for kontext in [&leer, &voll] {
        for standard in [false, true] {
            assert!(TOP().result(kontext, &Werte::new(), standard));
            assert!(!BOTTOM().result(kontext, &Werte::new(), standard));
            assert!(NOT(Box::new(BOTTOM())).result(kontext, &Werte::new(), standard));
        }
    }
}

#[test]
fn konjunktion_ueber_alle_belegungen() {
    let kontext = FormelKontext::new();
    let erwartet = [(false, false, false), (true, false, false), (false, true, false), (
        true,
        true,
        true,
    )];
    for (a, b, ergebnis) in erwartet {
        let mut werte = Werte::new();
        werte.set(&String::from("A"), a);
        werte.set(&String::from("B"), b);
        let f = parse_function("(A & B)").expect("parse");
        assert_eq!(f.result(&kontext, &werte, false), ergebnis);
    }
}

#[test]
fn tabelle_hat_vier_zeilen_mit_oder() {
    let mut kontext = FormelKontext::new();
    let funktion = *parse_function("(A | B)").expect("parse");
    kontext.define(&String::from("phi"), funktion.clone());

    let tabelle = get_wahrheitstabelle(&kontext, vec![&funktion]);
    assert_eq!(tabelle.belegungen.len(), 4);
    assert_eq!(tabelle.reihenfolge, vec![String::from("phi")]);
    for zeile in &tabelle.belegungen {
        let a = zeile.werte.get(&String::from("A")).expect("A belegt");
        let b = zeile.werte.get(&String::from("B")).expect("B belegt");
        let phi = zeile.ergebnisse.get(&String::from("phi")).expect("phi berechnet");
        assert_eq!(phi, a || b);
    }
}

#[test]
fn doppelte_verneinung_ist_aequivalent() {
    let mut kontext = FormelKontext::new();
    let einfach = *parse_function("A").expect("parse");
    let doppelt = *parse_function("-(-A)").expect("parse");
    kontext.define(&String::from("f1"), einfach.clone());
    kontext.define(&String::from("f2"), doppelt.clone());
    assert!(is_aequivalent(&kontext, vec![&einfach, &doppelt]));

    let anderes = *parse_function("-A").expect("parse");
    kontext.define(&String::from("f3"), anderes.clone());
    assert!(!is_aequivalent(&kontext, vec![&einfach, &anderes]));
}

#[test]
fn namensaufloesung_ueber_den_kontext() {
    let mut kontext = FormelKontext::new();
    kontext.define(&String::from("phi1"), *parse_function("(A | B)").expect("parse"));

    let verweis = *parse_function("phi1").expect("parse");
    let frei = verweis.get_keys(&kontext);
    assert_eq!(frei, vec![String::from("A"), String::from("B")]);

    let mut werte = Werte::new();
    werte.set(&String::from("A"), true);
    assert!(verweis.result(&kontext, &werte, false));
}

#[test]
fn negiertes_und_behaelt_seine_klammern() {
    let negiert = *parse_function("-(A & B)").expect("parse");
    assert_eq!(negiert.to_utf_string(), "\u{00AC}(A \u{22C0} B)");
    assert_eq!(negiert.to_ascii_string(), "-(A & B)");

    let anders = *parse_function("(-(A) & B)").expect("parse");
    assert_ne!(negiert, anders);
    assert_ne!(negiert.to_utf_string(), anders.to_utf_string());
}

#[test]
fn leere_und_unpassende_eingaben_schlagen_fehl() {
    assert_eq!(parse_function("").unwrap_err(), ParseError::ToNone);
    assert_eq!(parse_function(")").unwrap_err(), ParseError::ToNone);
    assert_eq!(parse_function("A B").unwrap_err(), ParseError::NoParent);
}

#[test]
fn runde_reise_ascii_und_utf() {
    let formeln: Vec<AussagenFunktion> = vec![
        VARIABEL(String::from("A")),
        VARIABEL(String::from("phi1")),
        TOP(),
        BOTTOM(),
        NOT(Box::new(VARIABEL(String::from("A")))),
        AND(vec![
            Box::new(VARIABEL(String::from("A"))),
            Box::new(VARIABEL(String::from("B"))),
        ]),
        OR(vec![
            Box::new(VARIABEL(String::from("A"))),
            Box::new(VARIABEL(String::from("B"))),
            Box::new(VARIABEL(String::from("C"))),
        ]),
        NOT(Box::new(AND(vec![
            Box::new(VARIABEL(String::from("A"))),
            Box::new(NOT(Box::new(VARIABEL(String::from("B"))))),
        ]))),
        AND(vec![
            Box::new(OR(vec![
                Box::new(VARIABEL(String::from("A"))),
                Box::new(VARIABEL(String::from("B"))),
            ])),
            Box::new(VARIABEL(String::from("C"))),
        ]),
    ];
    for formel in formeln {
        let ascii = formel.to_ascii_string();
        let utf = formel.to_utf_string();
        assert_eq!(*parse_function(&ascii).expect("ascii parse"), formel, "ascii: {}", ascii);
        assert_eq!(*parse_function(&utf).expect("utf parse"), formel, "utf: {}", utf);
    }
}

#[test]
fn spaeter_definierte_namen_werden_aufgeloest() {
    // resolution goes through the whole context, however the definitions
    // were ordered: p refers to q, and q is defined afterwards
    let mut kontext = FormelKontext::new();
    kontext.define(&String::from("p"), *parse_function("q").expect("parse"));
    kontext.define(&String::from("q"), *parse_function("t").expect("parse"));

    let p = *parse_function("p").expect("parse");
    assert!(p.result(&kontext, &Werte::new(), false));
    // and no defined name is reported free
    assert_eq!(p.get_keys(&kontext), Vec::<String>::new());
}

#[test]
fn kontext_definiert_und_ueberschreibt() {
    let mut kontext = FormelKontext::new();
    let a = *parse_function("A").expect("parse");
    let b = *parse_function("B").expect("parse");
    assert!(!kontext.contains_funktion(&String::from("phi")));

    kontext.define(&String::from("phi"), a.clone());
    assert!(kontext.contains_funktion(&String::from("phi")));
    assert_eq!(kontext.lookup(&String::from("phi")), Some(&a));
    assert_eq!(kontext.get_key(&a), Some(String::from("phi")));

    kontext.define(&String::from("phi"), b.clone());
    assert_eq!(kontext.lookup(&String::from("phi")), Some(&b));
    assert_eq!(kontext.get_key(&a), None);
    assert_eq!(kontext.get_keys(&vec![&b]), vec![String::from("phi")]);
}

#[test]
fn belegung_zeile_ergebnisse() {
    let mut kontext = FormelKontext::new();
    let funktion = *parse_function("(A & B)").expect("parse");
    kontext.define(&String::from("phi"), funktion.clone());

    let mut werte = Werte::new();
    werte.set(&String::from("A"), true);
    werte.set(&String::from("B"), true);
    let zeile = get_belegung(&kontext, &vec![&funktion], &werte);
    assert_eq!(zeile.werte.get(&String::from("A")), Some(true));
    assert_eq!(zeile.ergebnisse.get(&String::from("phi")), Some(true));
}

#[test]
fn werte_setzen_und_lesen() {
    let mut werte = Werte::new();
    assert_eq!(werte.get(&String::from("A")), None);
    assert_eq!(werte.get_oder(&String::from("A"), true), true);
    werte.set(&String::from("A"), false);
    assert_eq!(werte.get(&String::from("A")), Some(false));
    werte.set(&String::from("A"), true);
    assert_eq!(werte.get(&String::from("A")), Some(true));
    assert_eq!(werte.kopie().get(&String::from("A")), Some(true));
    assert_eq!(werte.eintraege().len(), 1);
}

#[test]
fn variable_mit_mehreren_zeichen() {
    // the rendered name must be the parsed one, character for character
    let formel = *parse_function("langername").expect("parse");
    assert_eq!(formel, VARIABEL(String::from("langername")));
    assert_eq!(formel.to_ascii_string(), "langername");
}
