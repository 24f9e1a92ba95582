use logik_lib::aussagen::structures::FormelKontext;
use logik_lib::script::parse_line;
use logik_lib::script::ScriptAction;
use logik_lib::script::ScriptError;

#[test]
fn set_aussagen_definiert_eine_formel() {
    let mut kontext = FormelKontext::new();
    let aktion = parse_line("set AUSSAGEN phi (A & B)", &mut kontext).expect("set geht");
    match aktion {
        ScriptAction::ParseFunction { name } => assert_eq!(name, "phi"),
        andere => panic!("unerwartete Aktion: {:?}", andere),
    }
    assert!(kontext.contains_funktion(&String::from("phi")));
}

#[test]
fn print_formel_rendert_beide_notationen() {
    let mut kontext = FormelKontext::new();
    parse_line("SET AUSSAGEN phi (A & B)", &mut kontext).expect("set geht");

    match parse_line("print Formel-ASCII phi", &mut kontext).expect("print geht") {
        ScriptAction::Print { ausgabe } => assert_eq!(ausgabe, "(A & B)"),
        andere => panic!("unerwartete Aktion: {:?}", andere),
    }
    match parse_line("PRINT Formel-UTF phi", &mut kontext).expect("print geht") {
        ScriptAction::Print { ausgabe } => assert_eq!(ausgabe, "(A \u{22C0} B)"),
        andere => panic!("unerwartete Aktion: {:?}", andere),
    }
}

#[test]
fn tabelle_wird_erzeugt_und_angezeigt() {
    let mut kontext = FormelKontext::new();
    parse_line("set AUSSAGEN phi (A | B)", &mut kontext).expect("set geht");

    match parse_line("print Tabelle", &mut kontext) {
        Err(ScriptError::TabelleNotGenerated { string }) => {
            assert_eq!(string, "print Tabelle");
        },
        andere => panic!("unerwartet: {:?}", andere),
    }

    match parse_line("tabelle phi", &mut kontext).expect("tabelle geht") {
        ScriptAction::GenerateTabelle() => {},
        andere => panic!("unerwartete Aktion: {:?}", andere),
    }
    let tabelle = kontext.get_tabelle().as_ref().expect("Tabelle liegt vor");
    assert_eq!(tabelle.belegungen.len(), 4);

    match parse_line("print Tabelle", &mut kontext).expect("print geht") {
        ScriptAction::PrintTabelle() => {},
        andere => panic!("unerwartete Aktion: {:?}", andere),
    }
}

#[test]
fn aequivalenz_ueber_das_skript() {
    let mut kontext = FormelKontext::new();
    parse_line("set AUSSAGEN a A", &mut kontext).expect("set geht");
    parse_line("set AUSSAGEN nna -(-A)", &mut kontext).expect("set geht");
    parse_line("set AUSSAGEN nb -A", &mut kontext).expect("set geht");

    match parse_line("print aequivalenz a nna", &mut kontext).expect("geht") {
        ScriptAction::Print { ausgabe } => assert_eq!(ausgabe, "true"),
        andere => panic!("unerwartete Aktion: {:?}", andere),
    }
    match parse_line("PRINT AEQUIVALENZ a nb", &mut kontext).expect("geht") {
        ScriptAction::Print { ausgabe } => assert_eq!(ausgabe, "false"),
        andere => panic!("unerwartete Aktion: {:?}", andere),
    }
}

#[test]
fn belegung_ueber_das_skript() {
    let mut kontext = FormelKontext::new();
    parse_line("set AUSSAGEN phi (A & B)", &mut kontext).expect("set geht");

    match parse_line("print Belegung phi | A", &mut kontext).expect("geht") {
        ScriptAction::PrintBelegung(zeile) => {
            assert_eq!(zeile.werte.get(&String::from("A")), Some(true));
            assert_eq!(zeile.werte.get(&String::from("B")), None);
            assert_eq!(zeile.ergebnisse.get(&String::from("phi")), Some(false));
        },
        andere => panic!("unerwartete Aktion: {:?}", andere),
    }

    match parse_line("print Belegung phi | A B", &mut kontext).expect("geht") {
        ScriptAction::PrintBelegung(zeile) => {
            assert_eq!(zeile.ergebnisse.get(&String::from("phi")), Some(true));
        },
        andere => panic!("unerwartete Aktion: {:?}", andere),
    }

    match parse_line("print Belegung fehlt", &mut kontext) {
        Err(ScriptError::FunktionNotFound(name)) => assert_eq!(name, "fehlt"),
        andere => panic!("unerwartet: {:?}", andere),
    }
}

#[test]
fn fehlerfaelle_des_skripts() {
    let mut kontext = FormelKontext::new();

    match parse_line("", &mut kontext) {
        Err(ScriptError::WrongSyntax(text)) => assert_eq!(text, ""),
        andere => panic!("unerwartet: {:?}", andere),
    }
    match parse_line("quatsch xyz", &mut kontext) {
        Err(ScriptError::FunctionTypeNotImplemented(wort)) => assert_eq!(wort, "quatsch"),
        andere => panic!("unerwartet: {:?}", andere),
    }
    match parse_line("set", &mut kontext) {
        Err(ScriptError::WrongSyntax(text)) => assert_eq!(text, "set"),
        andere => panic!("unerwartet: {:?}", andere),
    }
    match parse_line("set AUSSAGEN kaputt", &mut kontext) {
        Err(ScriptError::WrongSyntax(text)) => assert_eq!(text, "set AUSSAGEN kaputt"),
        andere => panic!("unerwartet: {:?}", andere),
    }
    match parse_line("set AUSSAGEN leer )", &mut kontext) {
        Err(ScriptError::ParseNotPossible(text, _)) => assert_eq!(text, ")"),
        andere => panic!("unerwartet: {:?}", andere),
    }
    match parse_line("print Formel-UTF fehlt", &mut kontext) {
        Err(ScriptError::FunktionNotFound(text)) => assert_eq!(text, "fehlt"),
        andere => panic!("unerwartet: {:?}", andere),
    }
    match parse_line("tabelle fehlt", &mut kontext) {
        Err(ScriptError::FunktionNotFound(name)) => assert_eq!(name, "fehlt"),
        andere => panic!("unerwartet: {:?}", andere),
    }
}

#[test]
fn fehlertexte_lesen_und_setzen() {
    let mut fehler = ScriptError::WrongSyntax(String::from("alt"));
    assert_eq!(fehler.get_string(), "alt");
    fehler.set_string(String::from("neu"));
    assert_eq!(fehler.get_string(), "neu");

    let mut ohne = ScriptError::TabelleNotGenerated { string: String::new() };
    assert_eq!(ohne.get_string(), "");
    ohne.set_string(String::from("zeile"));
    assert_eq!(ohne.get_string(), "zeile");
}

#[test]
fn vorwaertsverweise_im_skript() {
    // a name defined after its first use still resolves through the context
    let mut kontext = FormelKontext::new();
    parse_line("set AUSSAGEN a b", &mut kontext).expect("set geht");
    parse_line("set AUSSAGEN b t", &mut kontext).expect("set geht");
    match parse_line("print Belegung a", &mut kontext).expect("geht") {
        ScriptAction::PrintBelegung(zeile) => {
            assert_eq!(zeile.ergebnisse.get(&String::from("a")), Some(true));
        },
        andere => panic!("unerwartete Aktion: {:?}", andere),
    }
}

#[test]
fn mehrteilige_formeltexte_werden_verkettet() {
    // the words after the name are joined without separators before parsing
    let mut kontext = FormelKontext::new();
    parse_line("set AUSSAGEN phi ( A & B )", &mut kontext).expect("set geht");
    let formel = kontext.lookup(&String::from("phi")).expect("liegt vor");
    assert_eq!(formel.to_ascii_string(), "(A & B)");
}
