//! The line-oriented command layer over the formula core.
//!
//! A line is split into words; the first word picks the command. `set
//! AUSSAGEN <name> <formula...>` parses a formula and stores it, `print`
//! renders formulas, rows and verdicts, and `tabelle <names...>` generates
//! and caches a truth table. Reading the lines and writing the answers is
//! the caller's business; this layer only decides.

use vstd::prelude::*;

use crate::aussagen::get_belegung;
use crate::aussagen::get_wahrheitstabelle;
use crate::aussagen::is_aequivalent;
use crate::aussagen::alle_im_kontext;
use crate::aussagen::aequivalent_zeilen;
use crate::aussagen::ergebnisse_von;
use crate::aussagen::tabelle_zeilen;
use crate::aussagen::structures::AussagenFunktion;
use crate::aussagen::structures::Belegung;
use crate::aussagen::structures::BelegungAnsicht;
use crate::aussagen::structures::FormelKontext;
use crate::aussagen::structures::FunktionView;
use crate::aussagen::structures::KontextAnsicht;
use crate::aussagen::structures::WahrheitstabelleAnsicht;
use crate::aussagen::structures::Werte;
use crate::aussagen::parsing::ParseError;
use crate::aussagen::parsing::parse_function;
use crate::aussagen::parsing::parse_ergebnis;

verus! {

/// What a successfully handled line did.
#[derive(Debug)]
pub enum ScriptAction {
    /// A formula was parsed and stored under this name.
    ParseFunction { name: String },
    /// Text to show to the user.
    Print { ausgabe: String },
    /// A truth table was generated and cached on the context.
    GenerateTabelle(),
    /// One row to show; rendering it is the caller's business.
    PrintBelegung(Belegung),
    /// The cached truth table is to be shown; rendering it is the caller's
    /// business.
    PrintTabelle(),
}

/// The mathematical shape of a handled line's outcome.
pub enum ScriptActionAnsicht {
    ParseFunction(Seq<char>),
    Print(Seq<char>),
    GenerateTabelle,
    PrintBelegung(BelegungAnsicht),
    PrintTabelle,
}

impl View for ScriptAction {
    type V = ScriptActionAnsicht;

    open spec fn view(&self) -> ScriptActionAnsicht {
        match self {
            ScriptAction::ParseFunction { name } => ScriptActionAnsicht::ParseFunction(name@),
            ScriptAction::Print { ausgabe } => ScriptActionAnsicht::Print(ausgabe@),
            ScriptAction::GenerateTabelle() => ScriptActionAnsicht::GenerateTabelle,
            ScriptAction::PrintBelegung(belegung) => ScriptActionAnsicht::PrintBelegung(belegung@),
            ScriptAction::PrintTabelle() => ScriptActionAnsicht::PrintTabelle,
        }
    }
}

/// Why a line was rejected.
#[derive(Debug)]
pub enum ScriptError {
    FunctionTypeNotImplemented(String),
    WrongSyntax(String),
    ParseNotPossible(String, ParseError),
    TabelleNotGenerated { string: String },
    FunktionNotFound(String),
}

/// The mathematical shape of a rejection.
pub enum ScriptErrorAnsicht {
    FunctionTypeNotImplemented(Seq<char>),
    WrongSyntax(Seq<char>),
    ParseNotPossible(Seq<char>, ParseError),
    TabelleNotGenerated(Seq<char>),
    FunktionNotFound(Seq<char>),
}

impl View for ScriptError {
    type V = ScriptErrorAnsicht;

    open spec fn view(&self) -> ScriptErrorAnsicht {
        match self {
            ScriptError::FunctionTypeNotImplemented(s) => ScriptErrorAnsicht::FunctionTypeNotImplemented(
                s@,
            ),
            ScriptError::WrongSyntax(s) => ScriptErrorAnsicht::WrongSyntax(s@),
            ScriptError::ParseNotPossible(s, e) => ScriptErrorAnsicht::ParseNotPossible(s@, *e),
            ScriptError::TabelleNotGenerated { string } => ScriptErrorAnsicht::TabelleNotGenerated(
                string@,
            ),
            ScriptError::FunktionNotFound(s) => ScriptErrorAnsicht::FunktionNotFound(s@),
        }
    }
}

/// The text carried by an error view.
pub open spec fn fehler_text(e: ScriptErrorAnsicht) -> Seq<char> {
    match e {
        ScriptErrorAnsicht::FunctionTypeNotImplemented(s) => s,
        ScriptErrorAnsicht::WrongSyntax(s) => s,
        ScriptErrorAnsicht::ParseNotPossible(s, _) => s,
        ScriptErrorAnsicht::TabelleNotGenerated(s) => s,
        ScriptErrorAnsicht::FunktionNotFound(s) => s,
    }
}

/// The same error with its text replaced.
pub open spec fn fehler_mit_text(e: ScriptErrorAnsicht, s: Seq<char>) -> ScriptErrorAnsicht {
    match e {
        ScriptErrorAnsicht::FunctionTypeNotImplemented(_) => ScriptErrorAnsicht::FunctionTypeNotImplemented(
            s,
        ),
        ScriptErrorAnsicht::WrongSyntax(_) => ScriptErrorAnsicht::WrongSyntax(s),
        ScriptErrorAnsicht::ParseNotPossible(_, e2) => ScriptErrorAnsicht::ParseNotPossible(s, e2),
        ScriptErrorAnsicht::TabelleNotGenerated(_) => ScriptErrorAnsicht::TabelleNotGenerated(s),
        ScriptErrorAnsicht::FunktionNotFound(_) => ScriptErrorAnsicht::FunktionNotFound(s),
    }
}

impl ScriptError {
    /// The text the error carries.
    pub fn get_string(&self) -> (r: &String)
        ensures
            r@ == fehler_text(self@),
    {
        match self {
            ScriptError::FunctionTypeNotImplemented(string) => string,
            ScriptError::WrongSyntax(string) => string,
            ScriptError::ParseNotPossible(string, _) => string,
            ScriptError::TabelleNotGenerated { string } => string,
            ScriptError::FunktionNotFound(string) => string,
        }
    }

    /// Replaces the text the error carries.
    pub fn set_string(&mut self, new_string: String)
        ensures
            final(self)@ == fehler_mit_text(old(self)@, new_string@),
    {
        match self {
            ScriptError::FunctionTypeNotImplemented(string) => *string = new_string,
            ScriptError::WrongSyntax(string) => *string = new_string,
            ScriptError::ParseNotPossible(string, _) => *string = new_string,
            ScriptError::TabelleNotGenerated { string } => *string = new_string,
            ScriptError::FunktionNotFound(string) => *string = new_string,
        }
    }
}

/// The whitespace that separates words of a command line.
pub open spec fn ist_leerzeichen(c: char) -> bool {
    c == ' ' || c == '\t' || c == '\r' || c == '\n'
}

/// Folds the rest of the characters into words: `aktuell` is the word in
/// progress, `fertig` the words already closed.
pub open spec fn woerter_rek(
    s: Seq<char>,
    aktuell: Seq<char>,
    fertig: Seq<Seq<char>>,
) -> Seq<Seq<char>>
    decreases s.len(),
{
    if s.len() == 0 {
        if aktuell.len() > 0 {
            fertig.push(aktuell)
        } else {
            fertig
        }
    } else if ist_leerzeichen(s[0]) {
        woerter_rek(
            s.drop_first(),
            Seq::empty(),
            if aktuell.len() > 0 {
                fertig.push(aktuell)
            } else {
                fertig
            },
        )
    } else {
        woerter_rek(s.drop_first(), aktuell.push(s[0]), fertig)
    }
}

/// The words of a line, in order, with the whitespace dropped.
pub open spec fn woerter_von(s: Seq<char>) -> Seq<Seq<char>> {
    woerter_rek(s, Seq::empty(), Seq::empty())
}

/// The views of a word list.
pub open spec fn wort_ansichten(woerter: Seq<String>) -> Seq<Seq<char>> {
    woerter.map_values(|s: String| s@)
}

fn ist_leer(c: char) -> (r: bool)
    ensures
        r == ist_leerzeichen(c),
{
    c == ' ' || c == '\t' || c == '\r' || c == '\n'
}

/// Splits a line into its words.
fn zerlege(zeile: &str) -> (r: Vec<String>)
    ensures
        wort_ansichten(r@) == woerter_von(zeile@),
{
    let laenge = zeile.unicode_len();
    let mut fertig: Vec<String> = Vec::new();
    let mut aktuell = String::new();
    let mut i: usize = 0;
    proof {
        assert(zeile@.subrange(0, zeile@.len() as int) =~= zeile@);
        assert(wort_ansichten(fertig@) =~= Seq::<Seq<char>>::empty());
    }
    while i < laenge
        invariant
            0 <= i <= zeile@.len(),
            laenge == zeile@.len(),
            woerter_von(zeile@) == woerter_rek(
                zeile@.subrange(i as int, zeile@.len() as int),
                aktuell@,
                wort_ansichten(fertig@),
            ),
        decreases zeile@.len() - i,
    {
        let ghost rest = zeile@.subrange(i as int, zeile@.len() as int);
        let c = zeile.get_char(i);
        proof {
            assert(rest[0] == zeile@[i as int]);
            assert(rest.drop_first() =~= zeile@.subrange(i + 1, zeile@.len() as int));
        }
        if ist_leer(c) {
            if aktuell.as_str().unicode_len() > 0 {
                let ghost vorher = fertig@;
                fertig.push(aktuell);
                proof {
                    assert(wort_ansichten(fertig@) =~= wort_ansichten(vorher).push(
                        fertig@.last()@,
                    ));
                }
                aktuell = String::new();
            } else {
                proof {
                    assert(aktuell@ =~= Seq::<char>::empty());
                }
                aktuell = String::new();
            }
        } else {
            crate::aussagen::parsing::haenge_zeichen_an(&mut aktuell, c);
        }
        i += 1;
    }
    proof {
        assert(zeile@.subrange(zeile@.len() as int, zeile@.len() as int) =~= Seq::<char>::empty());
    }
    if aktuell.as_str().unicode_len() > 0 {
        let ghost vorher = fertig@;
        fertig.push(aktuell);
        proof {
            assert(wort_ansichten(fertig@) =~= wort_ansichten(vorher).push(fertig@.last()@));
        }
    } else {
        proof {
            assert(aktuell@ =~= Seq::<char>::empty());
        }
    }
    fertig
}

/// One line's outcome: the verdict, the context entries after the line, and
/// the newly cached truth table, where the line generated one.
pub struct SkriptErgebnis {
    pub ausgang: Result<ScriptActionAnsicht, ScriptErrorAnsicht>,
    pub kontext: KontextAnsicht,
    pub tabelle: Option<WahrheitstabelleAnsicht>,
}

/// An outcome that rejects the line and changes nothing.
pub open spec fn fehler_ergebnis(kontext: KontextAnsicht, e: ScriptErrorAnsicht) -> SkriptErgebnis {
    SkriptErgebnis { ausgang: Err(e), kontext, tabelle: None }
}

/// An outcome that accepts the line and changes nothing.
pub open spec fn aktion_ergebnis(
    kontext: KontextAnsicht,
    a: ScriptActionAnsicht,
) -> SkriptErgebnis {
    SkriptErgebnis { ausgang: Ok(a), kontext, tabelle: None }
}

/// The words from `ab` on, joined without separators.
pub open spec fn verkettung(ws: Seq<Seq<char>>, ab: int) -> Seq<char>
    decreases ws.len() - ab,
{
    if ab < 0 || ab >= ws.len() {
        Seq::empty()
    } else {
        ws[ab] + verkettung(ws, ab + 1)
    }
}

/// The index of the first separator word `|` at or after `ab`, or the length.
pub open spec fn trennindex(ws: Seq<Seq<char>>, ab: int) -> int
    decreases ws.len() - ab,
{
    if ab < 0 || ab >= ws.len() {
        ws.len() as int
    } else if ws[ab] == "|"@ {
        ab
    } else {
        trennindex(ws, ab + 1)
    }
}

/// The index of the first word in `[ab, bis)` that names no stored formula,
/// or `bis`.
pub open spec fn fehlender_name(
    kontext: KontextAnsicht,
    ws: Seq<Seq<char>>,
    ab: int,
    bis: int,
) -> int
    decreases bis - ab,
{
    if ab < 0 || ab >= bis {
        bis
    } else if !crate::aussagen::structures::enthaelt_name(kontext, ws[ab]) {
        ab
    } else {
        fehlender_name(kontext, ws, ab + 1, bis)
    }
}

/// The stored formulas named by the words in `[ab, bis)`, in order.
pub open spec fn formeln_zu(
    kontext: KontextAnsicht,
    ws: Seq<Seq<char>>,
    ab: int,
    bis: int,
) -> Seq<FunktionView>
    decreases bis - ab,
{
    if bis <= ab {
        Seq::empty()
    } else {
        formeln_zu(kontext, ws, ab, bis - 1).push(
            crate::aussagen::structures::formel_zu(kontext, ws[bis - 1]),
        )
    }
}

/// The assignment that holds the named variables true and nothing else.
pub open spec fn wahr_belegung(ws: Seq<Seq<char>>, ab: int, bis: int) -> Map<Seq<char>, bool>
    decreases bis - ab,
{
    if bis <= ab {
        Map::empty()
    } else {
        wahr_belegung(ws, ab, bis - 1).insert(ws[bis - 1], true)
    }
}

/// What `set AUSSAGEN <name> <formula...>` does.
pub open spec fn set_aussagen_spec(ws: Seq<Seq<char>>, kontext: KontextAnsicht) -> SkriptErgebnis {
    if ws.len() <= 2 {
        fehler_ergebnis(kontext, ScriptErrorAnsicht::WrongSyntax(Seq::empty()))
    } else if ws.len() <= 3 {
        fehler_ergebnis(kontext, ScriptErrorAnsicht::WrongSyntax(Seq::empty()))
    } else {
        let name = ws[2];
        let text = verkettung(ws, 3);
        match parse_ergebnis(text) {
            Ok(f) => SkriptErgebnis {
                ausgang: Ok(ScriptActionAnsicht::ParseFunction(name)),
                kontext: crate::aussagen::structures::definiere(kontext, name, f),
                tabelle: None,
            },
            Err(e) => fehler_ergebnis(kontext, ScriptErrorAnsicht::ParseNotPossible(text, e)),
        }
    }
}

/// What the `set` command does.
pub open spec fn set_spec(ws: Seq<Seq<char>>, kontext: KontextAnsicht) -> SkriptErgebnis {
    if ws.len() <= 1 {
        fehler_ergebnis(kontext, ScriptErrorAnsicht::WrongSyntax(Seq::empty()))
    } else if ws[1] == "AUSSAGEN"@ {
        set_aussagen_spec(ws, kontext)
    } else {
        fehler_ergebnis(kontext, ScriptErrorAnsicht::FunctionTypeNotImplemented(ws[1]))
    }
}

/// What `print Formel-UTF <name>` and `print Formel-ASCII <name>` do.
pub open spec fn formel_anzeige_spec(
    ws: Seq<Seq<char>>,
    kontext: KontextAnsicht,
    utf: bool,
) -> SkriptErgebnis {
    if ws.len() <= 2 {
        fehler_ergebnis(kontext, ScriptErrorAnsicht::WrongSyntax(Seq::empty()))
    } else if crate::aussagen::structures::enthaelt_name(kontext, ws[2]) {
        let formel = crate::aussagen::structures::formel_zu(kontext, ws[2]);
        aktion_ergebnis(
            kontext,
            ScriptActionAnsicht::Print(
                if utf {
                    crate::aussagen::structures::utf_text(formel)
                } else {
                    crate::aussagen::structures::ascii_text(formel)
                },
            ),
        )
    } else {
        fehler_ergebnis(kontext, ScriptErrorAnsicht::FunktionNotFound(ws[2]))
    }
}

/// What `print Belegung <names...> [| <true names...>]` does.
pub open spec fn belegung_spec(ws: Seq<Seq<char>>, kontext: KontextAnsicht) -> SkriptErgebnis {
    let trenn = trennindex(ws, 2);
    let fehlt = fehlender_name(kontext, ws, 2, trenn);
    if fehlt < trenn {
        fehler_ergebnis(kontext, ScriptErrorAnsicht::FunktionNotFound(ws[fehlt]))
    } else {
        let fs = formeln_zu(kontext, ws, 2, trenn);
        let werte = wahr_belegung(ws, trenn + 1, ws.len() as int);
        aktion_ergebnis(
            kontext,
            ScriptActionAnsicht::PrintBelegung(
                BelegungAnsicht { werte, ergebnisse: ergebnisse_von(kontext, fs, werte) },
            ),
        )
    }
}

/// What `print aequivalenz <names...>` does.
pub open spec fn aequivalenz_spec(ws: Seq<Seq<char>>, kontext: KontextAnsicht) -> SkriptErgebnis {
    let fehlt = fehlender_name(kontext, ws, 2, ws.len() as int);
    if fehlt < ws.len() {
        fehler_ergebnis(kontext, ScriptErrorAnsicht::FunktionNotFound(ws[fehlt]))
    } else {
        let fs = formeln_zu(kontext, ws, 2, ws.len() as int);
        let gleich = aequivalent_zeilen(
            kontext,
            crate::aussagen::structures::schluessel_liste(
                kontext,
                kontext.len() as nat,
                fs,
                Seq::empty(),
            ),
            fs,
            Map::empty(),
        );
        aktion_ergebnis(
            kontext,
            ScriptActionAnsicht::Print(
                if gleich {
                    "true"@
                } else {
                    "false"@
                },
            ),
        )
    }
}

/// What the `print` command does.
pub open spec fn print_spec(
    ws: Seq<Seq<char>>,
    kontext: KontextAnsicht,
    tabelle_da: bool,
) -> SkriptErgebnis {
    if ws.len() <= 1 {
        fehler_ergebnis(kontext, ScriptErrorAnsicht::WrongSyntax(Seq::empty()))
    } else if ws[1] == "Formel-UTF"@ {
        formel_anzeige_spec(ws, kontext, true)
    } else if ws[1] == "Formel-ASCII"@ {
        formel_anzeige_spec(ws, kontext, false)
    } else if ws[1] == "Tabelle"@ {
        if tabelle_da {
            aktion_ergebnis(kontext, ScriptActionAnsicht::PrintTabelle)
        } else {
            fehler_ergebnis(kontext, ScriptErrorAnsicht::TabelleNotGenerated(Seq::empty()))
        }
    } else if ws[1] == "Belegung"@ || ws[1] == "BELEGUNG"@ {
        belegung_spec(ws, kontext)
    } else if ws[1] == "aequivalenz"@ || ws[1] == "AEQUIVALENZ"@ {
        aequivalenz_spec(ws, kontext)
    } else {
        fehler_ergebnis(kontext, ScriptErrorAnsicht::WrongSyntax(Seq::empty()))
    }
}

/// What the `tabelle <names...>` command does.
pub open spec fn tabelle_spec(ws: Seq<Seq<char>>, kontext: KontextAnsicht) -> SkriptErgebnis {
    let fehlt = fehlender_name(kontext, ws, 1, ws.len() as int);
    if fehlt < ws.len() {
        fehler_ergebnis(kontext, ScriptErrorAnsicht::FunktionNotFound(ws[fehlt]))
    } else {
        let fs = formeln_zu(kontext, ws, 1, ws.len() as int);
        SkriptErgebnis {
            ausgang: Ok(ScriptActionAnsicht::GenerateTabelle),
            kontext,
            tabelle: Some(
                WahrheitstabelleAnsicht {
                    belegungen: tabelle_zeilen(
                        kontext,
                        crate::aussagen::structures::schluessel_liste(
                            kontext,
                            kontext.len() as nat,
                            fs,
                            Seq::empty(),
                        ),
                        fs,
                        Map::empty(),
                    ),
                    reihenfolge: crate::aussagen::structures::namen_von(kontext, fs),
                },
            ),
        }
    }
}

/// What one command line does, before the empty error texts are replaced.
pub open spec fn zeile_roh_spec(
    zeile: Seq<char>,
    kontext: KontextAnsicht,
    tabelle_da: bool,
) -> SkriptErgebnis {
    let ws = woerter_von(zeile);
    if ws.len() == 0 {
        fehler_ergebnis(kontext, ScriptErrorAnsicht::WrongSyntax(zeile))
    } else if ws[0] == "set"@ || ws[0] == "SET"@ {
        set_spec(ws, kontext)
    } else if ws[0] == "print"@ || ws[0] == "PRINT"@ {
        print_spec(ws, kontext, tabelle_da)
    } else if ws[0] == "tabelle"@ || ws[0] == "TABELLE"@ {
        tabelle_spec(ws, kontext)
    } else {
        fehler_ergebnis(kontext, ScriptErrorAnsicht::FunctionTypeNotImplemented(ws[0]))
    }
}

/// What one command line does: as `zeile_roh_spec`, with an empty error text
/// replaced by the line itself.
pub open spec fn zeile_spec(
    zeile: Seq<char>,
    kontext: KontextAnsicht,
    tabelle_da: bool,
) -> SkriptErgebnis {
    let roh = zeile_roh_spec(zeile, kontext, tabelle_da);
    match roh.ausgang {
        Ok(_) => roh,
        Err(e) => {
            if fehler_text(e).len() == 0 {
                SkriptErgebnis {
                    ausgang: Err(fehler_mit_text(e, zeile)),
                    kontext: roh.kontext,
                    tabelle: roh.tabelle,
                }
            } else {
                roh
            }
        },
    }
}

/// Whether two pieces of text hold the same characters.
fn str_gleich(a: &str, b: &str) -> (r: bool)
    ensures
        r == (a@ == b@),
{
    let n = a.unicode_len();
    let m = b.unicode_len();
    if n != m {
        proof {
            assert(a@.len() != b@.len());
        }
        return false;
    }
    let mut i: usize = 0;
    while i < n
        invariant
            0 <= i <= a@.len(),
            n == a@.len(),
            a@.len() == b@.len(),
            forall|j: int| 0 <= j < i ==> a@[j] == b@[j],
        decreases a@.len() - i,
    {
        if a.get_char(i) != b.get_char(i) {
            return false;
        }
        i += 1;
    }
    proof {
        assert(a@ =~= b@);
    }
    true
}

/// The words from `ab` on, joined without separators; the caller gets
/// `WrongSyntax` where no word is left.
fn get_rest(woerter: &Vec<String>, ab: usize) -> (r: Result<String, ScriptError>)
    ensures
        match r {
            Ok(s) => ab < woerter@.len() && s@ == verkettung(wort_ansichten(woerter@), ab as int),
            Err(e) => ab >= woerter@.len() && e@ == ScriptErrorAnsicht::WrongSyntax(Seq::empty()),
        },
{
    let ghost ws = wort_ansichten(woerter@);
    if ab >= woerter.len() {
        return Err(ScriptError::WrongSyntax(String::new()));
    }
    let mut rest = String::new();
    let mut j: usize = ab;
    while j < woerter.len()
        invariant
            ab <= j <= woerter@.len(),
            ws == wort_ansichten(woerter@),
            verkettung(ws, ab as int) == rest@ + verkettung(ws, j as int),
        decreases woerter@.len() - j,
    {
        let ghost vorher = rest@;
        let wort = &woerter[j];
        rest.append(wort.as_str());
        proof {
            assert(ws[j as int] == woerter@[j as int]@);
            assert(verkettung(ws, j as int) == ws[j as int] + verkettung(ws, j + 1));
            assert(vorher + verkettung(ws, j as int) =~= rest@ + verkettung(ws, j + 1));
        }
        j += 1;
    }
    proof {
        assert(verkettung(ws, woerter@.len() as int) =~= Seq::<char>::empty());
        assert(rest@ + Seq::<char>::empty() =~= rest@);
    }
    Ok(rest)
}

/// Replaces an empty error text with the line the error came from.
fn beatify_error(line: &str, result: Result<ScriptAction, ScriptError>) -> (r: Result<
    ScriptAction,
    ScriptError,
>)
    ensures
        match (result, r) {
            (Ok(a), Ok(b)) => a == b,
            (Err(e), Err(f)) => f@ == (if fehler_text(e@).len() == 0 {
                fehler_mit_text(e@, line@)
            } else {
                e@
            }),
            _ => false,
        },
{
    match result {
        Ok(a) => Ok(a),
        Err(mut error) => {
            if error.get_string().as_str().is_empty() {
                error.set_string(line.to_owned());
            }
            Err(error)
        },
    }
}

/// Looks up the formulas named by the words in `[ab, bis)`; the first name
/// without a stored formula is the error.
fn sammle_formeln<'a>(
    kontext: &'a FormelKontext,
    woerter: &Vec<String>,
    ab: usize,
    bis: usize,
) -> (r: Result<Vec<&'a AussagenFunktion>, ScriptError>)
    requires
        ab <= bis <= woerter@.len(),
    ensures
        match r {
            Ok(v) => fehlender_name(kontext@, wort_ansichten(woerter@), ab as int, bis as int)
                == bis && crate::aussagen::structures::formeln_ansichten(v@) == formeln_zu(
                kontext@,
                wort_ansichten(woerter@),
                ab as int,
                bis as int,
            ) && alle_im_kontext(
                kontext@,
                crate::aussagen::structures::formeln_ansichten(v@),
            ),
            Err(e) => ({
                let fehlt = fehlender_name(
                    kontext@,
                    wort_ansichten(woerter@),
                    ab as int,
                    bis as int,
                );
                fehlt < bis && e@ == ScriptErrorAnsicht::FunktionNotFound(
                    wort_ansichten(woerter@)[fehlt],
                )
            }),
        },
{
    let ghost ws = wort_ansichten(woerter@);
    let mut v: Vec<&'a AussagenFunktion> = Vec::new();
    let mut i: usize = ab;
    proof {
        assert(crate::aussagen::structures::formeln_ansichten(v@) =~= Seq::<FunktionView>::empty());
    }
    while i < bis
        invariant
            ab <= i <= bis <= woerter@.len(),
            ws == wort_ansichten(woerter@),
            fehlender_name(kontext@, ws, ab as int, bis as int) == fehlender_name(
                kontext@,
                ws,
                i as int,
                bis as int,
            ),
            crate::aussagen::structures::formeln_ansichten(v@) == formeln_zu(
                kontext@,
                ws,
                ab as int,
                i as int,
            ),
            alle_im_kontext(kontext@, crate::aussagen::structures::formeln_ansichten(v@)),
        decreases bis - i,
    {
        let ghost vorher = v@;
        let wort = &woerter[i];
        proof {
            assert(ws[i as int] == woerter@[i as int]@);
        }
        match kontext.lookup(wort) {
            Some(f) => {
                proof {
                    crate::aussagen::structures::lemma_index_von(kontext@, wort@);
                    crate::aussagen::structures::lemma_formel_index(kontext@, f@);
                    if crate::aussagen::structures::formel_index(kontext@, f@) == -1 {
                        assert(kontext@[crate::aussagen::structures::index_von(kontext@, wort@)].1
                            == f@);
                        assert(false);
                    }
                }
                v.push(f);
                proof {
                    assert(v@.drop_last() =~= vorher);
                    assert(crate::aussagen::structures::formeln_ansichten(v@) =~= formeln_zu(
                        kontext@,
                        ws,
                        ab as int,
                        i + 1,
                    ));
                }
            },
            None => {
                return Err(ScriptError::FunktionNotFound(wort.clone()));
            },
        }
        i += 1;
    }
    Ok(v)
}

/// The index of the first word `|` at or after `ab`, or the word count.
fn finde_trenner(woerter: &Vec<String>, ab: usize) -> (r: usize)
    requires
        ab <= woerter@.len(),
    ensures
        r == trennindex(wort_ansichten(woerter@), ab as int),
        ab <= r <= woerter@.len(),
{
    let ghost ws = wort_ansichten(woerter@);
    let mut i: usize = ab;
    while i < woerter.len()
        invariant
            ab <= i <= woerter@.len(),
            ws == wort_ansichten(woerter@),
            trennindex(ws, ab as int) == trennindex(ws, i as int),
        decreases woerter@.len() - i,
    {
        let wort = &woerter[i];
        proof {
            assert(ws[i as int] == woerter@[i as int]@);
        }
        if str_gleich(wort.as_str(), "|") {
            return i;
        }
        i += 1;
    }
    i
}

/// The assignment holding the variables named in `[ab, bis)` true.
fn wahr_werte(woerter: &Vec<String>, ab: usize, bis: usize) -> (r: Werte)
    requires
        bis <= woerter@.len(),
    ensures
        r.wohlgeformt(),
        r@ == wahr_belegung(wort_ansichten(woerter@), ab as int, bis as int),
{
    let ghost ws = wort_ansichten(woerter@);
    let mut werte = Werte::new();
    if ab >= bis {
        proof {
            assert(werte@ =~= wahr_belegung(ws, ab as int, bis as int));
        }
        return werte;
    }
    let mut i: usize = ab;
    proof {
        assert(werte@ =~= wahr_belegung(ws, ab as int, ab as int));
    }
    while i < bis
        invariant
            ab <= i <= bis <= woerter@.len(),
            ws == wort_ansichten(woerter@),
            werte.wohlgeformt(),
            werte@ == wahr_belegung(ws, ab as int, i as int),
        decreases bis - i,
    {
        let wort = &woerter[i];
        proof {
            assert(ws[i as int] == woerter@[i as int]@);
        }
        werte.set(wort, true);
        i += 1;
    }
    werte
}

/// Handles `set ...`: today only `set AUSSAGEN <name> <formula...>`.
fn set(woerter: &Vec<String>, kontext: &mut FormelKontext) -> (r: Result<
    ScriptAction,
    ScriptError,
>)
    requires
        old(kontext).wohlgeformt(),
    ensures
        final(kontext).wohlgeformt(),
        final(kontext).spec_tabelle() == old(kontext).spec_tabelle(),
        ({
            let erg = set_spec(wort_ansichten(woerter@), old(kontext)@);
            final(kontext)@ == erg.kontext && (match (r, erg.ausgang) {
                (Ok(a), Ok(av)) => a@ == av,
                (Err(e), Err(ev)) => e@ == ev,
                _ => false,
            })
        }),
{
    let ghost ws = wort_ansichten(woerter@);
    if woerter.len() <= 1 {
        return Err(ScriptError::WrongSyntax(String::new()));
    }
    let zweites = &woerter[1];
    proof {
        assert(ws[1] == woerter@[1]@);
    }
    if str_gleich(zweites.as_str(), "AUSSAGEN") {
        set_aussagen(woerter, kontext)
    } else {
        Err(ScriptError::FunctionTypeNotImplemented(zweites.clone()))
    }
}

/// Handles `set AUSSAGEN <name> <formula...>`: parses the joined rest of the
/// line and stores the formula under the name.
fn set_aussagen(woerter: &Vec<String>, kontext: &mut FormelKontext) -> (r: Result<
    ScriptAction,
    ScriptError,
>)
    requires
        old(kontext).wohlgeformt(),
    ensures
        final(kontext).wohlgeformt(),
        final(kontext).spec_tabelle() == old(kontext).spec_tabelle(),
        ({
            let erg = set_aussagen_spec(wort_ansichten(woerter@), old(kontext)@);
            final(kontext)@ == erg.kontext && (match (r, erg.ausgang) {
                (Ok(a), Ok(av)) => a@ == av,
                (Err(e), Err(ev)) => e@ == ev,
                _ => false,
            })
        }),
{
    let ghost ws = wort_ansichten(woerter@);
    if woerter.len() <= 2 {
        return Err(ScriptError::WrongSyntax(String::new()));
    }
    let name = woerter[2].clone();
    proof {
        assert(ws[2] == woerter@[2]@);
    }
    let formel = match get_rest(woerter, 3) {
        Ok(s) => s,
        Err(e) => {
            return Err(e);
        },
    };
    match parse_function(formel.as_str()) {
        Ok(funktion) => {
            kontext.define(&name, *funktion);
            Ok(ScriptAction::ParseFunction { name })
        },
        Err(parse_error) => Err(ScriptError::ParseNotPossible(formel, parse_error)),
    }
}

/// Handles `print Formel-UTF <name>` and `print Formel-ASCII <name>`.
fn print_formel(woerter: &Vec<String>, kontext: &FormelKontext, utf: bool) -> (r: Result<
    ScriptAction,
    ScriptError,
>)
    ensures
        ({
            let erg = formel_anzeige_spec(wort_ansichten(woerter@), kontext@, utf);
            match (r, erg.ausgang) {
                (Ok(a), Ok(av)) => a@ == av,
                (Err(e), Err(ev)) => e@ == ev,
                _ => false,
            }
        }),
{
    let ghost ws = wort_ansichten(woerter@);
    if woerter.len() <= 2 {
        return Err(ScriptError::WrongSyntax(String::new()));
    }
    let name = &woerter[2];
    proof {
        assert(ws[2] == woerter@[2]@);
    }
    match kontext.lookup(name) {
        Some(funktion) => Ok(
            ScriptAction::Print {
                ausgabe: if utf {
                    funktion.to_utf_string()
                } else {
                    funktion.to_ascii_string()
                },
            },
        ),
        None => Err(ScriptError::FunktionNotFound(name.clone())),
    }
}

/// Handles `print Tabelle`: the cached table is to be shown.
fn print_tabelle(kontext: &FormelKontext) -> (r: Result<ScriptAction, ScriptError>)
    ensures
        match r {
            Ok(a) => kontext.spec_tabelle() is Some && a@ == ScriptActionAnsicht::PrintTabelle,
            Err(e) => kontext.spec_tabelle() is None && e@
                == ScriptErrorAnsicht::TabelleNotGenerated(Seq::empty()),
        },
{
    if kontext.get_tabelle().is_some() {
        Ok(ScriptAction::PrintTabelle())
    } else {
        Err(ScriptError::TabelleNotGenerated { string: String::new() })
    }
}

/// Handles `print Belegung <names...> [| <true names...>]`: one row for the
/// named formulas under the given assignment.
fn print_belegung(woerter: &Vec<String>, kontext: &FormelKontext) -> (r: Result<
    ScriptAction,
    ScriptError,
>)
    ensures
        ({
            let erg = belegung_spec(wort_ansichten(woerter@), kontext@);
            match (r, erg.ausgang) {
                (Ok(a), Ok(av)) => a@ == av,
                (Err(e), Err(ev)) => e@ == ev,
                _ => false,
            }
        }),
{
    let trenn = finde_trenner(woerter, if woerter.len() < 2 {
        woerter.len()
    } else {
        2
    });
    proof {
        if woerter@.len() < 2 {
            assert(trennindex(wort_ansichten(woerter@), woerter@.len() as int) == trennindex(
                wort_ansichten(woerter@),
                2,
            ));
        }
    }
    let formeln = match sammle_formeln(kontext, woerter, if trenn < 2 {
        trenn
    } else {
        2
    }, trenn) {
        Ok(v) => v,
        Err(e) => {
            return Err(e);
        },
    };
    proof {
        assert(2 <= trenn ==> formeln_zu(kontext@, wort_ansichten(woerter@), 2, trenn as int)
            == formeln_zu(kontext@, wort_ansichten(woerter@), trenn as int, trenn as int) || true);
    }
    let ab = if trenn < woerter.len() {
        trenn + 1
    } else {
        woerter.len()
    };
    let werte = wahr_werte(woerter, ab, woerter.len());
    proof {
        if trenn >= woerter@.len() {
            assert(wahr_belegung(wort_ansichten(woerter@), trenn + 1, woerter@.len() as int)
                =~= wahr_belegung(
                wort_ansichten(woerter@),
                woerter@.len() as int,
                woerter@.len() as int,
            ));
        }
    }
    let belegung = get_belegung(kontext, &formeln, &werte);
    Ok(ScriptAction::PrintBelegung(belegung))
}

/// Handles `print aequivalenz <names...>`: whether the named formulas agree
/// under every assignment.
fn print_aequivalenz(woerter: &Vec<String>, kontext: &FormelKontext) -> (r: Result<
    ScriptAction,
    ScriptError,
>)
    ensures
        ({
            let erg = aequivalenz_spec(wort_ansichten(woerter@), kontext@);
            match (r, erg.ausgang) {
                (Ok(a), Ok(av)) => a@ == av,
                (Err(e), Err(ev)) => e@ == ev,
                _ => false,
            }
        }),
{
    let ab: usize = if woerter.len() < 2 {
        woerter.len()
    } else {
        2
    };
    let ghost ws = wort_ansichten(woerter@);
    proof {
        if woerter@.len() < 2 {
            assert(fehlender_name(kontext@, ws, 2, ws.len() as int) == ws.len());
            assert(formeln_zu(kontext@, ws, 2, ws.len() as int) =~= formeln_zu(
                kontext@,
                ws,
                ab as int,
                ws.len() as int,
            ));
        }
    }
    let formeln = match sammle_formeln(kontext, woerter, ab, woerter.len()) {
        Ok(v) => v,
        Err(e) => {
            return Err(e);
        },
    };
    let gleich = is_aequivalent(kontext, formeln);
    let ausgabe = if gleich {
        "true".to_owned()
    } else {
        "false".to_owned()
    };
    Ok(ScriptAction::Print { ausgabe })
}

/// Handles `print ...`.
fn print(woerter: &Vec<String>, kontext: &mut FormelKontext) -> (r: Result<
    ScriptAction,
    ScriptError,
>)
    requires
        old(kontext).wohlgeformt(),
    ensures
        final(kontext).wohlgeformt(),
        final(kontext)@ == old(kontext)@,
        final(kontext).spec_tabelle() == old(kontext).spec_tabelle(),
        ({
            let erg = print_spec(
                wort_ansichten(woerter@),
                old(kontext)@,
                old(kontext).spec_tabelle() is Some,
            );
            match (r, erg.ausgang) {
                (Ok(a), Ok(av)) => a@ == av,
                (Err(e), Err(ev)) => e@ == ev,
                _ => false,
            }
        }),
{
    let ghost ws = wort_ansichten(woerter@);
    if woerter.len() <= 1 {
        return Err(ScriptError::WrongSyntax(String::new()));
    }
    let zweites = &woerter[1];
    proof {
        assert(ws[1] == woerter@[1]@);
    }
    if str_gleich(zweites.as_str(), "Formel-UTF") {
        print_formel(woerter, kontext, true)
    } else if str_gleich(zweites.as_str(), "Formel-ASCII") {
        print_formel(woerter, kontext, false)
    } else if str_gleich(zweites.as_str(), "Tabelle") {
        print_tabelle(kontext)
    } else if str_gleich(zweites.as_str(), "Belegung") || str_gleich(zweites.as_str(), "BELEGUNG") {
        print_belegung(woerter, kontext)
    } else if str_gleich(zweites.as_str(), "aequivalenz") || str_gleich(
        zweites.as_str(),
        "AEQUIVALENZ",
    ) {
        print_aequivalenz(woerter, kontext)
    } else {
        Err(ScriptError::WrongSyntax(String::new()))
    }
}

/// Handles `tabelle <names...>`: generates the truth table of the named
/// formulas and caches it on the context.
fn tabelle(woerter: &Vec<String>, kontext: &mut FormelKontext) -> (r: Result<
    ScriptAction,
    ScriptError,
>)
    requires
        old(kontext).wohlgeformt(),
    ensures
        final(kontext).wohlgeformt(),
        final(kontext)@ == old(kontext)@,
        ({
            let erg = tabelle_spec(wort_ansichten(woerter@), old(kontext)@);
            (match (r, erg.ausgang) {
                (Ok(a), Ok(av)) => a@ == av,
                (Err(e), Err(ev)) => e@ == ev,
                _ => false,
            }) && (match erg.tabelle {
                None => final(kontext).spec_tabelle() == old(kontext).spec_tabelle(),
                Some(tv) => (final(kontext).spec_tabelle() matches Some(t) && t@ == tv),
            })
        }),
{
    let ab: usize = if woerter.len() < 1 {
        woerter.len()
    } else {
        1
    };
    let ghost ws = wort_ansichten(woerter@);
    proof {
        if woerter@.len() < 1 {
            assert(fehlender_name(kontext@, ws, 1, ws.len() as int) == ws.len());
            assert(formeln_zu(kontext@, ws, 1, ws.len() as int) =~= formeln_zu(
                kontext@,
                ws,
                ab as int,
                ws.len() as int,
            ));
        }
    }
    let formeln = match sammle_formeln(kontext, woerter, ab, woerter.len()) {
        Ok(v) => v,
        Err(e) => {
            return Err(e);
        },
    };
    let neue_tabelle = get_wahrheitstabelle(kontext, formeln);
    let ghost tv = neue_tabelle@;
    kontext.set_tabelle(neue_tabelle);
    Ok(ScriptAction::GenerateTabelle())
}

/// Handles one line of the command protocol: splits it into words, carries
/// the command out against the context, and reports what was done, or why
/// the line was rejected, with an empty error text replaced by the line.
pub fn parse_line(line: &str, kontext: &mut FormelKontext) -> (r: Result<ScriptAction, ScriptError>)
    requires
        old(kontext).wohlgeformt(),
    ensures
        final(kontext).wohlgeformt(),
        ({
            let erg = zeile_spec(line@, old(kontext)@, old(kontext).spec_tabelle() is Some);
            final(kontext)@ == erg.kontext && (match (r, erg.ausgang) {
                (Ok(a), Ok(av)) => a@ == av,
                (Err(e), Err(ev)) => e@ == ev,
                _ => false,
            }) && (match erg.tabelle {
                None => final(kontext).spec_tabelle() == old(kontext).spec_tabelle(),
                Some(tv) => (final(kontext).spec_tabelle() matches Some(t) && t@ == tv),
            })
        }),
{
    let woerter = zerlege(line);
    let ghost ws = wort_ansichten(woerter@);
    let ergebnis: Result<ScriptAction, ScriptError> = if woerter.len() == 0 {
        Err(ScriptError::WrongSyntax(line.to_owned()))
    } else {
        let erstes = &woerter[0];
        proof {
            assert(ws[0] == woerter@[0]@);
        }
        if str_gleich(erstes.as_str(), "set") || str_gleich(erstes.as_str(), "SET") {
            set(&woerter, kontext)
        } else if str_gleich(erstes.as_str(), "print") || str_gleich(erstes.as_str(), "PRINT") {
            print(&woerter, kontext)
        } else if str_gleich(erstes.as_str(), "tabelle") || str_gleich(
            erstes.as_str(),
            "TABELLE",
        ) {
            tabelle(&woerter, kontext)
        } else {
            Err(ScriptError::FunctionTypeNotImplemented(erstes.clone()))
        }
    };
    beatify_error(line, ergebnis)
}

} // verus!
