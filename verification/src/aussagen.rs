//! The formula core: the syntax tree and its context live in `structures`,
//! the character-level parser in `parsing`, and the exhaustive enumeration
//! over assignments (truth tables, equivalence) here.

use vstd::prelude::*;

pub mod parsing;
pub mod rundreise;
pub mod structures;

use crate::aussagen::structures::AussagenFunktion;
use crate::aussagen::structures::Belegung;
use crate::aussagen::structures::BelegungAnsicht;
use crate::aussagen::structures::FormelKontext;
use crate::aussagen::structures::FunktionView;
use crate::aussagen::structures::KontextAnsicht;
use crate::aussagen::structures::Wahrheitstabelle;
use crate::aussagen::structures::Werte;
use crate::aussagen::structures::formel_index;
use crate::aussagen::structures::formeln_ansichten;
use crate::aussagen::structures::lemma_schluessel_teilung;
use crate::aussagen::structures::namen_ansichten;
use crate::aussagen::structures::namen_von;
use crate::aussagen::structures::schluessel_bei;
use crate::aussagen::structures::schluessel_liste;
use crate::aussagen::structures::wert;
use crate::aussagen::structures::wert_bei;

verus! {

/// Whether every formula of `fs` is stored in the context under some name.
pub open spec fn alle_im_kontext(kontext: KontextAnsicht, fs: Seq<FunktionView>) -> bool {
    forall|i: int| 0 <= i < fs.len() ==> formel_index(kontext, #[trigger] fs[i]) >= 0
}

/// The name under which the context stores `f`: that of the first entry
/// holding it.
pub open spec fn schluessel_name(kontext: KontextAnsicht, f: FunktionView) -> Seq<char> {
    kontext[formel_index(kontext, f)].0
}

/// The result column of one row: each queried formula's value under `b`,
/// keyed by the name under which the context stores the formula.
pub open spec fn ergebnisse_von(
    kontext: KontextAnsicht,
    fs: Seq<FunktionView>,
    b: Map<Seq<char>, bool>,
) -> Map<Seq<char>, bool>
    decreases fs.len(),
{
    if fs.len() == 0 {
        Map::empty()
    } else {
        ergebnisse_von(kontext, fs.drop_last(), b).insert(
            schluessel_name(kontext, fs.last()),
            wert(kontext, fs.last(), b, false),
        )
    }
}

/// One row of the truth table for the assignment `werte`.
pub fn get_belegung(
    kontext: &FormelKontext,
    funktionen: &Vec<&AussagenFunktion>,
    werte: &Werte,
) -> (r: Belegung)
    requires
        werte.wohlgeformt(),
        alle_im_kontext(kontext@, formeln_ansichten(funktionen@)),
    ensures
        r.wohlgeformt(),
        r@.werte == werte@,
        r@.ergebnisse == ergebnisse_von(kontext@, formeln_ansichten(funktionen@), werte@),
{
    let ghost fs = formeln_ansichten(funktionen@);
    let mut ergebnisse = Werte::new();
    let mut i: usize = 0;
    proof {
        assert(fs.subrange(0, 0) =~= Seq::<FunktionView>::empty());
    }
    while i < funktionen.len()
        invariant
            werte.wohlgeformt(),
            alle_im_kontext(kontext@, fs),
            fs == formeln_ansichten(funktionen@),
            fs.len() == funktionen@.len(),
            0 <= i <= funktionen@.len(),
            ergebnisse.wohlgeformt(),
            ergebnisse@ == ergebnisse_von(kontext@, fs.subrange(0, i as int), werte@),
        decreases funktionen@.len() - i,
    {
        let funktion: &AussagenFunktion = funktionen[i];
        proof {
            assert(fs[i as int] == funktion@);
        }
        let name = match kontext.get_key(funktion) {
            Some(name) => name,
            None => vstd::pervasive::unreached(),
        };
        let ausgang = funktion.result(kontext, werte, false);
        ergebnisse.set(&name, ausgang);
        proof {
            assert(fs.subrange(0, i + 1).drop_last() =~= fs.subrange(0, i as int));
            assert(fs.subrange(0, i + 1).last() == fs[i as int]);
        }
        i += 1;
    }
    proof {
        assert(fs.subrange(0, funktionen@.len() as int) =~= fs);
    }
    Belegung { werte: werte.kopie(), ergebnisse }
}

/// The union of the free variables of all queried formulas, in the order in
/// which they are first met.
fn get_all_keys(kontext: &FormelKontext, funktionen: &Vec<&AussagenFunktion>) -> (r: Vec<String>)
    ensures
        namen_ansichten(r@) == schluessel_liste(
            kontext@,
            kontext@.len() as nat,
            formeln_ansichten(funktionen@),
            Seq::empty(),
        ),
{
    let ghost fs = formeln_ansichten(funktionen@);
    let treibstoff = kontext.laenge();
    let mut keys: Vec<String> = Vec::new();
    let mut i: usize = 0;
    proof {
        assert(namen_ansichten(keys@) =~= Seq::<Seq<char>>::empty());
        assert(fs.subrange(0, 0) =~= Seq::<FunktionView>::empty());
    }
    while i < funktionen.len()
        invariant
            fs == formeln_ansichten(funktionen@),
            fs.len() == funktionen@.len(),
            0 <= i <= funktionen@.len(),
            treibstoff == kontext@.len(),
            namen_ansichten(keys@) == schluessel_liste(
                kontext@,
                treibstoff as nat,
                fs.subrange(0, i as int),
                Seq::empty(),
            ),
        decreases funktionen@.len() - i,
    {
        let ghost vorher = namen_ansichten(keys@);
        let funktion: &AussagenFunktion = funktionen[i];
        proof {
            assert(fs[i as int] == funktion@);
        }
        funktion.sammle_bei(kontext, treibstoff, &mut keys);
        proof {
            let teil = fs.subrange(0, i as int);
            let teil2 = fs.subrange(0, i + 1);
            assert(teil2 =~= teil + seq![fs[i as int]]);
            lemma_schluessel_teilung(
                kontext@,
                treibstoff as nat,
                teil,
                seq![fs[i as int]],
                Seq::empty(),
            );
            assert(seq![fs[i as int]].drop_first() =~= Seq::<FunktionView>::empty());
            assert(schluessel_liste(
                kontext@,
                treibstoff as nat,
                seq![fs[i as int]].drop_first(),
                vorher + schluessel_bei(kontext@, treibstoff as nat, fs[i as int], vorher),
            ) =~= Seq::<Seq<char>>::empty());
            assert(seq![fs[i as int]][0] == fs[i as int]);
            assert(schluessel_liste(kontext@, treibstoff as nat, seq![fs[i as int]], vorher)
                =~= schluessel_bei(kontext@, treibstoff as nat, fs[i as int], vorher));
            assert(namen_ansichten(keys@) =~= schluessel_liste(
                kontext@,
                treibstoff as nat,
                teil2,
                Seq::empty(),
            ));
        }
        i += 1;
    }
    proof {
        assert(fs.subrange(0, funktionen@.len() as int) =~= fs);
    }
    keys
}

/// The rows of the truth table over the variables of `keysv`, last variable
/// outermost: for each variable, first all rows in which it is false, then
/// all rows in which it is true.
pub open spec fn tabelle_zeilen(
    kontext: KontextAnsicht,
    keysv: Seq<Seq<char>>,
    fs: Seq<FunktionView>,
    b: Map<Seq<char>, bool>,
) -> Seq<BelegungAnsicht>
    decreases keysv.len(),
{
    if keysv.len() == 0 {
        seq![BelegungAnsicht { werte: b, ergebnisse: ergebnisse_von(kontext, fs, b) }]
    } else {
        tabelle_zeilen(kontext, keysv.drop_last(), fs, b.insert(keysv.last(), false))
            + tabelle_zeilen(kontext, keysv.drop_last(), fs, b.insert(keysv.last(), true))
    }
}

/// The assignment map as the recursion leaves it behind.
pub open spec fn belegung_nachher(keysv: Seq<Seq<char>>, b: Map<Seq<char>, bool>) -> Map<
    Seq<char>,
    bool,
>
    decreases keysv.len(),
{
    if keysv.len() == 0 {
        b
    } else {
        belegung_nachher(
            keysv.drop_last(),
            belegung_nachher(keysv.drop_last(), b.insert(keysv.last(), false)).insert(
                keysv.last(),
                true,
            ),
        )
    }
}

/// Whether two assignments agree on every name outside `keysv`.
pub open spec fn gleich_ausser(
    b1: Map<Seq<char>, bool>,
    b2: Map<Seq<char>, bool>,
    keysv: Seq<Seq<char>>,
) -> bool {
    forall|n: Seq<char>|
        !keysv.contains(n) ==> (#[trigger] b1.contains_key(n) == b2.contains_key(n) && (
        b1.contains_key(n) ==> b1[n] == b2[n]))
}

/// The recursion only changes the assignment at the enumerated names.
proof fn lemma_nachher_ausser(keysv: Seq<Seq<char>>, b: Map<Seq<char>, bool>)
    ensures
        gleich_ausser(belegung_nachher(keysv, b), b, keysv),
    decreases keysv.len(),
{
    if keysv.len() > 0 {
        let k = keysv.last();
        let drop = keysv.drop_last();
        let b0 = b.insert(k, false);
        lemma_nachher_ausser(drop, b0);
        let m1 = belegung_nachher(drop, b0);
        let x = m1.insert(k, true);
        lemma_nachher_ausser(drop, x);
        assert forall|n: Seq<char>| !keysv.contains(n) implies (#[trigger] belegung_nachher(
            keysv,
            b,
        ).contains_key(n) == b.contains_key(n) && (belegung_nachher(keysv, b).contains_key(n)
            ==> belegung_nachher(keysv, b)[n] == b[n])) by {
            assert(keysv[keysv.len() - 1] == k);
            assert(n != k);
            assert(!drop.contains(n)) by {
                if drop.contains(n) {
                    let j = choose|j: int| 0 <= j < drop.len() && drop[j] == n;
                    assert(keysv[j] == n);
                }
            }
        }
    }
}

/// The rows depend on the starting assignment only outside the enumerated
/// names: every enumerated name is overwritten before a row is made.
proof fn lemma_zeilen_unabhaengig(
    kontext: KontextAnsicht,
    keysv: Seq<Seq<char>>,
    fs: Seq<FunktionView>,
    b1: Map<Seq<char>, bool>,
    b2: Map<Seq<char>, bool>,
)
    requires
        gleich_ausser(b1, b2, keysv),
    ensures
        tabelle_zeilen(kontext, keysv, fs, b1) == tabelle_zeilen(kontext, keysv, fs, b2),
        aequivalent_zeilen(kontext, keysv, fs, b1) == aequivalent_zeilen(kontext, keysv, fs, b2),
    decreases keysv.len(),
{
    if keysv.len() == 0 {
        assert(b1 =~= b2);
    } else {
        let k = keysv.last();
        let drop = keysv.drop_last();
        assert(keysv[keysv.len() - 1] == k);
        assert forall|m: Seq<char>| !drop.contains(m) && m != k implies !keysv.contains(m) by {
            if keysv.contains(m) {
                let j = choose|j: int| 0 <= j < keysv.len() && keysv[j] == m;
                assert(j < keysv.len() - 1 ==> drop[j] == m);
            }
        }
        assert(gleich_ausser(b1.insert(k, false), b2.insert(k, false), drop)) by {
            assert forall|m: Seq<char>| !drop.contains(m) implies (#[trigger] b1.insert(
                k,
                false,
            ).contains_key(m) == b2.insert(k, false).contains_key(m) && (b1.insert(
                k,
                false,
            ).contains_key(m) ==> b1.insert(k, false)[m] == b2.insert(k, false)[m])) by {
                if m != k {
                    assert(!keysv.contains(m));
                }
            }
        }
        assert(gleich_ausser(b1.insert(k, true), b2.insert(k, true), drop)) by {
            assert forall|m: Seq<char>| !drop.contains(m) implies (#[trigger] b1.insert(
                k,
                true,
            ).contains_key(m) == b2.insert(k, true).contains_key(m) && (b1.insert(
                k,
                true,
            ).contains_key(m) ==> b1.insert(k, true)[m] == b2.insert(k, true)[m])) by {
                if m != k {
                    assert(!keysv.contains(m));
                }
            }
        }
        lemma_zeilen_unabhaengig(kontext, drop, fs, b1.insert(k, false), b2.insert(k, false));
        lemma_zeilen_unabhaengig(kontext, drop, fs, b1.insert(k, true), b2.insert(k, true));
    }
}

/// Builds the rows for every assignment of the variables still in `keys`:
/// takes the last variable, enumerates the rest with it false, then with it
/// true, and puts the false rows first.
fn get_wahrheitstabelle_reku(
    kontext: &FormelKontext,
    keys: &mut Vec<String>,
    funktionen: &Vec<&AussagenFunktion>,
    map: &mut Werte,
) -> (r: Wahrheitstabelle)
    requires
        old(map).wohlgeformt(),
        alle_im_kontext(kontext@, formeln_ansichten(funktionen@)),
    ensures
        final(keys)@ == old(keys)@,
        final(map).wohlgeformt(),
        final(map)@ == belegung_nachher(namen_ansichten(old(keys)@), old(map)@),
        r.wohlgeformt(),
        r@.belegungen == tabelle_zeilen(
            kontext@,
            namen_ansichten(old(keys)@),
            formeln_ansichten(funktionen@),
            old(map)@,
        ),
        r@.reihenfolge == Seq::<Seq<char>>::empty(),
    decreases old(keys)@.len(),
{
    let ghost keysv = namen_ansichten(keys@);
    let key = keys.pop();
    match key {
        Some(key) => {
            proof {
                assert(namen_ansichten(keys@) =~= keysv.drop_last());
                assert(keysv.last() == key@);
            }
            map.set(&key, false);
            let tabelle = get_wahrheitstabelle_reku(kontext, keys, funktionen, map);
            map.set(&key, true);
            proof {
                let b = old(map)@;
                let k = keysv.last();
                let drop = keysv.drop_last();
                lemma_nachher_ausser(drop, b.insert(k, false));
                assert(gleich_ausser(map@, b.insert(k, true), drop)) by {
                    let m1 = belegung_nachher(drop, b.insert(k, false));
                    assert forall|n: Seq<char>| !drop.contains(n) implies (#[trigger] map@
                        .contains_key(n) == b.insert(k, true).contains_key(n) && (map@.contains_key(
                        n,
                    ) ==> map@[n] == b.insert(k, true)[n])) by {
                        if n != k {
                            assert(m1.contains_key(n) == b.insert(k, false).contains_key(n));
                        }
                    }
                }
                lemma_zeilen_unabhaengig(
                    kontext@,
                    drop,
                    formeln_ansichten(funktionen@),
                    map@,
                    b.insert(k, true),
                );
            }
            let tabelle2 = get_wahrheitstabelle_reku(kontext, keys, funktionen, map);
            let tabelle = join_tabellen(tabelle, tabelle2);
            keys.push(key);
            proof {
                assert(keys@ =~= old(keys)@);
                assert(namen_ansichten(keys@) =~= keysv);
            }
            tabelle
        },
        None => {
            proof {
                assert(namen_ansichten(keys@) =~= keysv);
            }
            to_tabelle(get_belegung(kontext, funktionen, map))
        },
    }
}

/// The full truth table of the queried formulas: one row for every assignment
/// of their free variables, and the context names of the formulas as the
/// display order.
pub fn get_wahrheitstabelle(kontext: &FormelKontext, funktionen: Vec<&AussagenFunktion>) -> (r:
    Wahrheitstabelle)
    requires
        alle_im_kontext(kontext@, formeln_ansichten(funktionen@)),
    ensures
        r.wohlgeformt(),
        r@.belegungen == tabelle_zeilen(
            kontext@,
            schluessel_liste(
                kontext@,
                kontext@.len() as nat,
                formeln_ansichten(funktionen@),
                Seq::empty(),
            ),
            formeln_ansichten(funktionen@),
            Map::empty(),
        ),
        r@.reihenfolge == namen_von(kontext@, formeln_ansichten(funktionen@)),
{
    let mut keys = get_all_keys(kontext, &funktionen);
    let mut map = Werte::new();
    let mut wahrheitstabelle = get_wahrheitstabelle_reku(kontext, &mut keys, &funktionen, &mut map);
    wahrheitstabelle.reihenfolge = kontext.get_keys(&funktionen);
    wahrheitstabelle
}

/// Wraps one row as a table without a display order.
fn to_tabelle(belegung: Belegung) -> (r: Wahrheitstabelle)
    ensures
        r@.belegungen == seq![belegung@],
        r@.reihenfolge == Seq::<Seq<char>>::empty(),
        belegung.wohlgeformt() ==> r.wohlgeformt(),
{
    let mut belegungen: Vec<Belegung> = Vec::new();
    let ghost zeile = belegung@;
    belegungen.push(belegung);
    let r = Wahrheitstabelle { belegungen, reihenfolge: Vec::new() };
    proof {
        assert(r@.belegungen =~= seq![zeile]);
        assert(r@.reihenfolge =~= Seq::<Seq<char>>::empty());
    }
    r
}

/// Appends the rows of `t2` behind those of `t1`.
fn join_tabellen(t1: Wahrheitstabelle, t2: Wahrheitstabelle) -> (r: Wahrheitstabelle)
    ensures
        r@.belegungen == t1@.belegungen + t2@.belegungen,
        r@.reihenfolge == t1@.reihenfolge,
        t1.wohlgeformt() && t2.wohlgeformt() ==> r.wohlgeformt(),
{
    let mut t1 = t1;
    t1.join(t2);
    t1
}

/// Whether all values of `m` agree.
pub open spec fn alle_ergebnisse_gleich(m: Map<Seq<char>, bool>) -> bool {
    forall|k1: Seq<char>, k2: Seq<char>|
        m.contains_key(k1) && m.contains_key(k2) ==> m[k1] == m[k2]
}

/// Whether the queried formulas agree on every assignment of the variables
/// still in `keysv`, starting from `b`.
pub open spec fn aequivalent_zeilen(
    kontext: KontextAnsicht,
    keysv: Seq<Seq<char>>,
    fs: Seq<FunktionView>,
    b: Map<Seq<char>, bool>,
) -> bool
    decreases keysv.len(),
{
    if keysv.len() == 0 {
        alle_ergebnisse_gleich(ergebnisse_von(kontext, fs, b))
    } else {
        aequivalent_zeilen(kontext, keysv.drop_last(), fs, b.insert(keysv.last(), false))
            && aequivalent_zeilen(kontext, keysv.drop_last(), fs, b.insert(keysv.last(), true))
    }
}

/// Whether all queried formulas evaluate alike in this row.
fn is_belegung_aequivalent(belegung: Belegung) -> (r: bool)
    requires
        belegung.wohlgeformt(),
    ensures
        r == alle_ergebnisse_gleich(belegung@.ergebnisse),
{
    let eintraege = belegung.ergebnisse.eintraege();
    if eintraege.len() == 0 {
        return true;
    }
    let erster = eintraege[0].1;
    let mut i: usize = 1;
    while i < eintraege.len()
        invariant
            eintraege@.len() > 0,
            erster == eintraege@[0].1,
            1 <= i <= eintraege@.len(),
            forall|j: int| 0 <= j < i ==> eintraege@[j].1 == erster,
            forall|j: int|
                0 <= j < eintraege@.len() ==> belegung@.ergebnisse.contains_key(
                    #[trigger] eintraege@[j].0@,
                ) && belegung@.ergebnisse[eintraege@[j].0@] == eintraege@[j].1,
            forall|n: Seq<char>|
                belegung@.ergebnisse.contains_key(n) ==> exists|j: int|
                    0 <= j < eintraege@.len() && eintraege@[j].0@ == n,
        decreases eintraege@.len() - i,
    {
        let p = &eintraege[i];
        if p.1 != erster {
            proof {
                assert(belegung@.ergebnisse[eintraege@[i as int].0@] != belegung@.ergebnisse[
                    eintraege@[0].0@]);
            }
            return false;
        }
        i += 1;
    }
    proof {
        assert forall|k1: Seq<char>, k2: Seq<char>|
            belegung@.ergebnisse.contains_key(k1) && belegung@.ergebnisse.contains_key(
                k2,
            ) implies belegung@.ergebnisse[k1] == belegung@.ergebnisse[k2] by {
            let j1 = choose|j: int| 0 <= j < eintraege@.len() && eintraege@[j].0@ == k1;
            let j2 = choose|j: int| 0 <= j < eintraege@.len() && eintraege@[j].0@ == k2;
            assert(eintraege@[j1].1 == erster);
            assert(eintraege@[j2].1 == erster);
        }
    }
    true
}

/// The conjunction of two partial verdicts.
fn join_bool_and(a: bool, b: bool) -> (r: bool)
    ensures
        r == (a && b),
{
    a && b
}

fn is_aequivalent_reku(
    kontext: &FormelKontext,
    keys: &mut Vec<String>,
    funktionen: &Vec<&AussagenFunktion>,
    map: &mut Werte,
) -> (r: bool)
    requires
        old(map).wohlgeformt(),
        alle_im_kontext(kontext@, formeln_ansichten(funktionen@)),
    ensures
        final(keys)@ == old(keys)@,
        final(map).wohlgeformt(),
        final(map)@ == belegung_nachher(namen_ansichten(old(keys)@), old(map)@),
        r == aequivalent_zeilen(
            kontext@,
            namen_ansichten(old(keys)@),
            formeln_ansichten(funktionen@),
            old(map)@,
        ),
    decreases old(keys)@.len(),
{
    let ghost keysv = namen_ansichten(keys@);
    let key = keys.pop();
    match key {
        Some(key) => {
            proof {
                assert(namen_ansichten(keys@) =~= keysv.drop_last());
                assert(keysv.last() == key@);
            }
            map.set(&key, false);
            let erstes = is_aequivalent_reku(kontext, keys, funktionen, map);
            map.set(&key, true);
            proof {
                let b = old(map)@;
                let k = keysv.last();
                let drop = keysv.drop_last();
                lemma_nachher_ausser(drop, b.insert(k, false));
                assert(gleich_ausser(map@, b.insert(k, true), drop)) by {
                    let m1 = belegung_nachher(drop, b.insert(k, false));
                    assert forall|n: Seq<char>| !drop.contains(n) implies (#[trigger] map@
                        .contains_key(n) == b.insert(k, true).contains_key(n) && (map@.contains_key(
                        n,
                    ) ==> map@[n] == b.insert(k, true)[n])) by {
                        if n != k {
                            assert(m1.contains_key(n) == b.insert(k, false).contains_key(n));
                        }
                    }
                }
                lemma_zeilen_unabhaengig(
                    kontext@,
                    drop,
                    formeln_ansichten(funktionen@),
                    map@,
                    b.insert(k, true),
                );
            }
            let zweites = is_aequivalent_reku(kontext, keys, funktionen, map);
            keys.push(key);
            proof {
                assert(keys@ =~= old(keys)@);
                assert(namen_ansichten(keys@) =~= keysv);
            }
            join_bool_and(erstes, zweites)
        },
        None => {
            proof {
                assert(namen_ansichten(keys@) =~= keysv);
            }
            let belegung = get_belegung(kontext, funktionen, map);
            is_belegung_aequivalent(belegung)
        },
    }
}

/// A truth table has exactly one row for every assignment of the enumerated
/// variables: two to the power of their count.
pub proof fn lemma_zeilen_anzahl(
    kontext: KontextAnsicht,
    keysv: Seq<Seq<char>>,
    fs: Seq<FunktionView>,
    b: Map<Seq<char>, bool>,
)
    ensures
        tabelle_zeilen(kontext, keysv, fs, b).len() == vstd::arithmetic::power2::pow2(
            keysv.len() as nat,
        ),
    decreases keysv.len(),
{
    if keysv.len() == 0 {
        assert(vstd::arithmetic::power2::pow2(0) == 1) by {
            vstd::arithmetic::power2::lemma2_to64();
        }
    } else {
        vstd::arithmetic::power2::lemma_pow2_unfold(keysv.len() as nat);
        lemma_zeilen_anzahl(kontext, keysv.drop_last(), fs, b.insert(keysv.last(), false));
        lemma_zeilen_anzahl(kontext, keysv.drop_last(), fs, b.insert(keysv.last(), true));
    }
}

/// The constant `Top` evaluates to true and `Bottom` to false, under every
/// context, every assignment and every default.
pub proof fn lemma_konstanten_wert(
    kontext: KontextAnsicht,
    belegung: Map<Seq<char>, bool>,
    standard: bool,
)
    ensures
        wert(kontext, FunktionView::Top, belegung, standard) == true,
        wert(kontext, FunktionView::Bottom, belegung, standard) == false,
{
}

/// A negated `Bottom` evaluates to true, under every context, every
/// assignment and every default.
pub proof fn lemma_nicht_bottom_wahr(
    kontext: KontextAnsicht,
    belegung: Map<Seq<char>, bool>,
    standard: bool,
)
    ensures
        wert(kontext, FunktionView::Not(Box::new(FunktionView::Bottom)), belegung, standard)
            == true,
{
    assert(wert_bei(kontext, kontext.len() as nat, FunktionView::Bottom, belegung, standard)
        == false);
}

/// Every value of a result column is the value of one of the queried
/// formulas.
proof fn lemma_ergebnisse_werte(
    kontext: KontextAnsicht,
    fs: Seq<FunktionView>,
    b: Map<Seq<char>, bool>,
)
    ensures
        forall|n: Seq<char>|
            #[trigger] ergebnisse_von(kontext, fs, b).contains_key(n) ==> exists|i: int|
                0 <= i < fs.len() && ergebnisse_von(kontext, fs, b)[n] == wert(
                    kontext,
                    fs[i],
                    b,
                    false,
                ),
    decreases fs.len(),
{
    if fs.len() > 0 {
        lemma_ergebnisse_werte(kontext, fs.drop_last(), b);
        assert forall|n: Seq<char>| #[trigger] ergebnisse_von(kontext, fs, b).contains_key(
            n,
        ) implies exists|i: int|
            0 <= i < fs.len() && ergebnisse_von(kontext, fs, b)[n] == wert(
                kontext,
                fs[i],
                b,
                false,
            ) by {
            if n == schluessel_name(kontext, fs.last()) {
                assert(ergebnisse_von(kontext, fs, b)[n] == wert(
                    kontext,
                    fs[fs.len() - 1],
                    b,
                    false,
                ));
            } else {
                let i = choose|i: int|
                    0 <= i < fs.drop_last().len() && ergebnisse_von(kontext, fs.drop_last(), b)[n]
                        == wert(kontext, fs.drop_last()[i], b, false);
                assert(fs.drop_last()[i] == fs[i]);
                assert(ergebnisse_von(kontext, fs, b)[n] == wert(kontext, fs[i], b, false));
            }
        }
    }
}

/// Where any two of the queried formulas evaluate alike under every
/// assignment, the equivalence verdict over every enumeration is true.
pub proof fn lemma_aequivalenz_aus_gleichwertigkeit(
    kontext: KontextAnsicht,
    keysv: Seq<Seq<char>>,
    fs: Seq<FunktionView>,
    b: Map<Seq<char>, bool>,
)
    requires
        forall|i: int, j: int, bb: Map<Seq<char>, bool>|
            #![trigger wert(kontext, fs[i], bb, false), wert(kontext, fs[j], bb, false)]
            0 <= i < fs.len() && 0 <= j < fs.len() ==> wert(kontext, fs[i], bb, false) == wert(
                kontext,
                fs[j],
                bb,
                false,
            ),
    ensures
        aequivalent_zeilen(kontext, keysv, fs, b) == true,
    decreases keysv.len(),
{
    if keysv.len() == 0 {
        lemma_ergebnisse_werte(kontext, fs, b);
        let m = ergebnisse_von(kontext, fs, b);
        assert forall|k1: Seq<char>, k2: Seq<char>|
            m.contains_key(k1) && m.contains_key(k2) implies m[k1] == m[k2] by {
            let i = choose|i: int| 0 <= i < fs.len() && m[k1] == wert(kontext, fs[i], b, false);
            let j = choose|j: int| 0 <= j < fs.len() && m[k2] == wert(kontext, fs[j], b, false);
            assert(wert(kontext, fs[i], b, false) == wert(kontext, fs[j], b, false));
        }
    } else {
        lemma_aequivalenz_aus_gleichwertigkeit(
            kontext,
            keysv.drop_last(),
            fs,
            b.insert(keysv.last(), false),
        );
        lemma_aequivalenz_aus_gleichwertigkeit(
            kontext,
            keysv.drop_last(),
            fs,
            b.insert(keysv.last(), true),
        );
    }
}

/// A variable and its double negation agree under every context, every
/// assignment and every enumeration: the equivalence verdict over the pair
/// is always true.
pub proof fn lemma_doppelte_verneinung_aequivalent(
    kontext: KontextAnsicht,
    name: Seq<char>,
    keysv: Seq<Seq<char>>,
    b: Map<Seq<char>, bool>,
)
    ensures
        aequivalent_zeilen(
            kontext,
            keysv,
            seq![
                FunktionView::Variabel(name),
                FunktionView::Not(
                    Box::new(FunktionView::Not(Box::new(FunktionView::Variabel(name)))),
                ),
            ],
            b,
        ) == true,
{
    let f1 = FunktionView::Variabel(name);
    let f2 = FunktionView::Not(Box::new(FunktionView::Not(Box::new(f1))));
    let fs = seq![f1, f2];
    assert forall|i: int, j: int, bb: Map<Seq<char>, bool>|
        #![trigger wert(kontext, fs[i], bb, false), wert(kontext, fs[j], bb, false)]
        0 <= i < fs.len() && 0 <= j < fs.len() implies wert(kontext, fs[i], bb, false) == wert(
        kontext,
        fs[j],
        bb,
        false,
    ) by {
        assert(fs[0] == f1);
        assert(fs[1] == f2);
        let s = kontext.len() as nat;
        assert(wert_bei(kontext, s, FunktionView::Not(Box::new(f1)), bb, false) == !wert_bei(
            kontext,
            s,
            f1,
            bb,
            false,
        ));
        assert(wert_bei(kontext, s, f2, bb, false) == !wert_bei(
            kontext,
            s,
            FunktionView::Not(Box::new(f1)),
            bb,
            false,
        ));
        assert(wert(kontext, f2, bb, false) == wert(kontext, f1, bb, false));
    }
    lemma_aequivalenz_aus_gleichwertigkeit(kontext, keysv, fs, b);
}

/// Whether the queried formulas agree under every assignment of their shared
/// free variables.
pub fn is_aequivalent(kontext: &FormelKontext, funktionen: Vec<&AussagenFunktion>) -> (r: bool)
    requires
        alle_im_kontext(kontext@, formeln_ansichten(funktionen@)),
    ensures
        r == aequivalent_zeilen(
            kontext@,
            schluessel_liste(
                kontext@,
                kontext@.len() as nat,
                formeln_ansichten(funktionen@),
                Seq::empty(),
            ),
            formeln_ansichten(funktionen@),
            Map::empty(),
        ),
{
    let mut keys = get_all_keys(kontext, &funktionen);
    let mut map = Werte::new();
    is_aequivalent_reku(kontext, &mut keys, &funktionen, &mut map)
}

} // verus!
