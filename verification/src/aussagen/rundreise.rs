//! The round trip from a formula through its text back to the formula.
//!
//! For a formula whose variable names are nonempty and free of the parser's
//! reserved characters, and whose groups have at least two members, parsing
//! either rendering gives back the formula itself. The proof follows the
//! parser's cursor: it names the exact cursor state after each piece of
//! rendered text, and composes the pieces along the shape of the formula.

use vstd::prelude::*;

use crate::aussagen::parsing::KnotenView;
use crate::aussagen::parsing::ParseError;
use crate::aussagen::parsing::ParseOptionView;
use crate::aussagen::parsing::ZustandView;
use crate::aussagen::parsing::baue;
use crate::aussagen::parsing::baue_liste;
use crate::aussagen::parsing::ist_offene_variable;
use crate::aussagen::parsing::ist_steuerzeichen;
use crate::aussagen::parsing::lauf;
use crate::aussagen::parsing::parse_ergebnis;
use crate::aussagen::parsing::spec_anfang;
use crate::aussagen::parsing::spec_anfuegen;
use crate::aussagen::parsing::spec_schritt;
use crate::aussagen::parsing::spec_steige_weiter;
use crate::aussagen::parsing::wurzel_von;
use crate::aussagen::structures::FunktionView;
use crate::aussagen::structures::ascii_glieder;
use crate::aussagen::structures::ascii_text;
use crate::aussagen::structures::utf_glieder;
use crate::aussagen::structures::utf_text;

verus! {

/// A character the grammar claims for itself: anything that ends a variable
/// name, and the two glyphs of the falsum constant.
pub open spec fn ist_reserviert(c: char) -> bool {
    ist_steuerzeichen(c) || c == 'f' || c == '\u{22A5}'
}

/// A formula whose rendering parses back to itself: variable names are
/// nonempty and free of reserved characters, and every group has at least
/// two members.
pub open spec fn rundreisefaehig(f: FunktionView) -> bool
    decreases f,
{
    match f {
        FunktionView::Variabel(name) => name.len() > 0 && (forall|i: int|
            0 <= i < name.len() ==> !ist_reserviert(#[trigger] name[i])),
        FunktionView::Top => true,
        FunktionView::Bottom => true,
        FunktionView::Not(kind) => rundreisefaehig(*kind),
        FunktionView::And(kinder) => kinder.len() >= 2 && (forall|i: int|
            0 <= i < kinder.len() ==> rundreisefaehig(#[trigger] kinder[i])),
        FunktionView::Or(kinder) => kinder.len() >= 2 && (forall|i: int|
            0 <= i < kinder.len() ==> rundreisefaehig(#[trigger] kinder[i])),
    }
}

/// The rendering in the chosen notation.
pub open spec fn text_von(f: FunktionView, utf: bool) -> Seq<char> {
    if utf {
        utf_text(f)
    } else {
        ascii_text(f)
    }
}

/// The group separator of the chosen notation and operator.
pub open spec fn trenner_von(und: bool, utf: bool) -> Seq<char> {
    if und {
        if utf {
            seq![' ', '\u{22C0}', ' ']
        } else {
            seq![' ', '&', ' ']
        }
    } else {
        if utf {
            seq![' ', '\u{22C1}', ' ']
        } else {
            seq![' ', '|', ' ']
        }
    }
}

/// The joined members in the chosen notation.
pub open spec fn glieder_von(kinder: Seq<FunktionView>, und: bool, utf: bool) -> Seq<char> {
    if utf {
        utf_glieder(kinder, trenner_von(und, utf))
    } else {
        ascii_glieder(kinder, trenner_von(und, utf))
    }
}

/// The parse tree that the parser builds for `f`, with every variable
/// closed.
pub open spec fn baum_von(f: FunktionView) -> KnotenView
    decreases f,
{
    match f {
        FunktionView::Variabel(name) => KnotenView {
            option: ParseOptionView::Variable(name, true),
            kinder: Seq::empty(),
        },
        FunktionView::Top => KnotenView { option: ParseOptionView::Top, kinder: Seq::empty() },
        FunktionView::Bottom => KnotenView {
            option: ParseOptionView::Bottom,
            kinder: Seq::empty(),
        },
        FunktionView::Not(kind) => KnotenView {
            option: ParseOptionView::Not,
            kinder: seq![baum_von(*kind)],
        },
        FunktionView::And(kinder) => KnotenView {
            option: ParseOptionView::And,
            kinder: baum_liste_von(kinder),
        },
        FunktionView::Or(kinder) => KnotenView {
            option: ParseOptionView::Or,
            kinder: baum_liste_von(kinder),
        },
    }
}

pub open spec fn baum_liste_von(kinder: Seq<FunktionView>) -> Seq<KnotenView>
    decreases kinder,
{
    if kinder.len() == 0 {
        Seq::empty()
    } else {
        baum_liste_von(kinder.drop_last()).push(baum_von(kinder.last()))
    }
}

/// As `baum_von`, but where the cursor still rests: a trailing variable, or
/// one below a chain of negations, is still open.
pub open spec fn baum_offen(f: FunktionView) -> KnotenView
    decreases f,
{
    match f {
        FunktionView::Variabel(name) => KnotenView {
            option: ParseOptionView::Variable(name, false),
            kinder: Seq::empty(),
        },
        FunktionView::Not(kind) => KnotenView {
            option: ParseOptionView::Not,
            kinder: seq![baum_offen(*kind)],
        },
        _ => baum_von(f),
    }
}

/// Converting the exact parse tree of `f` gives `f` back.
pub proof fn lemma_baue_baum(f: FunktionView)
    ensures
        baue(baum_von(f)) == Some(f),
        baue(baum_offen(f)) == Some(f),
    decreases f,
{
    match f {
        FunktionView::Not(kind) => {
            lemma_baue_baum(*kind);
            assert(baum_von(f).kinder[0] == baum_von(*kind));
            assert(baum_offen(f).kinder[0] == baum_offen(*kind));
        },
        FunktionView::And(kinder) => {
            lemma_baue_baum_liste(kinder);
        },
        FunktionView::Or(kinder) => {
            lemma_baue_baum_liste(kinder);
        },
        _ => {},
    }
}

pub proof fn lemma_baue_baum_liste(kinder: Seq<FunktionView>)
    ensures
        baue_liste(baum_liste_von(kinder)) == kinder,
    decreases kinder,
{
    if kinder.len() == 0 {
        assert(baue_liste(baum_liste_von(kinder)) =~= kinder);
    } else {
        lemma_baue_baum_liste(kinder.drop_last());
        lemma_baue_baum(kinder.last());
        assert(baum_liste_von(kinder).drop_last() =~= baum_liste_von(kinder.drop_last()));
        assert(baum_liste_von(kinder).last() == baum_von(kinder.last()));
        assert(baue_liste(baum_liste_von(kinder)) =~= kinder);
    }
}

/// The run continued from a given state.
pub open spec fn lauf_ab(z: ZustandView, zeichen: Seq<char>) -> Result<ZustandView, ParseError>
    decreases zeichen.len(),
{
    if zeichen.len() == 0 {
        Ok(z)
    } else {
        match lauf_ab(z, zeichen.drop_last()) {
            Err(e) => Err(e),
            Ok(z2) => spec_schritt(z2, zeichen.last()),
        }
    }
}

/// The run from the start is the run continued from the starting state.
pub proof fn lemma_lauf_ist_lauf_ab(zeichen: Seq<char>)
    ensures
        lauf(zeichen) == lauf_ab(spec_anfang(), zeichen),
    decreases zeichen.len(),
{
    if zeichen.len() > 0 {
        lemma_lauf_ist_lauf_ab(zeichen.drop_last());
    }
}

/// Runs compose along concatenation.
pub proof fn lemma_lauf_ab_verkettung(z: ZustandView, s1: Seq<char>, s2: Seq<char>)
    ensures
        lauf_ab(z, s1 + s2) == (match lauf_ab(z, s1) {
            Err(e) => Err::<ZustandView, ParseError>(e),
            Ok(z1) => lauf_ab(z1, s2),
        }),
    decreases s2.len(),
{
    if s2.len() == 0 {
        assert(s1 + s2 =~= s1);
    } else {
        lemma_lauf_ab_verkettung(z, s1, s2.drop_last());
        assert((s1 + s2).drop_last() =~= s1 + s2.drop_last());
        assert((s1 + s2).last() == s2.last());
    }
}

/// A run over one character is one step.
pub proof fn lemma_lauf_ab_einzeln(z: ZustandView, c: char)
    ensures
        lauf_ab(z, seq![c]) == spec_schritt(z, c),
{
    assert(seq![c].drop_last() =~= Seq::<char>::empty());
    assert(lauf_ab(z, seq![c].drop_last()) == Ok::<ZustandView, ParseError>(z));
    assert(seq![c].last() == c);
}

/// A node that can stand on the ancestor stack while a rendering is parsed:
/// anything but a variable.
pub open spec fn zulaessiger_knoten(k: KnotenView) -> bool {
    k.option is Unspecified || k.option is Not || k.option is And || k.option is Or
}

pub open spec fn zulaessige_eltern(eltern: Seq<KnotenView>) -> bool {
    forall|i: int| 0 <= i < eltern.len() ==> zulaessiger_knoten(#[trigger] eltern[i])
}

/// The cursor after parsing the text of `f` from a fresh, not-yet-specified
/// node over the ancestors `eltern`: a variable stays open under the cursor;
/// a constant or group is finished and the cursor has ascended; below a
/// negation the cursor rests on the operand.
pub open spec fn endzustand_a(f: FunktionView, eltern: Seq<KnotenView>) -> ZustandView
    decreases f,
{
    match f {
        FunktionView::Variabel(name) => ZustandView {
            fokus: KnotenView {
                option: ParseOptionView::Variable(name, false),
                kinder: Seq::empty(),
            },
            eltern,
        },
        FunktionView::Top => {
            if eltern.len() == 0 {
                ZustandView {
                    fokus: KnotenView { option: ParseOptionView::Top, kinder: Seq::empty() },
                    eltern,
                }
            } else {
                spec_steige_weiter(
                    spec_anfuegen(baum_von(f), eltern.last()),
                    eltern.drop_last(),
                )
            }
        },
        FunktionView::Bottom => {
            if eltern.len() == 0 {
                ZustandView {
                    fokus: KnotenView { option: ParseOptionView::Bottom, kinder: Seq::empty() },
                    eltern,
                }
            } else {
                spec_steige_weiter(
                    spec_anfuegen(baum_von(f), eltern.last()),
                    eltern.drop_last(),
                )
            }
        },
        FunktionView::Not(kind) => endzustand_a(
            *kind,
            eltern.push(KnotenView { option: ParseOptionView::Not, kinder: Seq::empty() }),
        ),
        FunktionView::And(_) => {
            if eltern.len() == 0 {
                ZustandView {
                    fokus: KnotenView {
                        option: ParseOptionView::Unspecified,
                        kinder: seq![baum_von(f)],
                    },
                    eltern,
                }
            } else {
                spec_steige_weiter(
                    spec_anfuegen(baum_von(f), eltern.last()),
                    eltern.drop_last(),
                )
            }
        },
        FunktionView::Or(_) => {
            if eltern.len() == 0 {
                ZustandView {
                    fokus: KnotenView {
                        option: ParseOptionView::Unspecified,
                        kinder: seq![baum_von(f)],
                    },
                    eltern,
                }
            } else {
                spec_steige_weiter(
                    spec_anfuegen(baum_von(f), eltern.last()),
                    eltern.drop_last(),
                )
            }
        },
    }
}

/// The cursor after parsing the text of `f` as a further member under the
/// already-specified group node `p`.
pub open spec fn endzustand_b(
    f: FunktionView,
    eltern: Seq<KnotenView>,
    p: KnotenView,
) -> ZustandView {
    match f {
        FunktionView::Variabel(name) => ZustandView {
            fokus: KnotenView {
                option: ParseOptionView::Variable(name, false),
                kinder: Seq::empty(),
            },
            eltern: eltern.push(p),
        },
        FunktionView::Not(kind) => endzustand_a(
            *kind,
            eltern.push(p).push(KnotenView { option: ParseOptionView::Not, kinder: Seq::empty() }),
        ),
        _ => ZustandView { fokus: spec_anfuegen(baum_von(f), p), eltern },
    }
}

/// The ascent keeps the stack a prefix of what it was, and the node it stops
/// on carries the tag of one of the reattached ancestors.
proof fn lemma_steige_zulaessig(fokus: KnotenView, eltern: Seq<KnotenView>)
    requires
        zulaessiger_knoten(fokus),
        zulaessige_eltern(eltern),
    ensures
        zulaessiger_knoten(spec_steige_weiter(fokus, eltern).fokus),
        zulaessige_eltern(spec_steige_weiter(fokus, eltern).eltern),
        !(spec_steige_weiter(fokus, eltern).fokus.option matches ParseOptionView::Variable(_, _)),
    decreases eltern.len(),
{
    if fokus.option is Not && eltern.len() > 0 {
        assert(zulaessige_eltern(eltern.drop_last())) by {
            assert(forall|i: int|
                0 <= i < eltern.drop_last().len() ==> eltern.drop_last()[i] == eltern[i]);
        }
        lemma_steige_zulaessig(spec_anfuegen(fokus, eltern.last()), eltern.drop_last());
    }
}

/// The ascent only reassociates: the root of the whole tree stays the same.
proof fn lemma_wurzel_steige(fokus: KnotenView, eltern: Seq<KnotenView>)
    ensures
        wurzel_von(
            spec_steige_weiter(fokus, eltern).fokus,
            spec_steige_weiter(fokus, eltern).eltern,
        ) == wurzel_von(fokus, eltern),
    decreases eltern.len(),
{
    if fokus.option is Not && eltern.len() > 0 {
        lemma_wurzel_steige(spec_anfuegen(fokus, eltern.last()), eltern.drop_last());
    }
}

/// No rendering is empty.
pub proof fn lemma_text_nicht_leer(f: FunktionView, utf: bool)
    requires
        rundreisefaehig(f),
    ensures
        text_von(f, utf).len() > 0,
{
    match f {
        FunktionView::Variabel(name) => {},
        _ => {},
    }
}

/// Parsing further name characters extends the open variable under the
/// cursor.
proof fn lemma_name_weiter(teil: Seq<char>, z: ZustandView, praefix: Seq<char>)
    requires
        z.fokus.option == ParseOptionView::Variable(praefix, false),
        forall|i: int| 0 <= i < teil.len() ==> !ist_reserviert(#[trigger] teil[i]),
    ensures
        lauf_ab(z, teil) == Ok::<ZustandView, ParseError>(
            ZustandView {
                fokus: KnotenView {
                    option: ParseOptionView::Variable(praefix + teil, false),
                    kinder: z.fokus.kinder,
                },
                eltern: z.eltern,
            },
        ),
    decreases teil.len(),
{
    if teil.len() == 0 {
        assert(praefix + teil =~= praefix);
        assert(KnotenView {
            option: ParseOptionView::Variable(praefix + teil, false),
            kinder: z.fokus.kinder,
        } == z.fokus);
    } else {
        assert(forall|i: int|
            0 <= i < teil.drop_last().len() ==> teil.drop_last()[i] == teil[i]);
        lemma_name_weiter(teil.drop_last(), z, praefix);
        let c = teil.last();
        assert(!ist_reserviert(c));
        let z1 = ZustandView {
            fokus: KnotenView {
                option: ParseOptionView::Variable(praefix + teil.drop_last(), false),
                kinder: z.fokus.kinder,
            },
            eltern: z.eltern,
        };
        assert(spec_schritt(z1, c) == Ok::<ZustandView, ParseError>(
            ZustandView {
                fokus: KnotenView {
                    option: ParseOptionView::Variable(
                        (praefix + teil.drop_last()).push(c),
                        false,
                    ),
                    kinder: z.fokus.kinder,
                },
                eltern: z.eltern,
            },
        ));
        assert((praefix + teil.drop_last()).push(c) =~= praefix + teil);
    }
}

/// After a member parsed from a fresh node, any reserved character closes it
/// and the cursor ascends: the member's finished tree hangs under the last
/// ancestor, and the ascent has skipped past negations.
proof fn lemma_abschluss_a(f: FunktionView, eltern: Seq<KnotenView>, c: char)
    requires
        rundreisefaehig(f),
        eltern.len() >= 1,
        zulaessige_eltern(eltern),
        ist_steuerzeichen(c),
    ensures
        crate::aussagen::parsing::spec_vorbereitung(endzustand_a(f, eltern), c) == Ok::<
            ZustandView,
            ParseError,
        >(spec_steige_weiter(spec_anfuegen(baum_von(f), eltern.last()), eltern.drop_last())),
    decreases f,
{
    match f {
        FunktionView::Variabel(name) => {
            let z = endzustand_a(f, eltern);
            assert(ist_offene_variable(z));
            let geschlossen = crate::aussagen::parsing::spec_schliesse(z);
            assert(geschlossen.fokus == baum_von(f));
            assert(crate::aussagen::parsing::spec_move_up(geschlossen) == Ok::<
                ZustandView,
                ParseError,
            >(spec_steige_weiter(spec_anfuegen(baum_von(f), eltern.last()), eltern.drop_last())));
        },
        FunktionView::Not(kind) => {
            let not_knoten = KnotenView { option: ParseOptionView::Not, kinder: Seq::empty() };
            let eltern2 = eltern.push(not_knoten);
            assert(zulaessige_eltern(eltern2)) by {
                assert(forall|i: int|
                    0 <= i < eltern.len() ==> eltern2[i] == eltern[i]);
                assert(eltern2[eltern2.len() - 1] == not_knoten);
            }
            lemma_abschluss_a(*kind, eltern2, c);
            assert(eltern2.last() == not_knoten);
            assert(eltern2.drop_last() =~= eltern);
            assert(spec_anfuegen(baum_von(*kind), not_knoten) == baum_von(f)) by {
                assert(Seq::<KnotenView>::empty().push(baum_von(*kind)) =~= seq![baum_von(*kind)]);
            }
            assert(spec_steige_weiter(baum_von(f), eltern) == spec_steige_weiter(
                spec_anfuegen(baum_von(f), eltern.last()),
                eltern.drop_last(),
            ));
        },
        _ => {
            let z = endzustand_a(f, eltern);
            lemma_steige_zulaessig(
                spec_anfuegen(baum_von(f), eltern.last()),
                eltern.drop_last(),
            );
            assert(zulaessiger_knoten(spec_anfuegen(baum_von(f), eltern.last()))) by {
                assert(zulaessiger_knoten(eltern[eltern.len() - 1]));
            }
            assert(zulaessige_eltern(eltern.drop_last())) by {
                assert(forall|i: int|
                    0 <= i < eltern.drop_last().len() ==> eltern.drop_last()[i] == eltern[i]);
            }
            assert(!ist_offene_variable(z));
        },
    }
}

/// As `lemma_abschluss_a`, for a member parsed under an already-specified
/// group node: the member's tree hangs as its youngest child and the cursor
/// rests on the group node.
proof fn lemma_abschluss_b(f: FunktionView, eltern: Seq<KnotenView>, p: KnotenView, c: char)
    requires
        rundreisefaehig(f),
        zulaessige_eltern(eltern),
        p.option is And || p.option is Or,
        ist_steuerzeichen(c),
    ensures
        crate::aussagen::parsing::spec_vorbereitung(endzustand_b(f, eltern, p), c) == Ok::<
            ZustandView,
            ParseError,
        >(ZustandView { fokus: spec_anfuegen(baum_von(f), p), eltern }),
    decreases f,
{
    let ziel = ZustandView { fokus: spec_anfuegen(baum_von(f), p), eltern };
    match f {
        FunktionView::Variabel(name) => {
            let z = endzustand_b(f, eltern, p);
            assert(ist_offene_variable(z));
            let geschlossen = crate::aussagen::parsing::spec_schliesse(z);
            assert(geschlossen.fokus == baum_von(f));
            assert(geschlossen.eltern == eltern.push(p));
            assert(eltern.push(p).last() == p);
            assert(eltern.push(p).drop_last() =~= eltern);
            assert(crate::aussagen::parsing::spec_move_up(geschlossen) == Ok::<
                ZustandView,
                ParseError,
            >(spec_steige_weiter(spec_anfuegen(baum_von(f), p), eltern)));
            assert(!(spec_anfuegen(baum_von(f), p).option is Not));
        },
        FunktionView::Not(kind) => {
            let not_knoten = KnotenView { option: ParseOptionView::Not, kinder: Seq::empty() };
            let eltern2 = eltern.push(p).push(not_knoten);
            assert(zulaessige_eltern(eltern.push(p))) by {
                assert(forall|i: int| 0 <= i < eltern.len() ==> eltern.push(p)[i] == eltern[i]);
                assert(eltern.push(p)[eltern.len() as int] == p);
            }
            assert(endzustand_b(f, eltern, p) == endzustand_a(*kind, eltern2));
            // close the operand below the negation, then ascend through it
            assert(zulaessige_eltern(eltern2)) by {
                assert(forall|i: int|
                    0 <= i < eltern.push(p).len() ==> eltern2[i] == eltern.push(p)[i]);
                assert(eltern2[eltern2.len() - 1] == not_knoten);
            }
            lemma_abschluss_a(*kind, eltern2, c);
            assert(eltern2.last() == not_knoten);
            assert(eltern2.drop_last() =~= eltern.push(p));
            assert(spec_anfuegen(baum_von(*kind), not_knoten) == baum_von(f)) by {
                assert(Seq::<KnotenView>::empty().push(baum_von(*kind)) =~= seq![baum_von(*kind)]);
            }
            assert(spec_steige_weiter(baum_von(f), eltern.push(p)) == ziel) by {
                assert(baum_von(f).option is Not);
                assert(eltern.push(p).last() == p);
                assert(eltern.push(p).drop_last() =~= eltern);
                assert(!(spec_anfuegen(baum_von(f), p).option is Not));
            }
        },
        _ => {
            let z = endzustand_b(f, eltern, p);
            assert(z == ziel);
            assert(!ist_offene_variable(z));
        },
    }
}

/// The cursor on a fresh, not-yet-specified node over the given ancestors.
pub open spec fn start_a(eltern: Seq<KnotenView>) -> ZustandView {
    ZustandView {
        fokus: KnotenView { option: ParseOptionView::Unspecified, kinder: Seq::empty() },
        eltern,
    }
}

/// The operator tag of a group.
pub open spec fn op_von(und: bool) -> ParseOptionView {
    if und {
        ParseOptionView::And
    } else {
        ParseOptionView::Or
    }
}

/// No joined member list renders empty.
proof fn lemma_glieder_nicht_leer(kinder: Seq<FunktionView>, und: bool, utf: bool)
    requires
        kinder.len() >= 1,
        forall|i: int| 0 <= i < kinder.len() ==> rundreisefaehig(#[trigger] kinder[i]),
    ensures
        glieder_von(kinder, und, utf).len() > 0,
    decreases kinder,
{
    if kinder.len() == 1 {
        lemma_text_nicht_leer(kinder.last(), utf);
    } else {
        assert(forall|i: int|
            0 <= i < kinder.drop_last().len() ==> kinder.drop_last()[i] == kinder[i]);
        lemma_glieder_nicht_leer(kinder.drop_last(), und, utf);
        lemma_text_nicht_leer(kinder.last(), utf);
    }
}

/// Parsing the text of `f` from a fresh, not-yet-specified node.
proof fn lemma_glied_a(f: FunktionView, utf: bool, eltern: Seq<KnotenView>)
    requires
        rundreisefaehig(f),
        zulaessige_eltern(eltern),
    ensures
        lauf_ab(start_a(eltern), text_von(f, utf)) == Ok::<ZustandView, ParseError>(
            endzustand_a(f, eltern),
        ),
    decreases f,
{
    let start = start_a(eltern);
    match f {
        FunktionView::Variabel(name) => {
            let c0 = name[0];
            assert(!ist_reserviert(c0));
            assert(name =~= seq![c0] + name.drop_first());
            lemma_lauf_ab_verkettung(start, seq![c0], name.drop_first());
            lemma_lauf_ab_einzeln(start, c0);
            let z1 = ZustandView {
                fokus: KnotenView {
                    option: ParseOptionView::Variable(seq![c0], false),
                    kinder: Seq::empty(),
                },
                eltern,
            };
            assert(spec_schritt(start, c0) == Ok::<ZustandView, ParseError>(z1));
            assert(forall|i: int|
                0 <= i < name.drop_first().len() ==> name.drop_first()[i] == name[i + 1]);
            lemma_name_weiter(name.drop_first(), z1, seq![c0]);
            assert(seq![c0] + name.drop_first() =~= name);
            assert(text_von(f, utf) == name);
        },
        FunktionView::Top => {
            let c: char = if utf {
                '\u{22A4}'
            } else {
                't'
            };
            assert(text_von(f, utf) =~= seq![c]);
            lemma_lauf_ab_einzeln(start, c);
            if eltern.len() > 0 {
                assert(spec_schritt(start, c) == Ok::<ZustandView, ParseError>(
                    spec_steige_weiter(
                        spec_anfuegen(baum_von(f), eltern.last()),
                        eltern.drop_last(),
                    ),
                ));
            } else {
                assert(spec_schritt(start, c) == Ok::<ZustandView, ParseError>(
                    endzustand_a(f, eltern),
                ));
            }
        },
        FunktionView::Bottom => {
            let c: char = if utf {
                '\u{22A5}'
            } else {
                'f'
            };
            assert(text_von(f, utf) =~= seq![c]);
            lemma_lauf_ab_einzeln(start, c);
            if eltern.len() > 0 {
                assert(spec_schritt(start, c) == Ok::<ZustandView, ParseError>(
                    spec_steige_weiter(
                        spec_anfuegen(baum_von(f), eltern.last()),
                        eltern.drop_last(),
                    ),
                ));
            } else {
                assert(spec_schritt(start, c) == Ok::<ZustandView, ParseError>(
                    endzustand_a(f, eltern),
                ));
            }
        },
        FunktionView::Not(kind) => {
            let c: char = if utf {
                '\u{00AC}'
            } else {
                '-'
            };
            assert(text_von(f, utf) =~= seq![c] + text_von(*kind, utf));
            lemma_lauf_ab_verkettung(start, seq![c], text_von(*kind, utf));
            lemma_lauf_ab_einzeln(start, c);
            let not_knoten = KnotenView { option: ParseOptionView::Not, kinder: Seq::empty() };
            let eltern2 = eltern.push(not_knoten);
            assert(spec_schritt(start, c) == Ok::<ZustandView, ParseError>(start_a(eltern2)));
            assert(zulaessige_eltern(eltern2)) by {
                assert(forall|i: int| 0 <= i < eltern.len() ==> eltern2[i] == eltern[i]);
                assert(eltern2[eltern2.len() - 1] == not_knoten);
            }
            lemma_glied_a(*kind, utf, eltern2);
        },
        FunktionView::And(kinder) => {
            lemma_gruppe_oeffnen(f, kinder, true, utf, eltern);
        },
        FunktionView::Or(kinder) => {
            lemma_gruppe_oeffnen(f, kinder, false, utf, eltern);
        },
    }
}

/// The group case of `lemma_glied_a`: an opening parenthesis, the members,
/// and the closing parenthesis.
proof fn lemma_gruppe_oeffnen(
    f: FunktionView,
    kinder: Seq<FunktionView>,
    und: bool,
    utf: bool,
    eltern: Seq<KnotenView>,
)
    requires
        rundreisefaehig(f),
        zulaessige_eltern(eltern),
        und ==> f == FunktionView::And(kinder),
        !und ==> f == FunktionView::Or(kinder),
    ensures
        lauf_ab(start_a(eltern), text_von(f, utf)) == Ok::<ZustandView, ParseError>(
            endzustand_a(f, eltern),
        ),
    decreases f, 1int,
{
    let start = start_a(eltern);
    let inhalt = glieder_von(kinder, und, utf);
    assert(text_von(f, utf) == seq!['('] + inhalt + seq![')']);
    assert(seq!['('] + inhalt + seq![')'] =~= (seq!['('] + inhalt) + seq![')']);
    lemma_lauf_ab_verkettung(start, seq!['('] + inhalt, seq![')']);
    lemma_lauf_ab_verkettung(start, seq!['('], inhalt);
    lemma_lauf_ab_einzeln(start, '(');
    let o = KnotenView { option: ParseOptionView::Unspecified, kinder: Seq::empty() };
    let eltern1 = eltern.push(o);
    assert(spec_schritt(start, '(') == Ok::<ZustandView, ParseError>(start_a(eltern1)));
    assert(zulaessige_eltern(eltern1)) by {
        assert(forall|i: int| 0 <= i < eltern.len() ==> eltern1[i] == eltern[i]);
        assert(eltern1[eltern1.len() - 1] == o);
    }
    assert(eltern1.last() == o);
    assert(kinder.len() >= 2);
    proof_gruppe(kinder, und, utf, eltern1);
    let p = KnotenView { option: op_von(und), kinder: baum_liste_von(kinder.drop_last()) };
    assert(eltern1.drop_last() =~= eltern);
    let zg = endzustand_b(kinder.last(), eltern, p);
    assert(lauf_ab(start_a(eltern1), inhalt) == Ok::<ZustandView, ParseError>(zg));
    // the closing parenthesis finishes the last member and ascends
    assert(rundreisefaehig(kinder.last()));
    lemma_abschluss_b(kinder.last(), eltern, p, ')');
    let z2 = ZustandView { fokus: spec_anfuegen(baum_von(kinder.last()), p), eltern };
    assert(z2.fokus == baum_von(f)) by {
        assert(baum_liste_von(kinder).drop_last() =~= baum_liste_von(kinder.drop_last()));
        assert(baum_liste_von(kinder.drop_last()).push(baum_von(kinder.last()))
            =~= baum_liste_von(kinder));
    }
    lemma_lauf_ab_einzeln(zg, ')');
    if eltern.len() == 0 {
        assert(spec_schritt(zg, ')') == Ok::<ZustandView, ParseError>(
            ZustandView {
                fokus: KnotenView {
                    option: ParseOptionView::Unspecified,
                    kinder: seq![baum_von(f)],
                },
                eltern,
            },
        ));
    } else {
        assert(spec_schritt(zg, ')') == Ok::<ZustandView, ParseError>(
            spec_steige_weiter(spec_anfuegen(baum_von(f), eltern.last()), eltern.drop_last()),
        ));
    }
}

/// Parsing the text of a further member under an already-specified group
/// node.
proof fn lemma_glied_b(f: FunktionView, utf: bool, eltern: Seq<KnotenView>, p: KnotenView)
    requires
        rundreisefaehig(f),
        zulaessige_eltern(eltern),
        p.option is And || p.option is Or,
    ensures
        lauf_ab(ZustandView { fokus: p, eltern }, text_von(f, utf)) == Ok::<
            ZustandView,
            ParseError,
        >(endzustand_b(f, eltern, p)),
    decreases f,
{
    let start = ZustandView { fokus: p, eltern };
    match f {
        FunktionView::Variabel(name) => {
            let c0 = name[0];
            assert(!ist_reserviert(c0));
            assert(name =~= seq![c0] + name.drop_first());
            lemma_lauf_ab_verkettung(start, seq![c0], name.drop_first());
            lemma_lauf_ab_einzeln(start, c0);
            let z1 = ZustandView {
                fokus: KnotenView {
                    option: ParseOptionView::Variable(seq![c0], false),
                    kinder: Seq::empty(),
                },
                eltern: eltern.push(p),
            };
            assert(spec_schritt(start, c0) == Ok::<ZustandView, ParseError>(z1));
            assert(forall|i: int|
                0 <= i < name.drop_first().len() ==> name.drop_first()[i] == name[i + 1]);
            lemma_name_weiter(name.drop_first(), z1, seq![c0]);
            assert(seq![c0] + name.drop_first() =~= name);
            assert(text_von(f, utf) == name);
        },
        FunktionView::Top => {
            let c: char = if utf {
                '\u{22A4}'
            } else {
                't'
            };
            assert(text_von(f, utf) =~= seq![c]);
            lemma_lauf_ab_einzeln(start, c);
            assert(eltern.push(p).last() == p);
            assert(eltern.push(p).drop_last() =~= eltern);
            assert(spec_schritt(start, c) == Ok::<ZustandView, ParseError>(
                endzustand_b(f, eltern, p),
            ));
        },
        FunktionView::Bottom => {
            let c: char = if utf {
                '\u{22A5}'
            } else {
                'f'
            };
            assert(text_von(f, utf) =~= seq![c]);
            lemma_lauf_ab_einzeln(start, c);
            assert(eltern.push(p).last() == p);
            assert(eltern.push(p).drop_last() =~= eltern);
            assert(spec_schritt(start, c) == Ok::<ZustandView, ParseError>(
                endzustand_b(f, eltern, p),
            ));
        },
        FunktionView::Not(kind) => {
            let c: char = if utf {
                '\u{00AC}'
            } else {
                '-'
            };
            assert(text_von(f, utf) =~= seq![c] + text_von(*kind, utf));
            lemma_lauf_ab_verkettung(start, seq![c], text_von(*kind, utf));
            lemma_lauf_ab_einzeln(start, c);
            let not_knoten = KnotenView { option: ParseOptionView::Not, kinder: Seq::empty() };
            let eltern2 = eltern.push(p).push(not_knoten);
            assert(spec_schritt(start, c) == Ok::<ZustandView, ParseError>(start_a(eltern2)));
            assert(zulaessige_eltern(eltern2)) by {
                assert(forall|i: int|
                    0 <= i < eltern.len() ==> eltern2[i] == eltern[i]);
                assert(eltern2[eltern2.len() - 2] == p);
                assert(eltern2[eltern2.len() - 1] == not_knoten);
            }
            lemma_glied_a(*kind, utf, eltern2);
        },
        FunktionView::And(ms) => {
            lemma_gruppe_innen(f, ms, true, utf, eltern, p);
        },
        FunktionView::Or(ms) => {
            lemma_gruppe_innen(f, ms, false, utf, eltern, p);
        },
    }
}

/// The group case of `lemma_glied_b`.
proof fn lemma_gruppe_innen(
    f: FunktionView,
    ms: Seq<FunktionView>,
    und: bool,
    utf: bool,
    eltern: Seq<KnotenView>,
    p: KnotenView,
)
    requires
        rundreisefaehig(f),
        zulaessige_eltern(eltern),
        p.option is And || p.option is Or,
        und ==> f == FunktionView::And(ms),
        !und ==> f == FunktionView::Or(ms),
    ensures
        lauf_ab(ZustandView { fokus: p, eltern }, text_von(f, utf)) == Ok::<
            ZustandView,
            ParseError,
        >(endzustand_b(f, eltern, p)),
    decreases f, 1int,
{
    let start = ZustandView { fokus: p, eltern };
    let inhalt = glieder_von(ms, und, utf);
    assert(text_von(f, utf) == seq!['('] + inhalt + seq![')']);
    assert(seq!['('] + inhalt + seq![')'] =~= (seq!['('] + inhalt) + seq![')']);
    lemma_lauf_ab_verkettung(start, seq!['('] + inhalt, seq![')']);
    lemma_lauf_ab_verkettung(start, seq!['('], inhalt);
    lemma_lauf_ab_einzeln(start, '(');
    let o = KnotenView { option: ParseOptionView::Unspecified, kinder: Seq::empty() };
    let eltern1 = eltern.push(p).push(o);
    assert(spec_schritt(start, '(') == Ok::<ZustandView, ParseError>(start_a(eltern1)));
    assert(zulaessige_eltern(eltern1)) by {
        assert(forall|i: int| 0 <= i < eltern.len() ==> eltern1[i] == eltern[i]);
        assert(eltern1[eltern1.len() - 2] == p);
        assert(eltern1[eltern1.len() - 1] == o);
    }
    assert(eltern1.last() == o);
    assert(ms.len() >= 2);
    proof_gruppe(ms, und, utf, eltern1);
    let p2 = KnotenView { option: op_von(und), kinder: baum_liste_von(ms.drop_last()) };
    assert(eltern1.drop_last() =~= eltern.push(p));
    let zg = endzustand_b(ms.last(), eltern.push(p), p2);
    assert(lauf_ab(start_a(eltern1), inhalt) == Ok::<ZustandView, ParseError>(zg));
    assert(rundreisefaehig(ms.last()));
    assert(zulaessige_eltern(eltern.push(p))) by {
        assert(forall|i: int| 0 <= i < eltern.len() ==> eltern.push(p)[i] == eltern[i]);
        assert(eltern.push(p)[eltern.len() as int] == p);
    }
    lemma_abschluss_b(ms.last(), eltern.push(p), p2, ')');
    let z2 = ZustandView { fokus: spec_anfuegen(baum_von(ms.last()), p2), eltern: eltern.push(p) };
    assert(z2.fokus == baum_von(f)) by {
        assert(baum_liste_von(ms).drop_last() =~= baum_liste_von(ms.drop_last()));
        assert(baum_liste_von(ms.drop_last()).push(baum_von(ms.last())) =~= baum_liste_von(ms));
    }
    lemma_lauf_ab_einzeln(zg, ')');
    assert(eltern.push(p).last() == p);
    assert(eltern.push(p).drop_last() =~= eltern);
    assert(spec_schritt(zg, ')') == Ok::<ZustandView, ParseError>(endzustand_b(f, eltern, p)));
}

/// Parsing the joined members of a group: the first member takes the fresh
/// node, the separators specify the group's operator on its parent, and
/// every further member hangs below that operator.
#[verifier::rlimit(100)]
proof fn proof_gruppe(ks: Seq<FunktionView>, und: bool, utf: bool, eltern1: Seq<KnotenView>)
    requires
        ks.len() >= 1,
        forall|i: int| 0 <= i < ks.len() ==> rundreisefaehig(#[trigger] ks[i]),
        zulaessige_eltern(eltern1),
        eltern1.len() >= 1,
        eltern1.last() == (KnotenView { option: ParseOptionView::Unspecified, kinder: Seq::<
            KnotenView,
        >::empty() }),
    ensures
        ks.len() == 1 ==> lauf_ab(start_a(eltern1), glieder_von(ks, und, utf)) == Ok::<
            ZustandView,
            ParseError,
        >(endzustand_a(ks[0], eltern1)),
        ks.len() >= 2 ==> lauf_ab(start_a(eltern1), glieder_von(ks, und, utf)) == Ok::<
            ZustandView,
            ParseError,
        >(
            endzustand_b(
                ks.last(),
                eltern1.drop_last(),
                KnotenView { option: op_von(und), kinder: baum_liste_von(ks.drop_last()) },
            ),
        ),
    decreases ks,
{
    let start = start_a(eltern1);
    let trenner = trenner_von(und, utf);
    if ks.len() == 1 {
        assert(glieder_von(ks, und, utf) == text_von(ks[0], utf)) by {
            assert(ks.drop_last().len() == 0);
            assert(ks.last() == ks[0]);
        }
        assert(rundreisefaehig(ks[0]));
        lemma_glied_a(ks[0], utf, eltern1);
    } else {
        let ks2 = ks.drop_last();
        assert(forall|i: int| 0 <= i < ks2.len() ==> ks2[i] == ks[i]);
        proof_gruppe(ks2, und, utf, eltern1);
        lemma_glieder_nicht_leer(ks2, und, utf);
        let base = glieder_von(ks2, und, utf);
        assert(glieder_von(ks, und, utf) == base + trenner + text_von(ks.last(), utf));
        let op: char = trenner[1];
        assert(trenner =~= seq![' '] + seq![op] + seq![' ']);
        assert(base + trenner + text_von(ks.last(), utf) =~= (((base + seq![' ']) + seq![op])
            + seq![' ']) + text_von(ks.last(), utf));
        lemma_lauf_ab_verkettung(
            start,
            ((base + seq![' ']) + seq![op]) + seq![' '],
            text_von(ks.last(), utf),
        );
        lemma_lauf_ab_verkettung(start, (base + seq![' ']) + seq![op], seq![' ']);
        lemma_lauf_ab_verkettung(start, base + seq![' '], seq![op]);
        lemma_lauf_ab_verkettung(start, base, seq![' ']);
        assert(zulaessige_eltern(eltern1.drop_last())) by {
            assert(forall|i: int|
                0 <= i < eltern1.drop_last().len() ==> eltern1.drop_last()[i] == eltern1[i]);
        }
        let w_ziel = ZustandView {
            fokus: KnotenView { option: op_von(und), kinder: baum_liste_von(ks2) },
            eltern: eltern1.drop_last(),
        };
        if ks2.len() == 1 {
            // the first member sat on the fresh node; closing it hangs it
            // under the group's parent, which the operator then specifies
            assert(rundreisefaehig(ks[0]));
            lemma_abschluss_a(ks[0], eltern1, ' ');
            let o = eltern1.last();
            let w = ZustandView {
                fokus: spec_anfuegen(baum_von(ks[0]), o),
                eltern: eltern1.drop_last(),
            };
            assert(spec_anfuegen(baum_von(ks[0]), o) == (KnotenView {
                option: ParseOptionView::Unspecified,
                kinder: seq![baum_von(ks[0])],
            })) by {
                assert(Seq::<KnotenView>::empty().push(baum_von(ks[0])) =~= seq![
                    baum_von(ks[0]),
                ]);
            }
            assert(spec_steige_weiter(spec_anfuegen(baum_von(ks[0]), o), eltern1.drop_last())
                == w);
            lemma_lauf_ab_einzeln(endzustand_a(ks[0], eltern1), ' ');
            assert(spec_schritt(endzustand_a(ks[0], eltern1), ' ') == Ok::<
                ZustandView,
                ParseError,
            >(w));
            lemma_lauf_ab_einzeln(w, op);
            let w2 = ZustandView {
                fokus: KnotenView { option: op_von(und), kinder: seq![baum_von(ks[0])] },
                eltern: eltern1.drop_last(),
            };
            assert(spec_schritt(w, op) == Ok::<ZustandView, ParseError>(w2));
            assert(w2 == w_ziel) by {
                assert(baum_liste_von(ks2) =~= seq![baum_von(ks[0])]) by {
                    assert(ks2.last() == ks[0]);
                    assert(baum_liste_von(ks2.drop_last()) =~= Seq::<KnotenView>::empty());
                }
            }
            lemma_lauf_ab_einzeln(w2, ' ');
            assert(spec_schritt(w2, ' ') == Ok::<ZustandView, ParseError>(w2));
        } else {
            let p_alt = KnotenView {
                option: op_von(und),
                kinder: baum_liste_von(ks2.drop_last()),
            };
            let zb = endzustand_b(ks2.last(), eltern1.drop_last(), p_alt);
            assert(rundreisefaehig(ks2.last()));
            lemma_abschluss_b(ks2.last(), eltern1.drop_last(), p_alt, ' ');
            let w = ZustandView {
                fokus: spec_anfuegen(baum_von(ks2.last()), p_alt),
                eltern: eltern1.drop_last(),
            };
            assert(w == w_ziel) by {
                assert(baum_liste_von(ks2).drop_last() =~= baum_liste_von(ks2.drop_last()));
                assert(baum_liste_von(ks2.drop_last()).push(baum_von(ks2.last()))
                    =~= baum_liste_von(ks2));
            }
            lemma_lauf_ab_einzeln(zb, ' ');
            assert(spec_schritt(zb, ' ') == Ok::<ZustandView, ParseError>(w));
            lemma_lauf_ab_einzeln(w, op);
            assert(spec_schritt(w, op) == Ok::<ZustandView, ParseError>(w)) by {
                assert(KnotenView { option: op_von(und), kinder: w.fokus.kinder } == w.fokus);
            }
            lemma_lauf_ab_einzeln(w, ' ');
            assert(spec_schritt(w, ' ') == Ok::<ZustandView, ParseError>(w));
        }
        assert(rundreisefaehig(ks.last()));
        lemma_glied_b(
            ks.last(),
            utf,
            eltern1.drop_last(),
            KnotenView { option: op_von(und), kinder: baum_liste_von(ks2) },
        );
    }
}

/// The root of the tree the parser leaves behind: the exact parse tree of
/// `f`, with one extra not-yet-specified wrapper over a top-level group.
proof fn lemma_wurzel_endzustand(f: FunktionView, eltern: Seq<KnotenView>)
    requires
        rundreisefaehig(f),
    ensures
        ((f is And || f is Or) && eltern.len() == 0) ==> wurzel_von(
            endzustand_a(f, eltern).fokus,
            endzustand_a(f, eltern).eltern,
        ) == (KnotenView { option: ParseOptionView::Unspecified, kinder: seq![baum_von(f)] }),
        !((f is And || f is Or) && eltern.len() == 0) ==> wurzel_von(
            endzustand_a(f, eltern).fokus,
            endzustand_a(f, eltern).eltern,
        ) == wurzel_von(baum_offen(f), eltern),
    decreases f,
{
    match f {
        FunktionView::Variabel(_) => {},
        FunktionView::Not(kind) => {
            let not_knoten = KnotenView { option: ParseOptionView::Not, kinder: Seq::empty() };
            let eltern2 = eltern.push(not_knoten);
            lemma_wurzel_endzustand(*kind, eltern2);
            assert(eltern2.last() == not_knoten);
            assert(eltern2.drop_last() =~= eltern);
            assert(spec_anfuegen(baum_offen(*kind), not_knoten) == baum_offen(f)) by {
                assert(Seq::<KnotenView>::empty().push(baum_offen(*kind)) =~= seq![
                    baum_offen(*kind),
                ]);
            }
        },
        _ => {
            if eltern.len() > 0 {
                lemma_wurzel_steige(
                    spec_anfuegen(baum_von(f), eltern.last()),
                    eltern.drop_last(),
                );
            }
        },
    }
}

/// The round trip: parsing either rendering of a well-formed formula gives
/// the formula back. Well-formed means: every variable name is nonempty and
/// free of the grammar's reserved characters, and every group has at least
/// two members; a one-member group, for one, renders as a plain
/// parenthesized term and parses back to its member alone.
pub proof fn lemma_rundreise(f: FunktionView, utf: bool)
    requires
        rundreisefaehig(f),
    ensures
        parse_ergebnis(text_von(f, utf)) == Ok::<FunktionView, ParseError>(f),
{
    let text = text_von(f, utf);
    lemma_lauf_ist_lauf_ab(text);
    assert(start_a(Seq::empty()) == spec_anfang());
    lemma_glied_a(f, utf, Seq::empty());
    assert(lauf(text) == Ok::<ZustandView, ParseError>(endzustand_a(f, Seq::empty())));
    lemma_wurzel_endzustand(f, Seq::empty());
    lemma_baue_baum(f);
    let wurzel = wurzel_von(
        endzustand_a(f, Seq::empty()).fokus,
        endzustand_a(f, Seq::empty()).eltern,
    );
    if f is And || f is Or {
        assert(wurzel.kinder[0] == baum_von(f));
        assert(baue(wurzel) == Some(f));
    } else {
        assert(wurzel_von(baum_offen(f), Seq::empty()) == baum_offen(f));
        assert(baue(wurzel) == Some(f));
    }
}

} // verus!
