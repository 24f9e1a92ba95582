//! The character-level formula parser.
//!
//! The parser walks the input once, character by character, and builds a
//! mutable parse tree whose nodes are either not yet specified, an open or
//! closed variable, or carry a concrete operator tag. The tree is held as a
//! zipper: the node under the cursor (`fokus`) plus the stack of its
//! ancestors (`eltern`), each ancestor holding the siblings to the left of
//! the path. Ownership makes every cursor move total except ascending from
//! the root; a lookup of a vanished node cannot arise, and the only
//! reachable errors are `NoParent` and `ToNone`. After
//! the last character the zipper is folded back into its root and converted
//! into the immutable syntax tree.

use vstd::prelude::*;

use crate::aussagen::structures::AussagenFunktion;
use crate::aussagen::structures::FunktionView;

verus! {

/// What a parse-tree node is so far.
#[derive(Debug)]
pub enum ParseOption {
    UNSPECIFIED(),
    NOTHING(),
    VARIABLE(String, bool),
    TOP(),
    BOTTOM(),
    NOT(),
    AND(),
    OR(),
}

/// The mathematical shape of a node tag.
pub enum ParseOptionView {
    Unspecified,
    Nothing,
    Variable(Seq<char>, bool),
    Top,
    Bottom,
    Not,
    And,
    Or,
}

impl View for ParseOption {
    type V = ParseOptionView;

    open spec fn view(&self) -> ParseOptionView {
        match self {
            ParseOption::UNSPECIFIED() => ParseOptionView::Unspecified,
            ParseOption::NOTHING() => ParseOptionView::Nothing,
            ParseOption::VARIABLE(name, zu) => ParseOptionView::Variable(name@, *zu),
            ParseOption::TOP() => ParseOptionView::Top,
            ParseOption::BOTTOM() => ParseOptionView::Bottom,
            ParseOption::NOT() => ParseOptionView::Not,
            ParseOption::AND() => ParseOptionView::And,
            ParseOption::OR() => ParseOptionView::Or,
        }
    }
}

impl PartialEq for ParseOption {
    fn eq(&self, other: &ParseOption) -> (r: bool) {
        match (self, other) {
            (ParseOption::UNSPECIFIED(), ParseOption::UNSPECIFIED()) => true,
            (ParseOption::NOTHING(), ParseOption::NOTHING()) => true,
            (ParseOption::VARIABLE(a, az), ParseOption::VARIABLE(b, bz)) => *a == *b && *az == *bz,
            (ParseOption::TOP(), ParseOption::TOP()) => true,
            (ParseOption::BOTTOM(), ParseOption::BOTTOM()) => true,
            (ParseOption::NOT(), ParseOption::NOT()) => true,
            (ParseOption::AND(), ParseOption::AND()) => true,
            (ParseOption::OR(), ParseOption::OR()) => true,
            _ => false,
        }
    }
}

impl Eq for ParseOption {

}

impl vstd::std_specs::cmp::PartialEqSpecImpl for ParseOption {
    open spec fn obeys_eq_spec() -> bool {
        true
    }

    open spec fn eq_spec(&self, other: &ParseOption) -> bool {
        self@ == other@
    }
}

/// The data of one parse-tree node.
#[derive(Debug)]
pub struct Parsed {
    pub option: ParseOption,
}

/// What can go wrong while parsing. With the owned tree only `NoParent` (an
/// ascent past the root) and `ToNone` (the finished tree reduces to no
/// formula) are reachable; the others name lookups and moves that a tree of
/// nodes addressed by indices could refuse and the zipper rules out.
#[derive(Debug, PartialEq, Eq, Structural)]
pub enum ParseError {
    ToNone,
    NoCurrent,
    NoParent,
    VariableAlreadyClosed,
    NoVariableToClose,
    NoRoot,
    CurrentIsNotRoot,
}

/// One node of the mutable parse tree, owning its children.
#[derive(Debug)]
pub struct ParseKnoten {
    pub parsed: Parsed,
    pub kinder: Vec<ParseKnoten>,
}

/// The mathematical shape of a parse-tree node.
pub struct KnotenView {
    pub option: ParseOptionView,
    pub kinder: Seq<KnotenView>,
}

pub open spec fn knoten_ansicht(k: &ParseKnoten) -> KnotenView
    decreases k,
{
    KnotenView { option: k.parsed.option@, kinder: knoten_ansichten(k.kinder@) }
}

pub open spec fn knoten_ansichten(kinder: Seq<ParseKnoten>) -> Seq<KnotenView>
    decreases kinder,
{
    if kinder.len() == 0 {
        Seq::empty()
    } else {
        knoten_ansichten(kinder.drop_last()).push(knoten_ansicht(&kinder.last()))
    }
}

impl View for ParseKnoten {
    type V = KnotenView;

    open spec fn view(&self) -> KnotenView {
        knoten_ansicht(self)
    }
}

pub proof fn lemma_knoten_ansichten(kinder: Seq<ParseKnoten>)
    ensures
        knoten_ansichten(kinder).len() == kinder.len(),
        forall|i: int|
            0 <= i < kinder.len() ==> knoten_ansichten(kinder)[i] == knoten_ansicht(&kinder[i]),
    decreases kinder.len(),
{
    if kinder.len() > 0 {
        lemma_knoten_ansichten(kinder.drop_last());
    }
}

/// The parser's cursor: the node in focus and the stack of its ancestors,
/// each holding the children to the left of the path down to the focus.
#[derive(Debug)]
pub struct ParseZustand {
    pub fokus: ParseKnoten,
    pub eltern: Vec<ParseKnoten>,
}

/// The mathematical shape of the cursor.
pub struct ZustandView {
    pub fokus: KnotenView,
    pub eltern: Seq<KnotenView>,
}

impl View for ParseZustand {
    type V = ZustandView;

    open spec fn view(&self) -> ZustandView {
        ZustandView { fokus: knoten_ansicht(&self.fokus), eltern: knoten_ansichten(self.eltern@) }
    }
}

/// The state before the first character: a single node, not yet specified.
pub open spec fn spec_anfang() -> ZustandView {
    ZustandView {
        fokus: KnotenView { option: ParseOptionView::Unspecified, kinder: Seq::empty() },
        eltern: Seq::empty(),
    }
}

/// Reattaches the focus under its parent.
pub open spec fn spec_anfuegen(fokus: KnotenView, elter: KnotenView) -> KnotenView {
    KnotenView { option: elter.option, kinder: elter.kinder.push(fokus) }
}

/// Keeps ascending while the focus is a negation with a parent left: the
/// close of a negation's operand must propagate to the operator above it.
pub open spec fn spec_steige_weiter(fokus: KnotenView, eltern: Seq<KnotenView>) -> ZustandView
    decreases eltern.len(),
{
    if fokus.option is Not && eltern.len() > 0 {
        spec_steige_weiter(spec_anfuegen(fokus, eltern.last()), eltern.drop_last())
    } else {
        ZustandView { fokus, eltern }
    }
}

/// One ascent: reattach the focus to its parent, then skip past negations.
pub open spec fn spec_move_up(z: ZustandView) -> Result<ZustandView, ParseError> {
    if z.eltern.len() == 0 {
        Err(ParseError::NoParent)
    } else {
        Ok(spec_steige_weiter(spec_anfuegen(z.fokus, z.eltern.last()), z.eltern.drop_last()))
    }
}

pub open spec fn ist_offene_variable(z: ZustandView) -> bool {
    z.fokus.option matches ParseOptionView::Variable(_, false)
}

/// Marks an open variable under the cursor as closed.
pub open spec fn spec_schliesse(z: ZustandView) -> ZustandView {
    match z.fokus.option {
        ParseOptionView::Variable(name, _) => ZustandView {
            fokus: KnotenView {
                option: ParseOptionView::Variable(name, true),
                kinder: z.fokus.kinder,
            },
            eltern: z.eltern,
        },
        _ => z,
    }
}

/// Replaces the tag of the node under the cursor.
pub open spec fn spec_setze(z: ZustandView, option: ParseOptionView) -> ZustandView {
    ZustandView {
        fokus: KnotenView { option, kinder: z.fokus.kinder },
        eltern: z.eltern,
    }
}

/// Appends a fresh node under the cursor and descends into it.
pub open spec fn spec_haenge_an(z: ZustandView, option: ParseOptionView) -> ZustandView {
    ZustandView {
        fokus: KnotenView { option, kinder: Seq::empty() },
        eltern: z.eltern.push(z.fokus),
    }
}

/// Specifies a not-yet-specified node, or appends a sibling under it.
pub open spec fn spec_setze_oder_haenge(z: ZustandView, option: ParseOptionView) -> ZustandView {
    if z.fokus.option is Unspecified {
        spec_setze(z, option)
    } else {
        spec_haenge_an(z, option)
    }
}

/// Puts a fresh, not-yet-specified root above the current root and moves the
/// cursor to it; for a closing parenthesis at the top level.
pub open spec fn spec_neue_wurzel(z: ZustandView) -> ZustandView {
    ZustandView {
        fokus: KnotenView { option: ParseOptionView::Unspecified, kinder: seq![z.fokus] },
        eltern: z.eltern,
    }
}

/// The characters that end an in-progress variable name.
pub open spec fn ist_steuerzeichen(c: char) -> bool {
    c == '|' || c == '\u{22C1}' || c == '&' || c == '\u{22C0}' || c == '(' || c == ')' || c == 't'
        || c == '\u{22A4}' || c == '-' || c == '\u{00AC}' || c == ' '
}

/// Closes an open variable and ascends, before a character that cannot
/// extend a name.
pub open spec fn spec_vorbereitung(z: ZustandView, c: char) -> Result<ZustandView, ParseError> {
    if ist_steuerzeichen(c) && ist_offene_variable(z) {
        spec_move_up(spec_schliesse(z))
    } else {
        Ok(z)
    }
}

/// One step of the parser on one character.
pub open spec fn spec_schritt(z: ZustandView, c: char) -> Result<ZustandView, ParseError> {
    match spec_vorbereitung(z, c) {
        Err(e) => Err(e),
        Ok(z) => {
            if c == '|' || c == '\u{22C1}' {
                Ok(spec_setze(z, ParseOptionView::Or))
            } else if c == '&' || c == '\u{22C0}' {
                Ok(spec_setze(z, ParseOptionView::And))
            } else if c == ')' {
                if z.eltern.len() == 0 {
                    Ok(spec_neue_wurzel(z))
                } else {
                    spec_move_up(z)
                }
            } else if c == '(' {
                let z1 = if !(z.fokus.option is Unspecified) {
                    spec_haenge_an(z, ParseOptionView::Unspecified)
                } else {
                    z
                };
                Ok(spec_haenge_an(z1, ParseOptionView::Unspecified))
            } else if c == 't' || c == '\u{22A4}' {
                let z1 = spec_setze_oder_haenge(z, ParseOptionView::Top);
                if z1.eltern.len() > 0 {
                    spec_move_up(z1)
                } else {
                    Ok(z1)
                }
            } else if c == 'f' || c == '\u{22A5}' {
                let z1 = spec_setze_oder_haenge(z, ParseOptionView::Bottom);
                if z1.eltern.len() > 0 {
                    spec_move_up(z1)
                } else {
                    Ok(z1)
                }
            } else if c == '-' || c == '\u{00AC}' {
                let z1 = spec_setze_oder_haenge(z, ParseOptionView::Not);
                Ok(spec_haenge_an(z1, ParseOptionView::Unspecified))
            } else if c == ' ' {
                Ok(z)
            } else {
                match z.fokus.option {
                    ParseOptionView::Variable(name, _) => Ok(
                        spec_setze(z, ParseOptionView::Variable(name.push(c), false)),
                    ),
                    ParseOptionView::Unspecified => Ok(
                        spec_setze(z, ParseOptionView::Variable(seq![c], false)),
                    ),
                    _ => Ok(spec_haenge_an(z, ParseOptionView::Variable(seq![c], false))),
                }
            }
        },
    }
}

/// The parser state after reading `zeichen`, or the first error met.
pub open spec fn lauf(zeichen: Seq<char>) -> Result<ZustandView, ParseError>
    decreases zeichen.len(),
{
    if zeichen.len() == 0 {
        Ok(spec_anfang())
    } else {
        match lauf(zeichen.drop_last()) {
            Err(e) => Err(e),
            Ok(z) => spec_schritt(z, zeichen.last()),
        }
    }
}

/// The root of the whole tree: the focus with the ancestor stack folded back
/// around it.
pub open spec fn wurzel_von(fokus: KnotenView, eltern: Seq<KnotenView>) -> KnotenView
    decreases eltern.len(),
{
    if eltern.len() == 0 {
        fokus
    } else {
        wurzel_von(spec_anfuegen(fokus, eltern.last()), eltern.drop_last())
    }
}

/// Converts a finished parse node into a formula, bottom-up: an unspecified
/// node splices to its first child or to nothing, a negation without an
/// operand converts to nothing, and a group keeps the children that convert.
pub open spec fn baue(k: KnotenView) -> Option<FunktionView>
    decreases k,
{
    match k.option {
        ParseOptionView::Variable(name, _) => Some(FunktionView::Variabel(name)),
        ParseOptionView::Top => Some(FunktionView::Top),
        ParseOptionView::Bottom => Some(FunktionView::Bottom),
        ParseOptionView::Not => {
            if k.kinder.len() == 0 {
                None
            } else {
                match baue(k.kinder[0]) {
                    None => None,
                    Some(f) => Some(FunktionView::Not(Box::new(f))),
                }
            }
        },
        ParseOptionView::And => Some(FunktionView::And(baue_liste(k.kinder))),
        ParseOptionView::Or => Some(FunktionView::Or(baue_liste(k.kinder))),
        ParseOptionView::Unspecified => {
            if k.kinder.len() == 0 {
                None
            } else {
                baue(k.kinder[0])
            }
        },
        ParseOptionView::Nothing => {
            if k.kinder.len() == 0 {
                None
            } else {
                baue(k.kinder[0])
            }
        },
    }
}

/// The conversions of the children that convert, in order.
pub open spec fn baue_liste(kinder: Seq<KnotenView>) -> Seq<FunktionView>
    decreases kinder,
{
    if kinder.len() == 0 {
        Seq::empty()
    } else {
        let base = baue_liste(kinder.drop_last());
        match baue(kinder.last()) {
            None => base,
            Some(f) => base.push(f),
        }
    }
}

/// What parsing `zeichen` yields: the formula, or the first error.
pub open spec fn parse_ergebnis(zeichen: Seq<char>) -> Result<FunktionView, ParseError> {
    match lauf(zeichen) {
        Err(e) => Err(e),
        Ok(z) => match baue(wurzel_von(z.fokus, z.eltern)) {
            None => Err(ParseError::ToNone),
            Some(f) => Ok(f),
        },
    }
}

/// The empty input parses to no formula: the parser reports `ToNone`.
pub proof fn lemma_leere_eingabe()
    ensures
        parse_ergebnis(Seq::empty()) == Err::<FunktionView, ParseError>(ParseError::ToNone),
{
    assert(lauf(Seq::empty()) == Ok::<ZustandView, ParseError>(spec_anfang()));
    assert(wurzel_von(spec_anfang().fokus, spec_anfang().eltern) == spec_anfang().fokus);
    assert(baue(spec_anfang().fokus) is None);
}

/// Relies on String::push: appends one character to the string.
#[verifier::external_body]
pub(crate) fn haenge_zeichen_an(s: &mut String, c: char)
    ensures
        final(s)@ == old(s)@.push(c),
{
    s.push(c);
}

/// Appending an element appends its view.
pub proof fn lemma_ansichten_anfuegen(s: Seq<ParseKnoten>, x: ParseKnoten)
    ensures
        knoten_ansichten(s.push(x)) == knoten_ansichten(s).push(knoten_ansicht(&x)),
{
    assert(s.push(x).drop_last() =~= s);
    assert(s.push(x).last() == x);
}

/// Dropping the last element drops its view.
pub proof fn lemma_ansichten_letztes(s: Seq<ParseKnoten>)
    requires
        s.len() > 0,
    ensures
        knoten_ansichten(s).len() == s.len(),
        knoten_ansichten(s.drop_last()) == knoten_ansichten(s).drop_last(),
        knoten_ansicht(&s.last()) == knoten_ansichten(s).last(),
{
    lemma_knoten_ansichten(s);
    lemma_knoten_ansichten(s.drop_last());
    assert(knoten_ansichten(s.drop_last()) =~= knoten_ansichten(s).drop_last());
}

/// Ascends to the parent, reattaching the node under the cursor as its last
/// child; from a negation the ascent continues, as far as parents are left.
pub fn move_up(zustand: ParseZustand) -> (r: Result<ParseZustand, ParseError>)
    ensures
        match r {
            Ok(neu) => spec_move_up(zustand@) == Ok::<ZustandView, ParseError>(neu@),
            Err(e) => spec_move_up(zustand@) == Err::<ZustandView, ParseError>(e),
        },
{
    let ParseZustand { mut fokus, mut eltern } = zustand;
    if eltern.len() == 0 {
        return Err(ParseError::NoParent);
    }
    let ghost ziel = spec_steige_weiter(
        spec_anfuegen(zustand@.fokus, zustand@.eltern.last()),
        zustand@.eltern.drop_last(),
    );
    proof {
        lemma_ansichten_letztes(eltern@);
    }
    let mut p = match eltern.pop() {
        Some(p) => p,
        None => vstd::pervasive::unreached(),
    };
    let ghost alt_fokus = fokus@;
    let ghost p_ansicht = knoten_ansicht(&p);
    let ghost p_kinder = p.kinder@;
    let ghost altes_fokus_wert = fokus;
    p.kinder.push(fokus);
    fokus = p;
    proof {
        lemma_ansichten_anfuegen(p_kinder, altes_fokus_wert);
        assert(fokus@ == spec_anfuegen(alt_fokus, p_ansicht));
        assert(spec_steige_weiter(fokus@, knoten_ansichten(eltern@)) == ziel);
    }
    loop
        invariant
            spec_steige_weiter(fokus@, knoten_ansichten(eltern@)) == ziel,
            spec_move_up(zustand@) == Ok::<ZustandView, ParseError>(ziel),
        decreases eltern@.len(),
    {
        let weiter = match &fokus.parsed.option {
            ParseOption::NOT() => eltern.len() > 0,
            _ => false,
        };
        if !weiter {
            proof {
                assert(!(fokus@.option is Not && knoten_ansichten(eltern@).len() > 0)) by {
                    lemma_knoten_ansichten(eltern@);
                }
                assert(ZustandView { fokus: fokus@, eltern: knoten_ansichten(eltern@) } == ziel);
            }
            return Ok(ParseZustand { fokus, eltern });
        }
        proof {
            lemma_ansichten_letztes(eltern@);
        }
        let mut p = match eltern.pop() {
            Some(p) => p,
            None => vstd::pervasive::unreached(),
        };
        let ghost alt_fokus = fokus@;
        let ghost p_ansicht = knoten_ansicht(&p);
        let ghost p_kinder = p.kinder@;
        let ghost altes_fokus_wert = fokus;
        p.kinder.push(fokus);
        fokus = p;
        proof {
            lemma_ansichten_anfuegen(p_kinder, altes_fokus_wert);
            assert(fokus@ == spec_anfuegen(alt_fokus, p_ansicht));
        }
    }
}

/// The cursor before the first character.
fn anfangszustand() -> (r: ParseZustand)
    ensures
        r@ == spec_anfang(),
{
    let r = ParseZustand {
        fokus: ParseKnoten { parsed: Parsed { option: ParseOption::UNSPECIFIED() }, kinder: Vec::new() },
        eltern: Vec::new(),
    };
    proof {
        assert(knoten_ansichten(r.fokus.kinder@) =~= Seq::<KnotenView>::empty());
        assert(knoten_ansichten(r.eltern@) =~= Seq::<KnotenView>::empty());
        assert(r@.fokus.kinder =~= Seq::<KnotenView>::empty());
        assert(r@.eltern =~= Seq::<KnotenView>::empty());
    }
    r
}

/// Appends a node with `option` under the cursor and descends into it.
fn append_and_move_down(zustand: ParseZustand, option: ParseOption) -> (r: ParseZustand)
    ensures
        r@ == spec_haenge_an(zustand@, option@),
{
    let ghost vorher = zustand@;
    let ParseZustand { fokus, mut eltern } = zustand;
    let ghost eltern_vorher = eltern@;
    let ghost fokus_wert = fokus;
    eltern.push(fokus);
    let r = ParseZustand {
        fokus: ParseKnoten { parsed: Parsed { option }, kinder: Vec::new() },
        eltern,
    };
    proof {
        lemma_ansichten_anfuegen(eltern_vorher, fokus_wert);
        assert(knoten_ansichten(r.fokus.kinder@) =~= Seq::<KnotenView>::empty());
        assert(r@.fokus.kinder =~= Seq::<KnotenView>::empty());
    }
    r
}

/// Appends a not-yet-specified node under the cursor and descends into it.
pub fn append_unspecified_and_move_down(zustand: ParseZustand) -> (r: ParseZustand)
    ensures
        r@ == spec_haenge_an(zustand@, ParseOptionView::Unspecified),
{
    append_and_move_down(zustand, ParseOption::UNSPECIFIED())
}

/// Whether the node under the cursor is not yet specified.
pub fn is_unspecified(zustand: &ParseZustand) -> (r: bool)
    ensures
        r == (zustand@.fokus.option is Unspecified),
{
    match &zustand.fokus.parsed.option {
        ParseOption::UNSPECIFIED() => true,
        _ => false,
    }
}

/// Whether the node under the cursor is a variable still open for more
/// characters.
fn is_unclosed_variable(zustand: &ParseZustand) -> (r: bool)
    ensures
        r == ist_offene_variable(zustand@),
{
    match &zustand.fokus.parsed.option {
        ParseOption::VARIABLE(_, zu) => !*zu,
        _ => false,
    }
}

/// Marks the variable under the cursor as closed.
fn close_var(zustand: ParseZustand) -> (r: ParseZustand)
    ensures
        r@ == spec_schliesse(zustand@),
{
    let ParseZustand { fokus, eltern } = zustand;
    let ParseKnoten { parsed, kinder } = fokus;
    let neue = match parsed.option {
        ParseOption::VARIABLE(name, _) => ParseOption::VARIABLE(name, true),
        andere => andere,
    };
    ParseZustand { fokus: ParseKnoten { parsed: Parsed { option: neue }, kinder }, eltern }
}

/// Replaces the tag of the node under the cursor.
fn set_option(zustand: ParseZustand, option: ParseOption) -> (r: ParseZustand)
    ensures
        r@ == spec_setze(zustand@, option@),
{
    let ParseZustand { fokus, eltern } = zustand;
    let ParseKnoten { parsed: _, kinder } = fokus;
    ParseZustand { fokus: ParseKnoten { parsed: Parsed { option }, kinder }, eltern }
}

/// Specifies a not-yet-specified node, or appends a sibling under it and
/// descends.
fn set_or_append_option(zustand: ParseZustand, option: ParseOption) -> (r: ParseZustand)
    ensures
        r@ == spec_setze_oder_haenge(zustand@, option@),
{
    if is_unspecified(&zustand) {
        set_option(zustand, option)
    } else {
        append_and_move_down(zustand, option)
    }
}

/// Whether the node under the cursor has a parent.
fn has_parent(zustand: &ParseZustand) -> (r: bool)
    ensures
        r == (zustand@.eltern.len() > 0),
{
    proof {
        lemma_knoten_ansichten(zustand.eltern@);
    }
    zustand.eltern.len() > 0
}

/// Puts a fresh, not-yet-specified root above the current root and moves the
/// cursor to it.
fn add_unspecified_root_and_move_up(zustand: ParseZustand) -> (r: ParseZustand)
    ensures
        r@ == spec_neue_wurzel(zustand@),
{
    let ParseZustand { fokus, eltern } = zustand;
    let ghost fokus_wert = fokus;
    let mut kinder: Vec<ParseKnoten> = Vec::new();
    kinder.push(fokus);
    let r = ParseZustand {
        fokus: ParseKnoten { parsed: Parsed { option: ParseOption::UNSPECIFIED() }, kinder },
        eltern,
    };
    proof {
        assert(r.fokus.kinder@ =~= Seq::<ParseKnoten>::empty().push(fokus_wert));
        lemma_ansichten_anfuegen(Seq::<ParseKnoten>::empty(), fokus_wert);
        assert(knoten_ansichten(Seq::<ParseKnoten>::empty()) =~= Seq::<KnotenView>::empty());
        assert(r@.fokus.kinder =~= seq![fokus_wert@]);
    }
    r
}

/// Whether `c` ends an in-progress variable name.
fn ist_steuer(c: char) -> (r: bool)
    ensures
        r == ist_steuerzeichen(c),
{
    match c {
        '|' | '\u{22C1}' | '&' | '\u{22C0}' | '(' | ')' | 't' | '\u{22A4}' | '-' | '\u{00AC}'
        | ' ' => true,
        _ => false,
    }
}

/// One step of the parser on one character.
fn verarbeite(zustand: ParseZustand, c: char) -> (r: Result<ParseZustand, ParseError>)
    ensures
        match r {
            Ok(neu) => spec_schritt(zustand@, c) == Ok::<ZustandView, ParseError>(neu@),
            Err(e) => spec_schritt(zustand@, c) == Err::<ZustandView, ParseError>(e),
        },
{
    let mut z = zustand;
    if ist_steuer(c) && is_unclosed_variable(&z) {
        z = close_var(z);
        z = match move_up(z) {
            Ok(z2) => z2,
            Err(e) => {
                return Err(e);
            },
        };
    }
    proof {
        assert(spec_vorbereitung(zustand@, c) == Ok::<ZustandView, ParseError>(z@));
    }
    if c == '|' || c == '\u{22C1}' {
        Ok(set_option(z, ParseOption::OR()))
    } else if c == '&' || c == '\u{22C0}' {
        Ok(set_option(z, ParseOption::AND()))
    } else if c == ')' {
        if !has_parent(&z) {
            Ok(add_unspecified_root_and_move_up(z))
        } else {
            match move_up(z) {
                Ok(z2) => Ok(z2),
                Err(_) => vstd::pervasive::unreached(),
            }
        }
    } else if c == '(' {
        if !is_unspecified(&z) {
            z = append_unspecified_and_move_down(z);
        }
        Ok(append_unspecified_and_move_down(z))
    } else if c == 't' || c == '\u{22A4}' {
        let z1 = set_or_append_option(z, ParseOption::TOP());
        if has_parent(&z1) {
            match move_up(z1) {
                Ok(z2) => Ok(z2),
                Err(_) => vstd::pervasive::unreached(),
            }
        } else {
            Ok(z1)
        }
    } else if c == 'f' || c == '\u{22A5}' {
        let z1 = set_or_append_option(z, ParseOption::BOTTOM());
        if has_parent(&z1) {
            match move_up(z1) {
                Ok(z2) => Ok(z2),
                Err(_) => vstd::pervasive::unreached(),
            }
        } else {
            Ok(z1)
        }
    } else if c == '-' || c == '\u{00AC}' {
        let z1 = set_or_append_option(z, ParseOption::NOT());
        Ok(append_unspecified_and_move_down(z1))
    } else if c == ' ' {
        Ok(z)
    } else {
        let erweitert: Option<String> = match &z.fokus.parsed.option {
            ParseOption::VARIABLE(name, _) => Some(name.clone()),
            _ => None,
        };
        match erweitert {
            Some(name) => {
                let mut neu = name;
                haenge_zeichen_an(&mut neu, c);
                Ok(set_option(z, ParseOption::VARIABLE(neu, false)))
            },
            None => {
                let mut neu = String::new();
                haenge_zeichen_an(&mut neu, c);
                proof {
                    assert(neu@ =~= seq![c]);
                }
                if is_unspecified(&z) {
                    Ok(set_option(z, ParseOption::VARIABLE(neu, false)))
                } else {
                    Ok(append_and_move_down(z, ParseOption::VARIABLE(neu, false)))
                }
            },
        }
    }
}

/// A run that has failed stays failed, however much input follows.
proof fn lemma_lauf_fehler(zeichen: Seq<char>, j: int, e: ParseError)
    requires
        0 <= j <= zeichen.len(),
        lauf(zeichen.subrange(0, j)) == Err::<ZustandView, ParseError>(e),
    ensures
        lauf(zeichen) == Err::<ZustandView, ParseError>(e),
    decreases zeichen.len() - j,
{
    if j == zeichen.len() {
        assert(zeichen.subrange(0, j) =~= zeichen);
    } else {
        assert(zeichen.subrange(0, j + 1).drop_last() =~= zeichen.subrange(0, j));
        lemma_lauf_fehler(zeichen, j + 1, e);
    }
}

/// Converts the children of `ganz` that convert, in order.
fn to_structures_liste(ganz: &ParseKnoten, kinder: &Vec<ParseKnoten>) -> (r: Vec<
    Box<AussagenFunktion>,
>)
    requires
        ganz.kinder@ == kinder@,
    ensures
        crate::aussagen::structures::funktion_ansichten(r@) == baue_liste(
            knoten_ansichten(kinder@),
        ),
    decreases *ganz, 0int,
{
    let ghost alle = knoten_ansichten(kinder@);
    proof {
        lemma_knoten_ansichten(kinder@);
    }
    let mut r: Vec<Box<AussagenFunktion>> = Vec::new();
    let mut i: usize = 0;
    proof {
        assert(alle.subrange(0, 0) =~= Seq::<KnotenView>::empty());
        assert(crate::aussagen::structures::funktion_ansichten(r@) =~= Seq::<
            FunktionView,
        >::empty());
    }
    while i < kinder.len()
        invariant
            0 <= i <= kinder@.len(),
            ganz.kinder@ == kinder@,
            alle == knoten_ansichten(kinder@),
            alle.len() == kinder@.len(),
            forall|j: int| 0 <= j < kinder@.len() ==> alle[j] == knoten_ansicht(&kinder@[j]),
            crate::aussagen::structures::funktion_ansichten(r@) == baue_liste(
                alle.subrange(0, i as int),
            ),
        decreases kinder@.len() - i,
    {
        proof {
            assert(decreases_to!(*ganz => ganz.kinder));
            assert(decreases_to!(ganz.kinder => kinder@[i as int]));
        }
        let ghost vorher = r@;
        let teil = to_structures(&kinder[i]);
        match teil {
            Some(f) => {
                r.push(f);
                proof {
                    assert(r@.drop_last() =~= vorher);
                }
            },
            None => {},
        }
        proof {
            assert(alle.subrange(0, i + 1).drop_last() =~= alle.subrange(0, i as int));
            assert(alle.subrange(0, i + 1).last() == alle[i as int]);
        }
        i += 1;
    }
    proof {
        assert(alle.subrange(0, kinder@.len() as int) =~= alle);
    }
    r
}

/// Converts a finished parse node into the immutable syntax tree, bottom-up.
fn to_structures(knoten: &ParseKnoten) -> (r: Option<Box<AussagenFunktion>>)
    ensures
        match baue(knoten@) {
            None => r is None,
            Some(v) => (r matches Some(f) && f@ == v),
        },
    decreases *knoten, 1int,
{
    proof {
        lemma_knoten_ansichten(knoten.kinder@);
    }
    match &knoten.parsed.option {
        ParseOption::VARIABLE(name, _) => Some(
            Box::new(AussagenFunktion::VARIABEL(name.clone())),
        ),
        ParseOption::TOP() => Some(Box::new(AussagenFunktion::TOP())),
        ParseOption::BOTTOM() => Some(Box::new(AussagenFunktion::BOTTOM())),
        ParseOption::NOT() => {
            if knoten.kinder.len() == 0 {
                None
            } else {
                proof {
                    assert(decreases_to!(*knoten => knoten.kinder));
                    assert(decreases_to!(knoten.kinder => knoten.kinder@[0]));
                }
                match to_structures(&knoten.kinder[0]) {
                    None => None,
                    Some(f) => Some(Box::new(AussagenFunktion::NOT(f))),
                }
            }
        },
        ParseOption::AND() => {
            let v = to_structures_liste(knoten, &knoten.kinder);
            Some(Box::new(AussagenFunktion::AND(v)))
        },
        ParseOption::OR() => {
            let v = to_structures_liste(knoten, &knoten.kinder);
            Some(Box::new(AussagenFunktion::OR(v)))
        },
        ParseOption::UNSPECIFIED() => {
            if knoten.kinder.len() == 0 {
                None
            } else {
                proof {
                    assert(decreases_to!(*knoten => knoten.kinder));
                    assert(decreases_to!(knoten.kinder => knoten.kinder@[0]));
                }
                to_structures(&knoten.kinder[0])
            }
        },
        ParseOption::NOTHING() => {
            if knoten.kinder.len() == 0 {
                None
            } else {
                proof {
                    assert(decreases_to!(*knoten => knoten.kinder));
                    assert(decreases_to!(knoten.kinder => knoten.kinder@[0]));
                }
                to_structures(&knoten.kinder[0])
            }
        },
    }
}

/// Parses `eingabe` into a formula: one pass over the characters, then the
/// conversion of the finished parse tree. An input whose tree reduces to no
/// formula (for one, the empty input) gives `ToNone`; a variable closed at
/// the top level, with no group around it, gives `NoParent`.
pub fn parse_function(eingabe: &str) -> (r: Result<Box<AussagenFunktion>, ParseError>)
    ensures
        match parse_ergebnis(eingabe@) {
            Ok(v) => (r matches Ok(f) && f@ == v),
            Err(e) => (r matches Err(e2) && e2 == e),
        },
{
    let laenge = eingabe.unicode_len();
    let mut zustand = anfangszustand();
    let mut i: usize = 0;
    proof {
        assert(eingabe@.subrange(0, 0) =~= Seq::<char>::empty());
    }
    while i < laenge
        invariant
            0 <= i <= eingabe@.len(),
            laenge == eingabe@.len(),
            lauf(eingabe@.subrange(0, i as int)) == Ok::<ZustandView, ParseError>(zustand@),
        decreases eingabe@.len() - i,
    {
        let c = eingabe.get_char(i);
        zustand = match verarbeite(zustand, c) {
            Ok(z) => z,
            Err(e) => {
                proof {
                    assert(eingabe@.subrange(0, i + 1).drop_last() =~= eingabe@.subrange(
                        0,
                        i as int,
                    ));
                    assert(eingabe@.subrange(0, i + 1).last() == eingabe@[i as int]);
                    assert(lauf(eingabe@.subrange(0, i + 1)) == Err::<ZustandView, ParseError>(e));
                    lemma_lauf_fehler(eingabe@, i + 1, e);
                }
                return Err(e);
            },
        };
        proof {
            assert(eingabe@.subrange(0, i + 1).drop_last() =~= eingabe@.subrange(0, i as int));
            assert(eingabe@.subrange(0, i + 1).last() == eingabe@[i as int]);
        }
        i += 1;
    }
    proof {
        assert(eingabe@.subrange(0, laenge as int) =~= eingabe@);
    }
    let ghost endzustand = zustand@;
    let ParseZustand { mut fokus, mut eltern } = zustand;
    while eltern.len() > 0
        invariant
            wurzel_von(fokus@, knoten_ansichten(eltern@)) == wurzel_von(
                endzustand.fokus,
                endzustand.eltern,
            ),
        decreases eltern@.len(),
    {
        proof {
            lemma_ansichten_letztes(eltern@);
        }
        let mut p = match eltern.pop() {
            Some(p) => p,
            None => vstd::pervasive::unreached(),
        };
        let ghost alt_fokus = fokus@;
        let ghost p_ansicht = knoten_ansicht(&p);
        let ghost p_kinder = p.kinder@;
        let ghost altes_fokus_wert = fokus;
        p.kinder.push(fokus);
        fokus = p;
        proof {
            lemma_ansichten_anfuegen(p_kinder, altes_fokus_wert);
            assert(fokus@ == spec_anfuegen(alt_fokus, p_ansicht));
        }
    }
    proof {
        lemma_knoten_ansichten(eltern@);
        assert(knoten_ansichten(eltern@) =~= Seq::<KnotenView>::empty());
    }
    let ergebnis = to_structures(&fokus);
    match ergebnis {
        None => Err(ParseError::ToNone),
        Some(f) => Ok(f),
    }
}

} // verus!
