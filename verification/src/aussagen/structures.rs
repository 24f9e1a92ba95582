//! The formula syntax tree (`AussagenFunktion`), its mathematical view
//! (`FunktionView`), the context of named formulas (`FormelKontext`), and the
//! value types of the enumeration engine (`Werte`, `Belegung`,
//! `Wahrheitstabelle`).

use vstd::prelude::*;

verus! {

/// A propositional formula: a variable leaf, one of the two constants, a
/// negation, or an n-ary conjunction or disjunction over an ordered list of
/// children.
#[derive(Debug)]
pub enum AussagenFunktion {
    VARIABEL(String),
    TOP(),
    BOTTOM(),
    NOT(Box<AussagenFunktion>),
    AND(Vec<Box<AussagenFunktion>>),
    OR(Vec<Box<AussagenFunktion>>),
}

/// The mathematical shape of a formula: the same tree with variable names as
/// character sequences.
pub enum FunktionView {
    Variabel(Seq<char>),
    Top,
    Bottom,
    Not(Box<FunktionView>),
    And(Seq<FunktionView>),
    Or(Seq<FunktionView>),
}

pub open spec fn funktion_ansicht(f: &AussagenFunktion) -> FunktionView
    decreases f,
{
    match f {
        AussagenFunktion::VARIABEL(name) => FunktionView::Variabel(name@),
        AussagenFunktion::TOP() => FunktionView::Top,
        AussagenFunktion::BOTTOM() => FunktionView::Bottom,
        AussagenFunktion::NOT(kind) => FunktionView::Not(Box::new(funktion_ansicht(&**kind))),
        AussagenFunktion::AND(kinder) => FunktionView::And(funktion_ansichten(kinder@)),
        AussagenFunktion::OR(kinder) => FunktionView::Or(funktion_ansichten(kinder@)),
    }
}

pub open spec fn funktion_ansichten(kinder: Seq<Box<AussagenFunktion>>) -> Seq<FunktionView>
    decreases kinder,
{
    if kinder.len() == 0 {
        Seq::empty()
    } else {
        funktion_ansichten(kinder.drop_last()).push(funktion_ansicht(&kinder.last()))
    }
}

impl View for AussagenFunktion {
    type V = FunktionView;

    open spec fn view(&self) -> FunktionView {
        funktion_ansicht(self)
    }
}

/// The view of a child list is the pointwise view of its elements.
pub proof fn lemma_funktion_ansichten(kinder: Seq<Box<AussagenFunktion>>)
    ensures
        funktion_ansichten(kinder).len() == kinder.len(),
        forall|i: int|
            0 <= i < kinder.len() ==> funktion_ansichten(kinder)[i] == funktion_ansicht(
                &kinder[i],
            ),
    decreases kinder.len(),
{
    if kinder.len() > 0 {
        lemma_funktion_ansichten(kinder.drop_last());
    }
}

impl AussagenFunktion {
    /// Structural equality: same variant, same name or the same children in
    /// the same order, recursively.
    pub fn ist_gleich(&self, anderes: &AussagenFunktion) -> (r: bool)
        ensures
            r == (self@ == anderes@),
        decreases *self, 1int,
    {
        match (self, anderes) {
            (AussagenFunktion::VARIABEL(a), AussagenFunktion::VARIABEL(b)) => *a == *b,
            (AussagenFunktion::TOP(), AussagenFunktion::TOP()) => true,
            (AussagenFunktion::BOTTOM(), AussagenFunktion::BOTTOM()) => true,
            (AussagenFunktion::NOT(a), AussagenFunktion::NOT(b)) => (&**a).ist_gleich(&**b),
            (AussagenFunktion::AND(xs), AussagenFunktion::AND(ys)) => {
                kinder_gleich(self, xs, ys)
            },
            (AussagenFunktion::OR(xs), AussagenFunktion::OR(ys)) => {
                kinder_gleich(self, xs, ys)
            },
            _ => false,
        }
    }
}

/// Pointwise equality of two child lists; `ganz` is the formula that owns
/// `xs`, passed along only to bound the recursion.
fn kinder_gleich(
    ganz: &AussagenFunktion,
    xs: &Vec<Box<AussagenFunktion>>,
    ys: &Vec<Box<AussagenFunktion>>,
) -> (r: bool)
    requires
        (*ganz matches AussagenFunktion::AND(k) && k@ == xs@) || (*ganz
            matches AussagenFunktion::OR(k) && k@ == xs@),
    ensures
        r == (funktion_ansichten(xs@) == funktion_ansichten(ys@)),
    decreases *ganz, 0int,
{
    proof {
        lemma_funktion_ansichten(xs@);
        lemma_funktion_ansichten(ys@);
    }
    if xs.len() != ys.len() {
        proof {
            assert(funktion_ansichten(xs@).len() != funktion_ansichten(ys@).len());
        }
        return false;
    }
    let mut i: usize = 0;
    while i < xs.len()
        invariant
            0 <= i <= xs.len(),
            xs.len() == ys.len(),
            (*ganz matches AussagenFunktion::AND(k) && k@ == xs@) || (*ganz
                matches AussagenFunktion::OR(k) && k@ == xs@),
            forall|j: int|
                0 <= j < i ==> funktion_ansicht(&xs@[j]) == funktion_ansicht(&ys@[j]),
        decreases xs.len() - i,
    {
        proof {
            assert(decreases_to!(*ganz => xs@[i as int]));
        }
        if !(&*xs[i]).ist_gleich(&*ys[i]) {
            proof {
                lemma_funktion_ansichten(xs@);
                lemma_funktion_ansichten(ys@);
                assert(funktion_ansichten(xs@)[i as int] != funktion_ansichten(ys@)[i as int]);
            }
            return false;
        }
        i += 1;
    }
    proof {
        lemma_funktion_ansichten(xs@);
        lemma_funktion_ansichten(ys@);
        assert(funktion_ansichten(xs@) =~= funktion_ansichten(ys@));
    }
    true
}

/// A deep copy of a child list; `ganz` is the formula that owns `xs`, passed
/// along only to bound the recursion.
fn kinder_kopie(ganz: &AussagenFunktion, xs: &Vec<Box<AussagenFunktion>>) -> (r: Vec<
    Box<AussagenFunktion>,
>)
    requires
        (*ganz matches AussagenFunktion::AND(k) && k@ == xs@) || (*ganz
            matches AussagenFunktion::OR(k) && k@ == xs@),
    ensures
        funktion_ansichten(r@) == funktion_ansichten(xs@),
    decreases *ganz, 0int,
{
    let mut r: Vec<Box<AussagenFunktion>> = Vec::new();
    let mut i: usize = 0;
    while i < xs.len()
        invariant
            0 <= i <= xs.len(),
            r@.len() == i,
            (*ganz matches AussagenFunktion::AND(k) && k@ == xs@) || (*ganz
                matches AussagenFunktion::OR(k) && k@ == xs@),
            forall|j: int| 0 <= j < i ==> funktion_ansicht(&r@[j]) == funktion_ansicht(&xs@[j]),
        decreases xs.len() - i,
    {
        proof {
            assert(decreases_to!(*ganz => xs@[i as int]));
        }
        r.push(Box::new((*xs[i]).clone()));
        i += 1;
    }
    proof {
        lemma_funktion_ansichten(r@);
        lemma_funktion_ansichten(xs@);
        assert(funktion_ansichten(r@) =~= funktion_ansichten(xs@));
    }
    r
}

impl Clone for AussagenFunktion {
    /// The copy has the same view as the original.
    fn clone(&self) -> (r: AussagenFunktion)
        ensures
            r@ == self@,
        decreases *self, 1int,
    {
        match self {
            AussagenFunktion::VARIABEL(name) => AussagenFunktion::VARIABEL(name.clone()),
            AussagenFunktion::TOP() => AussagenFunktion::TOP(),
            AussagenFunktion::BOTTOM() => AussagenFunktion::BOTTOM(),
            AussagenFunktion::NOT(kind) => AussagenFunktion::NOT(Box::new((**kind).clone())),
            AussagenFunktion::AND(kinder) => AussagenFunktion::AND(kinder_kopie(self, kinder)),
            AussagenFunktion::OR(kinder) => AussagenFunktion::OR(kinder_kopie(self, kinder)),
        }
    }
}

impl PartialEq for AussagenFunktion {
    fn eq(&self, other: &AussagenFunktion) -> (r: bool) {
        self.ist_gleich(other)
    }
}

impl Eq for AussagenFunktion {

}

impl vstd::std_specs::cmp::PartialEqSpecImpl for AussagenFunktion {
    open spec fn obeys_eq_spec() -> bool {
        true
    }

    open spec fn eq_spec(&self, other: &AussagenFunktion) -> bool {
        self@ == other@
    }
}

/// The assignment map seen as a mathematical map; a later pair for the same
/// name wins, though well-formed values never hold a name twice.
pub open spec fn paare_als_map(paare: Seq<(String, bool)>) -> Map<Seq<char>, bool>
    decreases paare.len(),
{
    if paare.len() == 0 {
        Map::empty()
    } else {
        paare_als_map(paare.drop_last()).insert(paare.last().0@, paare.last().1)
    }
}

/// A mapping from variable names to truth values, kept as an ordered list of
/// pairs with pairwise distinct names.
#[derive(Debug)]
pub struct Werte {
    paare: Vec<(String, bool)>,
}

impl View for Werte {
    type V = Map<Seq<char>, bool>;

    closed spec fn view(&self) -> Map<Seq<char>, bool> {
        paare_als_map(self.paare@)
    }
}

pub proof fn lemma_paare_als_map(paare: Seq<(String, bool)>)
    requires
        forall|p: int, q: int| 0 <= p < q < paare.len() ==> paare[p].0@ != paare[q].0@,
    ensures
        forall|n: Seq<char>|
            #[trigger] paare_als_map(paare).contains_key(n) <==> exists|i: int|
                0 <= i < paare.len() && paare[i].0@ == n,
        forall|i: int|
            0 <= i < paare.len() ==> paare_als_map(paare).contains_key(#[trigger] paare[i].0@)
                && paare_als_map(paare)[paare[i].0@] == paare[i].1,
    decreases paare.len(),
{
    if paare.len() > 0 {
        lemma_paare_als_map(paare.drop_last());
        assert forall|i: int| 0 <= i < paare.len() implies paare_als_map(paare).contains_key(
            #[trigger] paare[i].0@,
        ) && paare_als_map(paare)[paare[i].0@] == paare[i].1 by {
            if i < paare.len() - 1 {
                assert(paare.drop_last()[i] == paare[i]);
                assert(paare[i].0@ != paare.last().0@);
            }
        }
        assert forall|n: Seq<char>| #[trigger] paare_als_map(paare).contains_key(n) implies exists|
            i: int,
        | 0 <= i < paare.len() && paare[i].0@ == n by {
            if n == paare.last().0@ {
                assert(paare[paare.len() - 1].0@ == n);
            } else {
                assert(paare_als_map(paare.drop_last()).contains_key(n));
                let i = choose|i: int| 0 <= i < paare.drop_last().len() && paare.drop_last()[i].0@
                    == n;
                assert(paare.drop_last()[i] == paare[i]);
                assert(paare[i].0@ == n);
            }
        }
    }
}

impl Werte {
    /// Names occur at most once.
    pub closed spec fn wohlgeformt(&self) -> bool {
        forall|i: int, j: int|
            0 <= i < j < self.paare@.len() ==> self.paare@[i].0@ != self.paare@[j].0@
    }

    /// The empty assignment.
    pub fn new() -> (r: Werte)
        ensures
            r@ == Map::<Seq<char>, bool>::empty(),
            r.wohlgeformt(),
    {
        Werte { paare: Vec::new() }
    }

    fn index_von_name(&self, name: &String) -> (r: Option<usize>)
        ensures
            match r {
                Some(i) => i < self.paare@.len() && self.paare@[i as int].0@ == name@,
                None => forall|i: int| 0 <= i < self.paare@.len() ==> self.paare@[i].0@ != name@,
            },
    {
        let mut i: usize = 0;
        while i < self.paare.len()
            invariant
                0 <= i <= self.paare@.len(),
                forall|j: int| 0 <= j < i ==> self.paare@[j].0@ != name@,
            decreases self.paare@.len() - i,
        {
            let p = &self.paare[i];
            if p.0 == *name {
                return Some(i);
            }
            i += 1;
        }
        None
    }

    /// Sets `name` to `wert`, overwriting an earlier value for the same name.
    pub fn set(&mut self, name: &String, wert: bool)
        requires
            old(self).wohlgeformt(),
        ensures
            final(self).wohlgeformt(),
            final(self)@ == old(self)@.insert(name@, wert),
    {
        let idx = self.index_von_name(name);
        match idx {
            Some(i) => {
                let ghost alt = self.paare@;
                self.paare[i].1 = wert;
                proof {
                    lemma_set_update(alt, self.paare@, i as int, name@, wert);
                }
            },
            None => {
                self.paare.push((name.clone(), wert));
                proof {
                    assert(self.paare@.drop_last() =~= old(self).paare@);
                }
            },
        }
    }

    /// The value stored for `name`, if any.
    pub fn get(&self, name: &String) -> (r: Option<bool>)
        requires
            self.wohlgeformt(),
        ensures
            match r {
                Some(b) => self@.contains_key(name@) && self@[name@] == b,
                None => !self@.contains_key(name@),
            },
    {
        proof {
            lemma_paare_als_map(self.paare@);
        }
        let idx = self.index_von_name(name);
        match idx {
            Some(i) => Some(self.paare[i].1),
            None => None,
        }
    }

    /// The stored value for `name`, or `standard` where none is stored.
    pub fn get_oder(&self, name: &String, standard: bool) -> (r: bool)
        requires
            self.wohlgeformt(),
        ensures
            r == (if self@.contains_key(name@) {
                self@[name@]
            } else {
                standard
            }),
    {
        match self.get(name) {
            Some(b) => b,
            None => standard,
        }
    }

    /// An independent copy with the same contents.
    pub fn kopie(&self) -> (r: Werte)
        requires
            self.wohlgeformt(),
        ensures
            r@ == self@,
            r.wohlgeformt(),
    {
        let mut paare: Vec<(String, bool)> = Vec::new();
        let mut i: usize = 0;
        while i < self.paare.len()
            invariant
                0 <= i <= self.paare@.len(),
                paare@.len() == i,
                forall|j: int|
                    0 <= j < i ==> paare@[j].0@ == self.paare@[j].0@ && paare@[j].1
                        == self.paare@[j].1,
            decreases self.paare@.len() - i,
        {
            paare.push((self.paare[i].0.clone(), self.paare[i].1));
            i += 1;
        }
        proof {
            lemma_paare_map_kongruenz(paare@, self.paare@);
        }
        Werte { paare }
    }

    /// The pairs in storage order, for display at the outer boundary.
    pub fn eintraege(&self) -> (r: &Vec<(String, bool)>)
        requires
            self.wohlgeformt(),
        ensures
            forall|i: int|
                0 <= i < r@.len() ==> self@.contains_key(#[trigger] r@[i].0@) && self@[r@[i].0@]
                    == r@[i].1,
            forall|n: Seq<char>|
                self@.contains_key(n) ==> exists|i: int| 0 <= i < r@.len() && r@[i].0@ == n,
    {
        proof {
            lemma_paare_als_map(self.paare@);
        }
        &self.paare
    }
}

/// One row of a truth table: the assignment tried (`werte`) and the result of
/// each queried formula under it (`ergebnisse`), both keyed by name.
#[derive(Debug)]
pub struct Belegung {
    pub werte: Werte,
    pub ergebnisse: Werte,
}

/// The mathematical shape of a row.
pub struct BelegungAnsicht {
    pub werte: Map<Seq<char>, bool>,
    pub ergebnisse: Map<Seq<char>, bool>,
}

impl View for Belegung {
    type V = BelegungAnsicht;

    open spec fn view(&self) -> BelegungAnsicht {
        BelegungAnsicht { werte: self.werte@, ergebnisse: self.ergebnisse@ }
    }
}

impl Belegung {
    pub open spec fn wohlgeformt(&self) -> bool {
        self.werte.wohlgeformt() && self.ergebnisse.wohlgeformt()
    }
}

/// A truth table: rows in enumeration order, plus the display order of the
/// queried formula names.
#[derive(Debug)]
pub struct Wahrheitstabelle {
    pub belegungen: Vec<Belegung>,
    pub reihenfolge: Vec<String>,
}

/// The mathematical shape of a truth table.
pub struct WahrheitstabelleAnsicht {
    pub belegungen: Seq<BelegungAnsicht>,
    pub reihenfolge: Seq<Seq<char>>,
}

impl View for Wahrheitstabelle {
    type V = WahrheitstabelleAnsicht;

    open spec fn view(&self) -> WahrheitstabelleAnsicht {
        WahrheitstabelleAnsicht {
            belegungen: self.belegungen@.map_values(|b: Belegung| b@),
            reihenfolge: self.reihenfolge@.map_values(|s: String| s@),
        }
    }
}

impl Wahrheitstabelle {
    pub open spec fn wohlgeformt(&self) -> bool {
        forall|i: int| 0 <= i < self.belegungen@.len() ==> (#[trigger] self.belegungen@[i]).wohlgeformt()
    }

    /// Appends the rows of `tabelle` behind the own rows; the display order
    /// stays as it is.
    pub fn join(&mut self, tabelle: Wahrheitstabelle)
        ensures
            final(self)@.belegungen == old(self)@.belegungen + tabelle@.belegungen,
            final(self)@.reihenfolge == old(self)@.reihenfolge,
            old(self).wohlgeformt() && tabelle.wohlgeformt() ==> final(self).wohlgeformt(),
    {
        let mut uebrig = tabelle;
        self.belegungen.append(&mut uebrig.belegungen);
        proof {
            assert(self@.belegungen =~= old(self)@.belegungen + tabelle@.belegungen);
        }
    }
}

/// Two pair lists with pointwise equal names and values make the same map.
proof fn lemma_paare_map_kongruenz(a: Seq<(String, bool)>, b: Seq<(String, bool)>)
    requires
        a.len() == b.len(),
        forall|i: int| 0 <= i < a.len() ==> a[i].0@ == b[i].0@ && a[i].1 == b[i].1,
    ensures
        paare_als_map(a) == paare_als_map(b),
    decreases a.len(),
{
    if a.len() > 0 {
        lemma_paare_map_kongruenz(a.drop_last(), b.drop_last());
        assert(paare_als_map(a) =~= paare_als_map(b));
    }
}

/// The ordered entries of a context: pairs of name and stored formula.
pub type KontextAnsicht = Seq<(Seq<char>, FunktionView)>;

/// The index of the first entry named `name`, or `-1` where there is none.
pub open spec fn index_von(kontext: KontextAnsicht, name: Seq<char>) -> int
    decreases kontext.len(),
{
    if kontext.len() == 0 {
        -1
    } else if kontext[0].0 == name {
        0
    } else {
        let rest = index_von(kontext.drop_first(), name);
        if rest < 0 {
            -1
        } else {
            rest + 1
        }
    }
}

pub open spec fn enthaelt_name(kontext: KontextAnsicht, name: Seq<char>) -> bool {
    index_von(kontext, name) >= 0
}

/// The formula stored under `name`.
pub open spec fn formel_zu(kontext: KontextAnsicht, name: Seq<char>) -> FunktionView {
    kontext[index_von(kontext, name)].1
}

pub proof fn lemma_index_von(kontext: KontextAnsicht, name: Seq<char>)
    ensures
        -1 <= index_von(kontext, name) < kontext.len(),
        index_von(kontext, name) >= 0 ==> kontext[index_von(kontext, name)].0 == name,
        (index_von(kontext, name) == -1) <==> (forall|i: int|
            0 <= i < kontext.len() ==> kontext[i].0 != name),
        forall|i: int| 0 <= i < index_von(kontext, name) ==> kontext[i].0 != name,
    decreases kontext.len(),
{
    if kontext.len() > 0 && kontext[0].0 != name {
        lemma_index_von(kontext.drop_first(), name);
        assert(forall|i: int|
            0 <= i < kontext.drop_first().len() ==> kontext.drop_first()[i] == kontext[i + 1]);
        let rest = index_von(kontext.drop_first(), name);
        if rest >= 0 {
            assert(index_von(kontext, name) == rest + 1);
            assert(kontext.drop_first()[rest] == kontext[rest + 1]);
            assert forall|i: int| 0 <= i < index_von(kontext, name) implies kontext[i].0
                != name by {
                if i > 0 {
                    assert(kontext.drop_first()[i - 1] == kontext[i]);
                }
            }
        } else {
            assert forall|i: int| 0 <= i < kontext.len() implies kontext[i].0 != name by {
                if i > 0 {
                    assert(kontext.drop_first()[i - 1] == kontext[i]);
                }
            }
        }
    }
}

/// The value of `f` under `belegung`, resolving variables through the whole
/// context: a variable whose name is stored is a macro for its stored
/// formula, any other name is read from the assignment, with `standard` for
/// names the assignment does not hold. Each expansion burns one unit of
/// `treibstoff`, which keeps the recursion finite; with fuel for every entry
/// the guard never bites on an acyclic context (`lemma_wert_entfaltung`).
pub open spec fn wert_bei(
    kontext: KontextAnsicht,
    treibstoff: nat,
    f: FunktionView,
    belegung: Map<Seq<char>, bool>,
    standard: bool,
) -> bool
    decreases treibstoff, f,
{
    match f {
        FunktionView::Variabel(name) => {
            if enthaelt_name(kontext, name) && treibstoff > 0 {
                wert_bei(kontext, (treibstoff - 1) as nat, formel_zu(kontext, name), belegung, standard)
            } else if belegung.contains_key(name) {
                belegung[name]
            } else {
                standard
            }
        },
        FunktionView::Top => true,
        FunktionView::Bottom => false,
        FunktionView::Not(kind) => !wert_bei(kontext, treibstoff, *kind, belegung, standard),
        FunktionView::And(kinder) => alle_wert(kontext, treibstoff, kinder, belegung, standard),
        FunktionView::Or(kinder) => eines_wert(kontext, treibstoff, kinder, belegung, standard),
    }
}

/// True where every child evaluates to true; an empty list gives true.
pub open spec fn alle_wert(
    kontext: KontextAnsicht,
    treibstoff: nat,
    kinder: Seq<FunktionView>,
    belegung: Map<Seq<char>, bool>,
    standard: bool,
) -> bool
    decreases treibstoff, kinder,
{
    if kinder.len() == 0 {
        true
    } else {
        wert_bei(kontext, treibstoff, kinder[0], belegung, standard) && alle_wert(
            kontext,
            treibstoff,
            kinder.drop_first(),
            belegung,
            standard,
        )
    }
}

/// True where some child evaluates to true; an empty list gives false.
pub open spec fn eines_wert(
    kontext: KontextAnsicht,
    treibstoff: nat,
    kinder: Seq<FunktionView>,
    belegung: Map<Seq<char>, bool>,
    standard: bool,
) -> bool
    decreases treibstoff, kinder,
{
    if kinder.len() == 0 {
        false
    } else {
        wert_bei(kontext, treibstoff, kinder[0], belegung, standard) || eines_wert(
            kontext,
            treibstoff,
            kinder.drop_first(),
            belegung,
            standard,
        )
    }
}

pub proof fn lemma_alle_wert(
    kontext: KontextAnsicht,
    treibstoff: nat,
    kinder: Seq<FunktionView>,
    belegung: Map<Seq<char>, bool>,
    standard: bool,
)
    ensures
        alle_wert(kontext, treibstoff, kinder, belegung, standard) <==> (forall|i: int|
            0 <= i < kinder.len() ==> wert_bei(
                kontext,
                treibstoff,
                #[trigger] kinder[i],
                belegung,
                standard,
            )),
    decreases kinder.len(),
{
    if kinder.len() > 0 {
        lemma_alle_wert(kontext, treibstoff, kinder.drop_first(), belegung, standard);
        assert(forall|i: int|
            0 <= i < kinder.drop_first().len() ==> kinder.drop_first()[i] == kinder[i + 1]);
        if alle_wert(kontext, treibstoff, kinder, belegung, standard) {
            assert forall|i: int| 0 <= i < kinder.len() implies wert_bei(
                kontext,
                treibstoff,
                #[trigger] kinder[i],
                belegung,
                standard,
            ) by {
                if i > 0 {
                    assert(kinder.drop_first()[i - 1] == kinder[i]);
                }
            }
        } else {
            if wert_bei(kontext, treibstoff, kinder[0], belegung, standard) {
                let i = choose|i: int|
                    0 <= i < kinder.drop_first().len() && !wert_bei(
                        kontext,
                        treibstoff,
                        #[trigger] kinder.drop_first()[i],
                        belegung,
                        standard,
                    );
                assert(!wert_bei(kontext, treibstoff, kinder[i + 1], belegung, standard));
            }
        }
    }
}

pub proof fn lemma_eines_wert(
    kontext: KontextAnsicht,
    treibstoff: nat,
    kinder: Seq<FunktionView>,
    belegung: Map<Seq<char>, bool>,
    standard: bool,
)
    ensures
        eines_wert(kontext, treibstoff, kinder, belegung, standard) <==> (exists|i: int|
            0 <= i < kinder.len() && wert_bei(
                kontext,
                treibstoff,
                #[trigger] kinder[i],
                belegung,
                standard,
            )),
    decreases kinder.len(),
{
    if kinder.len() > 0 {
        lemma_eines_wert(kontext, treibstoff, kinder.drop_first(), belegung, standard);
        assert(forall|i: int|
            0 <= i < kinder.drop_first().len() ==> kinder.drop_first()[i] == kinder[i + 1]);
        if eines_wert(kontext, treibstoff, kinder.drop_first(), belegung, standard) {
            let i = choose|i: int|
                0 <= i < kinder.drop_first().len() && wert_bei(
                    kontext,
                    treibstoff,
                    #[trigger] kinder.drop_first()[i],
                    belegung,
                    standard,
                );
            assert(wert_bei(kontext, treibstoff, kinder[i + 1], belegung, standard));
        } else if !wert_bei(kontext, treibstoff, kinder[0], belegung, standard) {
            assert forall|i: int| 0 <= i < kinder.len() implies !wert_bei(
                kontext,
                treibstoff,
                #[trigger] kinder[i],
                belegung,
                standard,
            ) by {
                if i > 0 {
                    assert(kinder.drop_first()[i - 1] == kinder[i]);
                }
            }
        }
    }
}

/// The value of `f`, with fuel for one expansion per context entry: on an
/// acyclic context an expansion chain never meets a name twice, so this much
/// fuel provably never runs out (`lemma_wert_entfaltung`,
/// `lemma_wert_treibstoff`).
pub open spec fn wert(
    kontext: KontextAnsicht,
    f: FunktionView,
    belegung: Map<Seq<char>, bool>,
    standard: bool,
) -> bool {
    wert_bei(kontext, kontext.len() as nat, f, belegung, standard)
}

/// Whether `f` mentions `name` as a variable anywhere in its tree.
pub open spec fn erwaehnt(f: FunktionView, name: Seq<char>) -> bool
    decreases f,
{
    match f {
        FunktionView::Variabel(n) => n == name,
        FunktionView::Top => false,
        FunktionView::Bottom => false,
        FunktionView::Not(kind) => erwaehnt(*kind, name),
        FunktionView::And(kinder) => exists|i: int|
            0 <= i < kinder.len() && erwaehnt(#[trigger] kinder[i], name),
        FunktionView::Or(kinder) => exists|i: int|
            0 <= i < kinder.len() && erwaehnt(#[trigger] kinder[i], name),
    }
}

/// An edge of the context's reference graph: the formula stored under `n`
/// mentions the stored name `m`.
pub open spec fn kante(kontext: KontextAnsicht, n: Seq<char>, m: Seq<char>) -> bool {
    enthaelt_name(kontext, n) && enthaelt_name(kontext, m) && erwaehnt(formel_zu(kontext, n), m)
}

/// A witness that the reference graph has no cycle: every stored name has a
/// rank below the number of entries, and every edge leads strictly downward.
pub open spec fn rang_zulaessig(kontext: KontextAnsicht, rang: Map<Seq<char>, nat>) -> bool {
    (forall|n: Seq<char>|
        #[trigger] enthaelt_name(kontext, n) ==> rang.contains_key(n) && rang[n]
            < kontext.len()) && (forall|n: Seq<char>, m: Seq<char>|
        #[trigger] kante(kontext, n, m) ==> rang[m] < rang[n])
}

/// Whether the context's name references are free of cycles — the design's
/// standing assumption about the context. On such a context evaluation and
/// free-variable collection resolve every stored name, however deep.
pub open spec fn azyklisch(kontext: KontextAnsicht) -> bool {
    exists|rang: Map<Seq<char>, nat>| rang_zulaessig(kontext, rang)
}

/// With fuel above the rank of every stored name that `f` mentions, the fuel
/// guard never bites: two such fuel amounts give the same value.
proof fn lemma_wert_stabil(
    kontext: KontextAnsicht,
    rang: Map<Seq<char>, nat>,
    f: FunktionView,
    belegung: Map<Seq<char>, bool>,
    standard: bool,
    t1: nat,
    t2: nat,
)
    requires
        rang_zulaessig(kontext, rang),
        forall|m: Seq<char>|
            enthaelt_name(kontext, m) && #[trigger] erwaehnt(f, m) ==> rang[m] < t1,
        forall|m: Seq<char>|
            enthaelt_name(kontext, m) && #[trigger] erwaehnt(f, m) ==> rang[m] < t2,
    ensures
        wert_bei(kontext, t1, f, belegung, standard) == wert_bei(
            kontext,
            t2,
            f,
            belegung,
            standard,
        ),
    decreases t1, f, 1int,
{
    match f {
        FunktionView::Variabel(name) => {
            if enthaelt_name(kontext, name) {
                assert(erwaehnt(f, name));
                assert(rang[name] < t1 && rang[name] < t2);
                assert forall|m: Seq<char>|
                    enthaelt_name(kontext, m) && #[trigger] erwaehnt(
                        formel_zu(kontext, name),
                        m,
                    ) implies rang[m] < (t1 - 1) as nat && rang[m] < (t2 - 1) as nat by {
                    assert(kante(kontext, name, m));
                }
                lemma_wert_stabil(
                    kontext,
                    rang,
                    formel_zu(kontext, name),
                    belegung,
                    standard,
                    (t1 - 1) as nat,
                    (t2 - 1) as nat,
                );
            }
        },
        FunktionView::Not(kind) => {
            assert forall|m: Seq<char>|
                enthaelt_name(kontext, m) && #[trigger] erwaehnt(*kind, m) implies rang[m] < t1
                && rang[m] < t2 by {
                assert(erwaehnt(f, m));
            }
            lemma_wert_stabil(kontext, rang, *kind, belegung, standard, t1, t2);
        },
        FunktionView::And(kinder) => {
            assert forall|i: int, m: Seq<char>|
                0 <= i < kinder.len() && enthaelt_name(kontext, m) && #[trigger] erwaehnt(
                    kinder[i],
                    m,
                ) implies rang[m] < t1 && rang[m] < t2 by {
                assert(erwaehnt(f, m));
            }
            lemma_werte_liste_stabil(kontext, rang, kinder, belegung, standard, t1, t2);
        },
        FunktionView::Or(kinder) => {
            assert forall|i: int, m: Seq<char>|
                0 <= i < kinder.len() && enthaelt_name(kontext, m) && #[trigger] erwaehnt(
                    kinder[i],
                    m,
                ) implies rang[m] < t1 && rang[m] < t2 by {
                assert(erwaehnt(f, m));
            }
            lemma_werte_liste_stabil(kontext, rang, kinder, belegung, standard, t1, t2);
        },
        _ => {},
    }
}

proof fn lemma_werte_liste_stabil(
    kontext: KontextAnsicht,
    rang: Map<Seq<char>, nat>,
    kinder: Seq<FunktionView>,
    belegung: Map<Seq<char>, bool>,
    standard: bool,
    t1: nat,
    t2: nat,
)
    requires
        rang_zulaessig(kontext, rang),
        forall|i: int, m: Seq<char>|
            0 <= i < kinder.len() && enthaelt_name(kontext, m) && #[trigger] erwaehnt(
                kinder[i],
                m,
            ) ==> rang[m] < t1 && rang[m] < t2,
    ensures
        alle_wert(kontext, t1, kinder, belegung, standard) == alle_wert(
            kontext,
            t2,
            kinder,
            belegung,
            standard,
        ),
        eines_wert(kontext, t1, kinder, belegung, standard) == eines_wert(
            kontext,
            t2,
            kinder,
            belegung,
            standard,
        ),
    decreases t1, kinder, 0int,
{
    if kinder.len() > 0 {
        lemma_wert_stabil(kontext, rang, kinder[0], belegung, standard, t1, t2);
        assert(forall|i: int|
            0 <= i < kinder.drop_first().len() ==> kinder.drop_first()[i] == kinder[i + 1]);
        lemma_werte_liste_stabil(
            kontext,
            rang,
            kinder.drop_first(),
            belegung,
            standard,
            t1,
            t2,
        );
    }
}

/// On an acyclic context, any fuel covering every entry gives the same value
/// as the canonical amount: the guard in `wert` is immaterial there.
pub proof fn lemma_wert_treibstoff(
    kontext: KontextAnsicht,
    f: FunktionView,
    belegung: Map<Seq<char>, bool>,
    standard: bool,
    t: nat,
)
    requires
        azyklisch(kontext),
        t >= kontext.len(),
    ensures
        wert_bei(kontext, t, f, belegung, standard) == wert(kontext, f, belegung, standard),
{
    let rang = choose|rang: Map<Seq<char>, nat>| rang_zulaessig(kontext, rang);
    lemma_wert_stabil(kontext, rang, f, belegung, standard, t, kontext.len() as nat);
}

/// The evaluator's defining equation on an acyclic context — full-context
/// macro resolution: a variable whose name is stored evaluates to its stored
/// formula's value, with the whole context available again; any other
/// variable is read from the assignment, with the default for names the
/// assignment does not hold. The equations for the connectives need no
/// hypothesis: they unfold from `wert_bei` at unchanged fuel, with
/// `lemma_alle_wert` and `lemma_eines_wert` giving the pointwise reading of
/// a group.
pub proof fn lemma_wert_entfaltung(
    kontext: KontextAnsicht,
    name: Seq<char>,
    belegung: Map<Seq<char>, bool>,
    standard: bool,
)
    requires
        azyklisch(kontext),
    ensures
        wert(kontext, FunktionView::Variabel(name), belegung, standard) == (if enthaelt_name(
            kontext,
            name,
        ) {
            wert(kontext, formel_zu(kontext, name), belegung, standard)
        } else if belegung.contains_key(name) {
            belegung[name]
        } else {
            standard
        }),
{
    if enthaelt_name(kontext, name) {
        lemma_index_von(kontext, name);
        let rang = choose|rang: Map<Seq<char>, nat>| rang_zulaessig(kontext, rang);
        let laenge = kontext.len() as nat;
        assert(laenge >= 1);
        assert(wert_bei(kontext, laenge, FunktionView::Variabel(name), belegung, standard)
            == wert_bei(kontext, (laenge - 1) as nat, formel_zu(kontext, name), belegung, standard));
        assert(erwaehnt(FunktionView::Variabel(name), name));
        assert(rang[name] < laenge);
        assert forall|m: Seq<char>|
            enthaelt_name(kontext, m) && #[trigger] erwaehnt(formel_zu(kontext, name), m) implies
            rang[m] < (laenge - 1) as nat && rang[m] < laenge by {
            assert(kante(kontext, name, m));
        }
        lemma_wert_stabil(
            kontext,
            rang,
            formel_zu(kontext, name),
            belegung,
            standard,
            (laenge - 1) as nat,
            laenge,
        );
    }
}

/// The context after storing `f` under `name`: an earlier entry of that name
/// is removed, and the new entry stands at the end, as the youngest.
pub open spec fn definiere(
    kontext: KontextAnsicht,
    name: Seq<char>,
    f: FunktionView,
) -> KontextAnsicht {
    if enthaelt_name(kontext, name) {
        kontext.remove(index_von(kontext, name)).push((name, f))
    } else {
        kontext.push((name, f))
    }
}

/// The session-scoped store of named formulas, which the evaluator also uses
/// to resolve variable names as macro expansions, plus the last generated
/// truth table. Every stored name resolves, wherever the reference stands;
/// the evaluator's fuel keeps even a store with a reference cycle from
/// looping, and on a cycle-free store the fuel provably never runs out.
#[derive(Debug)]
pub struct FormelKontext {
    funktionen: Vec<(String, AussagenFunktion)>,
    tabelle: Option<Wahrheitstabelle>,
}

impl View for FormelKontext {
    type V = KontextAnsicht;

    closed spec fn view(&self) -> KontextAnsicht {
        self.funktionen@.map_values(|p: (String, AussagenFunktion)| (p.0@, funktion_ansicht(&p.1)))
    }
}

impl FormelKontext {
    /// Names occur at most once.
    pub open spec fn wohlgeformt(&self) -> bool {
        forall|i: int, j: int| 0 <= i < j < self@.len() ==> self@[i].0 != self@[j].0
    }

    /// The cached truth table.
    pub closed spec fn spec_tabelle(&self) -> Option<Wahrheitstabelle> {
        self.tabelle
    }

    /// An empty context without a cached table.
    pub fn new() -> (r: FormelKontext)
        ensures
            r@ == Seq::<(Seq<char>, FunktionView)>::empty(),
            r.wohlgeformt(),
            r.spec_tabelle() is None,
    {
        let r = FormelKontext { funktionen: Vec::new(), tabelle: None };
        proof {
            assert(r@ =~= Seq::<(Seq<char>, FunktionView)>::empty());
        }
        r
    }

    fn index_suche(&self, name: &String) -> (r: Option<usize>)
        ensures
            match r {
                Some(i) => i == index_von(self@, name@) && i < self@.len(),
                None => index_von(self@, name@) == -1,
            },
    {
        proof {
            lemma_index_von(self@, name@);
        }
        let mut i: usize = 0;
        while i < self.funktionen.len()
            invariant
                0 <= i <= self.funktionen@.len(),
                self@.len() == self.funktionen@.len(),
                forall|j: int| 0 <= j < i ==> self@[j].0 != name@,
            decreases self.funktionen@.len() - i,
        {
            let p = &self.funktionen[i];
            if p.0 == *name {
                proof {
                    lemma_index_von(self@, name@);
                    assert(self@[i as int].0 == name@);
                    let idx = index_von(self@, name@);
                    assert(idx >= 0);
                    if idx < i as int {
                        assert(self@[idx].0 == name@);
                        assert(false);
                    }
                    if idx > i as int {
                        assert(self@[i as int].0 != name@);
                        assert(false);
                    }
                }
                return Some(i);
            }
            proof {
                assert(self@[i as int].0 == self.funktionen@[i as int].0@);
            }
            i += 1;
        }
        None
    }

    /// Whether a formula is stored under `key`.
    pub fn contains_funktion(&self, key: &String) -> (r: bool)
        ensures
            r == enthaelt_name(self@, key@),
    {
        self.index_suche(key).is_some()
    }

    /// The formula stored under `name`, if any.
    pub fn lookup(&self, name: &String) -> (r: Option<&AussagenFunktion>)
        ensures
            match r {
                Some(f) => enthaelt_name(self@, name@) && f@ == formel_zu(self@, name@),
                None => !enthaelt_name(self@, name@),
            },
    {
        match self.index_suche(name) {
            Some(i) => {
                let p = &self.funktionen[i];
                Some(&p.1)
            },
            None => None,
        }
    }

    /// Stores `funktion` under `name`. A name already in use is redefined:
    /// its old entry leaves, and the new one stands at the end.
    pub fn define(&mut self, name: &String, funktion: AussagenFunktion)
        requires
            old(self).wohlgeformt(),
        ensures
            final(self).wohlgeformt(),
            final(self)@ == definiere(old(self)@, name@, funktion@),
            final(self).spec_tabelle() == old(self).spec_tabelle(),
    {
        proof {
            lemma_index_von(self@, name@);
        }
        let ghost alt = self@;
        match self.index_suche(name) {
            Some(i) => {
                self.funktionen.remove(i);
                proof {
                    assert(self@ =~= alt.remove(i as int));
                }
            },
            None => {},
        }
        let ghost mitte = self@;
        self.funktionen.push((name.clone(), funktion));
        proof {
            assert(self@ =~= mitte.push((name@, funktion@)));
            assert(self@ == definiere(alt, name@, funktion@));
            assert forall|i: int, j: int| 0 <= i < j < self@.len() implies self@[i].0
                != self@[j].0 by {
                let idx = index_von(alt, name@);
                if j < self@.len() - 1 {
                    if idx >= 0 {
                        let i2: int = if i < idx {
                            i
                        } else {
                            i + 1
                        };
                        let j2: int = if j < idx {
                            j
                        } else {
                            j + 1
                        };
                        assert(mitte[i] == alt[i2]);
                        assert(mitte[j] == alt[j2]);
                    }
                } else {
                    // the last entry is the fresh name; every kept entry has
                    // another name, since the old entry of this name left
                    if idx >= 0 {
                        let i2: int = if i < idx {
                            i
                        } else {
                            i + 1
                        };
                        assert(mitte[i] == alt[i2]);
                        assert(alt[i2].0 != name@);
                    }
                }
            }
        }
    }

    /// Replaces the cached truth table.
    pub fn set_tabelle(&mut self, tabelle: Wahrheitstabelle)
        ensures
            final(self)@ == old(self)@,
            final(self).wohlgeformt() == old(self).wohlgeformt(),
            final(self).spec_tabelle() == Some(tabelle),
    {
        self.tabelle = Some(tabelle);
        proof {
            assert(self@ == old(self)@);
            assert(self.wohlgeformt() == old(self).wohlgeformt());
        }
    }

    /// The cached truth table, if one was generated.
    pub fn get_tabelle(&self) -> (r: &Option<Wahrheitstabelle>)
        ensures
            *r == self.spec_tabelle(),
    {
        &self.tabelle
    }

    /// How many formulas are stored.
    pub fn laenge(&self) -> (r: usize)
        ensures
            r == self@.len(),
    {
        self.funktionen.len()
    }
}

impl AussagenFunktion {
    /// The truth value of this formula under `belegung`: a variable whose
    /// name is stored in the context stands for its stored formula; any
    /// other variable is read from the assignment, with `standard` for names
    /// the assignment does not hold. On a context free of reference cycles
    /// this is exactly the macro-expansion semantics
    /// (`lemma_wert_entfaltung`); a cycle cuts off once the fuel is spent,
    /// where evaluation otherwise could not return at all.
    pub fn result(&self, kontext: &FormelKontext, belegung: &Werte, standard: bool) -> (r: bool)
        requires
            belegung.wohlgeformt(),
        ensures
            r == wert(kontext@, self@, belegung@, standard),
    {
        let treibstoff = kontext.laenge();
        self.result_bei(kontext, belegung, standard, treibstoff)
    }

    /// As `result`, with each macro expansion burning one unit of
    /// `treibstoff`, which is what makes the recursion finite; fuel for
    /// every entry is enough on any context free of reference cycles.
    fn result_bei(
        &self,
        kontext: &FormelKontext,
        belegung: &Werte,
        standard: bool,
        treibstoff: usize,
    ) -> (r: bool)
        requires
            belegung.wohlgeformt(),
        ensures
            r == wert_bei(kontext@, treibstoff as nat, self@, belegung@, standard),
        decreases treibstoff, *self,
    {
        match self {
            AussagenFunktion::VARIABEL(name) => {
                let idx = kontext.index_suche_intern(name);
                match idx {
                    Some(j) => {
                        if treibstoff > 0 {
                            let eintrag = kontext.eintrag(j);
                            eintrag.result_bei(kontext, belegung, standard, treibstoff - 1)
                        } else {
                            belegung.get_oder(name, standard)
                        }
                    },
                    None => belegung.get_oder(name, standard),
                }
            },
            AussagenFunktion::TOP() => true,
            AussagenFunktion::BOTTOM() => false,
            AussagenFunktion::NOT(kind) => !(&**kind).result_bei(
                kontext,
                belegung,
                standard,
                treibstoff,
            ),
            AussagenFunktion::AND(kinder) => {
                let mut res = true;
                let mut i: usize = 0;
                proof {
                    lemma_funktion_ansichten(kinder@);
                }
                while i < kinder.len()
                    invariant
                        belegung.wohlgeformt(),
                        0 <= i <= kinder@.len(),
                        (*self matches AussagenFunktion::AND(k) && k@ == kinder@),
                        funktion_ansichten(kinder@).len() == kinder@.len(),
                        forall|j: int|
                            0 <= j < kinder@.len() ==> funktion_ansichten(kinder@)[j]
                                == funktion_ansicht(&kinder@[j]),
                        res == (forall|j: int|
                            0 <= j < i ==> wert_bei(
                                kontext@,
                                treibstoff as nat,
                                funktion_ansichten(kinder@)[j],
                                belegung@,
                                standard,
                            )),
                    decreases kinder@.len() - i,
                {
                    proof {
                        assert(decreases_to!(*self => kinder@[i as int]));
                    }
                    let teil = (&*kinder[i]).result_bei(kontext, belegung, standard, treibstoff);
                    proof {
                        assert(teil == wert_bei(
                            kontext@,
                            treibstoff as nat,
                            funktion_ansichten(kinder@)[i as int],
                            belegung@,
                            standard,
                        ));
                    }
                    res = res && teil;
                    i += 1;
                }
                proof {
                    lemma_alle_wert(
                        kontext@,
                        treibstoff as nat,
                        funktion_ansichten(kinder@),
                        belegung@,
                        standard,
                    );
                }
                res
            },
            AussagenFunktion::OR(kinder) => {
                let mut res = false;
                let mut i: usize = 0;
                proof {
                    lemma_funktion_ansichten(kinder@);
                }
                while i < kinder.len()
                    invariant
                        belegung.wohlgeformt(),
                        0 <= i <= kinder@.len(),
                        (*self matches AussagenFunktion::OR(k) && k@ == kinder@),
                        funktion_ansichten(kinder@).len() == kinder@.len(),
                        forall|j: int|
                            0 <= j < kinder@.len() ==> funktion_ansichten(kinder@)[j]
                                == funktion_ansicht(&kinder@[j]),
                        res == (exists|j: int|
                            0 <= j < i && wert_bei(
                                kontext@,
                                treibstoff as nat,
                                funktion_ansichten(kinder@)[j],
                                belegung@,
                                standard,
                            )),
                    decreases kinder@.len() - i,
                {
                    proof {
                        assert(decreases_to!(*self => kinder@[i as int]));
                    }
                    let teil = (&*kinder[i]).result_bei(kontext, belegung, standard, treibstoff);
                    proof {
                        if teil {
                            assert(wert_bei(
                                kontext@,
                                treibstoff as nat,
                                funktion_ansichten(kinder@)[i as int],
                                belegung@,
                                standard,
                            ));
                        }
                    }
                    res = res || teil;
                    i += 1;
                }
                proof {
                    lemma_eines_wert(
                        kontext@,
                        treibstoff as nat,
                        funktion_ansichten(kinder@),
                        belegung@,
                        standard,
                    );
                }
                res
            },
        }
    }
}

impl FormelKontext {
    /// As `index_suche`, for the evaluator.
    pub(crate) fn index_suche_intern(&self, name: &String) -> (r: Option<usize>)
        ensures
            match r {
                Some(i) => i == index_von(self@, name@) && i < self@.len(),
                None => index_von(self@, name@) == -1,
            },
    {
        self.index_suche(name)
    }

    /// The stored formula at position `i`.
    pub(crate) fn eintrag(&self, i: usize) -> (r: &AussagenFunktion)
        requires
            i < self@.len(),
        ensures
            r@ == self@[i as int].1,
    {
        let p = &self.funktionen[i];
        &p.1
    }
}

/// The index of the first entry whose stored formula is `f`, or `-1`.
pub open spec fn formel_index(kontext: KontextAnsicht, f: FunktionView) -> int
    decreases kontext.len(),
{
    if kontext.len() == 0 {
        -1
    } else if kontext[0].1 == f {
        0
    } else {
        let rest = formel_index(kontext.drop_first(), f);
        if rest < 0 {
            -1
        } else {
            rest + 1
        }
    }
}

pub proof fn lemma_formel_index(kontext: KontextAnsicht, f: FunktionView)
    ensures
        -1 <= formel_index(kontext, f) < kontext.len(),
        formel_index(kontext, f) >= 0 ==> kontext[formel_index(kontext, f)].1 == f,
        (formel_index(kontext, f) == -1) <==> (forall|i: int|
            0 <= i < kontext.len() ==> kontext[i].1 != f),
        forall|i: int| 0 <= i < formel_index(kontext, f) ==> kontext[i].1 != f,
    decreases kontext.len(),
{
    if kontext.len() > 0 && kontext[0].1 != f {
        lemma_formel_index(kontext.drop_first(), f);
        assert(forall|i: int|
            0 <= i < kontext.drop_first().len() ==> kontext.drop_first()[i] == kontext[i + 1]);
        let rest = formel_index(kontext.drop_first(), f);
        if rest >= 0 {
            assert(formel_index(kontext, f) == rest + 1);
            assert(kontext.drop_first()[rest] == kontext[rest + 1]);
            assert forall|i: int| 0 <= i < formel_index(kontext, f) implies kontext[i].1 != f by {
                if i > 0 {
                    assert(kontext.drop_first()[i - 1] == kontext[i]);
                }
            }
        } else {
            assert forall|i: int| 0 <= i < kontext.len() implies kontext[i].1 != f by {
                if i > 0 {
                    assert(kontext.drop_first()[i - 1] == kontext[i]);
                }
            }
        }
    }
}

/// The views of a list of borrowed formulas.
pub open spec fn formeln_ansichten(formeln: Seq<&AussagenFunktion>) -> Seq<FunktionView> {
    formeln.map_values(|f: &AussagenFunktion| funktion_ansicht(f))
}

/// The names of the context entries whose stored formula occurs in `formeln`,
/// in context order.
pub open spec fn namen_von(kontext: KontextAnsicht, formeln: Seq<FunktionView>) -> Seq<Seq<char>>
    decreases kontext.len(),
{
    if kontext.len() == 0 {
        Seq::empty()
    } else {
        let base = namen_von(kontext.drop_last(), formeln);
        if formeln.contains(kontext.last().1) {
            base.push(kontext.last().0)
        } else {
            base
        }
    }
}

/// Whether `formeln` holds a formula with the view of `f`.
fn enthaelt_formel(formeln: &Vec<&AussagenFunktion>, f: &AussagenFunktion) -> (r: bool)
    ensures
        r == formeln_ansichten(formeln@).contains(f@),
{
    let mut i: usize = 0;
    while i < formeln.len()
        invariant
            0 <= i <= formeln@.len(),
            forall|j: int| 0 <= j < i ==> formeln_ansichten(formeln@)[j] != f@,
        decreases formeln@.len() - i,
    {
        if formeln[i].ist_gleich(f) {
            proof {
                assert(formeln_ansichten(formeln@)[i as int] == f@);
            }
            return true;
        }
        i += 1;
    }
    proof {
        assert forall|j: int| 0 <= j < formeln_ansichten(formeln@).len() implies formeln_ansichten(
            formeln@,
        )[j] != f@ by {}
    }
    false
}

impl FormelKontext {
    /// The name of the first entry that stores `value`, if any entry does.
    pub fn get_key(&self, value: &AussagenFunktion) -> (r: Option<String>)
        ensures
            match r {
                Some(s) => formel_index(self@, value@) >= 0 && s@ == self@[formel_index(
                    self@,
                    value@,
                )].0,
                None => formel_index(self@, value@) == -1,
            },
    {
        let mut i: usize = 0;
        while i < self.funktionen.len()
            invariant
                0 <= i <= self.funktionen@.len(),
                self@.len() == self.funktionen@.len(),
                forall|j: int| 0 <= j < i ==> self@[j].1 != value@,
            decreases self.funktionen@.len() - i,
        {
            let p = &self.funktionen[i];
            if p.1.ist_gleich(value) {
                proof {
                    lemma_formel_index(self@, value@);
                    assert(self@[i as int].1 == value@);
                    let idx = formel_index(self@, value@);
                    assert(idx >= 0);
                    if idx < i as int {
                        assert(self@[idx].1 == value@);
                        assert(false);
                    }
                    if idx > i as int {
                        assert(self@[i as int].1 != value@);
                        assert(false);
                    }
                }
                return Some(p.0.clone());
            }
            proof {
                assert(self@[i as int].1 == funktion_ansicht(&self.funktionen@[i as int].1));
            }
            i += 1;
        }
        proof {
            lemma_formel_index(self@, value@);
        }
        None
    }

    /// The names of the entries whose formula occurs in `formeln`, in the
    /// order in which the entries stand in the context.
    pub fn get_keys(&self, formeln: &Vec<&AussagenFunktion>) -> (r: Vec<String>)
        ensures
            r@.map_values(|s: String| s@) == namen_von(self@, formeln_ansichten(formeln@)),
    {
        let mut r: Vec<String> = Vec::new();
        let mut i: usize = 0;
        while i < self.funktionen.len()
            invariant
                0 <= i <= self.funktionen@.len(),
                self@.len() == self.funktionen@.len(),
                r@.map_values(|s: String| s@) == namen_von(
                    self@.subrange(0, i as int),
                    formeln_ansichten(formeln@),
                ),
            decreases self.funktionen@.len() - i,
        {
            let ghost vorher = r@;
            let p = &self.funktionen[i];
            if enthaelt_formel(formeln, &p.1) {
                r.push(p.0.clone());
            }
            proof {
                let teil = self@.subrange(0, i + 1);
                assert(teil.drop_last() =~= self@.subrange(0, i as int));
                assert(teil.last() == self@[i as int]);
                assert(self@[i as int].1 == funktion_ansicht(&self.funktionen@[i as int].1));
                assert(self@[i as int].0 == self.funktionen@[i as int].0@);
                if formeln_ansichten(formeln@).contains(self@[i as int].1) {
                    assert(r@.map_values(|s: String| s@) =~= vorher.map_values(
                        |s: String| s@,
                    ).push(self@[i as int].0));
                } else {
                    assert(r@.map_values(|s: String| s@) =~= vorher.map_values(|s: String| s@));
                }
            }
            i += 1;
        }
        proof {
            assert(self@.subrange(0, self@.len() as int) =~= self@);
        }
        r
    }
}

/// The names of `gesehen` as character sequences.
pub open spec fn namen_ansichten(gesehen: Seq<String>) -> Seq<Seq<char>> {
    gesehen.map_values(|s: String| s@)
}

/// The free variables of `f` that are not in `gesehen` yet, in the order in
/// which they are first met; a variable whose name the context stores
/// contributes the free variables of the stored formula instead of its own
/// name. Each expansion burns one unit of `treibstoff`; with fuel for every
/// entry the guard never bites on an acyclic context
/// (`lemma_schluessel_entfaltung`).
pub open spec fn schluessel_bei(
    kontext: KontextAnsicht,
    treibstoff: nat,
    f: FunktionView,
    gesehen: Seq<Seq<char>>,
) -> Seq<Seq<char>>
    decreases treibstoff, f,
{
    match f {
        FunktionView::Variabel(name) => {
            if enthaelt_name(kontext, name) && treibstoff > 0 {
                schluessel_bei(kontext, (treibstoff - 1) as nat, formel_zu(kontext, name), gesehen)
            } else if gesehen.contains(name) {
                Seq::empty()
            } else {
                seq![name]
            }
        },
        FunktionView::Top => Seq::empty(),
        FunktionView::Bottom => Seq::empty(),
        FunktionView::Not(kind) => schluessel_bei(kontext, treibstoff, *kind, gesehen),
        FunktionView::And(kinder) => schluessel_liste(kontext, treibstoff, kinder, gesehen),
        FunktionView::Or(kinder) => schluessel_liste(kontext, treibstoff, kinder, gesehen),
    }
}

/// The new free variables of a child list, left to right, each child seeing
/// what the children before it contributed.
pub open spec fn schluessel_liste(
    kontext: KontextAnsicht,
    treibstoff: nat,
    kinder: Seq<FunktionView>,
    gesehen: Seq<Seq<char>>,
) -> Seq<Seq<char>>
    decreases treibstoff, kinder,
{
    if kinder.len() == 0 {
        Seq::empty()
    } else {
        let erste = schluessel_bei(kontext, treibstoff, kinder[0], gesehen);
        erste + schluessel_liste(kontext, treibstoff, kinder.drop_first(), gesehen + erste)
    }
}

/// Splitting a child list splits its contribution: the right part sees what
/// the left part contributed.
pub proof fn lemma_schluessel_teilung(
    kontext: KontextAnsicht,
    treibstoff: nat,
    a: Seq<FunktionView>,
    b: Seq<FunktionView>,
    gesehen: Seq<Seq<char>>,
)
    ensures
        schluessel_liste(kontext, treibstoff, a + b, gesehen) == schluessel_liste(
            kontext,
            treibstoff,
            a,
            gesehen,
        ) + schluessel_liste(kontext, treibstoff, b, gesehen + schluessel_liste(
            kontext,
            treibstoff,
            a,
            gesehen,
        )),
    decreases a.len(),
{
    if a.len() == 0 {
        assert(a + b =~= b);
        assert(gesehen + schluessel_liste(kontext, treibstoff, a, gesehen) =~= gesehen);
        assert(schluessel_liste(kontext, treibstoff, a, gesehen) + schluessel_liste(
            kontext,
            treibstoff,
            b,
            gesehen,
        ) =~= schluessel_liste(kontext, treibstoff, b, gesehen));
    } else {
        let erste = schluessel_bei(kontext, treibstoff, a[0], gesehen);
        assert((a + b)[0] == a[0]);
        assert((a + b).drop_first() =~= a.drop_first() + b);
        lemma_schluessel_teilung(kontext, treibstoff, a.drop_first(), b, gesehen + erste);
        assert((gesehen + erste) + schluessel_liste(kontext, treibstoff, a.drop_first(), gesehen
            + erste) =~= gesehen + schluessel_liste(kontext, treibstoff, a, gesehen));
        assert(erste + (schluessel_liste(kontext, treibstoff, a.drop_first(), gesehen + erste)
            + schluessel_liste(
            kontext,
            treibstoff,
            b,
            (gesehen + erste) + schluessel_liste(kontext, treibstoff, a.drop_first(), gesehen + erste),
        )) =~= schluessel_liste(kontext, treibstoff, a, gesehen) + schluessel_liste(
            kontext,
            treibstoff,
            b,
            gesehen + schluessel_liste(kontext, treibstoff, a, gesehen),
        ));
    }
}

/// With fuel above the rank of every stored name that `f` mentions, the
/// collected free variables do not depend on the fuel.
proof fn lemma_schluessel_stabil(
    kontext: KontextAnsicht,
    rang: Map<Seq<char>, nat>,
    f: FunktionView,
    gesehen: Seq<Seq<char>>,
    t1: nat,
    t2: nat,
)
    requires
        rang_zulaessig(kontext, rang),
        forall|m: Seq<char>|
            enthaelt_name(kontext, m) && #[trigger] erwaehnt(f, m) ==> rang[m] < t1 && rang[m]
                < t2,
    ensures
        schluessel_bei(kontext, t1, f, gesehen) == schluessel_bei(kontext, t2, f, gesehen),
    decreases t1, f, 1int,
{
    match f {
        FunktionView::Variabel(name) => {
            if enthaelt_name(kontext, name) {
                assert(erwaehnt(f, name));
                assert forall|m: Seq<char>|
                    enthaelt_name(kontext, m) && #[trigger] erwaehnt(
                        formel_zu(kontext, name),
                        m,
                    ) implies rang[m] < (t1 - 1) as nat && rang[m] < (t2 - 1) as nat by {
                    assert(kante(kontext, name, m));
                }
                lemma_schluessel_stabil(
                    kontext,
                    rang,
                    formel_zu(kontext, name),
                    gesehen,
                    (t1 - 1) as nat,
                    (t2 - 1) as nat,
                );
            }
        },
        FunktionView::Not(kind) => {
            assert forall|m: Seq<char>|
                enthaelt_name(kontext, m) && #[trigger] erwaehnt(*kind, m) implies rang[m] < t1
                && rang[m] < t2 by {
                assert(erwaehnt(f, m));
            }
            lemma_schluessel_stabil(kontext, rang, *kind, gesehen, t1, t2);
        },
        FunktionView::And(kinder) => {
            assert forall|i: int, m: Seq<char>|
                0 <= i < kinder.len() && enthaelt_name(kontext, m) && #[trigger] erwaehnt(
                    kinder[i],
                    m,
                ) implies rang[m] < t1 && rang[m] < t2 by {
                assert(erwaehnt(f, m));
            }
            lemma_schluessel_liste_stabil(kontext, rang, kinder, gesehen, t1, t2);
        },
        FunktionView::Or(kinder) => {
            assert forall|i: int, m: Seq<char>|
                0 <= i < kinder.len() && enthaelt_name(kontext, m) && #[trigger] erwaehnt(
                    kinder[i],
                    m,
                ) implies rang[m] < t1 && rang[m] < t2 by {
                assert(erwaehnt(f, m));
            }
            lemma_schluessel_liste_stabil(kontext, rang, kinder, gesehen, t1, t2);
        },
        _ => {},
    }
}

proof fn lemma_schluessel_liste_stabil(
    kontext: KontextAnsicht,
    rang: Map<Seq<char>, nat>,
    kinder: Seq<FunktionView>,
    gesehen: Seq<Seq<char>>,
    t1: nat,
    t2: nat,
)
    requires
        rang_zulaessig(kontext, rang),
        forall|i: int, m: Seq<char>|
            0 <= i < kinder.len() && enthaelt_name(kontext, m) && #[trigger] erwaehnt(
                kinder[i],
                m,
            ) ==> rang[m] < t1 && rang[m] < t2,
    ensures
        schluessel_liste(kontext, t1, kinder, gesehen) == schluessel_liste(
            kontext,
            t2,
            kinder,
            gesehen,
        ),
    decreases t1, kinder, 0int,
{
    if kinder.len() > 0 {
        lemma_schluessel_stabil(kontext, rang, kinder[0], gesehen, t1, t2);
        assert(forall|i: int|
            0 <= i < kinder.drop_first().len() ==> kinder.drop_first()[i] == kinder[i + 1]);
        lemma_schluessel_liste_stabil(
            kontext,
            rang,
            kinder.drop_first(),
            gesehen + schluessel_bei(kontext, t1, kinder[0], gesehen),
            t1,
            t2,
        );
    }
}

/// The free-variable collector's defining equation on an acyclic context: a
/// variable whose name is stored contributes the free variables of its
/// stored formula, with the whole context available again; any other
/// variable contributes its own name, unless it was already seen.
pub proof fn lemma_schluessel_entfaltung(
    kontext: KontextAnsicht,
    name: Seq<char>,
    gesehen: Seq<Seq<char>>,
)
    requires
        azyklisch(kontext),
    ensures
        schluessel_bei(kontext, kontext.len() as nat, FunktionView::Variabel(name), gesehen) == (
        if enthaelt_name(kontext, name) {
            schluessel_bei(kontext, kontext.len() as nat, formel_zu(kontext, name), gesehen)
        } else if gesehen.contains(name) {
            Seq::<Seq<char>>::empty()
        } else {
            seq![name]
        }),
{
    if enthaelt_name(kontext, name) {
        lemma_index_von(kontext, name);
        let rang = choose|rang: Map<Seq<char>, nat>| rang_zulaessig(kontext, rang);
        let laenge = kontext.len() as nat;
        assert(laenge >= 1);
        assert(erwaehnt(FunktionView::Variabel(name), name));
        assert(rang[name] < laenge);
        assert forall|m: Seq<char>|
            enthaelt_name(kontext, m) && #[trigger] erwaehnt(formel_zu(kontext, name), m) implies
            rang[m] < (laenge - 1) as nat && rang[m] < laenge by {
            assert(kante(kontext, name, m));
        }
        lemma_schluessel_stabil(
            kontext,
            rang,
            formel_zu(kontext, name),
            gesehen,
            (laenge - 1) as nat,
            laenge,
        );
    }
}

/// On an acyclic context, no stored name is ever reported free: a stored
/// name is always expanded, so the collected names are disjoint from the
/// context's keys.
pub proof fn lemma_schluessel_disjunkt(
    kontext: KontextAnsicht,
    f: FunktionView,
    gesehen: Seq<Seq<char>>,
)
    requires
        azyklisch(kontext),
    ensures
        forall|x: Seq<char>|
            schluessel_bei(kontext, kontext.len() as nat, f, gesehen).contains(x)
                ==> !enthaelt_name(kontext, x),
{
    let rang = choose|rang: Map<Seq<char>, nat>| rang_zulaessig(kontext, rang);
    lemma_schluessel_frei(kontext, rang, f, gesehen, kontext.len() as nat);
}

proof fn lemma_schluessel_frei(
    kontext: KontextAnsicht,
    rang: Map<Seq<char>, nat>,
    f: FunktionView,
    gesehen: Seq<Seq<char>>,
    t: nat,
)
    requires
        rang_zulaessig(kontext, rang),
        forall|m: Seq<char>|
            enthaelt_name(kontext, m) && #[trigger] erwaehnt(f, m) ==> rang[m] < t,
    ensures
        forall|x: Seq<char>|
            schluessel_bei(kontext, t, f, gesehen).contains(x) ==> !enthaelt_name(kontext, x),
    decreases t, f, 1int,
{
    match f {
        FunktionView::Variabel(name) => {
            if enthaelt_name(kontext, name) {
                assert(erwaehnt(f, name));
                assert forall|m: Seq<char>|
                    enthaelt_name(kontext, m) && #[trigger] erwaehnt(
                        formel_zu(kontext, name),
                        m,
                    ) implies rang[m] < (t - 1) as nat by {
                    assert(kante(kontext, name, m));
                }
                lemma_schluessel_frei(
                    kontext,
                    rang,
                    formel_zu(kontext, name),
                    gesehen,
                    (t - 1) as nat,
                );
            } else {
                assert forall|x: Seq<char>|
                    schluessel_bei(kontext, t, f, gesehen).contains(x) implies !enthaelt_name(
                        kontext,
                        x,
                    ) by {
                    if !gesehen.contains(name) {
                        assert(seq![name][0] == name);
                        assert(x == name);
                    }
                }
            }
        },
        FunktionView::Not(kind) => {
            assert forall|m: Seq<char>|
                enthaelt_name(kontext, m) && #[trigger] erwaehnt(*kind, m) implies rang[m]
                < t by {
                assert(erwaehnt(f, m));
            }
            lemma_schluessel_frei(kontext, rang, *kind, gesehen, t);
        },
        FunktionView::And(kinder) => {
            assert forall|i: int, m: Seq<char>|
                0 <= i < kinder.len() && enthaelt_name(kontext, m) && #[trigger] erwaehnt(
                    kinder[i],
                    m,
                ) implies rang[m] < t by {
                assert(erwaehnt(f, m));
            }
            lemma_schluessel_liste_frei(kontext, rang, kinder, gesehen, t);
        },
        FunktionView::Or(kinder) => {
            assert forall|i: int, m: Seq<char>|
                0 <= i < kinder.len() && enthaelt_name(kontext, m) && #[trigger] erwaehnt(
                    kinder[i],
                    m,
                ) implies rang[m] < t by {
                assert(erwaehnt(f, m));
            }
            lemma_schluessel_liste_frei(kontext, rang, kinder, gesehen, t);
        },
        _ => {},
    }
}

proof fn lemma_schluessel_liste_frei(
    kontext: KontextAnsicht,
    rang: Map<Seq<char>, nat>,
    kinder: Seq<FunktionView>,
    gesehen: Seq<Seq<char>>,
    t: nat,
)
    requires
        rang_zulaessig(kontext, rang),
        forall|i: int, m: Seq<char>|
            0 <= i < kinder.len() && enthaelt_name(kontext, m) && #[trigger] erwaehnt(
                kinder[i],
                m,
            ) ==> rang[m] < t,
    ensures
        forall|x: Seq<char>|
            schluessel_liste(kontext, t, kinder, gesehen).contains(x) ==> !enthaelt_name(
                kontext,
                x,
            ),
    decreases t, kinder, 0int,
{
    if kinder.len() > 0 {
        let erste = schluessel_bei(kontext, t, kinder[0], gesehen);
        lemma_schluessel_frei(kontext, rang, kinder[0], gesehen, t);
        assert(forall|i: int|
            0 <= i < kinder.drop_first().len() ==> kinder.drop_first()[i] == kinder[i + 1]);
        lemma_schluessel_liste_frei(kontext, rang, kinder.drop_first(), gesehen + erste, t);
        assert forall|x: Seq<char>|
            schluessel_liste(kontext, t, kinder, gesehen).contains(x) implies !enthaelt_name(
                kontext,
                x,
            ) by {
            let rest = schluessel_liste(kontext, t, kinder.drop_first(), gesehen + erste);
            let j = choose|j: int|
                0 <= j < (erste + rest).len() && (erste + rest)[j] == x;
            if j < erste.len() {
                assert(erste[j] == x);
                assert(erste.contains(x));
            } else {
                assert(rest[j - erste.len()] == x);
                assert(rest.contains(x));
            }
        }
    }
}

/// Whether `gesehen` already holds `name`.
fn name_gesehen(gesehen: &Vec<String>, name: &String) -> (r: bool)
    ensures
        r == namen_ansichten(gesehen@).contains(name@),
{
    let mut i: usize = 0;
    while i < gesehen.len()
        invariant
            0 <= i <= gesehen@.len(),
            forall|j: int| 0 <= j < i ==> namen_ansichten(gesehen@)[j] != name@,
        decreases gesehen@.len() - i,
    {
        let p = &gesehen[i];
        if *p == *name {
            proof {
                assert(namen_ansichten(gesehen@)[i as int] == name@);
            }
            return true;
        }
        proof {
            assert(namen_ansichten(gesehen@)[i as int] == gesehen@[i as int]@);
        }
        i += 1;
    }
    false
}

impl AussagenFunktion {
    /// The names of the free variables of this formula, in the order in which
    /// they are first met; a name stored in the context stands for its stored
    /// formula and contributes that formula's free variables instead.
    pub fn get_keys(&self, kontext: &FormelKontext) -> (r: Vec<String>)
        ensures
            namen_ansichten(r@) == schluessel_bei(kontext@, kontext@.len() as nat, self@, Seq::empty()),
    {
        let mut gesehen: Vec<String> = Vec::new();
        let treibstoff = kontext.laenge();
        proof {
            assert(namen_ansichten(gesehen@) =~= Seq::<Seq<char>>::empty());
        }
        self.sammle_bei(kontext, treibstoff, &mut gesehen);
        gesehen
    }

    /// Appends the new free variables of this formula to `gesehen`.
    pub(crate) fn sammle_bei(&self, kontext: &FormelKontext, treibstoff: usize, gesehen: &mut Vec<String>)
        ensures
            namen_ansichten(final(gesehen)@) == namen_ansichten(old(gesehen)@) + schluessel_bei(
                kontext@,
                treibstoff as nat,
                self@,
                namen_ansichten(old(gesehen)@),
            ),
        decreases treibstoff, *self,
    {
        match self {
            AussagenFunktion::VARIABEL(name) => {
                let idx = kontext.index_suche_intern(name);
                match idx {
                    Some(j) => {
                        if treibstoff > 0 {
                            let eintrag = kontext.eintrag(j);
                            eintrag.sammle_bei(kontext, treibstoff - 1, gesehen);
                        } else {
                            self.sammle_frei(name, gesehen);
                        }
                    },
                    None => {
                        self.sammle_frei(name, gesehen);
                    },
                }
            },
            AussagenFunktion::TOP() => {
                proof {
                    assert(namen_ansichten(gesehen@) =~= namen_ansichten(gesehen@)
                        + Seq::<Seq<char>>::empty());
                }
            },
            AussagenFunktion::BOTTOM() => {
                proof {
                    assert(namen_ansichten(gesehen@) =~= namen_ansichten(gesehen@)
                        + Seq::<Seq<char>>::empty());
                }
            },
            AussagenFunktion::NOT(kind) => {
                (&**kind).sammle_bei(kontext, treibstoff, gesehen);
            },
            AussagenFunktion::AND(kinder) => {
                self.sammle_liste(kinder, kontext, treibstoff, gesehen);
            },
            AussagenFunktion::OR(kinder) => {
                self.sammle_liste(kinder, kontext, treibstoff, gesehen);
            },
        }
    }

    /// Appends `name` itself where it is new; for a variable that the
    /// context does not resolve.
    fn sammle_frei(&self, name: &String, gesehen: &mut Vec<String>)
        requires
            *self matches AussagenFunktion::VARIABEL(n) && n@ == name@,
        ensures
            namen_ansichten(final(gesehen)@) == namen_ansichten(old(gesehen)@) + (
            if namen_ansichten(old(gesehen)@).contains(name@) {
                Seq::<Seq<char>>::empty()
            } else {
                seq![name@]
            }),
    {
        if name_gesehen(gesehen, name) {
            proof {
                assert(namen_ansichten(gesehen@) =~= namen_ansichten(gesehen@)
                    + Seq::<Seq<char>>::empty());
            }
        } else {
            let ghost vorher = gesehen@;
            gesehen.push(name.clone());
            proof {
                assert(namen_ansichten(gesehen@) =~= namen_ansichten(vorher) + seq![name@]);
            }
        }
    }

    /// Appends the new free variables of every child, left to right.
    fn sammle_liste(
        &self,
        kinder: &Vec<Box<AussagenFunktion>>,
        kontext: &FormelKontext,
        treibstoff: usize,
        gesehen: &mut Vec<String>,
    )
        requires
            (*self matches AussagenFunktion::AND(k) && k@ == kinder@) || (*self
                matches AussagenFunktion::OR(k) && k@ == kinder@),
        ensures
            namen_ansichten(final(gesehen)@) == namen_ansichten(old(gesehen)@) + schluessel_liste(
                kontext@,
                treibstoff as nat,
                funktion_ansichten(kinder@),
                namen_ansichten(old(gesehen)@),
            ),
        decreases treibstoff, *self, 0int,
    {
        let ghost anfang = namen_ansichten(gesehen@);
        let ghost alle = funktion_ansichten(kinder@);
        proof {
            lemma_funktion_ansichten(kinder@);
        }
        let mut i: usize = 0;
        proof {
            assert(alle.subrange(0, 0) =~= Seq::<FunktionView>::empty());
            assert(anfang =~= anfang + schluessel_liste(
                kontext@,
                treibstoff as nat,
                alle.subrange(0, 0),
                anfang,
            ));
        }
        while i < kinder.len()
            invariant
                0 <= i <= kinder@.len(),
                (*self matches AussagenFunktion::AND(k) && k@ == kinder@) || (*self
                    matches AussagenFunktion::OR(k) && k@ == kinder@),
                alle == funktion_ansichten(kinder@),
                alle.len() == kinder@.len(),
                forall|j: int| 0 <= j < kinder@.len() ==> alle[j] == funktion_ansicht(&kinder@[j]),
                namen_ansichten(gesehen@) == anfang + schluessel_liste(
                    kontext@,
                    treibstoff as nat,
                    alle.subrange(0, i as int),
                    anfang,
                ),
            decreases kinder@.len() - i,
        {
            proof {
                assert(decreases_to!(*self => kinder@[i as int]));
            }
            let ghost vorher = namen_ansichten(gesehen@);
            (&*kinder[i]).sammle_bei(kontext, treibstoff, gesehen);
            proof {
                let teil = alle.subrange(0, i as int);
                let teil2 = alle.subrange(0, i + 1);
                assert(teil2 =~= teil + seq![alle[i as int]]);
                lemma_schluessel_teilung(
                    kontext@,
                    treibstoff as nat,
                    teil,
                    seq![alle[i as int]],
                    anfang,
                );
                assert(seq![alle[i as int]].drop_first() =~= Seq::<FunktionView>::empty());
                assert(schluessel_liste(
                    kontext@,
                    treibstoff as nat,
                    seq![alle[i as int]].drop_first(),
                    vorher + schluessel_bei(kontext@, treibstoff as nat, alle[i as int], vorher),
                ) =~= Seq::<Seq<char>>::empty());
                assert(seq![alle[i as int]][0] == alle[i as int]);
                assert(schluessel_liste(
                    kontext@,
                    treibstoff as nat,
                    seq![alle[i as int]],
                    vorher,
                ) =~= schluessel_bei(kontext@, treibstoff as nat, alle[i as int], vorher)
                    + Seq::<Seq<char>>::empty());
                assert(schluessel_liste(kontext@, treibstoff as nat, seq![alle[i as int]], vorher)
                    =~= schluessel_bei(kontext@, treibstoff as nat, alle[i as int], vorher));
                assert(namen_ansichten(gesehen@) =~= anfang + schluessel_liste(
                    kontext@,
                    treibstoff as nat,
                    teil2,
                    anfang,
                ));
            }
            i += 1;
        }
        proof {
            assert(alle.subrange(0, kinder@.len() as int) =~= alle);
        }
    }
}

/// The canonical text of a formula in the plain notation: `t`, `f`, `-X`,
/// `(X & Y & ...)`, `(X | Y | ...)`.
pub open spec fn ascii_text(f: FunktionView) -> Seq<char>
    decreases f,
{
    match f {
        FunktionView::Variabel(name) => name,
        FunktionView::Top => seq!['t'],
        FunktionView::Bottom => seq!['f'],
        FunktionView::Not(kind) => seq!['-'] + ascii_text(*kind),
        FunktionView::And(kinder) => seq!['('] + ascii_glieder(kinder, seq![' ', '&', ' '])
            + seq![')'],
        FunktionView::Or(kinder) => seq!['('] + ascii_glieder(kinder, seq![' ', '|', ' '])
            + seq![')'],
    }
}

/// The children of a group joined by `trenner`; a separator stands before a
/// child only where the text so far is not empty.
pub open spec fn ascii_glieder(kinder: Seq<FunktionView>, trenner: Seq<char>) -> Seq<char>
    decreases kinder,
{
    if kinder.len() == 0 {
        Seq::empty()
    } else {
        let base = ascii_glieder(kinder.drop_last(), trenner);
        if base.len() == 0 {
            ascii_text(kinder.last())
        } else {
            base + trenner + ascii_text(kinder.last())
        }
    }
}

/// The canonical text of a formula in the symbolic notation.
pub open spec fn utf_text(f: FunktionView) -> Seq<char>
    decreases f,
{
    match f {
        FunktionView::Variabel(name) => name,
        FunktionView::Top => seq!['\u{22A4}'],
        FunktionView::Bottom => seq!['\u{22A5}'],
        FunktionView::Not(kind) => seq!['\u{00AC}'] + utf_text(*kind),
        FunktionView::And(kinder) => seq!['('] + utf_glieder(kinder, seq![' ', '\u{22C0}', ' '])
            + seq![')'],
        FunktionView::Or(kinder) => seq!['('] + utf_glieder(kinder, seq![' ', '\u{22C1}', ' '])
            + seq![')'],
    }
}

pub open spec fn utf_glieder(kinder: Seq<FunktionView>, trenner: Seq<char>) -> Seq<char>
    decreases kinder,
{
    if kinder.len() == 0 {
        Seq::empty()
    } else {
        let base = utf_glieder(kinder.drop_last(), trenner);
        if base.len() == 0 {
            utf_text(kinder.last())
        } else {
            base + trenner + utf_text(kinder.last())
        }
    }
}

impl AussagenFunktion {
    /// Renders the formula in the plain notation.
    pub fn to_ascii_string(&self) -> (r: String)
        ensures
            r@ == ascii_text(self@),
        decreases *self, 1int,
    {
        match self {
            AussagenFunktion::VARIABEL(name) => name.clone(),
            AussagenFunktion::TOP() => {
                let r = "t".to_owned();
                proof {
                    reveal_strlit("t");
                    assert(r@ =~= seq!['t']);
                }
                r
            },
            AussagenFunktion::BOTTOM() => {
                let r = "f".to_owned();
                proof {
                    reveal_strlit("f");
                    assert(r@ =~= seq!['f']);
                }
                r
            },
            AussagenFunktion::NOT(kind) => {
                let mut s = "-".to_owned();
                let innen = (&**kind).to_ascii_string();
                s.append(innen.as_str());
                proof {
                    reveal_strlit("-");
                    assert("-"@ =~= seq!['-']);
                }
                s
            },
            AussagenFunktion::AND(kinder) => {
                let innen = glieder_ascii(self, kinder, true);
                klammern(innen)
            },
            AussagenFunktion::OR(kinder) => {
                let innen = glieder_ascii(self, kinder, false);
                klammern(innen)
            },
        }
    }

    /// Renders the formula in the symbolic notation.
    pub fn to_utf_string(&self) -> (r: String)
        ensures
            r@ == utf_text(self@),
        decreases *self, 1int,
    {
        match self {
            AussagenFunktion::VARIABEL(name) => name.clone(),
            AussagenFunktion::TOP() => {
                let r = "\u{22A4}".to_owned();
                proof {
                    reveal_strlit("\u{22A4}");
                    assert(r@ =~= seq!['\u{22A4}']);
                }
                r
            },
            AussagenFunktion::BOTTOM() => {
                let r = "\u{22A5}".to_owned();
                proof {
                    reveal_strlit("\u{22A5}");
                    assert(r@ =~= seq!['\u{22A5}']);
                }
                r
            },
            AussagenFunktion::NOT(kind) => {
                let mut s = "\u{00AC}".to_owned();
                let innen = (&**kind).to_utf_string();
                s.append(innen.as_str());
                proof {
                    reveal_strlit("\u{00AC}");
                    assert("\u{00AC}"@ =~= seq!['\u{00AC}']);
                }
                s
            },
            AussagenFunktion::AND(kinder) => {
                let innen = glieder_utf(self, kinder, true);
                klammern(innen)
            },
            AussagenFunktion::OR(kinder) => {
                let innen = glieder_utf(self, kinder, false);
                klammern(innen)
            },
        }
    }
}

/// Wraps a rendered group in parentheses.
fn klammern(innen: String) -> (r: String)
    ensures
        r@ == seq!['('] + innen@ + seq![')'],
{
    let mut s = "(".to_owned();
    s.append(innen.as_str());
    s.append(")");
    proof {
        reveal_strlit("(");
        reveal_strlit(")");
        assert("("@ =~= seq!['(']);
        assert(")"@ =~= seq![')']);
        assert(s@ =~= seq!['('] + innen@ + seq![')']);
    }
    s
}

/// Renders the children of `ganz` joined by the plain separator.
fn glieder_ascii(ganz: &AussagenFunktion, kinder: &Vec<Box<AussagenFunktion>>, und: bool) -> (r:
    String)
    requires
        (und && (*ganz matches AussagenFunktion::AND(k) && k@ == kinder@)) || (!und && (*ganz
            matches AussagenFunktion::OR(k) && k@ == kinder@)),
    ensures
        und ==> r@ == ascii_glieder(funktion_ansichten(kinder@), seq![' ', '&', ' ']),
        !und ==> r@ == ascii_glieder(funktion_ansichten(kinder@), seq![' ', '|', ' ']),
    decreases *ganz, 0int,
{
    let ghost trenner: Seq<char> = if und {
        seq![' ', '&', ' ']
    } else {
        seq![' ', '|', ' ']
    };
    let ghost alle = funktion_ansichten(kinder@);
    proof {
        lemma_funktion_ansichten(kinder@);
    }
    let mut s = String::new();
    let mut i: usize = 0;
    proof {
        assert(alle.subrange(0, 0) =~= Seq::<FunktionView>::empty());
    }
    while i < kinder.len()
        invariant
            0 <= i <= kinder@.len(),
            (und && (*ganz matches AussagenFunktion::AND(k) && k@ == kinder@)) || (!und && (
            *ganz matches AussagenFunktion::OR(k) && k@ == kinder@)),
            alle == funktion_ansichten(kinder@),
            alle.len() == kinder@.len(),
            forall|j: int| 0 <= j < kinder@.len() ==> alle[j] == funktion_ansicht(&kinder@[j]),
            s@ == ascii_glieder(alle.subrange(0, i as int), trenner),
            trenner == (if und {
                seq![' ', '&', ' ']
            } else {
                seq![' ', '|', ' ']
            }),
        decreases kinder@.len() - i,
    {
        proof {
            assert(decreases_to!(*ganz => kinder@[i as int]));
        }
        let teil = (&*kinder[i]).to_ascii_string();
        if s.as_str().is_empty() {
            s = teil;
        } else {
            if und {
                s.append(" & ");
                proof {
                    reveal_strlit(" & ");
                    assert(" & "@ =~= seq![' ', '&', ' ']);
                }
            } else {
                s.append(" | ");
                proof {
                    reveal_strlit(" | ");
                    assert(" | "@ =~= seq![' ', '|', ' ']);
                }
            }
            s.append(teil.as_str());
        }
        proof {
            assert(alle.subrange(0, i + 1).drop_last() =~= alle.subrange(0, i as int));
            assert(alle.subrange(0, i + 1).last() == alle[i as int]);
        }
        i += 1;
    }
    proof {
        assert(alle.subrange(0, kinder@.len() as int) =~= alle);
    }
    s
}

/// Renders the children of `ganz` joined by the symbolic separator.
fn glieder_utf(ganz: &AussagenFunktion, kinder: &Vec<Box<AussagenFunktion>>, und: bool) -> (r:
    String)
    requires
        (und && (*ganz matches AussagenFunktion::AND(k) && k@ == kinder@)) || (!und && (*ganz
            matches AussagenFunktion::OR(k) && k@ == kinder@)),
    ensures
        und ==> r@ == utf_glieder(funktion_ansichten(kinder@), seq![' ', '\u{22C0}', ' ']),
        !und ==> r@ == utf_glieder(funktion_ansichten(kinder@), seq![' ', '\u{22C1}', ' ']),
    decreases *ganz, 0int,
{
    let ghost trenner: Seq<char> = if und {
        seq![' ', '\u{22C0}', ' ']
    } else {
        seq![' ', '\u{22C1}', ' ']
    };
    let ghost alle = funktion_ansichten(kinder@);
    proof {
        lemma_funktion_ansichten(kinder@);
    }
    let mut s = String::new();
    let mut i: usize = 0;
    proof {
        assert(alle.subrange(0, 0) =~= Seq::<FunktionView>::empty());
    }
    while i < kinder.len()
        invariant
            0 <= i <= kinder@.len(),
            (und && (*ganz matches AussagenFunktion::AND(k) && k@ == kinder@)) || (!und && (
            *ganz matches AussagenFunktion::OR(k) && k@ == kinder@)),
            alle == funktion_ansichten(kinder@),
            alle.len() == kinder@.len(),
            forall|j: int| 0 <= j < kinder@.len() ==> alle[j] == funktion_ansicht(&kinder@[j]),
            s@ == utf_glieder(alle.subrange(0, i as int), trenner),
            trenner == (if und {
                seq![' ', '\u{22C0}', ' ']
            } else {
                seq![' ', '\u{22C1}', ' ']
            }),
        decreases kinder@.len() - i,
    {
        proof {
            assert(decreases_to!(*ganz => kinder@[i as int]));
        }
        let teil = (&*kinder[i]).to_utf_string();
        if s.as_str().is_empty() {
            s = teil;
        } else {
            if und {
                s.append(" \u{22C0} ");
                proof {
                    reveal_strlit(" \u{22C0} ");
                    assert(" \u{22C0} "@ =~= seq![' ', '\u{22C0}', ' ']);
                }
            } else {
                s.append(" \u{22C1} ");
                proof {
                    reveal_strlit(" \u{22C1} ");
                    assert(" \u{22C1} "@ =~= seq![' ', '\u{22C1}', ' ']);
                }
            }
            s.append(teil.as_str());
        }
        proof {
            assert(alle.subrange(0, i + 1).drop_last() =~= alle.subrange(0, i as int));
            assert(alle.subrange(0, i + 1).last() == alle[i as int]);
        }
        i += 1;
    }
    proof {
        assert(alle.subrange(0, kinder@.len() as int) =~= alle);
    }
    s
}

/// Overwriting the value at the unique index of a name updates the map at
/// that name.
proof fn lemma_set_update(alt: Seq<(String, bool)>, neu: Seq<(String, bool)>, i: int, n: Seq<char>, wert: bool)
    requires
        0 <= i < alt.len(),
        neu.len() == alt.len(),
        alt[i].0@ == n,
        forall|j: int| 0 <= j < alt.len() && j != i ==> neu[j] == alt[j],
        neu[i].0@ == n,
        neu[i].1 == wert,
        forall|p: int, q: int| 0 <= p < q < alt.len() ==> alt[p].0@ != alt[q].0@,
        forall|p: int, q: int| 0 <= p < q < neu.len() ==> neu[p].0@ != neu[q].0@,
    ensures
        paare_als_map(neu) == paare_als_map(alt).insert(n, wert),
    decreases alt.len(),
{
    if i == alt.len() - 1 {
        lemma_paare_map_kongruenz(neu.drop_last(), alt.drop_last());
        assert(paare_als_map(neu) =~= paare_als_map(alt).insert(n, wert));
    } else {
        lemma_set_update(alt.drop_last(), neu.drop_last(), i, n, wert);
        lemma_paare_als_map(alt.drop_last());
        lemma_paare_als_map(neu.drop_last());
        assert(alt.last().0@ != n);
        assert(paare_als_map(neu) =~= paare_als_map(alt).insert(n, wert));
    }
}

} // verus!
