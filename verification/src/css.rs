//! Stylesheet data model: rules, selectors, declarations, values, and
//! selector specificity.

use vstd::prelude::*;

verus! {

/// A selector's rank: (id count, class count, tag count), compared
/// lexicographically; a higher rank wins the cascade.
pub type Specificity = (usize, usize, usize);

/// An ordered sequence of rules; order breaks specificity ties
/// (the last rule wins).
#[derive(Debug, PartialEq)]
pub struct Stylesheet {
    pub rules: Vec<Rule>,
}

impl Stylesheet {
    pub fn new() -> (r: Stylesheet)
        ensures
            r@ =~= Seq::<RuleV>::empty(),
    {
        Stylesheet { rules: Vec::new() }
    }
}

#[derive(Debug, PartialEq)]
pub struct Rule {
    pub selectors: Vec<Selector>,
    pub declarations: Vec<Declaration>,
}

#[derive(Debug, PartialEq)]
pub enum Selector {
    Simple(SimpleSelector),
}

#[derive(Debug, PartialEq)]
pub struct SimpleSelector {
    pub tag_name: Option<String>,
    pub id: Option<String>,
    pub class: Vec<String>,
}

#[derive(Debug, PartialEq)]
pub struct Declaration {
    pub name: String,
    pub value: Value,
}

/// A declaration's value. Lengths are whole pixel counts.
#[derive(Debug, PartialEq)]
pub enum Value {
    Keyword(String),
    Length(i64, Unit),
    Color(Color),
}

#[derive(Debug, PartialEq)]
pub enum Unit {
    Px,
}

#[derive(Clone, Copy, PartialEq, Eq, Structural, Debug)]
pub struct Color {
    pub red: u8,
    pub green: u8,
    pub blue: u8,
    pub alpha: u8,
}

/// Mathematical model of a `Value`: strings as character sequences,
/// lengths as unbounded integers (the unit, always pixels, is dropped).
pub enum ValueV {
    Keyword(Seq<char>),
    Length(int),
    Color(Color),
}

impl View for Value {
    type V = ValueV;

    open spec fn view(&self) -> ValueV {
        match self {
            Value::Keyword(s) => ValueV::Keyword(s@),
            Value::Length(n, _) => ValueV::Length(*n as int),
            Value::Color(c) => ValueV::Color(*c),
        }
    }
}

impl DeepView for Value {
    type V = ValueV;

    open spec fn deep_view(&self) -> ValueV {
        self.view()
    }
}

impl Value {
    /// The pixel count of a length; every other value counts as zero.
    pub open spec fn spec_to_px(v: ValueV) -> int {
        match v {
            ValueV::Length(n) => n,
            _ => 0,
        }
    }

    /// An owned copy of the value.
    pub fn dup(&self) -> (r: Value)
        ensures
            r@ == self@,
    {
        match self {
            Value::Keyword(s) => Value::Keyword(s.clone()),
            Value::Length(n, Unit::Px) => Value::Length(*n, Unit::Px),
            Value::Color(c) => Value::Color(*c),
        }
    }

    pub fn to_px(&self) -> (r: i64)
        ensures
            r as int == Value::spec_to_px(self@),
    {
        match self {
            Value::Length(n, _) => *n,
            _ => 0,
        }
    }
}

/// Model of a simple selector.
#[verifier::ext_equal]
pub struct SelectorV {
    pub tag_name: Option<Seq<char>>,
    pub id: Option<Seq<char>>,
    pub class: Seq<Seq<char>>,
}

impl View for SimpleSelector {
    type V = SelectorV;

    open spec fn view(&self) -> SelectorV {
        SelectorV {
            tag_name: match self.tag_name {
                Option::Some(s) => Option::Some(s@),
                Option::None => Option::None,
            },
            id: match self.id {
                Option::Some(s) => Option::Some(s@),
                Option::None => Option::None,
            },
            class: self.class.deep_view(),
        }
    }
}

impl View for Selector {
    type V = SelectorV;

    open spec fn view(&self) -> SelectorV {
        match self {
            Selector::Simple(s) => s.view(),
        }
    }
}

impl DeepView for Selector {
    type V = SelectorV;

    open spec fn deep_view(&self) -> SelectorV {
        self.view()
    }
}

pub struct DeclarationV {
    pub name: Seq<char>,
    pub value: ValueV,
}

impl View for Declaration {
    type V = DeclarationV;

    open spec fn view(&self) -> DeclarationV {
        DeclarationV { name: self.name@, value: self.value@ }
    }
}

impl DeepView for Declaration {
    type V = DeclarationV;

    open spec fn deep_view(&self) -> DeclarationV {
        self.view()
    }
}

pub struct RuleV {
    pub selectors: Seq<SelectorV>,
    pub declarations: Seq<DeclarationV>,
}

impl View for Rule {
    type V = RuleV;

    open spec fn view(&self) -> RuleV {
        RuleV {
            selectors: self.selectors.deep_view(),
            declarations: self.declarations.deep_view(),
        }
    }
}

impl DeepView for Rule {
    type V = RuleV;

    open spec fn deep_view(&self) -> RuleV {
        self.view()
    }
}

impl View for Stylesheet {
    type V = Seq<RuleV>;

    open spec fn view(&self) -> Seq<RuleV> {
        self.rules.deep_view()
    }
}

/// The rank of a selector: one point for an id, one per class, one for
/// a tag name.
pub open spec fn spec_specificity(s: SelectorV) -> (int, int, int) {
    (
        if s.id is Some { 1int } else { 0int },
        s.class.len() as int,
        if s.tag_name is Some { 1int } else { 0int },
    )
}

/// Strict lexicographic order on specificities: a higher id count wins,
/// then a higher class count, then a higher tag count.
pub open spec fn spec_lex_lt(a: (int, int, int), b: (int, int, int)) -> bool {
    a.0 < b.0 || (a.0 == b.0 && (a.1 < b.1 || (a.1 == b.1 && a.2 < b.2)))
}

pub open spec fn spec_lex_le(a: (int, int, int), b: (int, int, int)) -> bool {
    spec_lex_lt(a, b) || a == b
}

pub open spec fn spec_view(s: Specificity) -> (int, int, int) {
    (s.0 as int, s.1 as int, s.2 as int)
}

impl Selector {
    pub fn specificity(&self) -> (r: Specificity)
        ensures
            spec_view(r) == spec_specificity(self@),
    {
        let Selector::Simple(simple) = self;
        let a: usize = if simple.id.is_some() { 1 } else { 0 };
        let b: usize = simple.class.len();
        let c: usize = if simple.tag_name.is_some() { 1 } else { 0 };
        (a, b, c)
    }
}

/// Whether `a` ranks no higher than `b`.
pub fn specificity_le(a: Specificity, b: Specificity) -> (r: bool)
    ensures
        r == spec_lex_le(spec_view(a), spec_view(b)),
{
    a.0 < b.0 || (a.0 == b.0 && (a.1 < b.1 || (a.1 == b.1 && a.2 <= b.2)))
}

/// Specificity ordering is lexicographic: a greater id count ranks
/// higher regardless of the class and tag counts; with equal id counts
/// a greater class count ranks higher; with equal id and class counts a
/// greater tag count ranks higher.
pub proof fn lemma_specificity_ordering(a: (int, int, int), b: (int, int, int))
    ensures
        a.0 > b.0 ==> spec_lex_lt(b, a),
        a.0 == b.0 && a.1 > b.1 ==> spec_lex_lt(b, a),
        a.0 == b.0 && a.1 == b.1 && a.2 > b.2 ==> spec_lex_lt(b, a),
{
}

/// Specificity ordering is total: any two ranks are comparable, and
/// strict comparison is asymmetric.
pub proof fn lemma_specificity_total(a: (int, int, int), b: (int, int, int))
    ensures
        spec_lex_lt(a, b) || spec_lex_lt(b, a) || a == b,
        !(spec_lex_lt(a, b) && spec_lex_lt(b, a)),
{
}

} // verus!
