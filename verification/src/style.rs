//! The cascade: selector matching, specificity-ranked rule resolution,
//! and construction of the styled tree.

use vstd::prelude::*;

use crate::css::{
    spec_lex_le, spec_specificity, spec_view, specificity_le, DeclarationV, Rule, RuleV, Selector,
    SelectorV, SimpleSelector, Specificity, Stylesheet, Value, ValueV,
};
use crate::dom::{
    lemma_map_of_last_match, lemma_map_of_no_match, map_of, node_view, spec_classes, ElementData,
    ElementV, Node, NodeType, NodeTypeV, NodeV,
};
use crate::layout::Display;
use crate::strutil::str_eq;

verus! {

/// A property mapping, kept as the log of its insertions; the view is
/// the map where the last insertion of a name wins.
#[derive(Debug, PartialEq)]
pub struct PropertyMap {
    entries: Vec<(String, Value)>,
}

impl View for PropertyMap {
    type V = Map<Seq<char>, ValueV>;

    closed spec fn view(&self) -> Map<Seq<char>, ValueV> {
        map_of(self.entries@)
    }
}

impl PropertyMap {
    pub fn new() -> (r: PropertyMap)
        ensures
            r@ =~= Map::<Seq<char>, ValueV>::empty(),
    {
        PropertyMap { entries: Vec::new() }
    }

    /// Binds `name` to `value`, replacing any earlier binding.
    pub fn insert(&mut self, name: String, value: Value)
        ensures
            final(self)@ == old(self)@.insert(name@, value@),
    {
        self.entries.push((name, value));
        proof {
            assert(self.entries@.drop_last() =~= old(self).entries@);
        }
    }

    /// The value bound to `name`, if any.
    pub fn get(&self, name: &str) -> (r: Option<&Value>)
        ensures
            match r {
                Option::Some(v) => self@.dom().contains(name@) && v@ == self@[name@],
                Option::None => !self@.dom().contains(name@),
            },
    {
        let mut i: usize = self.entries.len();
        while i > 0
            invariant
                i <= self.entries.len(),
                forall|j: int| i <= j < self.entries@.len() ==> self.entries@[j].0@ != name@,
            decreases i,
        {
            i -= 1;
            let e = &self.entries[i];
            if str_eq(e.0.as_str(), name) {
                proof {
                    lemma_map_of_last_match(self.entries@, i as int, name@);
                }
                return Option::Some(&e.1);
            }
        }
        proof {
            lemma_map_of_no_match(self.entries@, name@);
        }
        Option::None
    }
}

/// A markup node together with its resolved properties and its styled
/// children, in markup order.
pub struct StyledNode {
    pub specified_values: PropertyMap,
    pub children: Vec<StyledNode>,
}

/// Model of a styled node.
#[verifier::ext_equal]
pub struct StyledV {
    pub specified_values: Map<Seq<char>, ValueV>,
    pub children: Seq<StyledV>,
}

/// Model of a styled tree, node by node.
pub open spec fn styled_view(n: StyledNode) -> StyledV
    decreases n,
{
    StyledV {
        specified_values: n.specified_values@,
        children: Seq::new(
            n.children@.len(),
            |i: int|
                if 0 <= i < n.children@.len() {
                    styled_view(n.children@[i])
                } else {
                    arbitrary()
                },
        ),
    }
}

impl View for StyledNode {
    type V = StyledV;

    open spec fn view(&self) -> StyledV {
        styled_view(*self)
    }
}

/// The value a property map gives to `name`, if any.
pub open spec fn spec_value(m: Map<Seq<char>, ValueV>, name: Seq<char>) -> Option<ValueV> {
    if m.dom().contains(name) {
        Option::Some(m[name])
    } else {
        Option::None
    }
}

/// The display kind read from the `display` property: the keyword
/// `block` or `none` selects that kind, anything else is inline.
pub open spec fn spec_display(m: Map<Seq<char>, ValueV>) -> Display {
    match spec_value(m, "display"@) {
        Option::Some(ValueV::Keyword(s)) => if s == "block"@ {
            Display::Block
        } else if s == "none"@ {
            Display::NoBox
        } else {
            Display::Inline
        },
        _ => Display::Inline,
    }
}

/// The `name` property if present, else the `fallback_name` property,
/// else the given default.
pub open spec fn spec_lookup(
    m: Map<Seq<char>, ValueV>,
    name: Seq<char>,
    fallback_name: Seq<char>,
    default: ValueV,
) -> ValueV {
    match spec_value(m, name) {
        Option::Some(v) => v,
        Option::None => match spec_value(m, fallback_name) {
            Option::Some(v) => v,
            Option::None => default,
        },
    }
}

impl PropertyMap {
    /// A copy of the value bound to `name`, if any.
    pub fn value(&self, name: &str) -> (r: Option<Value>)
        ensures
            match r {
                Option::Some(v) => spec_value(self@, name@) == Option::Some(v@),
                Option::None => spec_value(self@, name@) is None,
            },
    {
        match self.get(name) {
            Option::Some(v) => Option::Some(v.dup()),
            Option::None => Option::None,
        }
    }

    /// The display kind these properties give, from `display`.
    pub fn display(&self) -> (r: Display)
        ensures
            r == spec_display(self@),
    {
        match self.value("display") {
            Option::Some(Value::Keyword(s)) => {
                if str_eq(s.as_str(), "block") {
                    Display::Block
                } else if str_eq(s.as_str(), "none") {
                    Display::NoBox
                } else {
                    Display::Inline
                }
            },
            _ => Display::Inline,
        }
    }

    /// The `name` property if present, else the `fallback_name`
    /// property, else a copy of `default`.
    pub fn lookup(&self, name: &str, fallback_name: &str, default: &Value) -> (r: Value)
        ensures
            r@ == spec_lookup(self@, name@, fallback_name@, default@),
    {
        match self.value(name) {
            Option::Some(v) => v,
            Option::None => match self.value(fallback_name) {
                Option::Some(v) => v,
                Option::None => default.dup(),
            },
        }
    }
}

impl StyledNode {
    /// The resolved value of the named property, if any.
    pub fn value(&self, name: &str) -> (r: Option<Value>)
        ensures
            match r {
                Option::Some(v) => spec_value(self@.specified_values, name@)
                    == Option::Some(v@),
                Option::None => spec_value(self@.specified_values, name@) is None,
            },
    {
        self.specified_values.value(name)
    }

    /// The node's display kind, from its `display` property.
    pub fn display(&self) -> (r: Display)
        ensures
            r == spec_display(self@.specified_values),
    {
        self.specified_values.display()
    }

    /// The `name` property if present, else the `fallback_name`
    /// property, else a copy of `default`.
    pub fn lookup(&self, name: &str, fallback_name: &str, default: &Value) -> (r: Value)
        ensures
            r@ == spec_lookup(self@.specified_values, name@, fallback_name@, default@),
    {
        self.specified_values.lookup(name, fallback_name, default)
    }
}

/// Whether a simple selector matches an element: the tag name and id
/// must agree where the selector gives them, and every selector class
/// must occur among the element's classes.
pub open spec fn sel_matches(e: ElementV, s: SelectorV) -> bool {
    &&& match s.tag_name {
        Option::Some(t) => e.tag_name == t,
        Option::None => true,
    }
    &&& match s.id {
        Option::Some(id) => e.attributes.dom().contains("id"@) && e.attributes["id"@] == id,
        Option::None => true,
    }
    &&& forall|j: int| 0 <= j < s.class.len() ==> spec_classes(e).contains(s.class[j])
}

/// Whether some entry of `v` holds exactly the characters of `s`.
fn contains_str(v: &Vec<String>, s: &str) -> (r: bool)
    ensures
        r == v.deep_view().contains(s@),
{
    let mut i: usize = 0;
    while i < v.len()
        invariant
            i <= v.len(),
            forall|j: int| 0 <= j < i ==> v.deep_view()[j] != s@,
        decreases v.len() - i,
    {
        if str_eq(v[i].as_str(), s) {
            assert(v.deep_view()[i as int] == s@);
            return true;
        }
        i += 1;
    }
    assert(forall|j: int| 0 <= j < v.deep_view().len() ==> v.deep_view()[j] != s@);
    false
}

pub fn matches_simple_selector(elem: &ElementData, selector: &SimpleSelector) -> (r: bool)
    ensures
        r == sel_matches(elem@, selector@),
{
    // Check the type selector.
    if let Option::Some(name) = &selector.tag_name {
        if !str_eq(elem.tag_name.as_str(), name.as_str()) {
            return false;
        }
    }
    // Check the id selector.
    if let Option::Some(id) = &selector.id {
        match elem.id() {
            Option::Some(v) => {
                if !str_eq(v.as_str(), id.as_str()) {
                    return false;
                }
            },
            Option::None => {
                return false;
            },
        }
    }
    // Check the class selectors.
    let elem_classes = elem.classes();
    let mut k: usize = 0;
    while k < selector.class.len()
        invariant
            k <= selector.class.len(),
            elem_classes.deep_view() == spec_classes(elem@),
            forall|j: int| 0 <= j < k ==> spec_classes(elem@).contains(selector@.class[j]),
        decreases selector.class.len() - k,
    {
        if !contains_str(&elem_classes, selector.class[k].as_str()) {
            assert(!spec_classes(elem@).contains(selector@.class[k as int]));
            return false;
        }
        k += 1;
    }
    true
}

pub fn matches(elem: &ElementData, selector: &Selector) -> (r: bool)
    ensures
        r == sel_matches(elem@, selector@),
{
    match selector {
        Selector::Simple(simple_selector) => matches_simple_selector(elem, simple_selector),
    }
}

/// The first selector of the list that matches the element, if any.
pub open spec fn spec_first_match(e: ElementV, sels: Seq<SelectorV>) -> Option<SelectorV>
    decreases sels.len(),
{
    if sels.len() == 0 {
        Option::None
    } else if sel_matches(e, sels[0]) {
        Option::Some(sels[0])
    } else {
        spec_first_match(e, sels.drop_first())
    }
}

proof fn lemma_first_match_at(e: ElementV, sels: Seq<SelectorV>, i: int)
    requires
        0 <= i < sels.len(),
        sel_matches(e, sels[i]),
        forall|j: int| 0 <= j < i ==> !sel_matches(e, sels[j]),
    ensures
        spec_first_match(e, sels) == Option::Some(sels[i]),
    decreases i,
{
    if i > 0 {
        lemma_first_match_at(e, sels.drop_first(), i - 1);
    }
}

proof fn lemma_first_match_none(e: ElementV, sels: Seq<SelectorV>)
    requires
        forall|j: int| 0 <= j < sels.len() ==> !sel_matches(e, sels[j]),
    ensures
        spec_first_match(e, sels) is None,
    decreases sels.len(),
{
    if sels.len() > 0 {
        lemma_first_match_none(e, sels.drop_first());
    }
}

/// The specificity under which a rule applies to an element: that of
/// its first matching selector (the selectors are kept sorted by
/// descending specificity, so this is the most specific match).
pub open spec fn spec_match_rule(e: ElementV, r: RuleV) -> Option<(int, int, int)> {
    match spec_first_match(e, r.selectors) {
        Option::Some(s) => Option::Some(spec_specificity(s)),
        Option::None => Option::None,
    }
}

/// The specificity of the rule's first selector matching the element,
/// or nothing when no selector matches.
pub fn match_rule(elem: &ElementData, rule: &Rule) -> (r: Option<Specificity>)
    ensures
        match r {
            Option::Some(sp) => spec_match_rule(elem@, rule@) == Option::Some(spec_view(sp)),
            Option::None => spec_match_rule(elem@, rule@) is None,
        },
{
    let mut i: usize = 0;
    while i < rule.selectors.len()
        invariant
            i <= rule.selectors.len(),
            forall|j: int| 0 <= j < i ==> !sel_matches(elem@, rule@.selectors[j]),
        decreases rule.selectors.len() - i,
    {
        let sel = &rule.selectors[i];
        if matches(elem, sel) {
            proof {
                assert(rule@.selectors[i as int] == sel@);
                lemma_first_match_at(elem@, rule@.selectors, i as int);
            }
            return Option::Some(sel.specificity());
        }
        proof {
            assert(rule@.selectors[i as int] == sel@);
        }
        i += 1;
    }
    proof {
        lemma_first_match_none(elem@, rule@.selectors);
    }
    Option::None
}

/// A matched rule: the specificity under which it applies, and the
/// rule's position in the stylesheet.
pub type MatchedRule = (Specificity, usize);

pub open spec fn matched_view(s: Seq<MatchedRule>) -> Seq<((int, int, int), int)> {
    Seq::new(s.len(), |i: int| (spec_view(s[i].0), s[i].1 as int))
}

/// The rules of the sheet that match the element, in stylesheet order,
/// each under the specificity of its first matching selector.
pub open spec fn spec_matching_rules(e: ElementV, rules: Seq<RuleV>) -> Seq<((int, int, int), int)>
    decreases rules.len(),
{
    if rules.len() == 0 {
        Seq::empty()
    } else {
        let pre = spec_matching_rules(e, rules.drop_last());
        match spec_match_rule(e, rules.last()) {
            Option::Some(sp) => pre.push((sp, rules.len() - 1)),
            Option::None => pre,
        }
    }
}

/// Every matched entry names a rule of the sheet.
pub proof fn lemma_matching_rules_in_range(e: ElementV, rules: Seq<RuleV>)
    ensures
        forall|k: int|
            0 <= k < spec_matching_rules(e, rules).len() ==> 0 <= #[trigger] spec_matching_rules(
                e,
                rules,
            )[k].1 < rules.len(),
    decreases rules.len(),
{
    if rules.len() > 0 {
        lemma_matching_rules_in_range(e, rules.drop_last());
        let pre = spec_matching_rules(e, rules.drop_last());
        match spec_match_rule(e, rules.last()) {
            Option::Some(sp) => {
                let whole = pre.push((sp, rules.len() - 1));
                assert(spec_matching_rules(e, rules) == whole);
                assert forall|k: int| 0 <= k < whole.len() implies 0 <= #[trigger] whole[k].1
                    < rules.len() by {
                    if k < pre.len() {
                        assert(whole[k] == pre[k]);
                    }
                }
            },
            Option::None => {},
        }
    }
}

pub fn matching_rules(elem: &ElementData, stylesheet: &Stylesheet) -> (r: Vec<MatchedRule>)
    ensures
        matched_view(r@) == spec_matching_rules(elem@, stylesheet@),
{
    let mut out: Vec<MatchedRule> = Vec::new();
    let mut idx: usize = 0;
    proof {
        assert(stylesheet@.subrange(0, 0) =~= Seq::<RuleV>::empty());
        assert(matched_view(out@) =~= spec_matching_rules(elem@, stylesheet@.subrange(0, 0)));
    }
    while idx < stylesheet.rules.len()
        invariant
            idx <= stylesheet.rules.len(),
            stylesheet@.len() == stylesheet.rules@.len(),
            matched_view(out@) == spec_matching_rules(
                elem@,
                stylesheet@.subrange(0, idx as int),
            ),
        decreases stylesheet.rules.len() - idx,
    {
        let ghost pre = stylesheet@.subrange(0, idx as int);
        let ghost cur = stylesheet@.subrange(0, idx as int + 1);
        proof {
            assert(cur.drop_last() =~= pre);
            assert(cur.last() == stylesheet@[idx as int]);
            assert(stylesheet@[idx as int] == stylesheet.rules@[idx as int].deep_view());
        }
        let rule = &stylesheet.rules[idx];
        let ghost prev_out = out@;
        match match_rule(elem, rule) {
            Option::Some(sp) => {
                out.push((sp, idx));
                proof {
                    assert(out@.drop_last() =~= prev_out);
                    assert(matched_view(out@) =~= matched_view(prev_out).push(
                        (spec_view(sp), idx as int),
                    ));
                }
            },
            Option::None => {},
        }
        proof {
            assert(matched_view(out@) =~= spec_matching_rules(elem@, cur));
        }
        idx += 1;
    }
    proof {
        assert(stylesheet@.subrange(0, stylesheet@.len() as int) =~= stylesheet@);
    }
    out
}

/// `x` placed into the sorted list `s`, after every entry it does not
/// outrank: a stable insertion.
pub open spec fn spec_insert_sorted(
    s: Seq<((int, int, int), int)>,
    x: ((int, int, int), int),
) -> Seq<((int, int, int), int)>
    decreases s.len(),
{
    if s.len() == 0 {
        seq![x]
    } else if spec_lex_le(s.last().0, x.0) {
        s.push(x)
    } else {
        spec_insert_sorted(s.drop_last(), x).push(s.last())
    }
}

/// The matched rules in ascending specificity, ties kept in stylesheet
/// order: a stable insertion sort.
pub open spec fn spec_sort(s: Seq<((int, int, int), int)>) -> Seq<((int, int, int), int)>
    decreases s.len(),
{
    if s.len() == 0 {
        Seq::empty()
    } else {
        spec_insert_sorted(spec_sort(s.drop_last()), s.last())
    }
}

proof fn lemma_insert_sorted_at(
    s: Seq<((int, int, int), int)>,
    x: ((int, int, int), int),
    k: int,
)
    requires
        0 <= k <= s.len(),
        k > 0 ==> spec_lex_le(s[k - 1].0, x.0),
        forall|j: int| k <= j < s.len() ==> !spec_lex_le(s[j].0, x.0),
    ensures
        spec_insert_sorted(s, x) == s.subrange(0, k) + seq![x] + s.subrange(k, s.len() as int),
    decreases s.len(),
{
    if k == s.len() {
        if s.len() == 0 {
            assert(spec_insert_sorted(s, x) =~= s.subrange(0, k) + seq![x] + s.subrange(
                k,
                s.len() as int,
            ));
        } else {
            assert(spec_lex_le(s.last().0, x.0));
            assert(spec_insert_sorted(s, x) =~= s.subrange(0, k) + seq![x] + s.subrange(
                k,
                s.len() as int,
            ));
        }
    } else {
        assert(!spec_lex_le(s.last().0, x.0));
        if k > 0 {
            assert(s.drop_last()[k - 1] == s[k - 1]);
        }
        lemma_insert_sorted_at(s.drop_last(), x, k);
        assert(spec_insert_sorted(s, x) =~= s.subrange(0, k) + seq![x] + s.subrange(
            k,
            s.len() as int,
        )) by {
            assert(s.drop_last().subrange(0, k) =~= s.subrange(0, k));
            assert(s.drop_last().subrange(k, s.len() - 1) =~= s.subrange(k, s.len() - 1));
            assert((s.subrange(0, k) + seq![x] + s.subrange(k, s.len() - 1)).push(s.last())
                =~= s.subrange(0, k) + seq![x] + s.subrange(k, s.len() as int));
        }
    }
}

/// Sorts the matched rules into ascending specificity, keeping ties in
/// their original order, so that later insertions overwrite earlier,
/// less specific ones.
pub fn sort_by_specificity(v: &Vec<MatchedRule>) -> (r: Vec<MatchedRule>)
    ensures
        matched_view(r@) == spec_sort(matched_view(v@)),
{
    let mut out: Vec<MatchedRule> = Vec::new();
    let mut i: usize = 0;
    proof {
        assert(matched_view(v@).subrange(0, 0) =~= Seq::<((int, int, int), int)>::empty());
        assert(matched_view(out@) =~= spec_sort(matched_view(v@).subrange(0, 0)));
    }
    while i < v.len()
        invariant
            i <= v.len(),
            matched_view(out@) == spec_sort(matched_view(v@).subrange(0, i as int)),
        decreases v.len() - i,
    {
        let x = v[i];
        let ghost xv = (spec_view(x.0), x.1 as int);
        proof {
            assert(matched_view(v@)[i as int] == xv);
        }
        let mut k: usize = out.len();
        while k > 0 && !specificity_le(out[k - 1].0, x.0)
            invariant
                xv == (spec_view(x.0), x.1 as int),
                k <= out.len(),
                forall|j: int|
                    k <= j < out@.len() ==> !spec_lex_le(#[trigger] matched_view(out@)[j].0, xv.0),
            decreases k,
        {
            proof {
                assert(matched_view(out@)[k - 1] == (spec_view(out@[k - 1].0), out@[k - 1].1 as int));
                assert(!spec_lex_le(matched_view(out@)[k - 1].0, xv.0));
            }
            k -= 1;
        }
        proof {
            if k > 0 {
                assert(matched_view(out@)[k - 1] == (spec_view(out@[k - 1].0), out@[k - 1].1 as int));
            }
            lemma_insert_sorted_at(matched_view(out@), xv, k as int);
        }
        let ghost old_out = out@;
        out.insert(k, x);
        proof {
            assert(matched_view(out@) =~= matched_view(old_out).subrange(0, k as int) + seq![xv]
                + matched_view(old_out).subrange(k as int, old_out.len() as int)) by {
                assert(out@ == old_out.insert(k as int, x));
                assert forall|j: int| 0 <= j < out@.len() implies matched_view(out@)[j] == (
                matched_view(old_out).subrange(0, k as int) + seq![xv] + matched_view(
                    old_out,
                ).subrange(k as int, old_out.len() as int))[j] by {}
            }
            let ghost pre = matched_view(v@).subrange(0, i as int);
            let ghost cur = matched_view(v@).subrange(0, i as int + 1);
            assert(cur.drop_last() =~= pre);
            assert(cur.last() == xv);
            assert(matched_view(out@) =~= spec_sort(cur));
        }
        i += 1;
    }
    proof {
        assert(matched_view(v@).subrange(0, v@.len() as int) =~= matched_view(v@));
    }
    out
}

/// Every entry of a stable sort comes from the unsorted list, so its
/// rule index stays in range.
proof fn lemma_insert_sorted_range(s: Seq<((int, int, int), int)>, x: ((int, int, int), int), n: int)
    requires
        forall|k: int| 0 <= k < s.len() ==> 0 <= #[trigger] s[k].1 < n,
        0 <= x.1 < n,
    ensures
        forall|k: int|
            0 <= k < spec_insert_sorted(s, x).len() ==> 0 <= #[trigger] spec_insert_sorted(
                s,
                x,
            )[k].1 < n,
    decreases s.len(),
{
    if s.len() == 0 {
        assert(spec_insert_sorted(s, x) == seq![x]);
        assert(spec_insert_sorted(s, x)[0] == x);
    } else if spec_lex_le(s.last().0, x.0) {
        let whole = s.push(x);
        assert(spec_insert_sorted(s, x) == whole);
        assert forall|k: int| 0 <= k < whole.len() implies 0 <= #[trigger] whole[k].1 < n by {
            if k < s.len() {
                assert(whole[k] == s[k]);
            }
        }
    } else {
        lemma_insert_sorted_range(s.drop_last(), x, n);
        let pre = spec_insert_sorted(s.drop_last(), x);
        let whole = pre.push(s.last());
        assert(spec_insert_sorted(s, x) == whole);
        assert forall|k: int| 0 <= k < whole.len() implies 0 <= #[trigger] whole[k].1 < n by {
            if k < pre.len() {
                assert(whole[k] == pre[k]);
            }
        }
    }
}

proof fn lemma_sort_range(s: Seq<((int, int, int), int)>, n: int)
    requires
        forall|k: int| 0 <= k < s.len() ==> 0 <= #[trigger] s[k].1 < n,
    ensures
        forall|k: int|
            0 <= k < spec_sort(s).len() ==> 0 <= #[trigger] spec_sort(s)[k].1 < n,
    decreases s.len(),
{
    if s.len() > 0 {
        lemma_sort_range(s.drop_last(), n);
        lemma_insert_sorted_range(spec_sort(s.drop_last()), s.last(), n);
    }
}

/// Each declaration written into the map, in order; a later declaration
/// of the same name overwrites an earlier one.
pub open spec fn spec_apply_decls(
    decls: Seq<DeclarationV>,
    m: Map<Seq<char>, ValueV>,
) -> Map<Seq<char>, ValueV>
    decreases decls.len(),
{
    if decls.len() == 0 {
        m
    } else {
        spec_apply_decls(decls.drop_first(), m.insert(decls[0].name, decls[0].value))
    }
}

/// The declarations of each listed rule applied in list order.
pub open spec fn spec_apply_rules(
    rules: Seq<RuleV>,
    sorted: Seq<((int, int, int), int)>,
    m: Map<Seq<char>, ValueV>,
) -> Map<Seq<char>, ValueV>
    decreases sorted.len(),
{
    if sorted.len() == 0 {
        m
    } else {
        let idx = sorted[0].1;
        let m2 = if 0 <= idx < rules.len() {
            spec_apply_decls(rules[idx].declarations, m)
        } else {
            m
        };
        spec_apply_rules(rules, sorted.drop_first(), m2)
    }
}

/// The element's resolved properties: every declaration of every
/// matching rule, applied in ascending specificity (ties in stylesheet
/// order), later applications overwriting earlier ones.
pub open spec fn spec_specified_values(e: ElementV, rules: Seq<RuleV>) -> Map<Seq<char>, ValueV> {
    spec_apply_rules(rules, spec_sort(spec_matching_rules(e, rules)), Map::empty())
}

/// Resolves the element's properties against the stylesheet. The
/// result is a function of the element and the stylesheet alone, so
/// resolving twice yields the same mapping.
pub fn specified_values(elem: &ElementData, stylesheet: &Stylesheet) -> (r: PropertyMap)
    ensures
        r@ == spec_specified_values(elem@, stylesheet@),
{
    let mut values = PropertyMap::new();
    let matched = matching_rules(elem, stylesheet);
    let rules = sort_by_specificity(&matched);
    let ghost sorted = spec_sort(spec_matching_rules(elem@, stylesheet@));
    proof {
        lemma_matching_rules_in_range(elem@, stylesheet@);
        lemma_sort_range(spec_matching_rules(elem@, stylesheet@), stylesheet@.len() as int);
        assert(sorted.subrange(0, sorted.len() as int) =~= sorted);
    }
    let mut t: usize = 0;
    while t < rules.len()
        invariant
            t <= rules.len(),
            matched_view(rules@) == sorted,
            stylesheet@.len() == stylesheet.rules@.len(),
            forall|k: int| 0 <= k < sorted.len() ==> 0 <= #[trigger] sorted[k].1 < stylesheet@.len(),
            spec_apply_rules(stylesheet@, sorted, Map::empty()) == spec_apply_rules(
                stylesheet@,
                sorted.subrange(t as int, sorted.len() as int),
                values@,
            ),
        decreases rules.len() - t,
    {
        let idx = rules[t].1;
        proof {
            assert(matched_view(rules@)[t as int] == (spec_view(rules@[t as int].0), idx as int));
            assert(0 <= idx < stylesheet@.len());
        }
        let rule = &stylesheet.rules[idx];
        let ghost decls = stylesheet@[idx as int].declarations;
        let ghost values_at_entry = values@;
        proof {
            assert(decls =~= rule.declarations.deep_view());
            assert(decls.subrange(0, decls.len() as int) =~= decls);
        }
        let mut d: usize = 0;
        while d < rule.declarations.len()
            invariant
                d <= rule.declarations.len(),
                decls == rule.declarations.deep_view(),
                decls.len() == rule.declarations@.len(),
                spec_apply_decls(decls, values_at_entry) == spec_apply_decls(
                    decls.subrange(d as int, decls.len() as int),
                    values@,
                ),
            decreases rule.declarations.len() - d,
        {
            let declaration = &rule.declarations[d];
            proof {
                assert(decls[d as int] == declaration@);
                assert(decls.subrange(d as int, decls.len() as int).drop_first() =~= decls.subrange(
                    d as int + 1,
                    decls.len() as int,
                ));
            }
            values.insert(declaration.name.clone(), declaration.value.dup());
            d += 1;
        }
        proof {
            assert(decls.subrange(decls.len() as int, decls.len() as int) =~= Seq::<
                DeclarationV,
            >::empty());
            assert(sorted.subrange(t as int, sorted.len() as int).drop_first() =~= sorted.subrange(
                t as int + 1,
                sorted.len() as int,
            ));
            assert(sorted.subrange(t as int, sorted.len() as int)[0] == sorted[t as int]);
        }
        t += 1;
    }
    proof {
        assert(sorted.subrange(rules@.len() as int, sorted.len() as int) =~= Seq::<
            ((int, int, int), int),
        >::empty());
    }
    values
}

/// The styled tree of a markup tree: each element carries its resolved
/// properties, text and comments carry none, and children keep markup
/// order.
pub open spec fn spec_style_tree(n: NodeV, rules: Seq<RuleV>) -> StyledV
    decreases n,
{
    StyledV {
        specified_values: match n.node_type {
            NodeTypeV::Element(e) => spec_specified_values(e, rules),
            _ => Map::empty(),
        },
        children: Seq::new(
            n.children.len(),
            |i: int|
                if 0 <= i < n.children.len() {
                    spec_style_tree(n.children[i], rules)
                } else {
                    arbitrary()
                },
        ),
    }
}

/// Builds the styled tree for a markup tree against a stylesheet.
pub fn style_tree(root: &Node, stylesheet: &Stylesheet) -> (r: StyledNode)
    ensures
        r@ == spec_style_tree(root@, stylesheet@),
    decreases *root,
{
    let specified = match &root.node_type {
        NodeType::Element(elem) => specified_values(elem, stylesheet),
        NodeType::Text(_) => PropertyMap::new(),
        NodeType::Comment(_) => PropertyMap::new(),
    };
    let mut children: Vec<StyledNode> = Vec::new();
    let mut i: usize = 0;
    while i < root.children.len()
        invariant
            i <= root.children.len(),
            children@.len() == i,
            forall|j: int|
                0 <= j < i ==> styled_view(#[trigger] children@[j]) == spec_style_tree(
                    root@.children[j],
                    stylesheet@,
                ),
        decreases root.children@.len() - i,
    {
        let child = &root.children[i];
        proof {
            assert(root@.children[i as int] == node_view(root.children@[i as int]));
        }
        let styled = style_tree(child, stylesheet);
        children.push(styled);
        i += 1;
    }
    let r = StyledNode { specified_values: specified, children };
    proof {
        let target = spec_style_tree(root@, stylesheet@);
        assert(r@.specified_values == target.specified_values);
        assert(r@.children.len() == target.children.len());
        assert forall|j: int| 0 <= j < r@.children.len() implies r@.children[j]
            == target.children[j] by {
            assert(r@.children[j] == styled_view(r.children@[j]));
            assert(target.children[j] == spec_style_tree(root@.children[j], stylesheet@));
        }
        assert(r@.children =~= target.children);
        assert(r@ =~= target);
    }
    r
}

} // verus!
