//! Style resolution: selector matching, the cascade (matching rules ordered
//! by specificity with a stable sort, later declarations overwriting earlier
//! ones), and the styled tree that attaches a resolved property mapping to
//! every document node.

use vstd::prelude::*;

use crate::css::Rule;
use crate::css::RuleV;
use crate::css::Selector;
use crate::css::SelectorV;
use crate::css::SimpleSelector;
use crate::css::SimpleSelectorV;
use crate::css::Specificity;
use crate::css::StyleSheet;
use crate::css::StyleSheetV;
use crate::css::Value;
use crate::css::ValueV;
use crate::css::spec_le;
use crate::css::spec_lt;
use crate::css::spec_specificity;
use crate::dict::Dict;
use crate::dom::ElementData;
use crate::dom::ElementDataV;
use crate::dom::Node;
use crate::dom::NodeType;
use crate::dom::NodeTypeV;
use crate::dom::NodeV;
use crate::dom::node_view;
use crate::dom::nodes_view;
use crate::dom::spec_classes;
use crate::util::str_eq;

verus! {

/// Mapping from property names to values for one element.
pub type PropertyMap = Dict<Value>;

/// A document node together with its resolved property mapping.
pub struct StyleNode {
    pub specified_values: PropertyMap,
    pub children: Vec<StyleNode>,
}

/// How a styled node participates in layout.
#[derive(Clone, Copy, PartialEq, Eq, Structural)]
pub enum Display {
    Inline,
    Block,
    NoBox,
}

// --- mathematical views -----------------------------------------------------

/// View of a `StyleNode`.
pub struct StyleNodeV {
    pub specified_values: Map<Seq<char>, ValueV>,
    pub children: Seq<StyleNodeV>,
}

/// View of a styled node, taken recursively over its children.
pub open spec fn style_node_view(n: StyleNode) -> StyleNodeV
    decreases n,
{
    StyleNodeV {
        specified_values: n.specified_values@,
        children: style_nodes_view(n.children@),
    }
}

/// Views of a sequence of styled nodes, element by element.
pub open spec fn style_nodes_view(s: Seq<StyleNode>) -> Seq<StyleNodeV>
    decreases s,
{
    if s.len() == 0 {
        Seq::empty()
    } else {
        seq![style_node_view(s[0])] + style_nodes_view(s.skip(1))
    }
}

/// `style_nodes_view` maps `style_node_view` over the sequence.
pub proof fn lemma_style_nodes_view_index(s: Seq<StyleNode>)
    ensures
        style_nodes_view(s).len() == s.len(),
        forall|i: int| 0 <= i < s.len() ==> style_nodes_view(s)[i] == style_node_view(s[i]),
    decreases s.len(),
{
    if s.len() > 0 {
        lemma_style_nodes_view_index(s.skip(1));
    }
}

impl View for StyleNode {
    type V = StyleNodeV;

    open spec fn view(&self) -> StyleNodeV {
        style_node_view(*self)
    }
}

// --- selector matching ------------------------------------------------------

/// Whether an element satisfies a simple selector: every present field must
/// match; a specified id never matches an element without an `id` attribute.
pub open spec fn spec_matches_simple(e: ElementDataV, sel: SimpleSelectorV) -> bool {
    &&& (sel.tag_name matches Some(t) ==> t == e.tag_name)
    &&& (sel.id matches Some(id) ==> e.attributes.contains_key("id"@) && e.attributes["id"@]
        == id)
    &&& (forall|i: int|
        0 <= i < sel.class.len() ==> spec_classes(e).contains(#[trigger] sel.class[i]))
}

/// Whether an element satisfies a selector.
pub open spec fn spec_matches(e: ElementDataV, s: SelectorV) -> bool {
    match s {
        SelectorV::Simple(sel) => spec_matches_simple(e, sel),
    }
}

/// Whether a class list (viewed) contains the given name.
fn contains_class(classes: &Vec<String>, name: &str) -> (r: bool)
    ensures
        r == classes@.map_values(|s: String| s@).contains(name@),
{
    let n = classes.len();
    let mut i: usize = 0;
    while i < n
        invariant
            n == classes@.len(),
            i <= n,
            forall|j: int| 0 <= j < i ==> (#[trigger] classes@[j])@ != name@,
        decreases n - i,
    {
        if str_eq(classes[i].as_str(), name) {
            assert(classes@.map_values(|s: String| s@)[i as int] == name@);
            return true;
        }
        i = i + 1;
    }
    proof {
        let m = classes@.map_values(|s: String| s@);
        assert forall|j: int| 0 <= j < m.len() implies #[trigger] m[j] != name@ by {
            assert(m[j] == classes@[j]@);
        }
        assert(!m.contains(name@));
    }
    false
}

/// Decides whether an element satisfies a simple selector.
pub fn matches_simple_selector(elem: &ElementData, selector: &SimpleSelector) -> (r: bool)
    ensures
        r == spec_matches_simple(elem@, selector@),
{
    match &selector.tag_name {
        Some(name) => {
            if !str_eq(name.as_str(), elem.tag_name.as_str()) {
                return false;
            }
        },
        None => {},
    }
    match &selector.id {
        Some(id) => {
            match elem.id() {
                None => {
                    return false;
                },
                Some(elem_id) => {
                    if !str_eq(elem_id.as_str(), id.as_str()) {
                        return false;
                    }
                },
            }
        },
        None => {},
    }
    let elem_classes = elem.classes();
    let n = selector.class.len();
    let mut i: usize = 0;
    while i < n
        invariant
            n == selector.class@.len(),
            i <= n,
            elem_classes@.map_values(|s: String| s@) == spec_classes(elem@),
            forall|j: int|
                0 <= j < i ==> spec_classes(elem@).contains(
                    #[trigger] selector@.class[j],
                ),
        decreases n - i,
    {
        if !contains_class(&elem_classes, selector.class[i].as_str()) {
            assert(selector@.class[i as int] == selector.class@[i as int]@);
            return false;
        }
        assert(spec_classes(elem@).contains(selector@.class[i as int]));
        i = i + 1;
    }
    true
}

/// Decides whether an element satisfies a selector.
pub fn selector_matches(elem: &ElementData, selector: &Selector) -> (r: bool)
    ensures
        r == spec_matches(elem@, selector@),
{
    match selector {
        Selector::Simple(simple) => matches_simple_selector(elem, simple),
    }
}

// --- the cascade ------------------------------------------------------------

/// A rule that matched, with the specificity of its first matching selector.
pub type MatchedRule<'a> = (Specificity, &'a Rule);

/// A specificity triple widened to mathematical integers.
pub open spec fn spec_of(s: Specificity) -> (int, int, int) {
    (s.0 as int, s.1 as int, s.2 as int)
}

/// View of a matched rule.
pub open spec fn mr_view(m: (Specificity, &Rule)) -> ((int, int, int), RuleV) {
    (spec_of(m.0), m.1@)
}

/// The specificity of the first selector in listed order that matches, if
/// any; deliberately not the maximum over all matching selectors.
pub open spec fn spec_match_sels(e: ElementDataV, sels: Seq<SelectorV>) -> Option<
    (int, int, int),
>
    decreases sels.len(),
{
    if sels.len() == 0 {
        Option::None
    } else if spec_matches(e, sels[0]) {
        Option::Some(spec_specificity(sels[0]))
    } else {
        spec_match_sels(e, sels.skip(1))
    }
}

/// A rule matches an element if any of its selectors does; the effective
/// specificity is that of the first matching selector.
pub open spec fn spec_match_rule(e: ElementDataV, r: RuleV) -> Option<((int, int, int), RuleV)> {
    match spec_match_sels(e, r.selectors) {
        Option::Some(s) => Option::Some((s, r)),
        Option::None => Option::None,
    }
}

/// All rules that match the element, in stylesheet order, each with its
/// effective specificity.
pub open spec fn spec_matching_rules(e: ElementDataV, rules: Seq<RuleV>) -> Seq<
    ((int, int, int), RuleV),
>
    decreases rules.len(),
{
    if rules.len() == 0 {
        Seq::empty()
    } else {
        let rest = spec_matching_rules(e, rules.drop_last());
        match spec_match_rule(e, rules.last()) {
            Option::Some(m) => rest.push(m),
            Option::None => rest,
        }
    }
}

/// Inserts a matched rule into a sorted sequence, after every entry of less
/// or equal specificity: insertion keeps equal-specificity entries in their
/// existing relative order.
pub open spec fn spec_insert_sorted(
    s: Seq<((int, int, int), RuleV)>,
    m: ((int, int, int), RuleV),
) -> Seq<((int, int, int), RuleV)>
    decreases s.len(),
{
    if s.len() == 0 {
        seq![m]
    } else if spec_le(s.last().0, m.0) {
        s.push(m)
    } else {
        spec_insert_sorted(s.drop_last(), m).push(s.last())
    }
}

/// Stable insertion sort of matched rules, ascending by specificity.
pub open spec fn spec_sort_rules(s: Seq<((int, int, int), RuleV)>) -> Seq<
    ((int, int, int), RuleV),
>
    decreases s.len(),
{
    if s.len() == 0 {
        Seq::empty()
    } else {
        spec_insert_sorted(spec_sort_rules(s.drop_last()), s.last())
    }
}

/// Applies declarations in order into a property mapping; a later write to
/// the same property overwrites an earlier one.
pub open spec fn spec_apply_decls(
    m: Map<Seq<char>, ValueV>,
    decls: Seq<(Seq<char>, ValueV)>,
) -> Map<Seq<char>, ValueV>
    decreases decls.len(),
{
    if decls.len() == 0 {
        m
    } else {
        spec_apply_decls(m, decls.drop_last()).insert(decls.last().0, decls.last().1)
    }
}

/// Applies the declarations of each matched rule in sequence order.
pub open spec fn spec_apply_rules(
    m: Map<Seq<char>, ValueV>,
    ms: Seq<((int, int, int), RuleV)>,
) -> Map<Seq<char>, ValueV>
    decreases ms.len(),
{
    if ms.len() == 0 {
        m
    } else {
        spec_apply_decls(spec_apply_rules(m, ms.drop_last()), ms.last().1.declarations)
    }
}

/// The resolved property mapping of an element: matching rules, stable-sorted
/// ascending by specificity, applied in order into an empty mapping.
pub open spec fn spec_resolve(e: ElementDataV, ss: StyleSheetV) -> Map<Seq<char>, ValueV> {
    spec_apply_rules(Map::empty(), spec_sort_rules(spec_matching_rules(e, ss.rules)))
}

/// Compares two specificities, strictly and lexicographically.
fn specificity_gt(a: Specificity, b: Specificity) -> (r: bool)
    ensures
        r == spec_lt(spec_of(b), spec_of(a)),
{
    if a.0 != b.0 {
        a.0 > b.0
    } else if a.1 != b.1 {
        a.1 > b.1
    } else {
        a.2 > b.2
    }
}

/// Finds the first selector of the rule that matches, with its specificity.
pub fn match_rule<'a>(elem: &ElementData, rule: &'a Rule) -> (r: Option<MatchedRule<'a>>)
    ensures
        r is Some <==> spec_match_rule(elem@, rule@) is Some,
        r matches Some(m) ==> spec_match_rule(elem@, rule@) == Option::Some(mr_view(m)),
{
    let n = rule.selectors.len();
    let mut i: usize = 0;
    proof {
        assert(rule@.selectors.skip(0) =~= rule@.selectors);
    }
    while i < n
        invariant
            n == rule.selectors@.len(),
            i <= n,
            spec_match_sels(elem@, rule@.selectors) == spec_match_sels(
                elem@,
                rule@.selectors.skip(i as int),
            ),
        decreases n - i,
    {
        let sel = &rule.selectors[i];
        proof {
            assert(rule@.selectors[i as int] == rule.selectors@[i as int]@);
            assert(rule@.selectors.skip(i as int)[0] == rule@.selectors[i as int]);
        }
        if selector_matches(elem, sel) {
            let s = sel.specificity();
            proof {
                assert(spec_match_sels(elem@, rule@.selectors.skip(i as int))
                    == Option::Some(spec_specificity(rule@.selectors[i as int])));
            }
            return Some((s, rule));
        }
        proof {
            assert(rule@.selectors.skip(i as int).skip(1) =~= rule@.selectors.skip(i + 1));
        }
        i = i + 1;
    }
    proof {
        assert(rule@.selectors.skip(n as int) =~= Seq::<SelectorV>::empty());
    }
    None
}

/// All rules of the stylesheet that match the element, in stylesheet order.
pub fn matching_rules<'a>(elem: &ElementData, stylesheet: &'a StyleSheet) -> (r: Vec<
    MatchedRule<'a>,
>)
    ensures
        r@.map_values(|m: (Specificity, &Rule)| mr_view(m)) == spec_matching_rules(
            elem@,
            stylesheet@.rules,
        ),
{
    let mut out: Vec<MatchedRule<'a>> = Vec::new();
    let n = stylesheet.rules.len();
    let mut i: usize = 0;
    proof {
        assert(stylesheet@.rules.take(0) =~= Seq::<RuleV>::empty());
        assert(out@.map_values(|m: (Specificity, &Rule)| mr_view(m)) =~= Seq::<
            ((int, int, int), RuleV),
        >::empty());
    }
    while i < n
        invariant
            n == stylesheet.rules@.len(),
            stylesheet@.rules.len() == n,
            i <= n,
            out@.map_values(|m: (Specificity, &Rule)| mr_view(m)) == spec_matching_rules(
                elem@,
                stylesheet@.rules.take(i as int),
            ),
        decreases n - i,
    {
        proof {
            assert(stylesheet@.rules[i as int] == stylesheet.rules@[i as int]@);
            assert(stylesheet@.rules.take(i + 1).drop_last() =~= stylesheet@.rules.take(
                i as int,
            ));
            assert(stylesheet@.rules.take(i + 1).last() == stylesheet@.rules[i as int]);
        }
        let ghost prev = out@.map_values(|m: (Specificity, &Rule)| mr_view(m));
        match match_rule(elem, &stylesheet.rules[i]) {
            Some(m) => {
                out.push(m);
                proof {
                    assert(out@.map_values(|m: (Specificity, &Rule)| mr_view(m)) =~= prev.push(
                        mr_view(m),
                    ));
                }
            },
            None => {},
        }
        i = i + 1;
    }
    proof {
        assert(stylesheet@.rules.take(n as int) =~= stylesheet@.rules);
    }
    out
}

/// Inserting at the boundary position realizes `spec_insert_sorted`.
proof fn lemma_insert_sorted_at(
    s: Seq<((int, int, int), RuleV)>,
    j: int,
    m: ((int, int, int), RuleV),
)
    requires
        0 <= j <= s.len(),
        forall|k: int| j <= k < s.len() ==> spec_lt(m.0, (#[trigger] s[k]).0),
        j > 0 ==> spec_le(s[j - 1].0, m.0),
    ensures
        spec_insert_sorted(s, m) == s.insert(j, m),
    decreases s.len(),
{
    if s.len() == 0 {
        assert(spec_insert_sorted(s, m) =~= s.insert(0, m));
    } else if j == s.len() {
        assert(spec_le(s.last().0, m.0));
        assert(s.push(m) =~= s.insert(j, m));
    } else {
        assert(spec_lt(m.0, s.last().0));
        assert(!spec_le(s.last().0, m.0));
        lemma_insert_sorted_at(s.drop_last(), j, m);
        assert(spec_insert_sorted(s.drop_last(), m).push(s.last()) =~= s.drop_last().insert(
            j,
            m,
        ).push(s.last()));
        assert(s.drop_last().insert(j, m).push(s.last()) =~= s.insert(j, m));
    }
}

/// Inserts a matched rule into a vector sorted ascending by specificity,
/// after all entries of less or equal specificity.
fn insert_matched<'a>(acc: &mut Vec<MatchedRule<'a>>, m: MatchedRule<'a>)
    ensures
        final(acc)@.map_values(|x: (Specificity, &Rule)| mr_view(x)) == spec_insert_sorted(
            old(acc)@.map_values(|x: (Specificity, &Rule)| mr_view(x)),
            mr_view(m),
        ),
{
    let ghost sv = acc@.map_values(|x: (Specificity, &Rule)| mr_view(x));
    let mut j: usize = acc.len();
    while j > 0 && specificity_gt(acc[j - 1].0, m.0)
        invariant
            j <= acc@.len(),
            acc@ == old(acc)@,
            sv == acc@.map_values(|x: (Specificity, &Rule)| mr_view(x)),
            forall|k: int| j <= k < sv.len() ==> spec_lt(mr_view(m).0, (#[trigger] sv[k]).0),
        decreases j,
    {
        proof {
            assert(sv[j - 1] == mr_view(acc@[j - 1]));
        }
        j = j - 1;
    }
    proof {
        if j > 0 {
            assert(sv[j - 1] == mr_view(acc@[j - 1]));
        }
        lemma_insert_sorted_at(sv, j as int, mr_view(m));
    }
    acc.insert(j, m);
    proof {
        assert(acc@.map_values(|x: (Specificity, &Rule)| mr_view(x)) =~= sv.insert(
            j as int,
            mr_view(m),
        ));
    }
}

/// Stable-sorts matched rules ascending by specificity; entries of equal
/// specificity keep their relative order.
pub fn sort_matched<'a>(v: Vec<MatchedRule<'a>>) -> (r: Vec<MatchedRule<'a>>)
    ensures
        r@.map_values(|x: (Specificity, &Rule)| mr_view(x)) == spec_sort_rules(
            v@.map_values(|x: (Specificity, &Rule)| mr_view(x)),
        ),
{
    let ghost vv = v@.map_values(|x: (Specificity, &Rule)| mr_view(x));
    let mut out: Vec<MatchedRule<'a>> = Vec::new();
    let n = v.len();
    let mut i: usize = 0;
    proof {
        assert(vv.take(0) =~= Seq::<((int, int, int), RuleV)>::empty());
        assert(out@.map_values(|x: (Specificity, &Rule)| mr_view(x)) =~= Seq::<
            ((int, int, int), RuleV),
        >::empty());
    }
    while i < n
        invariant
            n == v@.len(),
            vv == v@.map_values(|x: (Specificity, &Rule)| mr_view(x)),
            i <= n,
            out@.map_values(|x: (Specificity, &Rule)| mr_view(x)) == spec_sort_rules(
                vv.take(i as int),
            ),
        decreases n - i,
    {
        proof {
            assert(vv.take(i + 1).drop_last() =~= vv.take(i as int));
            assert(vv.take(i + 1).last() == vv[i as int]);
            assert(vv[i as int] == mr_view(v@[i as int]));
        }
        insert_matched(&mut out, v[i]);
        i = i + 1;
    }
    proof {
        assert(vv.take(n as int) =~= vv);
    }
    out
}

/// Resolves the element's property mapping against the stylesheet: matching
/// rules are stable-sorted ascending by specificity and their declarations
/// applied in order, so the highest-specificity — and among equals the
/// latest-declared — value wins each property.
pub fn specified_values(elem: &ElementData, style_sheet: &StyleSheet) -> (r: PropertyMap)
    ensures
        r@ == spec_resolve(elem@, style_sheet@),
{
    let mut values: PropertyMap = Dict::new();
    let matched = matching_rules(elem, style_sheet);
    let rules = sort_matched(matched);
    let ghost sorted = spec_sort_rules(spec_matching_rules(elem@, style_sheet@.rules));
    let n = rules.len();
    let mut i: usize = 0;
    proof {
        assert(rules@.map_values(|x: (Specificity, &Rule)| mr_view(x)).len() == n);
        assert(sorted.take(0) =~= Seq::<((int, int, int), RuleV)>::empty());
    }
    while i < n
        invariant
            n == rules@.len(),
            i <= n,
            rules@.map_values(|x: (Specificity, &Rule)| mr_view(x)) == sorted,
            values@ == spec_apply_rules(Map::empty(), sorted.take(i as int)),
        decreases n - i,
    {
        let rule = rules[i].1;
        proof {
            assert(sorted[i as int] == mr_view(rules@[i as int]));
            assert(sorted.take(i + 1).drop_last() =~= sorted.take(i as int));
            assert(sorted.take(i + 1).last() == sorted[i as int]);
        }
        let ghost decls = rule@.declarations;
        let ghost base = values@;
        let dn = rule.declarations.len();
        let mut j: usize = 0;
        proof {
            assert(decls.take(0) =~= Seq::<(Seq<char>, ValueV)>::empty());
        }
        while j < dn
            invariant
                dn == rule.declarations@.len(),
                decls == rule@.declarations,
                decls.len() == dn,
                j <= dn,
                values@ == spec_apply_decls(base, decls.take(j as int)),
            decreases dn - j,
        {
            proof {
                assert(decls[j as int] == (
                    rule.declarations@[j as int].name@,
                    rule.declarations@[j as int].value@,
                ));
                assert(decls.take(j + 1).drop_last() =~= decls.take(j as int));
                assert(decls.take(j + 1).last() == decls[j as int]);
            }
            let name = rule.declarations[j].name.clone();
            let value = rule.declarations[j].value.clone();
            values.insert(name, value);
            j = j + 1;
        }
        proof {
            assert(decls.take(dn as int) =~= decls);
        }
        i = i + 1;
    }
    proof {
        assert(sorted.take(n as int) =~= sorted);
    }
    values
}

// --- cascade laws -----------------------------------------------------------

/// The last value a declaration list assigns to property `p`, if any.
pub open spec fn last_decl_of(decls: Seq<(Seq<char>, ValueV)>, p: Seq<char>) -> Option<ValueV>
    decreases decls.len(),
{
    if decls.len() == 0 {
        Option::None
    } else if decls.last().0 == p {
        Option::Some(decls.last().1)
    } else {
        last_decl_of(decls.drop_last(), p)
    }
}

/// Applying a declaration list leaves property `p` at its last declared
/// value, or at the mapping's previous binding when the list never sets it.
proof fn lemma_apply_decls_lookup(
    m: Map<Seq<char>, ValueV>,
    decls: Seq<(Seq<char>, ValueV)>,
    p: Seq<char>,
)
    ensures
        last_decl_of(decls, p) matches Some(v) ==> spec_apply_decls(m, decls).contains_key(p)
            && spec_apply_decls(m, decls)[p] == v,
        last_decl_of(decls, p) is None ==> (spec_apply_decls(m, decls).contains_key(p)
            <==> m.contains_key(p)) && (m.contains_key(p) ==> spec_apply_decls(m, decls)[p]
            == m[p]),
    decreases decls.len(),
{
    if decls.len() > 0 {
        lemma_apply_decls_lookup(m, decls.drop_last(), p);
    }
}

/// Cascade tie-break: in a stylesheet of two rules that both match the
/// element with equal specificity and both set property `p`, the later
/// rule's last declared value for `p` wins.
pub proof fn lemma_cascade_tie_break(
    e: ElementDataV,
    r1: RuleV,
    r2: RuleV,
    p: Seq<char>,
    s: (int, int, int),
)
    requires
        spec_match_sels(e, r1.selectors) == Option::Some(s),
        spec_match_sels(e, r2.selectors) == Option::Some(s),
        last_decl_of(r2.declarations, p) is Some,
    ensures
        spec_resolve(e, StyleSheetV { rules: seq![r1, r2] }).contains_key(p),
        last_decl_of(r2.declarations, p) == Option::Some(
            spec_resolve(e, StyleSheetV { rules: seq![r1, r2] })[p],
        ),
{
    let rules = seq![r1, r2];
    let m1 = ((s, r1));
    let m2 = ((s, r2));
    assert(rules.last() == r2);
    assert(rules.drop_last() =~= seq![r1]);
    assert(seq![r1].last() == r1);
    assert(seq![r1].drop_last() =~= Seq::<RuleV>::empty());
    assert(spec_matching_rules(e, Seq::<RuleV>::empty()) =~= Seq::<
        ((int, int, int), RuleV),
    >::empty());
    assert(spec_matching_rules(e, seq![r1]) =~= seq![m1]);
    assert(spec_matching_rules(e, rules) =~= seq![m1, m2]);
    let ms = seq![m1, m2];
    assert(ms.last() == m2);
    assert(ms.drop_last() =~= seq![m1]);
    assert(seq![m1].last() == m1);
    assert(seq![m1].drop_last() =~= Seq::<((int, int, int), RuleV)>::empty());
    assert(spec_sort_rules(Seq::<((int, int, int), RuleV)>::empty()) =~= Seq::<
        ((int, int, int), RuleV),
    >::empty());
    assert(spec_insert_sorted(Seq::<((int, int, int), RuleV)>::empty(), m1) =~= seq![m1]);
    assert(spec_sort_rules(seq![m1]) =~= seq![m1]);
    assert(spec_le(m1.0, m2.0));
    assert(spec_insert_sorted(seq![m1], m2) =~= ms);
    assert(spec_sort_rules(ms) =~= ms);
    let base = spec_apply_rules(Map::empty(), seq![m1]);
    assert(spec_apply_rules(Map::empty(), ms) == spec_apply_decls(base, r2.declarations));
    lemma_apply_decls_lookup(base, r2.declarations, p);
}

/// The matched rules carrying one given specificity, in their original
/// relative order.
pub open spec fn flt(
    s: Seq<((int, int, int), RuleV)>,
    key: (int, int, int),
) -> Seq<((int, int, int), RuleV)>
    decreases s.len(),
{
    if s.len() == 0 {
        Seq::empty()
    } else {
        let r = flt(s.drop_last(), key);
        if s.last().0 == key {
            r.push(s.last())
        } else {
            r
        }
    }
}

/// Ascending specificity order.
pub open spec fn sorted_rules(s: Seq<((int, int, int), RuleV)>) -> bool {
    forall|i: int, j: int| 0 <= i < j < s.len() ==> spec_le(s[i].0, s[j].0)
}

/// Lexicographic less-or-equal is transitive.
proof fn lemma_spec_le_trans(a: (int, int, int), b: (int, int, int), c: (int, int, int))
    requires
        spec_le(a, b),
        spec_le(b, c),
    ensures
        spec_le(a, c),
{
}

/// Inserting keeps the sequence sorted; the new last element is the
/// inserted one or the old last.
proof fn lemma_insert_sorted_sorted(s: Seq<((int, int, int), RuleV)>, m: ((int, int, int), RuleV))
    requires
        sorted_rules(s),
    ensures
        sorted_rules(spec_insert_sorted(s, m)),
        spec_insert_sorted(s, m).len() == s.len() + 1,
        spec_insert_sorted(s, m).last() == m || (s.len() > 0 && spec_insert_sorted(s, m).last()
            == s.last()),
    decreases s.len(),
{
    let out = spec_insert_sorted(s, m);
    if s.len() == 0 {
        assert(out =~= seq![m]);
    } else if spec_le(s.last().0, m.0) {
        assert(out == s.push(m));
        assert forall|i: int, j: int| 0 <= i < j < out.len() implies spec_le(
            out[i].0,
            out[j].0,
        ) by {
            if j == out.len() - 1 {
                assert(out[i] == s[i]);
                if i < s.len() - 1 {
                    assert(spec_le(s[i].0, s.last().0));
                }
                lemma_spec_le_trans(s[i].0, s.last().0, m.0);
            } else {
                assert(out[i] == s[i] && out[j] == s[j]);
            }
        }
    } else {
        assert(sorted_rules(s.drop_last())) by {
            assert forall|i: int, j: int| 0 <= i < j < s.drop_last().len() implies spec_le(
                s.drop_last()[i].0,
                s.drop_last()[j].0,
            ) by {
                assert(s.drop_last()[i] == s[i] && s.drop_last()[j] == s[j]);
            }
        }
        lemma_insert_sorted_sorted(s.drop_last(), m);
        let inner = spec_insert_sorted(s.drop_last(), m);
        assert(out == inner.push(s.last()));
        assert(spec_le(m.0, s.last().0));
        assert(inner.last() == m || (s.drop_last().len() > 0 && inner.last()
            == s.drop_last().last()));
        assert(spec_le(inner.last().0, s.last().0)) by {
            if inner.last() != m {
                assert(s.drop_last().last() == s[s.len() - 2]);
                assert(spec_le(s[s.len() - 2].0, s.last().0));
            }
        }
        assert forall|i: int, j: int| 0 <= i < j < out.len() implies spec_le(
            out[i].0,
            out[j].0,
        ) by {
            if j == out.len() - 1 {
                assert(out[i] == inner[i]);
                if i < inner.len() - 1 {
                    assert(spec_le(inner[i].0, inner.last().0));
                } else {
                    assert(inner[i] == inner.last());
                }
                lemma_spec_le_trans(inner[i].0, inner.last().0, s.last().0);
            } else {
                assert(out[i] == inner[i] && out[j] == inner[j]);
            }
        }
    }
}

/// The stable sort yields an ascending sequence.
pub proof fn lemma_sort_sorted(s: Seq<((int, int, int), RuleV)>)
    ensures
        sorted_rules(spec_sort_rules(s)),
    decreases s.len(),
{
    if s.len() > 0 {
        lemma_sort_sorted(s.drop_last());
        lemma_insert_sorted_sorted(spec_sort_rules(s.drop_last()), s.last());
    }
}

/// Insertion appends to the inserted key's filtered subsequence and leaves
/// every other key's subsequence unchanged.
proof fn lemma_insert_flt(
    s: Seq<((int, int, int), RuleV)>,
    m: ((int, int, int), RuleV),
    key: (int, int, int),
)
    ensures
        flt(spec_insert_sorted(s, m), key) == if m.0 == key {
            flt(s, key).push(m)
        } else {
            flt(s, key)
        },
    decreases s.len(),
{
    let out = spec_insert_sorted(s, m);
    if s.len() == 0 {
        assert(out =~= seq![m]);
        assert(out.drop_last() =~= Seq::<((int, int, int), RuleV)>::empty());
        assert(flt(out.drop_last(), key) =~= Seq::<((int, int, int), RuleV)>::empty());
        assert(flt(s, key) =~= Seq::<((int, int, int), RuleV)>::empty());
        if m.0 == key {
            assert(flt(out, key) =~= flt(s, key).push(m));
        } else {
            assert(flt(out, key) =~= flt(s, key));
        }
    } else if spec_le(s.last().0, m.0) {
        assert(out == s.push(m));
        assert(out.drop_last() =~= s);
        assert(out.last() == m);
    } else {
        lemma_insert_flt(s.drop_last(), m, key);
        let inner = spec_insert_sorted(s.drop_last(), m);
        assert(out == inner.push(s.last()));
        assert(out.drop_last() =~= inner);
        assert(out.last() == s.last());
        if m.0 == key {
            if s.last().0 == key {
                assert(false) by {
                    assert(spec_lt(m.0, s.last().0));
                }
            }
            assert(flt(out, key) == flt(inner, key));
            assert(flt(s, key) == flt(s.drop_last(), key));
        }
    }
}

/// Stability: sorting preserves each specificity's filtered subsequence.
pub proof fn lemma_sort_flt(s: Seq<((int, int, int), RuleV)>, key: (int, int, int))
    ensures
        flt(spec_sort_rules(s), key) == flt(s, key),
    decreases s.len(),
{
    if s.len() > 0 {
        lemma_sort_flt(s.drop_last(), key);
        lemma_insert_flt(spec_sort_rules(s.drop_last()), s.last(), key);
    }
}

/// A non-empty filtered subsequence names an element of the sequence.
proof fn lemma_flt_member(s: Seq<((int, int, int), RuleV)>, key: (int, int, int))
    requires
        flt(s, key).len() > 0,
    ensures
        exists|j: int| 0 <= j < s.len() && (#[trigger] s[j]).0 == key,
    decreases s.len(),
{
    if s.last().0 == key {
        assert(s[s.len() - 1].0 == key);
    } else {
        lemma_flt_member(s.drop_last(), key);
        let j = choose|j: int| 0 <= j < s.drop_last().len() && (#[trigger] s.drop_last()[
            j
        ]).0 == key;
        assert(s[j].0 == key);
    }
}

/// Two ascending sequences with identical per-specificity subsequences are
/// the same sequence: a stable sort's output is unique.
proof fn lemma_sorted_unique(s1: Seq<((int, int, int), RuleV)>, s2: Seq<((int, int, int), RuleV)>)
    requires
        sorted_rules(s1),
        sorted_rules(s2),
        forall|key: (int, int, int)| #[trigger] flt(s1, key) == flt(s2, key),
    ensures
        s1 == s2,
    decreases s1.len() + s2.len(),
{
    if s1.len() == 0 {
        if s2.len() > 0 {
            let k = s2.last().0;
            assert(flt(s2, k).len() > 0);
            assert(flt(s1, k).len() == 0);
        }
        assert(s1 =~= s2);
    } else if s2.len() == 0 {
        let k = s1.last().0;
        assert(flt(s1, k).len() > 0);
        assert(flt(s2, k).len() == 0);
        assert(s1 =~= s2);
    } else {
        let k1 = s1.last().0;
        let k2 = s2.last().0;
        if k1 != k2 {
            assert(flt(s1, k1).len() > 0);
            lemma_flt_member(s2, k1);
            let j = choose|j: int| 0 <= j < s2.len() && (#[trigger] s2[j]).0 == k1;
            assert(spec_le(k1, k2)) by {
                if j < s2.len() - 1 {
                    assert(spec_le(s2[j].0, s2[s2.len() - 1].0));
                }
            }
            assert(flt(s2, k2).len() > 0);
            lemma_flt_member(s1, k2);
            let i = choose|i: int| 0 <= i < s1.len() && (#[trigger] s1[i]).0 == k2;
            assert(spec_le(k2, k1)) by {
                if i < s1.len() - 1 {
                    assert(spec_le(s1[i].0, s1[s1.len() - 1].0));
                }
            }
            assert(false);
        }
        assert(flt(s1, k1).last() == s1.last());
        assert(flt(s2, k1).last() == s2.last());
        assert(s1.last() == s2.last());
        assert(sorted_rules(s1.drop_last())) by {
            assert forall|i: int, j: int| 0 <= i < j < s1.drop_last().len() implies spec_le(
                s1.drop_last()[i].0,
                s1.drop_last()[j].0,
            ) by {
                assert(s1.drop_last()[i] == s1[i] && s1.drop_last()[j] == s1[j]);
            }
        }
        assert(sorted_rules(s2.drop_last())) by {
            assert forall|i: int, j: int| 0 <= i < j < s2.drop_last().len() implies spec_le(
                s2.drop_last()[i].0,
                s2.drop_last()[j].0,
            ) by {
                assert(s2.drop_last()[i] == s2[i] && s2.drop_last()[j] == s2[j]);
            }
        }
        assert forall|key: (int, int, int)| #[trigger] flt(s1.drop_last(), key) == flt(
            s2.drop_last(),
            key,
        ) by {
            if key == k1 {
                assert(flt(s1, key) == flt(s1.drop_last(), key).push(s1.last()));
                assert(flt(s2, key) == flt(s2.drop_last(), key).push(s2.last()));
                assert(flt(s1.drop_last(), key) =~= flt(s1, key).drop_last());
                assert(flt(s2.drop_last(), key) =~= flt(s2, key).drop_last());
            } else {
                assert(flt(s1, key) == flt(s1.drop_last(), key));
                assert(flt(s2, key) == flt(s2.drop_last(), key));
            }
        }
        lemma_sorted_unique(s1.drop_last(), s2.drop_last());
        assert(s1 =~= s1.drop_last().push(s1.last()));
        assert(s2 =~= s2.drop_last().push(s2.last()));
    }
}

/// Resolution is insensitive to reordering the stylesheet's rules, as long
/// as matching rules of equal effective specificity keep their relative
/// order. The hypothesis states exactly that: for every specificity, the
/// two stylesheets' matched-rule lists filtered to that specificity
/// coincide. Determinism itself needs no lemma: `spec_resolve` is a
/// function of its arguments, and `specified_values` returns exactly it.
pub proof fn lemma_resolve_reorder(e: ElementDataV, s1: StyleSheetV, s2: StyleSheetV)
    requires
        forall|key: (int, int, int)| #[trigger] flt(spec_matching_rules(e, s1.rules), key)
            == flt(spec_matching_rules(e, s2.rules), key),
    ensures
        spec_resolve(e, s1) == spec_resolve(e, s2),
{
    let m1 = spec_matching_rules(e, s1.rules);
    let m2 = spec_matching_rules(e, s2.rules);
    lemma_sort_sorted(m1);
    lemma_sort_sorted(m2);
    assert forall|key: (int, int, int)| #[trigger] flt(spec_sort_rules(m1), key) == flt(
        spec_sort_rules(m2),
        key,
    ) by {
        lemma_sort_flt(m1, key);
        lemma_sort_flt(m2, key);
    }
    lemma_sorted_unique(spec_sort_rules(m1), spec_sort_rules(m2));
}

// --- property accessors -----------------------------------------------------

/// The `display` kind denoted by a property mapping: the keyword `block` or
/// `none` selects the matching kind; anything else, or no `display` property,
/// means inline.
pub open spec fn spec_display(m: Map<Seq<char>, ValueV>) -> Display {
    if m.contains_key("display"@) {
        match m["display"@] {
            ValueV::Keyword(s) => if s == "block"@ {
                Display::Block
            } else if s == "none"@ {
                Display::NoBox
            } else {
                Display::Inline
            },
            _ => Display::Inline,
        }
    } else {
        Display::Inline
    }
}

/// The value a lookup yields: the named property, else the fallback
/// property, else the caller-supplied default.
pub open spec fn spec_lookup(
    m: Map<Seq<char>, ValueV>,
    name: Seq<char>,
    fallback: Seq<char>,
    default: ValueV,
) -> ValueV {
    if m.contains_key(name) {
        m[name]
    } else if m.contains_key(fallback) {
        m[fallback]
    } else {
        default
    }
}

impl StyleNode {
    /// The specified value of the property, if any.
    pub fn value(&self, name: &str) -> (r: Option<Value>)
        ensures
            r is Some <==> self@.specified_values.contains_key(name@),
            r matches Some(v) ==> v@ == self@.specified_values[name@],
    {
        match self.specified_values.get(name) {
            Some(v) => Some(v.clone()),
            None => None,
        }
    }

    /// How this node participates in layout, per its `display` property.
    pub fn display(&self) -> (r: Display)
        ensures
            r == spec_display(self@.specified_values),
    {
        match self.value("display") {
            Some(Value::Keyword(s)) => {
                if str_eq(s.as_str(), "block") {
                    Display::Block
                } else if str_eq(s.as_str(), "none") {
                    Display::NoBox
                } else {
                    Display::Inline
                }
            },
            _ => Display::Inline,
        }
    }

    /// The specified value of property `name`, or of `fallback_name` if the
    /// first is absent, or `default` if both are.
    pub fn lookup(&self, name: &str, fallback_name: &str, default: &Value) -> (r: Value)
        ensures
            r@ == spec_lookup(self@.specified_values, name@, fallback_name@, default@),
    {
        match self.value(name) {
            Some(v) => v,
            None => match self.value(fallback_name) {
                Some(v) => v,
                None => default.clone(),
            },
        }
    }
}

// --- the styled tree --------------------------------------------------------

/// The styled tree of a document node: elements get their resolved mapping,
/// text nodes an empty one, and children are styled in order.
pub open spec fn spec_style_tree(n: NodeV, ss: StyleSheetV) -> StyleNodeV
    decreases n,
{
    StyleNodeV {
        specified_values: match n.node_type {
            NodeTypeV::Element(e) => spec_resolve(e, ss),
            NodeTypeV::Text(_) => Map::empty(),
        },
        children: spec_style_children(n.children, ss),
    }
}

/// The styled trees of a sequence of nodes, element by element.
pub open spec fn spec_style_children(s: Seq<NodeV>, ss: StyleSheetV) -> Seq<StyleNodeV>
    decreases s,
{
    if s.len() == 0 {
        Seq::empty()
    } else {
        seq![spec_style_tree(s[0], ss)] + spec_style_children(s.skip(1), ss)
    }
}

/// `spec_style_children` maps `spec_style_tree` over the sequence.
pub proof fn lemma_spec_style_children_index(s: Seq<NodeV>, ss: StyleSheetV)
    ensures
        spec_style_children(s, ss).len() == s.len(),
        forall|i: int|
            0 <= i < s.len() ==> spec_style_children(s, ss)[i] == spec_style_tree(s[i], ss),
    decreases s.len(),
{
    if s.len() > 0 {
        lemma_spec_style_children_index(s.skip(1), ss);
    }
}

/// Builds the styled tree: attaches to every document node its resolved
/// property mapping (empty for text nodes, which are never matched against
/// selectors).
pub fn style_tree(root: &Node, stylesheet: &StyleSheet) -> (r: StyleNode)
    ensures
        r@ == spec_style_tree(root@, stylesheet@),
    decreases *root,
{
    let specified: PropertyMap = match &root.node_type {
        NodeType::Element(elem) => specified_values(elem, stylesheet),
        NodeType::Text(_) => Dict::new(),
    };
    let mut children: Vec<StyleNode> = Vec::new();
    let n = root.children.len();
    let mut i: usize = 0;
    while i < n
        invariant
            n == root.children@.len(),
            i <= n,
            children@.len() == i,
            forall|k: int|
                0 <= k < i ==> style_node_view(#[trigger] children@[k]) == spec_style_tree(
                    node_view(root.children@[k]),
                    stylesheet@,
                ),
        decreases n - i,
    {
        proof {
            assert(decreases_to!(*root => root.children));
            assert(decreases_to!(root.children => root.children@));
            assert(decreases_to!(root.children@ => root.children@[i as int]));
        }
        let styled = style_tree(&root.children[i], stylesheet);
        children.push(styled);
        i = i + 1;
    }
    let r = StyleNode { specified_values: specified, children };
    proof {
        crate::dom::lemma_nodes_view_index(root.children@);
        lemma_style_nodes_view_index(r.children@);
        lemma_spec_style_children_index(nodes_view(root.children@), stylesheet@);
        assert(style_nodes_view(r.children@) =~= spec_style_children(
            nodes_view(root.children@),
            stylesheet@,
        ));
    }
    r
}

} // verus!
