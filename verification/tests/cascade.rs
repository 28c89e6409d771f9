use browser_engine::css::Declaration;
use browser_engine::css::Rule;
use browser_engine::css::Selector;
use browser_engine::css::SimpleSelector;
use browser_engine::css::StyleSheet;
use browser_engine::css::Unit;
use browser_engine::css::Value;
use browser_engine::dict::Dict;
use browser_engine::dom::AttrMap;
use browser_engine::dom::split_on_spaces;
use browser_engine::dom::ElementData;
use browser_engine::style::matches_simple_selector;
use browser_engine::style::specified_values;

fn attrs(pairs: &[(&str, &str)]) -> AttrMap {
    let mut m: AttrMap = Dict::new();
    for (k, v) in pairs {
        m.insert(k.to_string(), v.to_string());
    }
    m
}

fn element(tag: &str, pairs: &[(&str, &str)]) -> ElementData {
    ElementData { tag_name: tag.to_string(), attributes: attrs(pairs) }
}

fn simple(tag: Option<&str>, id: Option<&str>, classes: &[&str]) -> SimpleSelector {
    SimpleSelector {
        tag_name: tag.map(|s| s.to_string()),
        id: id.map(|s| s.to_string()),
        class: classes.iter().map(|s| s.to_string()).collect(),
    }
}

fn rule(selectors: Vec<SimpleSelector>, decls: &[(&str, Value)]) -> Rule {
    Rule {
        selectors: selectors.into_iter().map(Selector::Simple).collect(),
        declarations: decls
            .iter()
            .map(|(n, v)| Declaration { name: n.to_string(), value: v.clone() })
            .collect(),
    }
}

fn keyword(s: &str) -> Value {
    Value::Keyword(s.to_string())
}

fn px(n: i64) -> Value {
    Value::Length(n, Unit::Px)
}

#[test]
fn matcher_tag() {
    let e = element("div", &[]);
    assert!(matches_simple_selector(&e, &simple(Some("div"), None, &[])));
    assert!(!matches_simple_selector(&e, &simple(Some("span"), None, &[])));
    assert!(matches_simple_selector(&e, &simple(None, None, &[])));
}

#[test]
fn matcher_id() {
    let e = element("div", &[("id", "main")]);
    assert!(matches_simple_selector(&e, &simple(None, Some("main"), &[])));
    assert!(!matches_simple_selector(&e, &simple(None, Some("other"), &[])));
    let no_id = element("div", &[]);
    assert!(!matches_simple_selector(&no_id, &simple(None, Some("main"), &[])));
}

#[test]
fn matcher_classes() {
    let e = element("p", &[("class", "note wide")]);
    assert!(matches_simple_selector(&e, &simple(None, None, &["note"])));
    assert!(matches_simple_selector(&e, &simple(None, None, &["note", "wide"])));
    assert!(!matches_simple_selector(&e, &simple(None, None, &["missing"])));
    let no_class = element("p", &[]);
    assert!(!matches_simple_selector(&no_class, &simple(None, None, &["note"])));
}

#[test]
fn specificity_triple() {
    let s = Selector::Simple(simple(Some("div"), Some("main"), &["a", "b"]));
    assert_eq!(s.specificity(), (1, 2, 1));
    let t = Selector::Simple(simple(Some("div"), None, &[]));
    assert_eq!(t.specificity(), (0, 0, 1));
}

#[test]
fn specificity_id_outranks_classes_outranks_tag() {
    let e = element("div", &[("id", "main"), ("class", "a b c")]);
    let tag_rule = rule(vec![simple(Some("div"), None, &[])], &[("color", keyword("tag"))]);
    let class_rule = rule(
        vec![simple(None, None, &["a", "b", "c"])],
        &[("color", keyword("classes"))],
    );
    let id_rule = rule(vec![simple(None, Some("main"), &[])], &[("color", keyword("id"))]);
    let sheet = StyleSheet { rules: vec![id_rule, class_rule, tag_rule] };
    let resolved = specified_values(&e, &sheet);
    match resolved.get("color") {
        Some(Value::Keyword(s)) => assert_eq!(s, "id"),
        other => panic!("unexpected value: {:?}", other.is_some()),
    }
}

#[test]
fn cascade_tie_break_later_rule_wins() {
    let e = element("div", &[]);
    let first = rule(vec![simple(Some("div"), None, &[])], &[("width", px(100))]);
    let second = rule(vec![simple(Some("div"), None, &[])], &[("width", px(200))]);
    let sheet = StyleSheet { rules: vec![first, second] };
    let resolved = specified_values(&e, &sheet);
    assert!(matches!(resolved.get("width"), Some(Value::Length(200, Unit::Px))));
}

#[test]
fn reorder_of_unequal_specificity_rules_is_insensitive() {
    let e = element("div", &[("id", "main")]);
    let tag_rule = rule(vec![simple(Some("div"), None, &[])], &[("width", px(1))]);
    let id_rule = rule(vec![simple(None, Some("main"), &[])], &[("width", px(2))]);
    let one = StyleSheet { rules: vec![tag_rule, id_rule] };
    let tag_rule2 = rule(vec![simple(Some("div"), None, &[])], &[("width", px(1))]);
    let id_rule2 = rule(vec![simple(None, Some("main"), &[])], &[("width", px(2))]);
    let two = StyleSheet { rules: vec![id_rule2, tag_rule2] };
    let a = specified_values(&e, &one);
    let b = specified_values(&e, &two);
    assert!(matches!(a.get("width"), Some(Value::Length(2, Unit::Px))));
    assert!(matches!(b.get("width"), Some(Value::Length(2, Unit::Px))));
}

#[test]
fn first_matching_selector_sets_specificity() {
    // The rule's effective specificity is that of its first matching
    // selector in source order, not the highest matching one.
    let e = element("div", &[("id", "main")]);
    let multi = rule(
        vec![simple(Some("div"), None, &[]), simple(None, Some("main"), &[])],
        &[("width", px(1))],
    );
    let id_only = rule(vec![simple(None, Some("main"), &[])], &[("width", px(2))]);
    // multi matches via its tag selector first: specificity (0,0,1),
    // so id_only (1,0,0) outranks it even though multi also names the id.
    let sheet = StyleSheet { rules: vec![id_only, multi] };
    let resolved = specified_values(&e, &sheet);
    assert!(matches!(resolved.get("width"), Some(Value::Length(2, Unit::Px))));
}

#[test]
fn no_matching_rules_yields_empty_mapping() {
    let e = element("div", &[]);
    let sheet = StyleSheet {
        rules: vec![rule(vec![simple(Some("span"), None, &[])], &[("width", px(1))])],
    };
    let resolved = specified_values(&e, &sheet);
    assert!(resolved.get("width").is_none());
}

#[test]
fn later_declaration_in_one_rule_wins() {
    let e = element("div", &[]);
    let r = rule(
        vec![simple(Some("div"), None, &[])],
        &[("width", px(100)), ("width", px(300))],
    );
    let sheet = StyleSheet { rules: vec![r] };
    let resolved = specified_values(&e, &sheet);
    assert!(matches!(resolved.get("width"), Some(Value::Length(300, Unit::Px))));
}

#[test]
fn class_attribute_splits_on_single_spaces() {
    assert_eq!(split_on_spaces(""), vec!["".to_string()]);
    assert_eq!(
        split_on_spaces("a  b"),
        vec!["a".to_string(), "".to_string(), "b".to_string()]
    );
    let e = element("p", &[("class", "")]);
    // an empty class attribute yields one empty class name, not none
    assert_eq!(e.classes(), vec!["".to_string()]);
}

#[test]
fn value_to_px_and_auto() {
    assert_eq!(px(42).to_px(), 42);
    assert_eq!(keyword("auto").to_px(), 0);
    assert!(keyword("auto").is_auto());
    assert!(!keyword("block").is_auto());
    assert!(!px(0).is_auto());
}
