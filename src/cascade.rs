//! The cascade: each element's style is resolved from the rule list by
//! selector specificity, and among equal specificity by rule order.
//!
//! Nothing is inherited: an element's style comes from the rules that match
//! it alone, never from its parent's.
use crate::layout::{tag_name, tag_name_chars, CssRule, HtmlNode, HtmlTag, NodeType, Selector, StyleProperty};
use crate::css_parser::{props_view, rule_view, rules_view};
use crate::markup::{attr_view, kind_view};
use crate::strmap::StrMap;
use crate::text::{chars_of, lower_of, lowercase, same_chars, split_whitespace, views, words};
use vstd::prelude::*;

verus! {

pub open spec fn class_key() -> Seq<char> {
    seq!['c', 'l', 'a', 's', 's']
}

pub open spec fn id_key() -> Seq<char> {
    seq!['i', 'd']
}

/// The name a type selector is compared with, in lower case.
pub open spec fn selector_name(t: HtmlTag) -> Seq<char> {
    match t {
        HtmlTag::Custom(n) => lower_of(n@),
        _ => tag_name(t),
    }
}

/// Whether a node of this type and these attributes matches `sel`.
pub open spec fn selector_matches(
    node_type: NodeType,
    attrs: Map<Seq<char>, String>,
    sel: Selector,
) -> bool {
    match sel {
        Selector::Universal => true,
        Selector::Class(c) => attrs.contains_key(class_key()) && words(
            attrs[class_key()]@,
        ).contains(c@),
        Selector::Id(i) => attrs.contains_key(id_key()) && attrs[id_key()]@ == i@,
        Selector::Type(s) => match node_type {
            NodeType::Element(t) => lower_of(s@) == selector_name(t),
            NodeType::Text(_) => false,
        },
    }
}

/// Universal 0, type 1, class 2, id 3.
pub open spec fn specificity(sel: Selector) -> u8 {
    match sel {
        Selector::Universal => 0,
        Selector::Type(_) => 1,
        Selector::Class(_) => 2,
        Selector::Id(_) => 3,
    }
}

/// The highest specificity among the selectors of `sels` that match, if any
/// does.
pub open spec fn rule_specificity(
    node_type: NodeType,
    attrs: Map<Seq<char>, String>,
    sels: Seq<Selector>,
) -> Option<u8>
    decreases sels.len(),
{
    if sels.len() == 0 {
        None
    } else {
        let rest = rule_specificity(node_type, attrs, sels.drop_last());
        let s = sels.last();
        if selector_matches(node_type, attrs, s) {
            match rest {
                Some(r) => Some(if r >= specificity(s) {
                    r
                } else {
                    specificity(s)
                }),
                None => Some(specificity(s)),
            }
        } else {
            rest
        }
    }
}

/// A matching rule of specificity `s` sets each property it declares, unless
/// the property was set before with a higher specificity.
pub open spec fn apply_rule(
    m: Map<Seq<char>, (u8, StyleProperty)>,
    s: u8,
    props: Map<Seq<char>, StyleProperty>,
) -> Map<Seq<char>, (u8, StyleProperty)> {
    Map::new(
        |k: Seq<char>| m.contains_key(k) || props.contains_key(k),
        |k: Seq<char>|
            if props.contains_key(k) && (!m.contains_key(k) || m[k].0 <= s) {
                (s, props[k])
            } else {
                m[k]
            },
    )
}

/// Each property with the specificity of the rule that set it, after the
/// rules of `rules` in order.
pub open spec fn cascade(
    node_type: NodeType,
    attrs: Map<Seq<char>, String>,
    rules: Seq<CssRule>,
) -> Map<Seq<char>, (u8, StyleProperty)>
    decreases rules.len(),
{
    if rules.len() == 0 {
        Map::empty()
    } else {
        let m = cascade(node_type, attrs, rules.drop_last());
        match rule_specificity(node_type, attrs, rules.last().selectors@) {
            Some(s) => apply_rule(m, s, rules.last().properties@),
            None => m,
        }
    }
}

/// The style that `rules` give an element of this type and these attributes.
pub open spec fn computed_style(
    node_type: NodeType,
    attrs: Map<Seq<char>, String>,
    rules: Seq<CssRule>,
) -> Map<Seq<char>, StyleProperty> {
    cascade(node_type, attrs, rules).map_values(|e: (u8, StyleProperty)| e.1)
}

/// `after` is `before` with every element's style resolved from `rules`;
/// text nodes are left as they were.
pub open spec fn stylized(before: HtmlNode, after: HtmlNode, rules: Seq<CssRule>) -> bool
    decreases before,
{
    &&& after.node_type == before.node_type
    &&& after.attributes == before.attributes
    &&& match before.node_type {
        NodeType::Element(_) => {
            &&& after.style@ == computed_style(before.node_type, before.attributes@, rules)
            &&& after.children@.len() == before.children@.len()
            &&& forall|i: int|
                #![trigger before.children@[i]]
                0 <= i < before.children@.len() ==> stylized(
                    before.children@[i],
                    after.children@[i],
                    rules,
                )
        },
        NodeType::Text(_) => after == before,
    }
}

/// Every element of `n` has the style that `rules` give it.
pub open spec fn resolved(n: HtmlNode, rules: Seq<CssRule>) -> bool
    decreases n,
{
    match n.node_type {
        NodeType::Element(_) => {
            &&& n.style@ == computed_style(n.node_type, n.attributes@, rules)
            &&& forall|i: int|
                #![trigger n.children@[i]]
                0 <= i < n.children@.len() ==> resolved(n.children@[i], rules)
        },
        NodeType::Text(_) => true,
    }
}

/// A tree resolved from `rules` has every element styled by them.
pub proof fn lemma_stylized_resolved(a: HtmlNode, b: HtmlNode, rules: Seq<CssRule>)
    requires
        stylized(a, b, rules),
    ensures
        resolved(b, rules),
    decreases a,
{
    if let NodeType::Element(_) = a.node_type {
        assert forall|i: int|
            #![trigger b.children@[i]]
            0 <= i < b.children@.len() implies resolved(b.children@[i], rules) by {
            assert(decreases_to!(a => a.children@[i]));
            assert(stylized(a.children@[i], b.children@[i], rules));
            lemma_stylized_resolved(a.children@[i], b.children@[i], rules);
        }
    }
}

/// Two trees of the same shape whose nodes have equal style maps.
pub open spec fn same_styles(a: HtmlNode, b: HtmlNode) -> bool
    decreases a,
{
    &&& a.style@ == b.style@
    &&& a.children@.len() == b.children@.len()
    &&& forall|i: int|
        #![trigger a.children@[i]]
        0 <= i < a.children@.len() ==> same_styles(a.children@[i], b.children@[i])
}

/// Resolving a resolved tree a second time with the same rules leaves every
/// node's style map as the first resolution made it.
pub proof fn lemma_stylize_idempotent(
    t0: HtmlNode,
    t1: HtmlNode,
    t2: HtmlNode,
    rules: Seq<CssRule>,
)
    requires
        stylized(t0, t1, rules),
        stylized(t1, t2, rules),
    ensures
        same_styles(t1, t2),
    decreases t0,
{
    match t0.node_type {
        NodeType::Element(_) => {
            assert forall|i: int|
                #![trigger t1.children@[i]]
                0 <= i < t1.children@.len() implies same_styles(t1.children@[i], t2.children@[i]) by {
                assert(decreases_to!(t0 => t0.children@[i]));
                assert(decreases_to!(t1 => t1.children@[i]));
                lemma_stylize_idempotent(t0.children@[i], t1.children@[i], t2.children@[i], rules);
            }
            assert(same_styles(t1, t2));
        },
        NodeType::Text(_) => {
            lemma_same_styles_refl(t1);
        },
    }
}

proof fn lemma_same_styles_refl(a: HtmlNode)
    ensures
        same_styles(a, a),
    decreases a,
{
    assert forall|i: int|
        #![trigger a.children@[i]]
        0 <= i < a.children@.len() implies same_styles(a.children@[i], a.children@[i]) by {
        assert(decreases_to!(a => a.children@[i]));
        lemma_same_styles_refl(a.children@[i]);
    }
    assert(same_styles(a, a));
}

proof fn lemma_take_set(keys: Seq<Seq<char>>, k: int)
    requires
        0 <= k < keys.len(),
    ensures
        keys.take(k + 1).to_set() == keys.take(k).to_set().insert(keys[k]),
{
    assert forall|q: Seq<char>| keys.take(k + 1).to_set().contains(q) implies keys.take(
        k,
    ).to_set().insert(keys[k]).contains(q) by {
        let j = choose|j: int| 0 <= j < k + 1 && #[trigger] keys.take(k + 1)[j] == q;
        if j < k {
            assert(keys.take(k)[j] == q);
        }
    }
    assert forall|q: Seq<char>| keys.take(k).to_set().insert(keys[k]).contains(q) implies keys.take(
        k + 1,
    ).to_set().contains(q) by {
        if q == keys[k] {
            assert(keys.take(k + 1)[k] == q);
        } else {
            let j = choose|j: int| 0 <= j < k && #[trigger] keys.take(k)[j] == q;
            assert(keys.take(k + 1)[j] == q);
        }
    }
    assert(keys.take(k + 1).to_set() =~= keys.take(k).to_set().insert(keys[k]));
}

/// Each property's specificity and value, as plain values.
pub open spec fn cascade_view(m: Map<Seq<char>, (u8, StyleProperty)>) -> Map<
    Seq<char>,
    (u8, crate::layout::PropV),
> {
    m.map_values(|e: (u8, StyleProperty)| (e.0, e.1@))
}

/// Matching reads the kind, the attributes and the selector as plain values.
proof fn lemma_selector_views(
    ta: HtmlTag,
    tb: HtmlTag,
    aa: Map<Seq<char>, String>,
    ab: Map<Seq<char>, String>,
    sa: Selector,
    sb: Selector,
)
    requires
        kind_view(ta) == kind_view(tb),
        attr_view(aa) == attr_view(ab),
        sa@ == sb@,
    ensures
        selector_matches(NodeType::Element(ta), aa, sa) == selector_matches(
            NodeType::Element(tb),
            ab,
            sb,
        ),
        specificity(sa) == specificity(sb),
{
    assert(aa.dom() == attr_view(aa).dom());
    assert(ab.dom() == attr_view(ab).dom());
    if aa.contains_key(class_key()) {
        assert(attr_view(aa)[class_key()] == aa[class_key()]@);
        assert(attr_view(ab)[class_key()] == ab[class_key()]@);
    }
    if aa.contains_key(id_key()) {
        assert(attr_view(aa)[id_key()] == aa[id_key()]@);
        assert(attr_view(ab)[id_key()] == ab[id_key()]@);
    }
    if let HtmlTag::Custom(c) = ta {
        assert(tb is Custom);
    }
}

proof fn lemma_rule_specificity_views(
    ta: HtmlTag,
    tb: HtmlTag,
    aa: Map<Seq<char>, String>,
    ab: Map<Seq<char>, String>,
    sa: Seq<Selector>,
    sb: Seq<Selector>,
)
    requires
        kind_view(ta) == kind_view(tb),
        attr_view(aa) == attr_view(ab),
        sa.map_values(|x: Selector| x@) == sb.map_values(|x: Selector| x@),
    ensures
        rule_specificity(NodeType::Element(ta), aa, sa) == rule_specificity(
            NodeType::Element(tb),
            ab,
            sb,
        ),
    decreases sa.len(),
{
    assert(sa.len() == sa.map_values(|x: Selector| x@).len());
    assert(sb.len() == sb.map_values(|x: Selector| x@).len());
    if sa.len() > 0 {
        assert(sa.drop_last().map_values(|x: Selector| x@) =~= sa.map_values(|x: Selector| x@).drop_last());
        assert(sb.drop_last().map_values(|x: Selector| x@) =~= sb.map_values(|x: Selector| x@).drop_last());
        lemma_rule_specificity_views(ta, tb, aa, ab, sa.drop_last(), sb.drop_last());
        assert(sa.map_values(|x: Selector| x@)[sa.len() - 1] == sa.last()@);
        assert(sb.map_values(|x: Selector| x@)[sb.len() - 1] == sb.last()@);
        lemma_selector_views(ta, tb, aa, ab, sa.last(), sb.last());
    }
}

/// The cascade reads the kind, the attributes and the rules as plain values.
pub proof fn lemma_cascade_views(
    ta: HtmlTag,
    tb: HtmlTag,
    aa: Map<Seq<char>, String>,
    ab: Map<Seq<char>, String>,
    ra: Seq<CssRule>,
    rb: Seq<CssRule>,
)
    requires
        kind_view(ta) == kind_view(tb),
        attr_view(aa) == attr_view(ab),
        rules_view(ra) == rules_view(rb),
    ensures
        cascade_view(cascade(NodeType::Element(ta), aa, ra)) == cascade_view(
            cascade(NodeType::Element(tb), ab, rb),
        ),
        props_view(computed_style(NodeType::Element(ta), aa, ra)) == props_view(
            computed_style(NodeType::Element(tb), ab, rb),
        ),
    decreases ra.len(),
{
    let ma = cascade(NodeType::Element(ta), aa, ra);
    let mb = cascade(NodeType::Element(tb), ab, rb);
    assert(ra.len() == rules_view(ra).len());
    assert(rb.len() == rules_view(rb).len());
    if ra.len() > 0 {
        assert(rules_view(ra.drop_last()) =~= rules_view(ra).drop_last());
        assert(rules_view(rb.drop_last()) =~= rules_view(rb).drop_last());
        lemma_cascade_views(ta, tb, aa, ab, ra.drop_last(), rb.drop_last());
        let la = ra.last();
        let lb = rb.last();
        assert(rules_view(ra)[ra.len() - 1] == rule_view(la));
        assert(rules_view(rb)[rb.len() - 1] == rule_view(lb));
        lemma_rule_specificity_views(ta, tb, aa, ab, la.selectors@, lb.selectors@);
        let m0a = cascade(NodeType::Element(ta), aa, ra.drop_last());
        let m0b = cascade(NodeType::Element(tb), ab, rb.drop_last());
        match rule_specificity(NodeType::Element(ta), aa, la.selectors@) {
            Some(sp) => {
                let pa = la.properties@;
                let pb = lb.properties@;
                assert(pa.dom() == props_view(pa).dom());
                assert(pb.dom() == props_view(pb).dom());
                assert(m0a.dom() == cascade_view(m0a).dom());
                assert(m0b.dom() == cascade_view(m0b).dom());
                assert forall|k: Seq<char>| #[trigger] cascade_view(apply_rule(m0a, sp, pa)).contains_key(k)
                    implies cascade_view(apply_rule(m0b, sp, pb)).contains_key(k)
                    && cascade_view(apply_rule(m0a, sp, pa))[k] == cascade_view(apply_rule(m0b, sp, pb))[k] by {
                    if pa.contains_key(k) {
                        assert(props_view(pa)[k] == pa[k]@);
                        assert(props_view(pb)[k] == pb[k]@);
                    }
                    if m0a.contains_key(k) {
                        assert(cascade_view(m0a)[k] == (m0a[k].0, m0a[k].1@));
                        assert(cascade_view(m0b)[k] == (m0b[k].0, m0b[k].1@));
                    }
                }
                assert(cascade_view(apply_rule(m0a, sp, pa)) =~= cascade_view(apply_rule(m0b, sp, pb)));
            },
            None => {},
        }
    }
    assert(ma.dom() == cascade_view(ma).dom());
    assert(mb.dom() == cascade_view(mb).dom());
    assert forall|k: Seq<char>| #[trigger] props_view(computed_style(NodeType::Element(ta), aa, ra)).contains_key(k)
        implies props_view(computed_style(NodeType::Element(tb), ab, rb)).contains_key(k)
        && props_view(computed_style(NodeType::Element(ta), aa, ra))[k] == props_view(
        computed_style(NodeType::Element(tb), ab, rb),
    )[k] by {
        assert(cascade_view(ma)[k] == (ma[k].0, ma[k].1@));
        assert(cascade_view(mb)[k] == (mb[k].0, mb[k].1@));
    }
    assert(props_view(computed_style(NodeType::Element(ta), aa, ra)) =~= props_view(
        computed_style(NodeType::Element(tb), ab, rb),
    ));
}

/// Rule `i` of `rules` matches the node and declares property `k`.
pub open spec fn sets(
    node_type: NodeType,
    attrs: Map<Seq<char>, String>,
    rules: Seq<CssRule>,
    i: int,
    k: Seq<char>,
) -> bool {
    rule_specificity(node_type, attrs, rules[i].selectors@) is Some
        && rules[i].properties@.contains_key(k)
}

/// Every property that the cascade sets comes, with its specificity, from a
/// rule that matches and declares it.
proof fn lemma_cascade_source(
    node_type: NodeType,
    attrs: Map<Seq<char>, String>,
    rules: Seq<CssRule>,
    k: Seq<char>,
)
    requires
        cascade(node_type, attrs, rules).contains_key(k),
    ensures
        exists|i: int|
            0 <= i < rules.len() && #[trigger] sets(node_type, attrs, rules, i, k)
                && rule_specificity(node_type, attrs, rules[i].selectors@)
                == Some(cascade(node_type, attrs, rules)[k].0),
    decreases rules.len(),
{
    let pre = rules.drop_last();
    let m = cascade(node_type, attrs, pre);
    let l = rules.len() - 1;
    match rule_specificity(node_type, attrs, rules.last().selectors@) {
        Some(s) => {
            let props = rules.last().properties@;
            if props.contains_key(k) && (!m.contains_key(k) || m[k].0 <= s) {
                assert(sets(node_type, attrs, rules, l, k));
            } else {
                lemma_cascade_source(node_type, attrs, pre, k);
                let i = choose|i: int|
                    0 <= i < pre.len() && #[trigger] sets(node_type, attrs, pre, i, k)
                        && rule_specificity(node_type, attrs, pre[i].selectors@) == Some(m[k].0);
                assert(pre[i] == rules[i]);
                assert(sets(node_type, attrs, rules, i, k));
            }
        },
        None => {
            lemma_cascade_source(node_type, attrs, pre, k);
            let i = choose|i: int|
                0 <= i < pre.len() && #[trigger] sets(node_type, attrs, pre, i, k)
                    && rule_specificity(node_type, attrs, pre[i].selectors@) == Some(m[k].0);
            assert(pre[i] == rules[i]);
            assert(sets(node_type, attrs, rules, i, k));
        },
    }
}

/// The value of a property is the one of the last rule among those of the
/// highest specificity that match the element and declare the property: a
/// rule of higher specificity wins whatever the order, and of two rules of
/// equal specificity the later one wins.
pub proof fn lemma_cascade_winner(
    node_type: NodeType,
    attrs: Map<Seq<char>, String>,
    rules: Seq<CssRule>,
    j: int,
    k: Seq<char>,
)
    requires
        0 <= j < rules.len(),
        sets(node_type, attrs, rules, j, k),
        forall|i: int|
            0 <= i < j && #[trigger] sets(node_type, attrs, rules, i, k) ==> rule_specificity(
                node_type,
                attrs,
                rules[i].selectors@,
            )->0 <= rule_specificity(node_type, attrs, rules[j].selectors@)->0,
        forall|i: int|
            j < i < rules.len() && #[trigger] sets(node_type, attrs, rules, i, k)
                ==> rule_specificity(node_type, attrs, rules[i].selectors@)->0 < rule_specificity(
                node_type,
                attrs,
                rules[j].selectors@,
            )->0,
    ensures
        computed_style(node_type, attrs, rules).contains_key(k),
        computed_style(node_type, attrs, rules)[k] == rules[j].properties@[k],
{
    lemma_cascade_winner_spec(node_type, attrs, rules, j, k);
}

proof fn lemma_cascade_winner_spec(
    node_type: NodeType,
    attrs: Map<Seq<char>, String>,
    rules: Seq<CssRule>,
    j: int,
    k: Seq<char>,
)
    requires
        0 <= j < rules.len(),
        sets(node_type, attrs, rules, j, k),
        forall|i: int|
            0 <= i < j && #[trigger] sets(node_type, attrs, rules, i, k) ==> rule_specificity(
                node_type,
                attrs,
                rules[i].selectors@,
            )->0 <= rule_specificity(node_type, attrs, rules[j].selectors@)->0,
        forall|i: int|
            j < i < rules.len() && #[trigger] sets(node_type, attrs, rules, i, k)
                ==> rule_specificity(node_type, attrs, rules[i].selectors@)->0 < rule_specificity(
                node_type,
                attrs,
                rules[j].selectors@,
            )->0,
    ensures
        cascade(node_type, attrs, rules).contains_key(k),
        cascade(node_type, attrs, rules)[k] == (
            rule_specificity(node_type, attrs, rules[j].selectors@)->0,
            rules[j].properties@[k],
        ),
    decreases rules.len(),
{
    let pre = rules.drop_last();
    let m = cascade(node_type, attrs, pre);
    let l = rules.len() - 1;
    let s = rule_specificity(node_type, attrs, rules[j].selectors@)->0;
    if j == l {
        if m.contains_key(k) {
            lemma_cascade_source(node_type, attrs, pre, k);
            let i = choose|i: int|
                0 <= i < pre.len() && #[trigger] sets(node_type, attrs, pre, i, k)
                    && rule_specificity(node_type, attrs, pre[i].selectors@) == Some(m[k].0);
            assert(pre[i] == rules[i]);
            assert(sets(node_type, attrs, rules, i, k));
        }
    } else {
        assert forall|i: int|
            0 <= i < j && #[trigger] sets(node_type, attrs, pre, i, k) implies rule_specificity(
            node_type,
            attrs,
            pre[i].selectors@,
        )->0 <= rule_specificity(node_type, attrs, pre[j].selectors@)->0 by {
            assert(pre[i] == rules[i]);
            assert(sets(node_type, attrs, rules, i, k));
        }
        assert forall|i: int|
            j < i < pre.len() && #[trigger] sets(node_type, attrs, pre, i, k) implies rule_specificity(
            node_type,
            attrs,
            pre[i].selectors@,
        )->0 < rule_specificity(node_type, attrs, pre[j].selectors@)->0 by {
            assert(pre[i] == rules[i]);
            assert(sets(node_type, attrs, rules, i, k));
        }
        assert(pre[j] == rules[j]);
        assert(sets(node_type, attrs, pre, j, k));
        lemma_cascade_winner_spec(node_type, attrs, pre, j, k);
        if sets(node_type, attrs, rules, l, k) {
            assert(rules.last() == rules[l]);
        }
    }
}

/// Whether a type selector, already in lower case, names `tag`, whose name
/// (for a custom tag) is `custom_lower` once in lower case.
pub fn lowered_names_match(selector_lower: &String, tag: &HtmlTag, custom_lower: &String) -> (r:
    bool)
    ensures
        r == (selector_lower@ == match *tag {
            HtmlTag::Custom(_) => custom_lower@,
            _ => tag_name(*tag),
        }),
{
    let want = chars_of(selector_lower.as_str());
    let have = match tag {
        HtmlTag::Custom(_) => chars_of(custom_lower.as_str()),
        _ => tag_name_chars(tag),
    };
    same_chars(&want, &have)
}

impl HtmlNode {
    /// Whether this node matches `selector`.
    pub fn matches_selector(&self, selector: &Selector) -> (r: bool)
        ensures
            r == selector_matches(self.node_type, self.attributes@, *selector),
    {
        match selector {
            Selector::Universal => true,
            Selector::Class(name) => {
                proof {
                    reveal_strlit("class");
                }
                match self.attributes.get("class") {
                    Some(cls) => {
                        assert("class"@ =~= class_key());
                        let ws = split_whitespace(&chars_of(cls.as_str()));
                        let want = chars_of(name.as_str());
                        let mut i: usize = 0;
                        while i < ws.len()
                            invariant
                                i <= ws@.len(),
                                views(ws@) == words(cls@),
                                want@ == name@,
                                self.attributes@.contains_key(class_key()),
                                self.attributes@[class_key()] == *cls,
                                *selector == Selector::Class(*name),
                                forall|j: int| 0 <= j < i ==> views(ws@)[j] != name@,
                            decreases ws@.len() - i,
                        {
                            if same_chars(&ws[i], &want) {
                                assert(words(cls@)[i as int] == name@);
                                assert(words(cls@).contains(name@));
                                return true;
                            }
                            i += 1;
                        }
                        false
                    },
                    None => {
                        assert("class"@ =~= class_key());
                        false
                    },
                }
            },
            Selector::Id(id) => {
                proof {
                    reveal_strlit("id");
                }
                assert("id"@ =~= id_key());
                match self.attributes.get("id") {
                    Some(v) => *v == *id,
                    None => false,
                }
            },
            Selector::Type(s) => {
                match &self.node_type {
                    NodeType::Element(tag) => {
                        let custom = match tag {
                            HtmlTag::Custom(n) => lowercase(n.as_str()),
                            _ => String::new(),
                        };
                        lowered_names_match(&lowercase(s.as_str()), tag, &custom)
                    },
                    NodeType::Text(_) => false,
                }
            },
        }
    }

    /// The style that `rules` give this node.
    fn compute_style(&self, rules: &Vec<CssRule>) -> (r: StrMap<StyleProperty>)
        ensures
            r@ == computed_style(self.node_type, self.attributes@, rules@),
    {
        let ghost nt = self.node_type;
        let ghost at = self.attributes@;
        let mut specs: StrMap<u8> = StrMap::new();
        let mut vals: StrMap<StyleProperty> = StrMap::new();
        let mut i: usize = 0;
        assert(specs@ =~= cascade(nt, at, rules@.take(0)).map_values(|e: (u8, StyleProperty)| e.0));
        assert(vals@ =~= cascade(nt, at, rules@.take(0)).map_values(|e: (u8, StyleProperty)| e.1));
        while i < rules.len()
            invariant
                i <= rules@.len(),
                specs@ == cascade(nt, at, rules@.take(i as int)).map_values(
                    |e: (u8, StyleProperty)| e.0,
                ),
                vals@ == cascade(nt, at, rules@.take(i as int)).map_values(
                    |e: (u8, StyleProperty)| e.1,
                ),
                nt == self.node_type,
                at == self.attributes@,
            decreases rules@.len() - i,
        {
            let rule = &rules[i];
            assert(rules@.take(i + 1).drop_last() =~= rules@.take(i as int));
            let ghost m0 = cascade(nt, at, rules@.take(i as int));
            let mut best: Option<u8> = None;
            let mut j: usize = 0;
            assert(rule.selectors@.take(0) =~= Seq::<Selector>::empty());
            while j < rule.selectors.len()
                invariant
                    j <= rule.selectors@.len(),
                    best == rule_specificity(nt, at, rule.selectors@.take(j as int)),
                    nt == self.node_type,
                    at == self.attributes@,
                decreases rule.selectors@.len() - j,
            {
                let sel = &rule.selectors[j];
                assert(rule.selectors@.take(j + 1).drop_last() =~= rule.selectors@.take(j as int));
                if self.matches_selector(sel) {
                    let s: u8 = match sel {
                        Selector::Universal => 0,
                        Selector::Type(_) => 1,
                        Selector::Class(_) => 2,
                        Selector::Id(_) => 3,
                    };
                    best = match best {
                        Some(b) => Some(if b >= s { b } else { s }),
                        None => Some(s),
                    };
                }
                j += 1;
            }
            assert(rule.selectors@.take(rule.selectors@.len() as int) =~= rule.selectors@);
            if let Some(s) = best {
                let props = &rule.properties;
                let n = props.len();
                let ghost keys = props.keys();
                let mut k: usize = 0;
                assert(props@.restrict(keys.take(0).to_set()) =~= Map::<
                    Seq<char>,
                    StyleProperty,
                >::empty());
                assert(apply_rule(m0, s, Map::<Seq<char>, StyleProperty>::empty()) =~= m0);
                while k < n
                    invariant
                        n == keys.len(),
                        keys == props.keys(),
                        keys.no_duplicates(),
                        props@.dom() == keys.to_set(),
                        k <= n,
                        specs@ == apply_rule(m0, s, props@.restrict(keys.take(k as int).to_set())).map_values(
                            |e: (u8, StyleProperty)| e.0,
                        ),
                        vals@ == apply_rule(m0, s, props@.restrict(keys.take(k as int).to_set())).map_values(
                            |e: (u8, StyleProperty)| e.1,
                        ),
                    decreases n - k,
                {
                    let key = props.key_at(k);
                    let val = props.value_at(k);
                    let ghost p0 = props@.restrict(keys.take(k as int).to_set());
                    let ghost p1 = props@.restrict(keys.take(k + 1).to_set());
                    let ghost cur = apply_rule(m0, s, p0);
                    assert(p1 =~= p0.insert(key@, *val)) by {
                        lemma_take_set(keys, k as int);
                    }
                    assert(!p0.contains_key(key@)) by {
                        if keys.take(k as int).to_set().contains(key@) {
                            let q = choose|q: int| 0 <= q < k && #[trigger] keys.take(k as int)[q] == key@;
                            assert(keys[q] == keys[k as int]);
                        }
                    }
                    let take = match specs.get(key.as_str()) {
                        Some(old) => *old <= s,
                        None => true,
                    };
                    if take {
                        specs.insert(key.clone(), s);
                        vals.insert(key.clone(), val.duplicate());
                        assert(apply_rule(m0, s, p1) =~= cur.insert(key@, (s, *val)));
                    } else {
                        assert(apply_rule(m0, s, p1) =~= cur);
                    }
                    assert(specs@ =~= apply_rule(m0, s, p1).map_values(|e: (u8, StyleProperty)| e.0));
                    assert(vals@ =~= apply_rule(m0, s, p1).map_values(|e: (u8, StyleProperty)| e.1));
                    k += 1;
                }
                assert(keys.take(n as int) =~= keys);
                assert(props@.restrict(keys.to_set()) =~= props@);
            }
            i += 1;
        }
        assert(rules@.take(rules@.len() as int) =~= rules@);
        vals
    }

    /// Resolves the style of every element of this tree from `rules`.
    pub fn stylize(&mut self, rules: &Vec<CssRule>)
        ensures
            stylized(*old(self), *final(self), rules@),
            resolved(*final(self), rules@),
    {
        let mut node = HtmlNode::new_text(String::new());
        std::mem::swap(&mut node, self);
        *self = Self::stylize_recursive(node, rules);
        proof {
            lemma_stylized_resolved(*old(self), *self, rules@);
        }
    }

    /// This tree with every element's style resolved from `rules`.
    fn stylize_recursive(tree: HtmlNode, rules: &Vec<CssRule>) -> (r: HtmlNode)
        ensures
            stylized(tree, r, rules@),
        decreases tree,
    {
        let ghost before = tree;
        let mut node = tree;
        if let NodeType::Element(_) = &node.node_type {
            node.style = node.compute_style(rules);
            let mut kids: Vec<HtmlNode> = Vec::new();
            std::mem::swap(&mut kids, &mut node.children);
            let ghost old_kids = kids@;
            let mut done: Vec<HtmlNode> = Vec::new();
            while kids.len() > 0
                invariant
                    old_kids == before.children@,
                    before == tree,
                    done@.len() + kids@.len() == old_kids.len(),
                    kids@ == old_kids.skip(done@.len() as int),
                    forall|j: int| 0 <= j < done@.len() ==> #[trigger] stylized(old_kids[j], done@[j], rules@),
                decreases kids@.len(),
            {
                let c = kids.remove(0);
                assert(c == old_kids[done@.len() as int]);
                assert(decreases_to!(before => before.children@[done@.len() as int]));
                let c = Self::stylize_recursive(c, rules);
                done.push(c);
                assert(kids@ =~= old_kids.skip(done@.len() as int));
            }
            node.children = done;
            assert forall|i: int|
                #![trigger before.children@[i]]
                0 <= i < before.children@.len() implies stylized(
                    before.children@[i],
                    node.children@[i],
                    rules@,
                ) by {
                assert(stylized(old_kids[i], done@[i], rules@));
            }
        }
        node
    }
}

} // verus!
