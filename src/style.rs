use vstd::prelude::*;
use crate::css::{Declaration, Rule, Selector, Specificity, Stylesheet, Value};
use crate::dom::{ElementData, Node, NodeType};
use crate::text::str_eq;

verus! {

/// No two entries share a name.
pub open spec fn keys_unique(s: Seq<(String, Value)>) -> bool {
    forall|i: int, j: int|
        0 <= i < s.len() && 0 <= j < s.len() && i != j ==> #[trigger] s[i].0@ != #[trigger] s[j].0@
}

/// The value stored under `k`.
pub open spec fn lookup(s: Seq<(String, Value)>, k: Seq<char>) -> Option<Value> {
    if exists|i: int| 0 <= i < s.len() && s[i].0@ == k {
        Some(s[choose|i: int| 0 <= i < s.len() && s[i].0@ == k].1)
    } else {
        None
    }
}

pub proof fn lemma_lookup_at(s: Seq<(String, Value)>, i: int)
    requires
        keys_unique(s),
        0 <= i < s.len(),
    ensures
        lookup(s, s[i].0@) == Some(s[i].1),
{
    let k = s[i].0@;
    assert(0 <= i < s.len() && s[i].0@ == k);
    let j = choose|j: int| 0 <= j < s.len() && s[j].0@ == k;
    assert(i == j);
}

/// Map from property names to values, one entry per name.
pub struct PropertyMap {
    pub entries: Vec<(String, Value)>,
}

impl PropertyMap {
    pub open spec fn wf(&self) -> bool {
        keys_unique(self.entries@)
    }

    pub open spec fn get(&self, k: Seq<char>) -> Option<Value> {
        lookup(self.entries@, k)
    }

    pub fn new() -> (r: PropertyMap)
        ensures
            r.wf(),
            forall|k: Seq<char>| r.get(k) is None,
    {
        PropertyMap { entries: Vec::new() }
    }

    /// The value of property `name`, if any.
    pub fn val(&self, name: &str) -> (r: Option<Value>)
        requires
            self.wf(),
        ensures
            r == self.get(name@),
    {
        let n = self.entries.len();
        let mut i: usize = 0;
        while i < n
            invariant
                self.wf(),
                n == self.entries@.len(),
                i <= n,
                forall|j: int| 0 <= j < i ==> self.entries@[j].0@ != name@,
            decreases n - i,
        {
            if str_eq(self.entries[i].0.as_str(), name) {
                proof { lemma_lookup_at(self.entries@, i as int); }
                return Some(self.entries[i].1.duplicate());
            }
            i = i + 1;
        }
        None
    }
}

/// Does the selector match the element?
pub open spec fn matches_spec(e: ElementData, sel: Selector) -> bool {
    match sel {
        Selector::Simple(s) => {
            &&& (s.tag_name is Some ==> s.tag_name.unwrap()@ == e.tag_name@)
            &&& (s.id is Some ==> e.id_spec() is Some && e.id_spec().unwrap()@
                == s.id.unwrap()@)
            &&& forall|i: int| 0 <= i < s.class@.len() ==> e.has_class_spec(#[trigger] s.class@[i]@)
        },
    }
}

/// The highest specificity among the selectors that match, if any does.
pub open spec fn best_match(e: ElementData, sels: Seq<Selector>) -> Option<Specificity>
    decreases sels.len(),
{
    if sels.len() == 0 {
        None
    } else {
        let prev = best_match(e, sels.drop_last());
        let sp = sels.last().spec_specificity();
        if matches_spec(e, sels.last()) {
            match prev {
                Some(p) => if sp.le(p) { Some(p) } else { Some(sp) },
                None => Some(sp),
            }
        } else {
            prev
        }
    }
}

/// The last declaration of property `p` in a declaration list.
pub open spec fn declared(ds: Seq<Declaration>, p: Seq<char>) -> Option<Value>
    decreases ds.len(),
{
    if ds.len() == 0 {
        None
    } else if ds.last().nam@ == p {
        Some(ds.last().val)
    } else {
        declared(ds.drop_last(), p)
    }
}

/// A rule of specificity `s` that declares `d` over the winner so far.
pub open spec fn combine(
    prev: Option<(Specificity, Value)>,
    s: Specificity,
    d: Option<Value>,
) -> Option<(Specificity, Value)> {
    match d {
        Some(v) => match prev {
            Some(q) => if q.0.le(s) { Some((s, v)) } else { prev },
            None => Some((s, v)),
        },
        None => prev,
    }
}

/// The winning declaration of `p` for `e`: the one from the matching rule of
/// highest specificity that declares `p`, the later rule winning a tie, with
/// that rule's specificity.
pub open spec fn cascade(e: ElementData, rules: Seq<Rule>, p: Seq<char>) -> Option<
    (Specificity, Value),
>
    decreases rules.len(),
{
    if rules.len() == 0 {
        None
    } else {
        let prev = cascade(e, rules.drop_last(), p);
        match best_match(e, rules.last().selectors@) {
            Some(s) => combine(prev, s, declared(rules.last().declarations@, p)),
            None => prev,
        }
    }
}

/// The value that the cascade gives property `p` of `e`.
pub open spec fn cascaded_value(e: ElementData, rules: Seq<Rule>, p: Seq<char>) -> Option<Value> {
    match cascade(e, rules, p) {
        Some(w) => Some(w.1),
        None => None,
    }
}

/// Tell whether selector matches element.
pub fn matches(elem: &ElementData, slctr: &Selector) -> (r: bool)
    ensures
        r == matches_spec(*elem, *slctr),
{
    match slctr {
        Selector::Simple(smpl) => matches_ss(elem, smpl),
    }
}

/// Tag, id and every class of the selector must match.
pub fn matches_ss(elem: &ElementData, slctr: &crate::css::SimpleSelector) -> (r: bool)
    ensures
        r == matches_spec(*elem, Selector::Simple(*slctr)),
{
    if let Some(t) = &slctr.tag_name {
        if *t != elem.tag_name {
            return false;
        }
    }
    if let Some(want) = &slctr.id {
        match elem.id() {
            Some(have) => {
                if *have != *want {
                    return false;
                }
            },
            None => {
                return false;
            },
        }
    }
    let n = slctr.class.len();
    let mut i: usize = 0;
    while i < n
        invariant
            n == slctr.class@.len(),
            i <= n,
            forall|j: int| 0 <= j < i ==> elem.has_class_spec(#[trigger] slctr.class@[j]@),
        decreases n - i,
    {
        if !elem.has_class(slctr.class[i].as_str()) {
            return false;
        }
        i = i + 1;
    }
    true
}

/// The specificity by which `rule` applies to `elem`: that of its best matching
/// selector, or `None` when no selector matches.
pub fn match_rule(elem: &ElementData, rule: &Rule) -> (r: Option<Specificity>)
    ensures
        r == best_match(*elem, rule.selectors@),
{
    let n = rule.selectors.len();
    let mut best: Option<Specificity> = None;
    let mut i: usize = 0;
    while i < n
        invariant
            n == rule.selectors@.len(),
            i <= n,
            best == best_match(*elem, rule.selectors@.subrange(0, i as int)),
        decreases n - i,
    {
        let ghost pre = rule.selectors@.subrange(0, i as int);
        assert(rule.selectors@.subrange(0, i + 1).drop_last() =~= pre);
        let sel = &rule.selectors[i];
        if matches(elem, sel) {
            let sp = sel.specificity();
            best = match best {
                Some(p) => if sp.le_exec(&p) { Some(p) } else { Some(sp) },
                None => Some(sp),
            };
        }
        i = i + 1;
    }
    assert(rule.selectors@.subrange(0, n as int) =~= rule.selectors@);
    best
}

/// The rules that match `elem`, in source order, each with its specificity
/// and its index in the stylesheet.
pub fn matching_rules(elem: &ElementData, stylesheet: &Stylesheet) -> (r: Vec<(Specificity, usize)>)
    ensures
        forall|k: int|
            0 <= k < r@.len() ==> #[trigger] r@[k].1 < stylesheet.rules@.len() && best_match(
                *elem,
                stylesheet.rules@[r@[k].1 as int].selectors@,
            ) == Some(r@[k].0),
        forall|a: int, b: int| 0 <= a < b < r@.len() ==> #[trigger] r@[a].1 < #[trigger] r@[b].1,
        forall|t: int|
            0 <= t < stylesheet.rules@.len() && #[trigger] best_match(
                *elem,
                stylesheet.rules@[t].selectors@,
            ) is Some ==> exists|k: int| 0 <= k < r@.len() && r@[k].1 == t,
{
    let rules = &stylesheet.rules;
    let n = rules.len();
    let mut out: Vec<(Specificity, usize)> = Vec::new();
    let mut i: usize = 0;
    while i < n
        invariant
            n == rules@.len(),
            i <= n,
            forall|k: int|
                0 <= k < out@.len() ==> #[trigger] out@[k].1 < i && best_match(
                    *elem,
                    rules@[out@[k].1 as int].selectors@,
                ) == Some(out@[k].0),
            forall|a: int, b: int| 0 <= a < b < out@.len() ==> #[trigger] out@[a].1 < #[trigger] out@[b].1,
            forall|t: int|
                0 <= t < i && #[trigger] best_match(*elem, rules@[t].selectors@) is Some
                    ==> exists|k: int| 0 <= k < out@.len() && out@[k].1 == t,
        decreases n - i,
    {
        match match_rule(elem, &rules[i]) {
            Some(sp) => {
                let ghost old_out = out@;
                out.push((sp, i));
                assert forall|t: int|
                    0 <= t < i + 1 && #[trigger] best_match(*elem, rules@[t].selectors@) is Some
                        implies exists|k: int| 0 <= k < out@.len() && out@[k].1 == t by {
                    if t < i {
                        let k = choose|k: int| 0 <= k < old_out.len() && old_out[k].1 == t;
                        assert(out@[k].1 == t);
                    } else {
                        assert(out@[out@.len() - 1].1 == t);
                    }
                }
            },
            None => {},
        }
        i = i + 1;
    }
    out
}

/// Rules that no selector matches leave the cascade as it was.
pub proof fn lemma_cascade_skip(e: ElementData, rules: Seq<Rule>, a: int, b: int, p: Seq<char>)
    requires
        0 <= a <= b <= rules.len(),
        forall|t: int| a <= t < b ==> #[trigger] best_match(e, rules[t].selectors@) is None,
    ensures
        cascade(e, rules.subrange(0, b), p) == cascade(e, rules.subrange(0, a), p),
    decreases b - a,
{
    if b > a {
        assert(rules.subrange(0, b).drop_last() =~= rules.subrange(0, b - 1));
        assert(best_match(e, rules[b - 1].selectors@) is None);
        lemma_cascade_skip(e, rules, a, b - 1, p);
    }
}

/// Entries `es` with weights `ws` hold exactly what `target` gives.
pub open spec fn holds(
    es: Seq<(String, Value)>,
    ws: Seq<Specificity>,
    target: spec_fn(Seq<char>) -> Option<(Specificity, Value)>,
) -> bool {
    &&& es.len() == ws.len()
    &&& keys_unique(es)
    &&& forall|i: int| 0 <= i < es.len() ==> target(#[trigger] es[i].0@) == Some((ws[i], es[i].1))
    &&& forall|q: Seq<char>| #[trigger] target(q) is Some ==> exists|i: int| 0 <= i < es.len() && es[i].0@ == q
}

/// Apply styles to a single element: each property gets the value of the
/// matching rule of highest specificity that declares it, the later rule
/// winning a tie.
pub fn specified_values(elem: &ElementData, stylesheet: &Stylesheet) -> (r: PropertyMap)
    ensures
        r.wf(),
        forall|p: Seq<char>| #[trigger] r.get(p) == cascaded_value(*elem, stylesheet.rules@, p),
{
    let ghost e = *elem;
    let ghost rules = stylesheet.rules@;
    let matched = matching_rules(elem, stylesheet);
    let mut es: Vec<(String, Value)> = Vec::new();
    let mut ws: Vec<Specificity> = Vec::new();
    let m = matched.len();
    let mut k: usize = 0;
    let ghost mut done: int = 0;
    while k < m
        invariant
            m == matched@.len(),
            k <= m,
            0 <= done <= rules.len(),
            rules == stylesheet.rules@,
            e == *elem,
            k == 0 ==> done == 0,
            k > 0 ==> done == matched@[k - 1].1 + 1,
            k < m ==> done <= matched@[k as int].1,
            forall|j: int|
                0 <= j < matched@.len() ==> #[trigger] matched@[j].1 < stylesheet.rules@.len() && best_match(
                    *elem,
                    stylesheet.rules@[matched@[j].1 as int].selectors@,
                ) == Some(matched@[j].0),
            forall|a: int, b: int| 0 <= a < b < matched@.len() ==> #[trigger] matched@[a].1 < #[trigger] matched@[b].1,
            forall|t: int|
                0 <= t < stylesheet.rules@.len() && #[trigger] best_match(
                    *elem,
                    stylesheet.rules@[t].selectors@,
                ) is Some ==> exists|j: int| 0 <= j < matched@.len() && matched@[j].1 == t,
            holds(es@, ws@, |q: Seq<char>| cascade(e, rules.subrange(0, done), q)),
        decreases m - k,
    {
        let sp = matched[k].0;
        let ri = matched[k].1;
        proof {
            assert forall|t: int| done <= t < ri implies #[trigger] best_match(e, rules[t].selectors@) is None by {
                if best_match(e, rules[t].selectors@) is Some {
                    let j = choose|j: int| 0 <= j < matched@.len() && matched@[j].1 == t;
                    if j < k {
                        if k > 0 { assert(matched@[j].1 <= matched@[k - 1].1); }
                    } else if j > k {
                        assert(matched@[k as int].1 < matched@[j].1);
                    }
                }
            }
            assert forall|q: Seq<char>| cascade(e, rules.subrange(0, ri as int), q) == cascade(e, rules.subrange(0, done), q) by {
                lemma_cascade_skip(e, rules, done, ri as int, q);
            }
            assert(rules.subrange(0, ri + 1).drop_last() =~= rules.subrange(0, ri as int));
        }
        let rule = &stylesheet.rules[ri];
        let ghost base = |q: Seq<char>| cascade(e, rules.subrange(0, ri as int), q);
        let ghost ds = rule.declarations@;
        assert(ds.subrange(0, 0) =~= Seq::<Declaration>::empty());
        assert((|q: Seq<char>| combine(base(q), sp, declared(ds.subrange(0, 0), q))) =~= (|q: Seq<char>| cascade(e, rules.subrange(0, done), q)));
        let nd = rule.declarations.len();
        let mut j: usize = 0;
        while j < nd
            invariant
                nd == ds.len(),
                ds == rule.declarations@,
                j <= nd,
                holds(es@, ws@, |q: Seq<char>| combine(base(q), sp, declared(ds.subrange(0, j as int), q))),
            decreases nd - j,
        {
            let ghost pre = es@;
            let ghost prew = ws@;
            let ghost old_t = |q: Seq<char>| combine(base(q), sp, declared(ds.subrange(0, j as int), q));
            let ghost new_t = |q: Seq<char>| combine(base(q), sp, declared(ds.subrange(0, j + 1), q));
            assert(ds.subrange(0, j + 1).drop_last() =~= ds.subrange(0, j as int));
            let d = &rule.declarations[j];
            let n = es.len();
            let mut i: usize = 0;
            while i < n && es[i].0 != d.nam
                invariant
                    n == es@.len(),
                    i <= n,
                    forall|t: int| 0 <= t < i ==> es@[t].0@ != d.nam@,
                decreases n - i,
            {
                i = i + 1;
            }
            if i < n {
                assert(es@[i as int].0@ == d.nam@);
                if ws[i].le_exec(&sp) {
                    es.set(i, (d.nam.clone(), d.val.duplicate()));
                    ws.set(i, sp);
                }
                assert forall|q: Seq<char>| #[trigger] new_t(q) is Some implies exists|t: int|
                    0 <= t < es@.len() && es@[t].0@ == q by {
                    if q != d.nam@ {
                        assert(old_t(q) is Some);
                        let t = choose|t: int| 0 <= t < pre.len() && pre[t].0@ == q;
                        assert(es@[t].0@ == q);
                    } else {
                        assert(es@[i as int].0@ == q);
                    }
                }
                assert forall|t: int| 0 <= t < es@.len() implies new_t(#[trigger] es@[t].0@) == Some((ws@[t], es@[t].1)) by {
                    if t != i {
                        assert(pre[t].0@ != pre[i as int].0@);
                        assert(old_t(pre[t].0@) == Some((prew[t], pre[t].1)));
                    } else {
                        assert(old_t(pre[t].0@) == Some((prew[t], pre[t].1)));
                    }
                }
            } else {
                assert(old_t(d.nam@) is None) by {
                    if old_t(d.nam@) is Some {
                        let t = choose|t: int| 0 <= t < pre.len() && pre[t].0@ == d.nam@;
                    }
                }
                es.push((d.nam.clone(), d.val.duplicate()));
                ws.push(sp);
                assert forall|q: Seq<char>| #[trigger] new_t(q) is Some implies exists|t: int|
                    0 <= t < es@.len() && es@[t].0@ == q by {
                    if q != d.nam@ {
                        assert(old_t(q) is Some);
                        let t = choose|t: int| 0 <= t < pre.len() && pre[t].0@ == q;
                        assert(es@[t].0@ == q);
                    } else {
                        assert(es@[n as int].0@ == q);
                    }
                }
                assert forall|t: int| 0 <= t < es@.len() implies new_t(#[trigger] es@[t].0@) == Some((ws@[t], es@[t].1)) by {
                    if t < n {
                        assert(old_t(pre[t].0@) == Some((prew[t], pre[t].1)));
                    }
                }
            }
            assert(holds(es@, ws@, new_t));
            j = j + 1;
        }
        assert(ds.subrange(0, nd as int) =~= ds);
        assert((|q: Seq<char>| cascade(e, rules.subrange(0, ri + 1), q)) =~= (|q: Seq<char>| combine(base(q), sp, declared(ds.subrange(0, nd as int), q)))) by {
            assert forall|q: Seq<char>| #[trigger] cascade(e, rules.subrange(0, ri + 1), q) == combine(base(q), sp, declared(ds, q)) by {
                assert(rules.subrange(0, ri + 1).last() == rules[ri as int]);
            }
        }
        proof { done = ri + 1; }
        k = k + 1;
    }
    proof {
        assert forall|t: int| done <= t < rules.len() implies #[trigger] best_match(e, rules[t].selectors@) is None by {
            if best_match(e, rules[t].selectors@) is Some {
                let j = choose|j: int| 0 <= j < matched@.len() && matched@[j].1 == t;
                if m > 0 { assert(matched@[j].1 <= matched@[m - 1].1); }
            }
        }
        assert forall|q: Seq<char>| cascade(e, rules, q) == cascade(e, rules.subrange(0, done), q) by {
            lemma_cascade_skip(e, rules, done, rules.len() as int, q);
            assert(rules.subrange(0, rules.len() as int) =~= rules);
        }
    }
    let ghost fin = |q: Seq<char>| cascade(e, rules.subrange(0, done), q);
    assert(holds(es@, ws@, fin));
    let r = PropertyMap { entries: es };
    assert forall|p: Seq<char>| #[trigger] r.get(p) == cascaded_value(*elem, stylesheet.rules@, p) by {
        if cascade(e, rules, p) is Some {
            assert(fin(p) is Some);
            let t = choose|t: int| 0 <= t < es@.len() && es@[t].0@ == p;
            lemma_lookup_at(es@, t);
        } else {
            if exists|t: int| 0 <= t < es@.len() && es@[t].0@ == p {
                let t = choose|t: int| 0 <= t < es@.len() && es@[t].0@ == p;
                assert(fin(es@[t].0@) == Some((ws@[t], es@[t].1)));
            }
        }
    }
    r
}

/// A node with associated style data.
pub struct StyledNode<'a> {
    pub node: &'a Node,
    pub specified_values: PropertyMap,
    pub children: Vec<StyledNode<'a>>,
}

/// The cascaded value of `p` on node `n`; text nodes have no properties.
pub open spec fn node_value(n: Node, rules: Seq<Rule>, p: Seq<char>) -> Option<Value> {
    match n.node_type {
        NodeType::Element(e) => cascaded_value(e, rules, p),
        NodeType::Text(_) => None,
    }
}

/// `s` mirrors the tree `n`, each node carrying its cascaded values.
pub open spec fn styled_from(s: StyledNode, n: Node, rules: Seq<Rule>) -> bool
    decreases n,
{
    &&& *s.node == n
    &&& s.specified_values.wf()
    &&& forall|p: Seq<char>| #[trigger] s.specified_values.get(p) == node_value(n, rules, p)
    &&& s.children@.len() == n.children@.len()
    &&& forall|i: int|
        0 <= i < n.children@.len() ==> styled_from(#[trigger] s.children@[i], n.children@[i], rules)
}

/// Every node of the style tree has a well-formed property map.
pub open spec fn styled_wf(s: StyledNode) -> bool
    decreases s,
{
    &&& s.specified_values.wf()
    &&& forall|i: int| 0 <= i < s.children@.len() ==> styled_wf(#[trigger] s.children@[i])
}

/// Apply a stylesheet to an entire DOM tree, returning a StyledNode tree.
pub fn style_tree<'a>(root: &'a Node, stylesheet: &'a Stylesheet) -> (r: StyledNode<'a>)
    ensures
        styled_from(r, *root, stylesheet.rules@),
        styled_wf(r),
    decreases root,
{
    let specified_values = match &root.node_type {
        NodeType::Element(elem) => specified_values(elem, stylesheet),
        NodeType::Text(_) => PropertyMap::new(),
    };
    let n = root.children.len();
    let mut children: Vec<StyledNode<'a>> = Vec::new();
    let mut i: usize = 0;
    while i < n
        invariant
            n == root.children@.len(),
            i <= n,
            children@.len() == i,
            forall|j: int|
                0 <= j < i ==> styled_from(#[trigger] children@[j], root.children@[j], stylesheet.rules@),
            forall|j: int| 0 <= j < i ==> styled_wf(#[trigger] children@[j]),
        decreases n - i,
    {
        proof { vstd::std_specs::vec::axiom_vec_index_decreases(root.children, i as int); }
        let c = style_tree(&root.children[i], stylesheet);
        children.push(c);
        i = i + 1;
    }
    StyledNode { node: root, specified_values, children }
}

/// A rule of strictly higher specificity wins over one of lower specificity,
/// whatever their order in the stylesheet (so an id selector beats a class
/// selector).
pub proof fn lemma_higher_specificity_wins(
    e: ElementData,
    low: Rule,
    high: Rule,
    p: Seq<char>,
)
    requires
        best_match(e, low.selectors@) is Some,
        best_match(e, high.selectors@) is Some,
        !best_match(e, high.selectors@).unwrap().le(best_match(e, low.selectors@).unwrap()),
        declared(low.declarations@, p) is Some,
        declared(high.declarations@, p) is Some,
    ensures
        cascaded_value(e, seq![low, high], p) == declared(high.declarations@, p),
        cascaded_value(e, seq![high, low], p) == declared(high.declarations@, p),
{
    let a = seq![low, high];
    let b = seq![high, low];
    assert(a.drop_last() =~= seq![low]);
    assert(seq![low].drop_last() =~= Seq::<Rule>::empty());
    assert(b.drop_last() =~= seq![high]);
    assert(seq![high].drop_last() =~= Seq::<Rule>::empty());
    assert(a.last() == high && b.last() == low && seq![low].last() == low && seq![high].last() == high);
    reveal_with_fuel(cascade, 3);
}

/// Of two rules with the same specificity, the later one wins.
pub proof fn lemma_later_rule_wins_tie(e: ElementData, first: Rule, second: Rule, p: Seq<char>)
    requires
        best_match(e, first.selectors@) is Some,
        best_match(e, first.selectors@) == best_match(e, second.selectors@),
        declared(second.declarations@, p) is Some,
    ensures
        cascaded_value(e, seq![first, second], p) == declared(second.declarations@, p),
{
    let a = seq![first, second];
    assert(a.drop_last() =~= seq![first]);
    assert(seq![first].drop_last() =~= Seq::<Rule>::empty());
    assert(a.last() == second && seq![first].last() == first);
    reveal_with_fuel(cascade, 3);
}

/// A property has a cascaded value exactly when some matching rule declares
/// it: the resolved properties are the union of those that the matching rules
/// declare.
pub proof fn lemma_cascade_complete(e: ElementData, rules: Seq<Rule>, p: Seq<char>)
    ensures
        cascaded_value(e, rules, p) is Some <==> exists|t: int|
            0 <= t < rules.len() && best_match(e, (#[trigger] rules[t]).selectors@) is Some
                && declared(rules[t].declarations@, p) is Some,
    decreases rules.len(),
{
    if rules.len() > 0 {
        let pre = rules.drop_last();
        lemma_cascade_complete(e, pre, p);
        if exists|t: int|
            0 <= t < pre.len() && best_match(e, (#[trigger] pre[t]).selectors@) is Some
                && declared(pre[t].declarations@, p) is Some {
            let t = choose|t: int|
                0 <= t < pre.len() && best_match(e, (#[trigger] pre[t]).selectors@) is Some
                    && declared(pre[t].declarations@, p) is Some;
            assert(rules[t] == pre[t]);
        }
        if exists|t: int|
            0 <= t < rules.len() && best_match(e, (#[trigger] rules[t]).selectors@) is Some
                && declared(rules[t].declarations@, p) is Some {
            let t = choose|t: int|
                0 <= t < rules.len() && best_match(e, (#[trigger] rules[t]).selectors@) is Some
                    && declared(rules[t].declarations@, p) is Some;
            if t < pre.len() {
                assert(pre[t] == rules[t]);
            }
        }
    }
}

} // verus!
