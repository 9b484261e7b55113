//! Style values of CSS properties, and the first stages of the cascade:
//! https://www.w3.org/TR/css-cascade-3/#value-stages
use vstd::prelude::*;

use indexmap::IndexMap;

use crate::css::cssom::{
    ComponentValue, ComponentValueModel, Declaration, DeclarationModel, copy_values, cvs_view, declaration_view,
    declarations_view,
};
use crate::css::cssom::{Rule, StyleSheet, all_selectable, matched_selectors};
use crate::css::selector::{Selector, counts, specificity_rank};
use crate::css::selector_syntax::{SelectorModel, selector_view, selectors_view};
use crate::html::dom::{DomNode, well_linked};

pub mod property;

verus! {

/// The map of `indexmap`, which keeps its entries in the order they were inserted.
#[verifier::external_type_specification]
#[verifier::external_body]
#[verifier::reject_recursive_types(K)]
#[verifier::reject_recursive_types(V)]
#[verifier::reject_recursive_types(S)]
pub struct ExIndexMap<K, V, S>(IndexMap<K, V, S>);

/// The entries of a map of cascaded values, in their order: each property name with
/// its value.
pub uninterp spec fn cascaded_entries(m: IndexMap<String, Vec<ComponentValue>>) -> Seq<(Seq<char>, Seq<ComponentValueModel>)>;

/// Some entry of `entries` is named `name`.
pub open spec fn has_name(entries: Seq<(Seq<char>, Seq<ComponentValueModel>)>, name: Seq<char>) -> bool {
    exists|k: int| 0 <= k < entries.len() && (#[trigger] entries[k]).0 == name
}

/// An empty map.
///
/// Calls `IndexMap::new`, which makes a map with no entries.
#[verifier::external_body]
fn new_cascaded_map() -> (m: IndexMap<String, Vec<ComponentValue>>)
    ensures
        cascaded_entries(m) == Seq::<(Seq<char>, Seq<ComponentValueModel>)>::empty(),
{
    IndexMap::new()
}

/// Whether the map has an entry for `name`.
///
/// Calls `IndexMap::contains_key`, which tells whether some key of the map equals `name`.
#[verifier::external_body]
fn cascaded_has(m: &IndexMap<String, Vec<ComponentValue>>, name: &str) -> (r: bool)
    ensures
        r == has_name(cascaded_entries(*m), name@),
{
    m.contains_key(name)
}

/// Adds an entry for a name that the map does not have yet.
///
/// Calls `IndexMap::insert`, which appends an entry with a new key at the end of the
/// order (a key that is present keeps its place; that case is left out here).
#[verifier::external_body]
fn cascaded_insert(m: &mut IndexMap<String, Vec<ComponentValue>>, name: String, value: Vec<ComponentValue>)
    requires
        !has_name(cascaded_entries(*old(m)), name@),
    ensures
        cascaded_entries(*final(m)) == cascaded_entries(*old(m)).push((name@, cvs_view(value@))),
{
    m.insert(name, value);
}

/// The entries after a declaration of `name` with `value` is added: a name that has
/// an entry keeps it, a new name is appended.
pub open spec fn cascade_add(
    entries: Seq<(Seq<char>, Seq<ComponentValueModel>)>,
    name: Seq<char>,
    value: Seq<ComponentValueModel>,
) -> Seq<(Seq<char>, Seq<ComponentValueModel>)> {
    if has_name(entries, name) {
        entries
    } else {
        entries.push((name, value))
    }
}

/// https://www.w3.org/TR/css-cascade-3/#cascaded
#[derive(Debug)]
pub struct CascadedStyle {
    pub values: IndexMap<String, Vec<ComponentValue>>,
}

impl CascadedStyle {
    /// No cascaded values.
    pub fn new() -> (c: Self)
        ensures
            cascaded_entries(c.values) == Seq::<(Seq<char>, Seq<ComponentValueModel>)>::empty(),
    {
        Self { values: new_cascaded_map() }
    }

    /// Adds the value of a declaration; a property that already has a value keeps it, so
    /// that the first declaration added for a property wins. Keeps the order of addition.
    pub fn add(&mut self, name: &str, values: &[ComponentValue])
        ensures
            cascaded_entries(final(self).values) == cascade_add(cascaded_entries(old(self).values), name@, cvs_view(values@)),
    {
        if !cascaded_has(&self.values, name) {
            cascaded_insert(&mut self.values, crate::text::string_of(name), copy_values(values));
        }
    }
}

/// https://www.w3.org/TR/css-cascade-3/#declared: the declaration blocks of the
/// matched selectors, each with its selector, in the order the style sheets give them.
#[derive(Debug)]
pub struct DeclaredStyle {
    pub values: Vec<(Selector, Vec<Declaration>)>,
}

/// The specificities of the selectors of the declared values, as ranks: integers that
/// order as the triples `(a, b, c)` do (`lemma_rank_lexicographic`).
pub open spec fn specificities(values: Seq<(Selector, Vec<Declaration>)>) -> Seq<int> {
    Seq::new(values.len(), |i: int| specificity_rank(values[i].0))
}

/// The declaration blocks of the declared values, as mathematical values.
pub open spec fn blocks(values: Seq<(Selector, Vec<Declaration>)>) -> Seq<Seq<DeclarationModel>> {
    Seq::new(values.len(), |i: int| declarations_view(values[i].1@))
}

/// Block `a` takes precedence over block `b`: its selector is more specific, or as
/// specific and declared later.
pub open spec fn precedes(specs: Seq<int>, a: int, b: int) -> bool {
    specs[a] > specs[b] || (specs[a] == specs[b] && a > b)
}

/// `i` put into `order` before the first block that does not take precedence over it.
pub open spec fn insert_in_order(order: Seq<int>, i: int, specs: Seq<int>) -> Seq<int>
    decreases order.len(),
{
    if order.len() == 0 {
        seq![i]
    } else if precedes(specs, order[0], i) {
        seq![order[0]] + insert_in_order(order.drop_first(), i, specs)
    } else {
        seq![i] + order
    }
}

/// The blocks `0..n` in the order of the cascade: by precedence, highest first.
pub open spec fn cascade_order(specs: Seq<int>, n: nat) -> Seq<int>
    decreases n,
{
    if n == 0 {
        Seq::empty()
    } else {
        insert_in_order(cascade_order(specs, (n - 1) as nat), n - 1, specs)
    }
}

/// The entries after the declarations of `decls` are added in order.
pub open spec fn add_declarations(
    entries: Seq<(Seq<char>, Seq<ComponentValueModel>)>,
    decls: Seq<DeclarationModel>,
) -> Seq<(Seq<char>, Seq<ComponentValueModel>)>
    decreases decls.len(),
{
    if decls.len() == 0 {
        entries
    } else {
        cascade_add(add_declarations(entries, decls.drop_last()), decls.last().name, decls.last().value)
    }
}

/// The cascaded values of the blocks, added in `order`.
pub open spec fn cascade_in(blocks: Seq<Seq<DeclarationModel>>, order: Seq<int>) -> Seq<(Seq<char>, Seq<ComponentValueModel>)>
    decreases order.len(),
{
    if order.len() == 0 {
        Seq::empty()
    } else {
        add_declarations(cascade_in(blocks, order.drop_last()), blocks[order.last()])
    }
}

/// The cascaded values of the declared values.
pub open spec fn cascade_of(values: Seq<(Selector, Vec<Declaration>)>) -> Seq<(Seq<char>, Seq<ComponentValueModel>)> {
    cascade_in(blocks(values), cascade_order(specificities(values), values.len()))
}

/// Putting `i` at the first position `p` where the block there does not take
/// precedence over it is `insert_in_order`.
proof fn lemma_insert_at(order: Seq<int>, i: int, specs: Seq<int>, p: int)
    requires
        0 <= p <= order.len(),
        forall|q: int| 0 <= q < p ==> precedes(specs, #[trigger] order[q], i),
        p == order.len() || !precedes(specs, order[p], i),
    ensures
        insert_in_order(order, i, specs) == order.insert(p, i),
    decreases order.len(),
{
    if order.len() > 0 && p > 0 {
        let rest = order.drop_first();
        assert forall|q: int| 0 <= q < p - 1 implies precedes(specs, #[trigger] rest[q], i) by {
            assert(rest[q] == order[q + 1]);
        }
        lemma_insert_at(rest, i, specs, p - 1);
        assert(order.insert(p, i) =~= seq![order[0]] + rest.insert(p - 1, i));
    } else if order.len() > 0 {
        assert(order.insert(0, i) =~= seq![i] + order);
    } else {
        assert(order.insert(0, i) =~= seq![i]);
    }
}

impl DeclaredStyle {
    /// No declared values.
    pub fn new() -> (d: Self)
        ensures
            d.values@.len() == 0,
    {
        Self { values: Vec::new() }
    }

    /// Adds the declaration block of a matched selector.
    pub fn add(&mut self, selector: Selector, declarations: &[Declaration])
        ensures
            final(self).values@.len() == old(self).values@.len() + 1,
            forall|k: int| 0 <= k < old(self).values@.len() ==> final(self).values@[k] == old(self).values@[k],
            final(self).values@.last().0 == selector,
            declarations_view(final(self).values@.last().1@) == declarations_view(declarations@),
    {
        let mut copy: Vec<Declaration> = Vec::new();
        let mut k: usize = 0;
        while k < declarations.len()
            invariant
                k <= declarations@.len(),
                declarations_view(copy@) == declarations_view(declarations@.take(k as int)),
            decreases declarations.len() - k,
        {
            let d = declarations[k].copy();
            let ghost before = copy@;
            copy.push(d);
            assert(declarations_view(copy@) =~= declarations_view(before).push(declaration_view(d)));
            assert(declarations_view(declarations@.take(k + 1)) =~= declarations_view(declarations@.take(k as int)).push(
                declaration_view(declarations@[k as int]),
            ));
            k = k + 1;
        }
        assert(declarations@.take(declarations@.len() as int) =~= declarations@);
        self.values.push((selector, copy));
    }

    /// Returns the cascaded values: the declarations of the blocks taken in the order of
    /// the cascade (by specificity, highest first, the later block first among equals),
    /// each property keeping the first value given to it.
    /// https://www.w3.org/TR/css-cascade-3/#cascading
    pub fn apply_cascading(&self) -> (c: CascadedStyle)
        requires
            forall|i: int|
                0 <= i < self.values@.len() ==> counts(#[trigger] self.values@[i].0).0 + counts(self.values@[i].0).1
                    + counts(self.values@[i].0).2 <= u32::MAX,
        ensures
            cascaded_entries(c.values) == cascade_of(self.values@),
    {
        let ghost values = self.values@;
        let ghost specs = specificities(values);
        let n = self.values.len();
        let mut spec_list: Vec<u128> = Vec::new();
        let mut i: usize = 0;
        while i < n
            invariant
                n == values.len(),
                values == self.values@,
                specs == specificities(values),
                i <= n,
                spec_list@.len() == i,
                forall|j: int| 0 <= j < i ==> spec_list@[j] as int == specs[j],
                forall|j: int|
                    0 <= j < values.len() ==> counts(#[trigger] values[j].0).0 + counts(values[j].0).1 + counts(
                        values[j].0,
                    ).2 <= u32::MAX,
            decreases n - i,
        {
            spec_list.push(self.values[i].0.rank());
            i = i + 1;
        }
        let mut order: Vec<usize> = Vec::new();
        let mut i: usize = 0;
        while i < n
            invariant
                n == values.len(),
                i <= n,
                spec_list@.len() == n,
                forall|j: int| 0 <= j < n ==> spec_list@[j] as int == specs[j],
                order@.len() == i,
                order@.map_values(|x: usize| x as int) == cascade_order(specs, i as nat),
                forall|q: int| 0 <= q < order@.len() ==> order@[q] < i,
            decreases n - i,
        {
            let ghost before = order@.map_values(|x: usize| x as int);
            let mut p: usize = 0;
            while p < order.len() && (spec_list[order[p]] > spec_list[i] || (spec_list[order[p]] == spec_list[i]
                && order[p] > i))
                invariant
                    p <= order@.len(),
                    order@.len() == i,
                    i < n,
                    spec_list@.len() == n,
                    forall|j: int| 0 <= j < n ==> spec_list@[j] as int == specs[j],
                    forall|q: int| 0 <= q < order@.len() ==> order@[q] < i,
                    before == order@.map_values(|x: usize| x as int),
                    forall|q: int| 0 <= q < p ==> precedes(specs, #[trigger] before[q], i as int),
                decreases order@.len() - p,
            {
                p = p + 1;
            }
            proof {
                lemma_insert_at(before, i as int, specs, p as int);
            }
            order.insert(p, i);
            proof {
                assert(order@.map_values(|x: usize| x as int) =~= before.insert(p as int, i as int));
            }
            i = i + 1;
        }
        let mut cascaded = CascadedStyle::new();
        let mut k: usize = 0;
        let ghost full = order@.map_values(|x: usize| x as int);
        while k < n
            invariant
                n == values.len(),
                values == self.values@,
                order@.len() == n,
                full == order@.map_values(|x: usize| x as int),
                full == cascade_order(specs, n as nat),
                forall|q: int| 0 <= q < n ==> order@[q] < n,
                k <= n,
                cascaded_entries(cascaded.values) == cascade_in(blocks(values), full.take(k as int)),
            decreases n - k,
        {
            let b = order[k];
            let block = &self.values[b].1;
            let ghost start = cascaded_entries(cascaded.values);
            let mut d: usize = 0;
            while d < block.len()
                invariant
                    block@ == values[b as int].1@,
                    d <= block@.len(),
                    cascaded_entries(cascaded.values) == add_declarations(start, declarations_view(block@).take(d as int)),
                decreases block.len() - d,
            {
                let ghost decls = declarations_view(block@);
                assert(decls.take(d + 1).drop_last() =~= decls.take(d as int));
                assert(decls.take(d + 1).last() == declaration_view(block@[d as int]));
                cascaded.add(block[d].name.as_str(), block[d].value.as_slice());
                d = d + 1;
            }
            proof {
                assert(declarations_view(block@).take(block@.len() as int) =~= declarations_view(block@));
                assert(full.take(k + 1).drop_last() =~= full.take(k as int));
                assert(full.take(k + 1).last() == b as int);
                assert(blocks(values)[b as int] == declarations_view(block@));
            }
            k = k + 1;
        }
        assert(full.take(n as int) =~= full);
        cascaded
    }
}

/// A declared value as a mathematical value: the selector and its declaration block.
pub open spec fn declared_view(values: Seq<(Selector, Vec<Declaration>)>) -> Seq<(SelectorModel, Seq<DeclarationModel>)> {
    values.map_values(|p: (Selector, Vec<Declaration>)| (selector_view(p.0), declarations_view(p.1@)))
}

/// What a rule declares for node `x` of `t`: its block, once for each of its selectors
/// that matches the node.
pub open spec fn rule_declared(t: Seq<DomNode>, x: int, r: Rule) -> Seq<(SelectorModel, Seq<DeclarationModel>)> {
    match r {
        Rule::QualifiedRule(q) => matched_selectors(t, q.selectors@, x).map_values(
            |s: SelectorModel| (s, declarations_view(q.declarations@)),
        ),
        Rule::AtRule(_) => Seq::empty(),
    }
}

/// What the rules declare for node `x`, in their order.
pub open spec fn rules_declared(t: Seq<DomNode>, x: int, rules: Seq<Rule>) -> Seq<(SelectorModel, Seq<DeclarationModel>)>
    decreases rules.len(),
{
    if rules.len() == 0 {
        Seq::empty()
    } else {
        rules_declared(t, x, rules.drop_last()) + rule_declared(t, x, rules.last())
    }
}

/// What the style sheets declare for node `x`, as if they were one sheet in their order.
pub open spec fn sheets_declared(t: Seq<DomNode>, x: int, sheets: Seq<StyleSheet>) -> Seq<(SelectorModel, Seq<DeclarationModel>)>
    decreases sheets.len(),
{
    if sheets.len() == 0 {
        Seq::empty()
    } else {
        sheets_declared(t, x, sheets.drop_last()) + rules_declared(t, x, sheets.last().rules@)
    }
}

/// Every selector of every style rule of the sheets can be matched against node `x`.
pub open spec fn sheets_selectable(t: Seq<DomNode>, x: int, sheets: Seq<StyleSheet>) -> bool {
    forall|i: int, k: int|
        0 <= i < sheets.len() && 0 <= k < sheets[i].rules@.len() ==> (#[trigger] sheets[i].rules@[k] matches Rule::QualifiedRule(
            q,
        ) ==> all_selectable(t, q.selectors@, x))
}

/// Returns the declared values of the node: the blocks of the rules whose selectors
/// match it, once for each matching selector, in the order of the style sheets.
/// https://www.w3.org/TR/css-cascade-3/#filtering
pub fn apply_filtering(nodes: &Vec<DomNode>, node: usize, style_sheets: &[StyleSheet]) -> (d: DeclaredStyle)
    requires
        well_linked(nodes@),
        node < nodes@.len(),
        sheets_selectable(nodes@, node as int, style_sheets@),
    ensures
        declared_view(d.values@) == sheets_declared(nodes@, node as int, style_sheets@),
{
    let ghost t = nodes@;
    let ghost sheets = style_sheets@;
    let mut declared = DeclaredStyle::new();
    let mut si: usize = 0;
    assert(declared_view(declared.values@) =~= Seq::<(SelectorModel, Seq<DeclarationModel>)>::empty());
    while si < style_sheets.len()
        invariant
            t == nodes@,
            sheets == style_sheets@,
            well_linked(t),
            node < t.len(),
            sheets_selectable(t, node as int, sheets),
            si <= sheets.len(),
            declared_view(declared.values@) == sheets_declared(t, node as int, sheets.take(si as int)),
        decreases style_sheets.len() - si,
    {
        let rules = &style_sheets[si].rules;
        let ghost before_sheet = declared_view(declared.values@);
        let mut ri: usize = 0;
        assert(before_sheet + rules_declared(t, node as int, rules@.take(0)) =~= before_sheet);
        while ri < rules.len()
            invariant
                t == nodes@,
                well_linked(t),
                node < t.len(),
                rules@ == sheets[si as int].rules@,
                si < sheets.len(),
                sheets_selectable(t, node as int, sheets),
                ri <= rules@.len(),
                declared_view(declared.values@) == before_sheet + rules_declared(t, node as int, rules@.take(ri as int)),
            decreases rules.len() - ri,
        {
            let rule = &rules[ri];
            assert(sheets[si as int].rules@[ri as int] == rule);
            let ghost before_rule = declared_view(declared.values@);
            let ghost added = rule_declared(t, node as int, *rule);
            proof {
                assert(rules@.take(ri + 1).drop_last() =~= rules@.take(ri as int));
                assert(rules@.take(ri + 1).last() == *rule);
            }
            match rule.get_matched_selectors(nodes, node) {
                Some(sels) => {
                    if let Rule::QualifiedRule(q) = rule {
                        let mut k: usize = 0;
                        assert(added =~= selectors_view(sels@).map_values(
                            |s: SelectorModel| (s, declarations_view(q.declarations@)),
                        ));
                        while k < sels.len()
                            invariant
                                k <= sels@.len(),
                                added == selectors_view(sels@).map_values(
                                    |s: SelectorModel| (s, declarations_view(q.declarations@)),
                                ),
                                declared_view(declared.values@) == before_rule + added.take(k as int),
                            decreases sels.len() - k,
                        {
                            let ghost prev = declared.values@;
                            let sel = sels[k].copy();
                            declared.add(sel, q.declarations.as_slice());
                            proof {
                                assert(declared.values@ =~= prev.push(declared.values@.last()));
                                assert(declared_view(declared.values@) =~= declared_view(prev).push(
                                    (selector_view(sels@[k as int]), declarations_view(q.declarations@)),
                                ));
                                assert(added.take(k + 1) =~= added.take(k as int).push(added[k as int]));
                            }
                            k = k + 1;
                        }
                        assert(added.take(sels@.len() as int) =~= added);
                    }
                },
                None => {
                    assert(added =~= Seq::<(SelectorModel, Seq<DeclarationModel>)>::empty());
                    assert(declared_view(declared.values@) =~= before_rule + added);
                },
            }
            assert(declared_view(declared.values@) =~= before_sheet + rules_declared(t, node as int, rules@.take(ri + 1)));
            ri = ri + 1;
        }
        proof {
            assert(rules@.take(rules@.len() as int) =~= rules@);
            assert(sheets.take(si + 1).drop_last() =~= sheets.take(si as int));
            assert(sheets.take(si + 1).last() == sheets[si as int]);
        }
        si = si + 1;
    }
    assert(sheets.take(sheets.len() as int) =~= sheets);
    declared
}

/// The value of the first entry named `name`, if there is one.
pub open spec fn lookup(entries: Seq<(Seq<char>, Seq<ComponentValueModel>)>, name: Seq<char>) -> Option<Seq<ComponentValueModel>>
    decreases entries.len(),
{
    if entries.len() == 0 {
        None
    } else {
        match lookup(entries.drop_last(), name) {
            Some(v) => Some(v),
            None => if entries.last().0 == name {
                Some(entries.last().1)
            } else {
                None
            },
        }
    }
}

/// The value of the first declaration named `name` in a block, if there is one.
pub open spec fn first_value(decls: Seq<DeclarationModel>, name: Seq<char>) -> Option<Seq<ComponentValueModel>>
    decreases decls.len(),
{
    if decls.len() == 0 {
        None
    } else {
        match first_value(decls.drop_last(), name) {
            Some(v) => Some(v),
            None => if decls.last().name == name {
                Some(decls.last().value)
            } else {
                None
            },
        }
    }
}

/// The value of `name` in the first block, taken in `order`, that declares it.
pub open spec fn first_in_order(blocks: Seq<Seq<DeclarationModel>>, order: Seq<int>, name: Seq<char>) -> Option<Seq<ComponentValueModel>>
    decreases order.len(),
{
    if order.len() == 0 {
        None
    } else {
        match first_in_order(blocks, order.drop_last(), name) {
            Some(v) => Some(v),
            None => first_value(blocks[order.last()], name),
        }
    }
}

/// The order is by precedence, highest first.
pub open spec fn by_precedence(order: Seq<int>, specs: Seq<int>) -> bool {
    forall|p: int, q: int| 0 <= p < q < order.len() ==> precedes(specs, #[trigger] order[p], #[trigger] order[q])
}

proof fn lemma_lookup_has_name(entries: Seq<(Seq<char>, Seq<ComponentValueModel>)>, name: Seq<char>)
    ensures
        lookup(entries, name) is Some <==> has_name(entries, name),
    decreases entries.len(),
{
    if entries.len() > 0 {
        let init = entries.drop_last();
        lemma_lookup_has_name(init, name);
        if has_name(init, name) {
            let k = choose|k: int| 0 <= k < init.len() && (#[trigger] init[k]).0 == name;
            assert(entries[k] == init[k]);
        }
        if has_name(entries, name) {
            let k = choose|k: int| 0 <= k < entries.len() && (#[trigger] entries[k]).0 == name;
            if k < entries.len() - 1 {
                assert(init[k] == entries[k]);
            }
        }
        if entries.last().0 == name {
            assert(entries[entries.len() - 1].0 == name);
        }
    }
}

proof fn lemma_add_lookup(entries: Seq<(Seq<char>, Seq<ComponentValueModel>)>, decls: Seq<DeclarationModel>, name: Seq<char>)
    ensures
        lookup(add_declarations(entries, decls), name) == match lookup(entries, name) {
            Some(v) => Some(v),
            None => first_value(decls, name),
        },
    decreases decls.len(),
{
    if decls.len() > 0 {
        let before = add_declarations(entries, decls.drop_last());
        lemma_add_lookup(entries, decls.drop_last(), name);
        lemma_lookup_has_name(before, decls.last().name);
        let after = add_declarations(entries, decls);
        if !has_name(before, decls.last().name) {
            assert(after.drop_last() == before);
        }
    }
}

proof fn lemma_cascade_lookup(blocks: Seq<Seq<DeclarationModel>>, order: Seq<int>, name: Seq<char>)
    ensures
        lookup(cascade_in(blocks, order), name) == first_in_order(blocks, order, name),
    decreases order.len(),
{
    if order.len() > 0 {
        lemma_cascade_lookup(blocks, order.drop_last(), name);
        lemma_add_lookup(cascade_in(blocks, order.drop_last()), blocks[order.last()], name);
    }
}

/// A block declares `name` exactly when it gives it a first value.
proof fn lemma_first_value_declares(decls: Seq<DeclarationModel>, name: Seq<char>)
    ensures
        first_value(decls, name) is Some <==> exists|j: int| 0 <= j < decls.len() && (#[trigger] decls[j]).name == name,
    decreases decls.len(),
{
    if decls.len() > 0 {
        let init = decls.drop_last();
        lemma_first_value_declares(init, name);
        if exists|j: int| 0 <= j < init.len() && (#[trigger] init[j]).name == name {
            let j = choose|j: int| 0 <= j < init.len() && (#[trigger] init[j]).name == name;
            assert(decls[j] == init[j]);
        }
        if exists|j: int| 0 <= j < decls.len() && (#[trigger] decls[j]).name == name {
            let j = choose|j: int| 0 <= j < decls.len() && (#[trigger] decls[j]).name == name;
            if j < decls.len() - 1 {
                assert(init[j] == decls[j]);
            }
        }
        if decls.last().name == name {
            assert(decls[decls.len() - 1].name == name);
        }
    }
}

/// Where no block before position `p` of the order declares `name` and the block at `p`
/// does, the first value in order is the one at `p`.
proof fn lemma_first_in_order_at(blocks: Seq<Seq<DeclarationModel>>, order: Seq<int>, name: Seq<char>, p: int)
    requires
        0 <= p < order.len(),
        forall|q: int| 0 <= q < p ==> first_value(blocks[#[trigger] order[q]], name) is None,
        first_value(blocks[order[p]], name) is Some,
    ensures
        first_in_order(blocks, order, name) == first_value(blocks[order[p]], name),
    decreases order.len(),
{
    let init = order.drop_last();
    if p < order.len() - 1 {
        assert forall|q: int| 0 <= q < p implies first_value(blocks[#[trigger] init[q]], name) is None by {
            assert(init[q] == order[q]);
        }
        assert(init[p] == order[p]);
        lemma_first_in_order_at(blocks, init, name, p);
    } else {
        lemma_first_in_order_none(blocks, init, name);
    }
}

/// No block of the order declares `name`: there is no first value.
proof fn lemma_first_in_order_none(blocks: Seq<Seq<DeclarationModel>>, order: Seq<int>, name: Seq<char>)
    requires
        forall|q: int| 0 <= q < order.len() ==> first_value(blocks[#[trigger] order[q]], name) is None,
    ensures
        first_in_order(blocks, order, name) is None,
    decreases order.len(),
{
    if order.len() > 0 {
        let init = order.drop_last();
        assert forall|q: int| 0 <= q < init.len() implies first_value(blocks[#[trigger] init[q]], name) is None by {
            assert(init[q] == order[q]);
        }
        lemma_first_in_order_none(blocks, init, name);
        assert(order.last() == order[order.len() - 1]);
    }
}

/// Inserting a block with a later index than every block of a sorted order keeps the
/// order sorted and adds just that block.
proof fn lemma_insert_sorted(order: Seq<int>, i: int, specs: Seq<int>)
    requires
        by_precedence(order, specs),
        forall|q: int| 0 <= q < order.len() ==> 0 <= #[trigger] order[q] < i,
    ensures
        by_precedence(insert_in_order(order, i, specs), specs),
        insert_in_order(order, i, specs).len() == order.len() + 1,
        forall|x: int| #[trigger] insert_in_order(order, i, specs).contains(x) <==> (x == i || order.contains(x)),
    decreases order.len(),
{
    let r = insert_in_order(order, i, specs);
    if order.len() == 0 {
        assert(r =~= seq![i]);
        assert forall|x: int| r.contains(x) <==> (x == i || order.contains(x)) by {
            if x == i {
                assert(r[0] == i);
            }
        }
    } else if precedes(specs, order[0], i) {
        let rest = order.drop_first();
        assert forall|p: int, q: int| 0 <= p < q < rest.len() implies precedes(specs, #[trigger] rest[p], #[trigger] rest[q]) by {
            assert(rest[p] == order[p + 1] && rest[q] == order[q + 1]);
        }
        assert forall|q: int| 0 <= q < rest.len() implies 0 <= #[trigger] rest[q] < i by {
            assert(rest[q] == order[q + 1]);
        }
        lemma_insert_sorted(rest, i, specs);
        let tail = insert_in_order(rest, i, specs);
        assert(r == seq![order[0]] + tail);
        assert forall|x: int| tail.contains(x) implies precedes(specs, order[0], x) by {
            if x != i {
                assert(rest.contains(x));
                let q = choose|q: int| 0 <= q < rest.len() && rest[q] == x;
                assert(order[q + 1] == x);
                assert(precedes(specs, order[0], order[q + 1]));
            }
        }
        assert forall|p: int, q: int| 0 <= p < q < r.len() implies precedes(specs, #[trigger] r[p], #[trigger] r[q]) by {
            if p == 0 {
                assert(r[q] == tail[q - 1]);
                assert(tail.contains(tail[q - 1]));
            } else {
                assert(r[p] == tail[p - 1] && r[q] == tail[q - 1]);
            }
        }
        assert forall|x: int| r.contains(x) <==> (x == i || order.contains(x)) by {
            if r.contains(x) {
                let k = choose|k: int| 0 <= k < r.len() && r[k] == x;
                if k > 0 {
                    assert(tail[k - 1] == x);
                    assert(tail.contains(x));
                    if x != i {
                        assert(x == i || rest.contains(x));
                        assert(rest.contains(x));
                        let q = choose|q: int| 0 <= q < rest.len() && rest[q] == x;
                        assert(order[q + 1] == x);
                    }
                } else {
                    assert(order[0] == x);
                }
            }
            if x == i {
                assert(tail.contains(i));
                let k = choose|k: int| 0 <= k < tail.len() && tail[k] == i;
                assert(r[k + 1] == i);
            }
            if order.contains(x) {
                let q = choose|q: int| 0 <= q < order.len() && order[q] == x;
                if q == 0 {
                    assert(r[0] == x);
                } else {
                    assert(rest[q - 1] == x);
                    assert(rest.contains(x));
                    assert(tail.contains(x));
                    let k = choose|k: int| 0 <= k < tail.len() && tail[k] == x;
                    assert(r[k + 1] == x);
                }
            }
        }
    } else {
        assert(r == seq![i] + order);
        assert forall|p: int, q: int| 0 <= p < q < r.len() implies precedes(specs, #[trigger] r[p], #[trigger] r[q]) by {
            if p == 0 {
                assert(r[q] == order[q - 1]);
                if q - 1 > 0 {
                    assert(precedes(specs, order[0], order[q - 1]));
                }
            } else {
                assert(r[p] == order[p - 1] && r[q] == order[q - 1]);
            }
        }
        assert forall|x: int| r.contains(x) <==> (x == i || order.contains(x)) by {
            if r.contains(x) {
                let k = choose|k: int| 0 <= k < r.len() && r[k] == x;
                if k > 0 {
                    assert(order[k - 1] == x);
                }
            }
            if x == i {
                assert(r[0] == i);
            }
            if order.contains(x) {
                let q = choose|q: int| 0 <= q < order.len() && order[q] == x;
                assert(r[q + 1] == x);
            }
        }
    }
}

/// The order of the cascade holds each of the blocks `0..n` and is by precedence,
/// highest first.
pub proof fn lemma_cascade_order(specs: Seq<int>, n: nat)
    ensures
        cascade_order(specs, n).len() == n,
        forall|x: int| #[trigger] cascade_order(specs, n).contains(x) <==> 0 <= x < n,
        by_precedence(cascade_order(specs, n), specs),
    decreases n,
{
    if n > 0 {
        let prev = cascade_order(specs, (n - 1) as nat);
        lemma_cascade_order(specs, (n - 1) as nat);
        assert forall|q: int| 0 <= q < prev.len() implies 0 <= #[trigger] prev[q] < n - 1 by {
            assert(prev.contains(prev[q]));
        }
        lemma_insert_sorted(prev, n - 1, specs);
        let r = cascade_order(specs, n);
        assert forall|x: int| r.contains(x) <==> 0 <= x < n by {
            assert(r.contains(x) <==> (x == n - 1 || prev.contains(x)));
            assert(prev.contains(x) <==> 0 <= x < n - 1);
        }
    }
}

/// The block declares a property named `name`.
pub open spec fn declares(block: Seq<DeclarationModel>, name: Seq<char>) -> bool {
    exists|j: int| 0 <= j < block.len() && (#[trigger] block[j]).name == name
}

/// The cascade: the block that declares a property and takes precedence over every
/// other block that declares it (the more specific selector wins, and among equally
/// specific ones the later block) gives the property its cascaded value, the value of
/// its first declaration of the property.
pub proof fn lemma_cascade_winner(values: Seq<(Selector, Vec<Declaration>)>, name: Seq<char>, w: int)
    requires
        0 <= w < values.len(),
        declares(blocks(values)[w], name),
        forall|i: int|
            0 <= i < values.len() && i != w && declares(#[trigger] blocks(values)[i], name) ==> precedes(
                specificities(values),
                w,
                i,
            ),
    ensures
        lookup(cascade_of(values), name) == first_value(blocks(values)[w], name),
        first_value(blocks(values)[w], name) is Some,
{
    let specs = specificities(values);
    let bs = blocks(values);
    let n = values.len();
    let order = cascade_order(specs, n);
    lemma_cascade_order(specs, n);
    lemma_cascade_lookup(bs, order, name);
    lemma_first_value_declares(bs[w], name);
    assert(order.contains(w));
    let p = choose|p: int| 0 <= p < order.len() && order[p] == w;
    assert forall|q: int| 0 <= q < p implies first_value(bs[#[trigger] order[q]], name) is None by {
        assert(precedes(specs, order[q], order[p]));
        assert(order.contains(order[q]));
        lemma_first_value_declares(bs[order[q]], name);
        if first_value(bs[order[q]], name) is Some {
            assert(declares(bs[order[q]], name));
            assert(precedes(specs, w, order[q]));
        }
    }
    lemma_first_in_order_at(bs, order, name, p);
}

/// A property that no block declares has no cascaded value.
pub proof fn lemma_cascade_undeclared(values: Seq<(Selector, Vec<Declaration>)>, name: Seq<char>)
    requires
        forall|i: int| 0 <= i < values.len() ==> !declares(#[trigger] blocks(values)[i], name),
    ensures
        lookup(cascade_of(values), name) is None,
{
    let specs = specificities(values);
    let bs = blocks(values);
    let order = cascade_order(specs, values.len());
    lemma_cascade_order(specs, values.len());
    lemma_cascade_lookup(bs, order, name);
    assert forall|q: int| 0 <= q < order.len() implies first_value(bs[#[trigger] order[q]], name) is None by {
        assert(order.contains(order[q]));
        lemma_first_value_declares(bs[order[q]], name);
    }
    lemma_first_in_order_none(bs, order, name);
}

/// No two entries have the same name.
pub open spec fn names_unique(entries: Seq<(Seq<char>, Seq<ComponentValueModel>)>) -> bool {
    forall|p: int, q: int| 0 <= p < q < entries.len() ==> (#[trigger] entries[p]).0 != (#[trigger] entries[q]).0
}

proof fn lemma_add_keeps_unique(entries: Seq<(Seq<char>, Seq<ComponentValueModel>)>, decls: Seq<DeclarationModel>)
    requires
        names_unique(entries),
    ensures
        names_unique(add_declarations(entries, decls)),
    decreases decls.len(),
{
    if decls.len() > 0 {
        let before = add_declarations(entries, decls.drop_last());
        lemma_add_keeps_unique(entries, decls.drop_last());
        let name = decls.last().name;
        if !has_name(before, name) {
            let after = before.push((name, decls.last().value));
            assert forall|p: int, q: int| 0 <= p < q < after.len() implies (#[trigger] after[p]).0 != (
            #[trigger] after[q]).0 by {
                if q == before.len() {
                    assert(after[p] == before[p]);
                } else {
                    assert(after[p] == before[p] && after[q] == before[q]);
                }
            }
        }
    }
}

proof fn lemma_cascade_in_unique(blocks: Seq<Seq<DeclarationModel>>, order: Seq<int>)
    ensures
        names_unique(cascade_in(blocks, order)),
    decreases order.len(),
{
    if order.len() > 0 {
        lemma_cascade_in_unique(blocks, order.drop_last());
        lemma_add_keeps_unique(cascade_in(blocks, order.drop_last()), blocks[order.last()]);
    }
}

/// There is at most one cascaded value per property.
pub proof fn lemma_cascade_one_value(values: Seq<(Selector, Vec<Declaration>)>)
    ensures
        names_unique(cascade_of(values)),
{
    lemma_cascade_in_unique(blocks(values), cascade_order(specificities(values), values.len()));
}

} // verus!
