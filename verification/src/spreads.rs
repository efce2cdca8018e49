//! Fragment spreads in selection sets, and the name key of an operation.
use vstd::prelude::*;
use crate::ast::{opt_str_model, OperationDefinition, Selection, SelectionSet, SpecOperationDefinition, SpecSelection};

verus! {

/// The fragment names spread in a list of selections, depth first and in
/// encounter order, repeats included.
pub open spec fn spread_names(items: Seq<SpecSelection>) -> Seq<Seq<char>>
    decreases items,
{
    if items.len() == 0 {
        Seq::empty()
    } else {
        spread_names(items.drop_last()) + selection_spreads(items.last())
    }
}

/// The fragment names spread in one selection, depth first.
pub open spec fn selection_spreads(s: SpecSelection) -> Seq<Seq<char>>
    decreases s,
{
    match s {
        SpecSelection::FragmentSpread { fragment_name, .. } => seq![fragment_name],
        SpecSelection::Field { selection_set, .. } => spread_names(selection_set),
        SpecSelection::InlineFragment { selection_set, .. } => spread_names(selection_set),
    }
}

/// The views of a sequence of borrowed strings.
pub open spec fn str_views(v: Seq<&str>) -> Seq<Seq<char>> {
    v.map_values(|s: &str| s@)
}

/// The name key of an operation: its name, or the empty string when it has
/// none.
pub open spec fn operation_key(op: SpecOperationDefinition) -> Seq<char> {
    match op {
        SpecOperationDefinition::SelectionSet(_) => Seq::empty(),
        SpecOperationDefinition::Query(q) => name_key(q.name),
        SpecOperationDefinition::Mutation(m) => name_key(m.name),
        SpecOperationDefinition::Subscription(s) => name_key(s.name),
    }
}

pub open spec fn name_key(name: Option<Seq<char>>) -> Seq<char> {
    match name {
        Some(n) => n,
        None => Seq::empty(),
    }
}

/// The top level selection set of an operation.
pub open spec fn operation_selections(op: SpecOperationDefinition) -> Seq<SpecSelection> {
    match op {
        SpecOperationDefinition::SelectionSet(set) => set,
        SpecOperationDefinition::Query(q) => q.selection_set,
        SpecOperationDefinition::Mutation(m) => m.selection_set,
        SpecOperationDefinition::Subscription(s) => s.selection_set,
    }
}

proof fn lemma_spread_names_take(items: Seq<SpecSelection>, i: int)
    requires
        0 <= i < items.len(),
    ensures
        spread_names(items.take(i + 1)) == spread_names(items.take(i)) + selection_spreads(items[i]),
{
    assert(items.take(i + 1).drop_last() =~= items.take(i));
}

/// Whether selection `s` spreads fragment `n`: it is a spread of `n`
/// (whatever its directives), or a field or inline fragment whose own
/// selections spread `n` at some depth.
pub open spec fn spreads_fragment(s: SpecSelection, n: Seq<char>) -> bool {
    match s {
        SpecSelection::FragmentSpread { fragment_name, .. } => fragment_name == n,
        SpecSelection::Field { selection_set, .. } => spread_names(selection_set).contains(n),
        SpecSelection::InlineFragment { selection_set, .. } => spread_names(selection_set).contains(
            n,
        ),
    }
}

/// Law: a name is among the spread names of a list of selections exactly
/// when one of the selections spreads it: every `...Name` counts, whatever
/// directives it carries, and so does every spread nested under a field or
/// an inline fragment; no other name does.
pub proof fn law_spread_names_are_the_spreads(items: Seq<SpecSelection>, n: Seq<char>)
    ensures
        spread_names(items).contains(n) <==> exists|i: int|
            0 <= i < items.len() && #[trigger] spreads_fragment(items[i], n),
    decreases items.len(),
{
    if items.len() > 0 {
        let front = items.drop_last();
        let last = items.last();
        law_spread_names_are_the_spreads(front, n);
        let here = selection_spreads(last);
        assert(here.contains(n) <==> spreads_fragment(last, n)) by {
            match last {
                SpecSelection::FragmentSpread { fragment_name, .. } => {
                    if fragment_name == n {
                        assert(here[0] == n);
                    }
                },
                _ => {},
            }
        }
        if spread_names(items).contains(n) {
            let k = choose|k: int| 0 <= k < spread_names(items).len() && spread_names(items)[k] == n;
            if k < spread_names(front).len() {
                assert(spread_names(front)[k] == n);
                let i = choose|i: int| 0 <= i < front.len() && #[trigger] spreads_fragment(front[i], n);
                assert(items[i] == front[i]);
            } else {
                assert(here[k - spread_names(front).len()] == n);
                assert(spreads_fragment(items[items.len() - 1], n));
            }
        }
        if exists|i: int| 0 <= i < items.len() && #[trigger] spreads_fragment(items[i], n) {
            let i = choose|i: int| 0 <= i < items.len() && #[trigger] spreads_fragment(items[i], n);
            if i < items.len() - 1 {
                assert(front[i] == items[i]);
                let k = choose|k: int| 0 <= k < spread_names(front).len() && spread_names(front)[k] == n;
                assert(spread_names(items)[k] == n);
            } else {
                let k = choose|k: int| 0 <= k < here.len() && here[k] == n;
                assert(spread_names(items)[spread_names(front).len() + k] == n);
            }
        }
    }
}

/// Law: the name key of an operation of any kind is its name, and the
/// empty string when it has none (as for the shorthand form).
pub proof fn law_operation_key_is_name_or_empty(op: SpecOperationDefinition)
    ensures
        op is SelectionSet ==> operation_key(op) == Seq::<char>::empty(),
        op matches SpecOperationDefinition::Query(q) ==> operation_key(op) == (if q.name is Some {
            q.name->0
        } else {
            Seq::<char>::empty()
        }),
        op matches SpecOperationDefinition::Mutation(m) ==> operation_key(op) == (if m.name is Some {
            m.name->0
        } else {
            Seq::<char>::empty()
        }),
        op matches SpecOperationDefinition::Subscription(s) ==> operation_key(op) == (
        if s.name is Some {
            s.name->0
        } else {
            Seq::<char>::empty()
        }),
{
}

/// The empty string.
fn empty_str() -> (r: &'static str)
    ensures
        r@ == Seq::<char>::empty(),
{
    proof {
        reveal_strlit("");
    }
    ""
}

/// The name key of an operation. Anonymous operations key to the empty string.
pub fn name_of(operation: &OperationDefinition) -> (r: &str)
    ensures
        r@ == operation_key(operation@),
{
    match operation {
        OperationDefinition::SelectionSet(_) => empty_str(),
        OperationDefinition::Query(query) => optional_name(&query.name),
        OperationDefinition::Mutation(mutation) => optional_name(&mutation.name),
        OperationDefinition::Subscription(subscription) => optional_name(&subscription.name),
    }
}

fn optional_name(name: &Option<String>) -> (r: &str)
    ensures
        r@ == name_key(opt_str_model(*name)),
{
    match name {
        Some(n) => n.as_str(),
        None => empty_str(),
    }
}

/// The top level selection set of an operation.
pub fn selection_set_of(operation: &OperationDefinition) -> (r: &SelectionSet)
    ensures
        r@ == operation_selections(operation@),
{
    match operation {
        OperationDefinition::SelectionSet(set) => set,
        OperationDefinition::Query(query) => &query.selection_set,
        OperationDefinition::Mutation(mutation) => &mutation.selection_set,
        OperationDefinition::Subscription(subscription) => &subscription.selection_set,
    }
}

/// The names of every fragment spread in a selection set subtree, depth
/// first, in encounter order, with no deduplication.
pub fn collect_spread_names<'a>(selection_set: &'a SelectionSet) -> (names: Vec<&'a str>)
    ensures
        str_views(names@) == spread_names(selection_set@),
{
    let mut names = Vec::new();
    gather(selection_set, &mut names);
    assert(str_views(names@) =~= Seq::<Seq<char>>::empty() + spread_names(selection_set@));
    names
}

fn gather<'a>(selection_set: &'a SelectionSet, names: &mut Vec<&'a str>)
    ensures
        str_views(final(names)@) == str_views(old(names)@) + spread_names(selection_set@),
    decreases selection_set,
{
    let ghost items = selection_set@;
    let mut i: usize = 0;
    while i < selection_set.items.len()
        invariant
            0 <= i <= selection_set.items.len(),
            items == selection_set@,
            str_views(names@) == str_views(old(names)@) + spread_names(items.take(i as int)),
        decreases selection_set.items.len() - i,
    {
        let ghost before = str_views(names@);
        proof {
            lemma_spread_names_take(items, i as int);
        }
        let selection = &selection_set.items[i];
        assert(items[i as int] == selection@);
        match selection {
            Selection::FragmentSpread(spread) => {
                names.push(spread.fragment_name.as_str());
                assert(str_views(names@) =~= before + seq![spread.fragment_name@]);
            },
            Selection::Field(field) => {
                assert(decreases_to!(selection_set => field.selection_set)) by {
                    assert(decreases_to!(selection_set.items => selection_set.items[i as int]));
                };
                gather(&field.selection_set, names);
            },
            Selection::InlineFragment(inline) => {
                assert(decreases_to!(selection_set => inline.selection_set)) by {
                    assert(decreases_to!(selection_set.items => selection_set.items[i as int]));
                };
                gather(&inline.selection_set, names);
            },
        }
        assert(str_views(names@) =~= str_views(old(names)@) + spread_names(items.take(i + 1)));
        i = i + 1;
    }
    assert(items.take(items.len() as int) =~= items);
}

} // verus!
