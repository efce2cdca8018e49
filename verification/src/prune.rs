//! Dropping the definitions that the chosen operation does not need.
use vstd::prelude::*;
use crate::ast::{definitions_model, Definition, Document, SpecDefinition, SpecDocument};
use crate::reach::{
    collect_transitive, graph_view, is_spread_path, lemma_reach_roots_take,
    reachable, SpecGraph,
};
use crate::spreads::{
    collect_spread_names, name_of, operation_key, operation_selections, selection_set_of,
    spread_names, str_views,
};
use crate::text::{contains_name, str_eq};

verus! {

/// The spread graph of a document: each fragment definition's name and the
/// names it spreads, in document order.
pub open spec fn fragment_graph(defs: Seq<SpecDefinition>) -> SpecGraph
    decreases defs.len(),
{
    if defs.len() == 0 {
        Seq::empty()
    } else {
        let rest = fragment_graph(defs.drop_last());
        match defs.last() {
            SpecDefinition::Fragment(f) => rest.push((f.name, spread_names(f.selection_set))),
            SpecDefinition::Operation(_) => rest,
        }
    }
}

/// Whether `d` is an operation whose name key is `name`.
pub open spec fn is_operation_named(d: SpecDefinition, name: Seq<char>) -> bool {
    match d {
        SpecDefinition::Operation(op) => operation_key(op) == name,
        SpecDefinition::Fragment(_) => false,
    }
}

/// The index of the operation that `name` selects: the last operation whose
/// name key is `name`.
pub open spec fn chosen_operation(defs: Seq<SpecDefinition>, name: Seq<char>) -> Option<int>
    decreases defs.len(),
{
    if defs.len() == 0 {
        None
    } else if is_operation_named(defs.last(), name) {
        Some(defs.len() - 1)
    } else {
        chosen_operation(defs.drop_last(), name)
    }
}

/// The fragment names that definition `c`, an operation, spreads directly.
pub open spec fn operation_spreads(defs: Seq<SpecDefinition>, c: int) -> Seq<Seq<char>> {
    match defs[c] {
        SpecDefinition::Operation(op) => spread_names(operation_selections(op)),
        SpecDefinition::Fragment(_) => Seq::empty(),
    }
}

/// Whether definition `i` is kept when the operation at `c` is chosen: it is
/// that operation, or a fragment whose name the operation reaches.
pub open spec fn is_kept(defs: Seq<SpecDefinition>, c: int, i: int) -> bool {
    ||| i == c
    ||| match defs[i] {
        SpecDefinition::Fragment(f) => reachable(
            fragment_graph(defs),
            operation_spreads(defs, c),
            f.name,
        ),
        SpecDefinition::Operation(_) => false,
    }
}

/// The kept definitions among the first `n`, in document order.
pub open spec fn kept_prefix(defs: Seq<SpecDefinition>, c: int, n: int) -> Seq<SpecDefinition>
    decreases n,
{
    if n <= 0 {
        Seq::empty()
    } else {
        let rest = kept_prefix(defs, c, n - 1);
        if is_kept(defs, c, n - 1) {
            rest.push(defs[n - 1])
        } else {
            rest
        }
    }
}

/// The document pruned to the operation `name` and the fragments it
/// reaches; the document itself when no operation has that name.
pub open spec fn pruned(doc: SpecDocument, name: Seq<char>) -> SpecDocument {
    match chosen_operation(doc.definitions, name) {
        None => doc,
        Some(c) => SpecDocument { definitions: kept_prefix(doc.definitions, c, doc.definitions.len() as int) },
    }
}

pub proof fn lemma_fragment_graph_take(defs: Seq<SpecDefinition>, i: int)
    requires
        0 <= i < defs.len(),
    ensures
        fragment_graph(defs.take(i + 1)) == match defs[i] {
            SpecDefinition::Fragment(f) => fragment_graph(defs.take(i)).push(
                (f.name, spread_names(f.selection_set)),
            ),
            SpecDefinition::Operation(_) => fragment_graph(defs.take(i)),
        },
{
    assert(defs.take(i + 1).drop_last() =~= defs.take(i));
}

proof fn lemma_chosen_take(defs: Seq<SpecDefinition>, name: Seq<char>, i: int)
    requires
        0 <= i < defs.len(),
    ensures
        chosen_operation(defs.take(i + 1), name) == if is_operation_named(defs[i], name) {
            Some(i)
        } else {
            chosen_operation(defs.take(i), name)
        },
{
    assert(defs.take(i + 1).drop_last() =~= defs.take(i));
}

pub proof fn lemma_chosen_bounds(defs: Seq<SpecDefinition>, name: Seq<char>)
    ensures
        chosen_operation(defs, name) matches Some(c) ==> 0 <= c < defs.len() && is_operation_named(
            defs[c],
            name,
        ),
    decreases defs.len(),
{
    if defs.len() > 0 {
        lemma_chosen_bounds(defs.drop_last(), name);
    }
}

/// Build the pruned document for one operation name, or `None` if absent.
///
/// Scanning operations in order and overwriting the chosen node makes the
/// last operation with a given name win.
fn separate(ast: &Document, operation_name: &str) -> (r: Option<Document>)
    ensures
        match chosen_operation(ast@.definitions, operation_name@) {
            None => r is None,
            Some(c) => r matches Some(d) && d@.definitions == kept_prefix(
                ast@.definitions,
                c,
                ast@.definitions.len() as int,
            ),
        },
{
    let ghost defs = ast@.definitions;
    let n = ast.definitions.len();

    // Fragment name to the spread names it contains, at any depth.
    let mut dep_graph: Vec<(&str, Vec<&str>)> = Vec::new();
    let mut i: usize = 0;
    while i < n
        invariant
            n == ast.definitions.len(),
            defs == ast@.definitions,
            0 <= i <= n,
            graph_view(dep_graph@) == fragment_graph(defs.take(i as int)),
        decreases n - i,
    {
        proof {
            lemma_fragment_graph_take(defs, i as int);
        }
        assert(defs[i as int] == ast.definitions[i as int]@);
        if let Definition::Fragment(fragment) = &ast.definitions[i] {
            let ghost before = dep_graph@;
            let spreads = collect_spread_names(&fragment.selection_set);
            dep_graph.push((fragment.name.as_str(), spreads));
            assert(graph_view(dep_graph@) =~= graph_view(before).push(
                (fragment.name@, spread_names(fragment.selection_set@)),
            ));
        }
        i = i + 1;
    }
    assert(defs.take(n as int) =~= defs);
    let ghost g = graph_view(dep_graph@);
    assert(g == fragment_graph(defs));

    // Walk operations in order; a later operation with the same name
    // overwrites the earlier choice.
    let mut chosen: Option<(usize, &Definition)> = None;
    i = 0;
    while i < n
        invariant
            n == ast.definitions.len(),
            defs == ast@.definitions,
            0 <= i <= n,
            match chosen {
                None => chosen_operation(defs.take(i as int), operation_name@) is None,
                Some((c, d)) => chosen_operation(defs.take(i as int), operation_name@) == Some(
                    c as int,
                ) && c < i && d@ == defs[c as int],
            },
        decreases n - i,
    {
        proof {
            lemma_chosen_take(defs, operation_name@, i as int);
        }
        let definition = &ast.definitions[i];
        assert(defs[i as int] == definition@);
        if let Definition::Operation(operation) = definition {
            if str_eq(name_of(operation), operation_name) {
                chosen = Some((i, definition));
            }
        }
        i = i + 1;
    }
    let (operation_index, chosen_definition) = match chosen {
        Some(x) => x,
        None => {
            return None;
        },
    };
    let ghost c = operation_index as int;
    proof {
        lemma_chosen_bounds(defs, operation_name@);
    }
    let operation = match chosen_definition {
        Definition::Operation(operation) => operation,
        Definition::Fragment(_) => {
            assert(false);
            return None;
        },
    };

    // Collect the transitive fragment closure reachable from this operation.
    let spreads = collect_spread_names(selection_set_of(operation));
    let ghost roots = str_views(spreads@);
    assert(roots == operation_spreads(defs, c));
    let mut dependencies: Vec<&str> = Vec::new();
    let mut k: usize = 0;
    proof {
        assert forall|m: Seq<char>| !reachable(g, roots.take(0), m) by {
            if reachable(g, roots.take(0), m) {
                let p = choose|p: Seq<Seq<char>>| #[trigger]
                    is_spread_path(g, roots.take(0), p) && p.last() == m;
                assert(roots.take(0).contains(p[0]));
            }
        }
    }
    while k < spreads.len()
        invariant
            0 <= k <= spreads.len(),
            roots == str_views(spreads@),
            g == graph_view(dep_graph@),
            str_views(dependencies@).no_duplicates(),
            forall|m: Seq<char>|
                #![trigger str_views(dependencies@).contains(m)]
                str_views(dependencies@).contains(m) <==> reachable(g, roots.take(k as int), m),
        decreases spreads.len() - k,
    {
        collect_transitive(&mut dependencies, &dep_graph, spreads[k]);
        assert(roots[k as int] == spreads@[k as int]@);
        assert forall|m: Seq<char>|
            #![trigger str_views(dependencies@).contains(m)]
            str_views(dependencies@).contains(m) <==> reachable(g, roots.take(k + 1), m) by {
            lemma_reach_roots_take(g, roots, k as int, m);
        }
        k = k + 1;
    }
    assert(roots.take(spreads.len() as int) =~= roots);

    // Keep the chosen operation node and every fragment in the closure, in
    // the original document order.
    let mut definitions: Vec<Definition> = Vec::new();
    i = 0;
    while i < n
        invariant
            n == ast.definitions.len(),
            defs == ast@.definitions,
            0 <= i <= n,
            0 <= c < n,
            c == operation_index,
            g == fragment_graph(defs),
            roots == operation_spreads(defs, c),
            forall|m: Seq<char>|
                #![trigger str_views(dependencies@).contains(m)]
                str_views(dependencies@).contains(m) <==> reachable(g, roots, m),
            definitions_model(definitions@) == kept_prefix(defs, c, i as int),
        decreases n - i,
    {
        let definition = &ast.definitions[i];
        assert(defs[i as int] == definition@);
        let keep = i == operation_index || match definition {
            Definition::Fragment(fragment) => contains_name(&dependencies, fragment.name.as_str()),
            Definition::Operation(_) => false,
        };
        assert(keep == is_kept(defs, c, i as int));
        let ghost before = definitions@;
        if keep {
            definitions.push(definition.duplicate());
            assert(definitions_model(definitions@) =~= definitions_model(before).push(defs[i as int]));
        }
        i = i + 1;
    }
    Some(Document { definitions })
}

/// Return a new document holding only `operation_name` and the fragments it
/// reaches.
///
/// The result keeps the operation whose name matches `operation_name` plus
/// every fragment reachable from it through fragment spreads, transitively
/// and at any depth. Other operations and unreachable fragments are dropped.
/// Definitions stay in their original order.
///
/// An anonymous operation (shorthand `{ ... }` or a bare `query { ... }`) is
/// keyed by the empty string, so pass `""` to select it.
///
/// If no operation matches `operation_name`, the input document is returned
/// unchanged. When two operations share a name, the later one in document
/// order wins.
pub fn drop_unused_definitions(ast: &Document, operation_name: &str) -> (r: Document)
    ensures
        r@ == pruned(ast@, operation_name@),
{
    match separate(ast, operation_name) {
        Some(doc) => doc,
        None => ast.duplicate(),
    }
}

} // verus!
