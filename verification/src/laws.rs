//! What holds of `drop_unused_definitions` for every document and name.
use vstd::prelude::*;
use crate::ast::{SpecDefinition, SpecDocument};
use crate::prune::{
    chosen_operation, fragment_graph, is_kept, is_operation_named, kept_prefix,
    lemma_chosen_bounds, operation_spreads, pruned,
};
use crate::reach::{is_spread_path, lemma_reach_step, lemma_root_reachable, lookup_deps, reachable, SpecGraph};
use crate::spreads::{operation_selections, spread_names};
use crate::string_values::{definition_sorted, printable, variables_written};

verus! {

/// The positions of the kept definitions among the first `n`, ascending.
pub open spec fn kept_indices(defs: Seq<SpecDefinition>, c: int, n: int) -> Seq<int>
    decreases n,
{
    if n <= 0 {
        Seq::empty()
    } else {
        let rest = kept_indices(defs, c, n - 1);
        if is_kept(defs, c, n - 1) {
            rest.push(n - 1)
        } else {
            rest
        }
    }
}

/// `a` is `b` with some elements left out and the rest in their order.
pub open spec fn is_subsequence(a: Seq<SpecDefinition>, b: Seq<SpecDefinition>) -> bool {
    exists|idx: Seq<int>|
        {
            &&& idx.len() == a.len()
            &&& forall|j: int| 0 <= j < idx.len() ==> 0 <= #[trigger] idx[j] < b.len() && a[j] == b[idx[j]]
            &&& forall|j: int, k: int| 0 <= j < k < idx.len() ==> #[trigger] idx[j] < #[trigger] idx[k]
        }
}

proof fn lemma_kept_indices(defs: Seq<SpecDefinition>, c: int, n: int)
    requires
        0 <= n <= defs.len(),
    ensures
        kept_indices(defs, c, n).len() == kept_prefix(defs, c, n).len(),
        forall|j: int|
            0 <= j < kept_indices(defs, c, n).len() ==> {
                let i = #[trigger] kept_indices(defs, c, n)[j];
                &&& 0 <= i < n
                &&& kept_prefix(defs, c, n)[j] == defs[i]
                &&& is_kept(defs, c, i)
            },
        forall|j: int, k: int|
            0 <= j < k < kept_indices(defs, c, n).len() ==> #[trigger] kept_indices(defs, c, n)[j]
                < #[trigger] kept_indices(defs, c, n)[k],
        forall|i: int|
            0 <= i < n && #[trigger] is_kept(defs, c, i) ==> exists|j: int|
                0 <= j < kept_indices(defs, c, n).len() && #[trigger] kept_indices(defs, c, n)[j]
                    == i,
    decreases n,
{
    if n > 0 {
        lemma_kept_indices(defs, c, n - 1);
        let prev = kept_indices(defs, c, n - 1);
        let cur = kept_indices(defs, c, n);
        assert forall|i: int| 0 <= i < n && #[trigger] is_kept(defs, c, i) implies exists|j: int|
            0 <= j < cur.len() && #[trigger] cur[j] == i by {
            if i < n - 1 {
                let j = choose|j: int| 0 <= j < prev.len() && #[trigger] prev[j] == i;
                assert(cur[j] == i);
            } else {
                assert(cur[prev.len() as int] == i);
            }
        }
    }
}

proof fn lemma_chosen_none(defs: Seq<SpecDefinition>, name: Seq<char>)
    ensures
        chosen_operation(defs, name) is None <==> forall|i: int|
            0 <= i < defs.len() ==> !#[trigger] is_operation_named(defs[i], name),
    decreases defs.len(),
{
    if defs.len() > 0 {
        lemma_chosen_none(defs.drop_last(), name);
        if chosen_operation(defs, name) is None {
            assert forall|i: int| 0 <= i < defs.len() implies !#[trigger] is_operation_named(
                defs[i],
                name,
            ) by {
                if i < defs.len() - 1 {
                    assert(defs.drop_last()[i] == defs[i]);
                }
            }
        } else {
            lemma_chosen_bounds(defs, name);
        }
    }
}

/// The last operation named `name`: `chosen_operation` names a position
/// after which no operation has that name.
proof fn lemma_chosen_is_last(defs: Seq<SpecDefinition>, name: Seq<char>)
    ensures
        chosen_operation(defs, name) matches Some(c) ==> forall|i: int|
            c < i < defs.len() ==> !#[trigger] is_operation_named(defs[i], name),
    decreases defs.len(),
{
    if defs.len() > 0 {
        lemma_chosen_is_last(defs.drop_last(), name);
        lemma_chosen_bounds(defs.drop_last(), name);
        if let Some(c) = chosen_operation(defs, name) {
            if !is_operation_named(defs.last(), name) {
                assert forall|i: int| c < i < defs.len() implies !#[trigger] is_operation_named(
                    defs[i],
                    name,
                ) by {
                    if i < defs.len() - 1 {
                        assert(defs.drop_last()[i] == defs[i]);
                    }
                }
            }
        }
    }
}

/// Law: when no operation has the name, the whole document comes back
/// unchanged.
pub proof fn law_unknown_name_keeps_document(doc: SpecDocument, name: Seq<char>)
    requires
        forall|i: int|
            0 <= i < doc.definitions.len() ==> !#[trigger] is_operation_named(
                doc.definitions[i],
                name,
            ),
    ensures
        pruned(doc, name) == doc,
{
    lemma_chosen_none(doc.definitions, name);
}

/// Law: the result holds some of the input's definitions, unchanged and in
/// their original order.
pub proof fn law_result_keeps_document_order(doc: SpecDocument, name: Seq<char>)
    ensures
        is_subsequence(pruned(doc, name).definitions, doc.definitions),
{
    let defs = doc.definitions;
    match chosen_operation(defs, name) {
        None => {
            let idx = Seq::new(defs.len(), |j: int| j);
            assert(idx.len() == defs.len());
        },
        Some(c) => {
            lemma_kept_indices(defs, c, defs.len() as int);
            let idx = kept_indices(defs, c, defs.len() as int);
            assert(idx.len() == pruned(doc, name).definitions.len());
        },
    }
}

/// Law: when an operation has the name, the result holds exactly one
/// operation: the last one in the document with that name.
pub proof fn law_found_result_has_one_operation(doc: SpecDocument, name: Seq<char>)
    requires
        exists|i: int|
            0 <= i < doc.definitions.len() && #[trigger] is_operation_named(
                doc.definitions[i],
                name,
            ),
    ensures
        ({
            let out = pruned(doc, name).definitions;
            exists|j: int|
                {
                    &&& 0 <= j < out.len()
                    &&& is_operation_named(out[j], name)
                    &&& out[j] == doc.definitions[chosen_operation(doc.definitions, name)->0]
                    &&& forall|k: int|
                        0 <= k < out.len() && k != j ==> (#[trigger] out[k]) is Fragment
                }
        }),
        chosen_operation(doc.definitions, name) matches Some(c) && forall|i: int|
            c < i < doc.definitions.len() ==> !#[trigger] is_operation_named(doc.definitions[i], name),
{
    let defs = doc.definitions;
    lemma_chosen_none(defs, name);
    lemma_chosen_bounds(defs, name);
    lemma_chosen_is_last(defs, name);
    let c = chosen_operation(defs, name)->0;
    let n = defs.len() as int;
    lemma_kept_indices(defs, c, n);
    let idx = kept_indices(defs, c, n);
    let out = pruned(doc, name).definitions;
    assert(is_kept(defs, c, c));
    let j = choose|j: int| 0 <= j < idx.len() && #[trigger] idx[j] == c;
    assert forall|k: int| 0 <= k < out.len() && k != j implies (#[trigger] out[k]) is Fragment by {
        let i = idx[k];
        assert(is_kept(defs, c, i));
        if k < j {
            assert(idx[k] < idx[j]);
        } else {
            assert(idx[j] < idx[k]);
        }
    }
}

/// Law: a fragment definition of the input is in the result exactly when
/// its name is reachable from the chosen operation's spreads (fragments
/// that share a name are kept or dropped together, and a spread of an
/// undefined fragment adds nothing).
pub proof fn law_fragment_kept_iff_reachable(doc: SpecDocument, name: Seq<char>, i: int)
    requires
        0 <= i < doc.definitions.len(),
        doc.definitions[i] is Fragment,
        chosen_operation(doc.definitions, name) is Some,
    ensures
        pruned(doc, name).definitions.contains(doc.definitions[i]) <==> reachable(
            fragment_graph(doc.definitions),
            operation_spreads(doc.definitions, chosen_operation(doc.definitions, name)->0),
            doc.definitions[i]->Fragment_0.name,
        ),
{
    let defs = doc.definitions;
    let c = chosen_operation(defs, name)->0;
    let n = defs.len() as int;
    lemma_chosen_bounds(defs, name);
    lemma_kept_indices(defs, c, n);
    let idx = kept_indices(defs, c, n);
    let out = pruned(doc, name).definitions;
    if out.contains(defs[i]) {
        let j = choose|j: int| 0 <= j < out.len() && out[j] == defs[i];
        let k = idx[j];
        assert(is_kept(defs, c, k));
        assert(defs[k] == defs[i]);
    }
    if is_kept(defs, c, i) {
        let j = choose|j: int| 0 <= j < idx.len() && #[trigger] idx[j] == i;
        assert(out[j] == defs[i]);
    }
}

/// Whether `d` is a fragment definition named `n`.
pub open spec fn is_fragment_named(d: SpecDefinition, n: Seq<char>) -> bool {
    match d {
        SpecDefinition::Fragment(f) => f.name == n,
        SpecDefinition::Operation(_) => false,
    }
}

/// The names a definition adds to the spread graph: a fragment's spreads,
/// or none for an operation.
pub open spec fn definition_spreads(d: SpecDefinition) -> Seq<Seq<char>> {
    match d {
        SpecDefinition::Fragment(f) => crate::spreads::spread_names(f.selection_set),
        SpecDefinition::Operation(_) => Seq::empty(),
    }
}

proof fn lemma_graph_push(s: Seq<SpecDefinition>, d: SpecDefinition, n: Seq<char>)
    ensures
        is_fragment_named(d, n) ==> lookup_deps(fragment_graph(s.push(d)), n) == lookup_deps(
            fragment_graph(s),
            n,
        ) + definition_spreads(d),
        !is_fragment_named(d, n) ==> lookup_deps(fragment_graph(s.push(d)), n) == lookup_deps(
            fragment_graph(s),
            n,
        ),
{
    assert(s.push(d).drop_last() =~= s);
    let g = fragment_graph(s);
    match d {
        SpecDefinition::Fragment(f) => {
            let x = (f.name, crate::spreads::spread_names(f.selection_set));
            assert(g.push(x).drop_last() =~= g);
        },
        SpecDefinition::Operation(_) => {},
    }
}

/// In the kept definitions, a name whose every fragment is kept spreads
/// what it spreads in the whole document.
proof fn lemma_lookup_in_kept(defs: Seq<SpecDefinition>, c: int, k: int, n: Seq<char>)
    requires
        0 <= k <= defs.len(),
        forall|i: int|
            0 <= i < defs.len() && #[trigger] is_fragment_named(defs[i], n) ==> is_kept(defs, c, i),
    ensures
        lookup_deps(fragment_graph(kept_prefix(defs, c, k)), n) == lookup_deps(
            fragment_graph(defs.take(k)),
            n,
        ),
    decreases k,
{
    if k == 0 {
        assert(defs.take(0) =~= Seq::<SpecDefinition>::empty());
    } else {
        lemma_lookup_in_kept(defs, c, k - 1, n);
        let prev = kept_prefix(defs, c, k - 1);
        let d = defs[k - 1];
        assert(defs.take(k) =~= defs.take(k - 1).push(d));
        lemma_graph_push(defs.take(k - 1), d, n);
        if is_kept(defs, c, k - 1) {
            lemma_graph_push(prev, d, n);
        } else {
            assert(!is_fragment_named(d, n));
        }
    }
}

proof fn lemma_path_prefix(g: SpecGraph, roots: Seq<Seq<char>>, p: Seq<Seq<char>>, m: int)
    requires
        is_spread_path(g, roots, p),
        1 <= m <= p.len(),
    ensures
        is_spread_path(g, roots, p.take(m)),
{
    let q = p.take(m);
    assert forall|k: int| 0 <= k < q.len() - 1 implies #[trigger] lookup_deps(g, q[k]).contains(
        q[k + 1],
    ) by {
        assert(lookup_deps(g, p[k]).contains(p[k + 1]));
    }
}

proof fn lemma_path_transfer(
    gp: SpecGraph,
    gd: SpecGraph,
    roots: Seq<Seq<char>>,
    p: Seq<Seq<char>>,
    m: int,
)
    requires
        forall|x: Seq<char>| #[trigger] reachable(gd, roots, x) ==> lookup_deps(gp, x) == lookup_deps(gd, x),
        is_spread_path(gp, roots, p),
        1 <= m <= p.len(),
    ensures
        is_spread_path(gd, roots, p.take(m)),
    decreases m,
{
    if m > 1 {
        lemma_path_transfer(gp, gd, roots, p, m - 1);
        let q = p.take(m - 1);
        assert(q.last() == p[m - 2]);
        assert(reachable(gd, roots, p[m - 2]));
        let r = p.take(m);
        assert forall|k: int| 0 <= k < r.len() - 1 implies #[trigger] lookup_deps(gd, r[k]).contains(
            r[k + 1],
        ) by {
            if k < m - 2 {
                assert(lookup_deps(gd, q[k]).contains(q[k + 1]));
            } else {
                assert(lookup_deps(gp, p[k]).contains(p[k + 1]));
            }
        }
    } else {
        let r = p.take(1);
        assert(r[0] == p[0]);
    }
}

/// Two graphs that agree on every name reachable in the second reach the
/// same names.
proof fn lemma_reach_same(gp: SpecGraph, gd: SpecGraph, roots: Seq<Seq<char>>, n: Seq<char>)
    requires
        forall|x: Seq<char>| #[trigger] reachable(gd, roots, x) ==> lookup_deps(gp, x) == lookup_deps(gd, x),
    ensures
        reachable(gp, roots, n) <==> reachable(gd, roots, n),
{
    if reachable(gd, roots, n) {
        let p = choose|p: Seq<Seq<char>>| #[trigger] is_spread_path(gd, roots, p) && p.last() == n;
        assert forall|k: int| 0 <= k < p.len() - 1 implies #[trigger] lookup_deps(gp, p[k]).contains(
            p[k + 1],
        ) by {
            lemma_path_prefix(gd, roots, p, k + 1);
            assert(p.take(k + 1).last() == p[k]);
            assert(reachable(gd, roots, p[k]));
            assert(lookup_deps(gd, p[k]).contains(p[k + 1]));
        }
        assert(is_spread_path(gp, roots, p));
    }
    if reachable(gp, roots, n) {
        let p = choose|p: Seq<Seq<char>>| #[trigger] is_spread_path(gp, roots, p) && p.last() == n;
        lemma_path_transfer(gp, gd, roots, p, p.len() as int);
        assert(p.take(p.len() as int) =~= p);
    }
}

/// The last operation named `name` in a sequence where only position `j`
/// holds one.
proof fn lemma_chosen_unique(s: Seq<SpecDefinition>, name: Seq<char>, j: int)
    requires
        0 <= j < s.len(),
        is_operation_named(s[j], name),
        forall|k: int| j < k < s.len() ==> !#[trigger] is_operation_named(s[k], name),
    ensures
        chosen_operation(s, name) == Some(j),
    decreases s.len(),
{
    if j < s.len() - 1 {
        assert forall|k: int| j < k < s.drop_last().len() implies !#[trigger] is_operation_named(
            s.drop_last()[k],
            name,
        ) by {
            assert(s.drop_last()[k] == s[k]);
        }
        lemma_chosen_unique(s.drop_last(), name, j);
    }
}

proof fn lemma_all_kept(s: Seq<SpecDefinition>, c: int, m: int)
    requires
        0 <= m <= s.len(),
        forall|j: int| 0 <= j < m ==> #[trigger] is_kept(s, c, j),
    ensures
        kept_prefix(s, c, m) == s.take(m),
    decreases m,
{
    if m > 0 {
        lemma_all_kept(s, c, m - 1);
        assert(is_kept(s, c, m - 1));
        assert(s.take(m) =~= s.take(m - 1).push(s[m - 1]));
    } else {
        assert(s.take(0) =~= Seq::<SpecDefinition>::empty());
    }
}

/// Law: dropping twice with the same name gives what dropping once gives.
pub proof fn law_drop_is_idempotent(doc: SpecDocument, name: Seq<char>)
    ensures
        pruned(pruned(doc, name), name) == pruned(doc, name),
{
    let defs = doc.definitions;
    if let Some(c) = chosen_operation(defs, name) {
        let n = defs.len() as int;
        lemma_chosen_bounds(defs, name);
        lemma_kept_indices(defs, c, n);
        let idx = kept_indices(defs, c, n);
        let out = kept_prefix(defs, c, n);
        assert(is_kept(defs, c, c));
        let j0 = choose|j: int| 0 <= j < idx.len() && #[trigger] idx[j] == c;
        assert(out[j0] == defs[c]);
        // Only the chosen operation survives, so it is chosen again.
        assert forall|k: int| j0 < k < out.len() implies !#[trigger] is_operation_named(
            out[k],
            name,
        ) by {
            assert(idx[j0] < idx[k]);
            assert(is_kept(defs, c, idx[k]));
        }
        lemma_chosen_unique(out, name, j0);
        assert(operation_spreads(out, j0) == operation_spreads(defs, c));
        let roots = operation_spreads(defs, c);
        let gd = fragment_graph(defs);
        let gp = fragment_graph(out);
        // Names reachable in the input spread the same names in the result.
        assert forall|x: Seq<char>| #[trigger] reachable(gd, roots, x) implies lookup_deps(gp, x)
            == lookup_deps(gd, x) by {
            assert forall|i: int|
                0 <= i < defs.len() && #[trigger] is_fragment_named(defs[i], x) implies is_kept(
                defs,
                c,
                i,
            ) by {}
            lemma_lookup_in_kept(defs, c, n, x);
            assert(defs.take(n) =~= defs);
        }
        // Every definition of the result is kept again.
        assert forall|j: int| 0 <= j < out.len() implies #[trigger] is_kept(out, j0, j) by {
            if j != j0 {
                let i = idx[j];
                assert(is_kept(defs, c, i));
                if i == c {
                    if j < j0 {
                        assert(idx[j] < idx[j0]);
                    } else {
                        assert(idx[j0] < idx[j]);
                    }
                }
                let f = defs[i]->Fragment_0;
                lemma_reach_same(gp, gd, roots, f.name);
            }
        }
        lemma_all_kept(out, j0, out.len() as int);
        assert(out.take(out.len() as int) =~= out);
    }
}

/// Law: a name that no fragment of the document has spreads nothing, so a
/// spread of an undefined fragment adds no definition.
pub proof fn law_undefined_fragment_spreads_nothing(defs: Seq<SpecDefinition>, n: Seq<char>)
    requires
        forall|i: int| 0 <= i < defs.len() ==> !#[trigger] is_fragment_named(defs[i], n),
    ensures
        lookup_deps(fragment_graph(defs), n) == Seq::<Seq<char>>::empty(),
    decreases defs.len(),
{
    if defs.len() > 0 {
        let front = defs.drop_last();
        assert forall|i: int| 0 <= i < front.len() implies !#[trigger] is_fragment_named(front[i], n) by {
            assert(front[i] == defs[i]);
        }
        law_undefined_fragment_spreads_nothing(front, n);
        assert(defs =~= front.push(defs.last()));
        lemma_graph_push(front, defs.last(), n);
    }
}

/// The fragment names a definition spreads: those of a fragment's or of an
/// operation's selection set.
pub open spec fn spreads_of_definition(d: SpecDefinition) -> Seq<Seq<char>> {
    match d {
        SpecDefinition::Fragment(f) => spread_names(f.selection_set),
        SpecDefinition::Operation(op) => spread_names(operation_selections(op)),
    }
}

/// Every name a fragment spreads is among the names its own name spreads
/// in the graph.
proof fn lemma_fragment_spreads_in_lookup(defs: Seq<SpecDefinition>, i: int, m: Seq<char>)
    requires
        0 <= i < defs.len(),
        defs[i] is Fragment,
        spreads_of_definition(defs[i]).contains(m),
    ensures
        lookup_deps(fragment_graph(defs), defs[i]->Fragment_0.name).contains(m),
    decreases defs.len(),
{
    let x = defs[i]->Fragment_0.name;
    let front = defs.drop_last();
    assert(defs =~= front.push(defs.last()));
    lemma_graph_push(front, defs.last(), x);
    if i == defs.len() - 1 {
        let a = lookup_deps(fragment_graph(front), x);
        let b = definition_spreads(defs.last());
        let k = choose|k: int| 0 <= k < b.len() && b[k] == m;
        assert((a + b)[a.len() + k] == m);
    } else {
        assert(front[i] == defs[i]);
        lemma_fragment_spreads_in_lookup(front, i, m);
        let a = lookup_deps(fragment_graph(front), x);
        let k = choose|k: int| 0 <= k < a.len() && a[k] == m;
        if is_fragment_named(defs.last(), x) {
            assert((a + definition_spreads(defs.last()))[k] == m);
        }
    }
}

/// Law: the result is closed under spreads. For every definition that is
/// kept, every fragment definition of the input whose name it spreads is
/// kept as well, so every fragment of a reached name has its spreads
/// followed.
pub proof fn law_kept_definitions_keep_their_spread_targets(
    doc: SpecDocument,
    name: Seq<char>,
    i: int,
    j: int,
)
    requires
        chosen_operation(doc.definitions, name) is Some,
        0 <= i < doc.definitions.len(),
        0 <= j < doc.definitions.len(),
        pruned(doc, name).definitions.contains(doc.definitions[i]),
        doc.definitions[j] is Fragment,
        spreads_of_definition(doc.definitions[i]).contains(doc.definitions[j]->Fragment_0.name),
    ensures
        pruned(doc, name).definitions.contains(doc.definitions[j]),
{
    let defs = doc.definitions;
    let c = chosen_operation(defs, name)->0;
    let n = defs.len() as int;
    lemma_chosen_bounds(defs, name);
    lemma_kept_indices(defs, c, n);
    let idx = kept_indices(defs, c, n);
    let out = pruned(doc, name).definitions;
    let g = fragment_graph(defs);
    let roots = operation_spreads(defs, c);
    let m = defs[j]->Fragment_0.name;
    // The definition at `i` is kept, as a copy of some kept position `k`.
    let jj = choose|jj: int| 0 <= jj < out.len() && out[jj] == defs[i];
    let k = idx[jj];
    assert(is_kept(defs, c, k) && defs[k] == defs[i]);
    if k == c {
        assert(roots == spreads_of_definition(defs[c]));
        lemma_root_reachable(g, roots, m);
    } else {
        assert(defs[k] is Fragment);
        lemma_fragment_spreads_in_lookup(defs, k, m);
        lemma_reach_step(g, roots, defs[k]->Fragment_0.name, m);
    }
    law_fragment_kept_iff_reachable(doc, name, j);
}

/// Law: pruning a printable document leaves it printable, so its result can
/// be printed.
pub proof fn law_pruning_keeps_printable(doc: SpecDocument, name: Seq<char>)
    requires
        printable(doc),
    ensures
        printable(pruned(doc, name)),
{
    law_result_keeps_document_order(doc, name);
    let a = pruned(doc, name).definitions;
    let b = doc.definitions;
    let idx = choose|idx: Seq<int>|
        {
            &&& idx.len() == a.len()
            &&& forall|j: int| 0 <= j < idx.len() ==> 0 <= #[trigger] idx[j] < b.len() && a[j] == b[idx[j]]
            &&& forall|j: int, k: int| 0 <= j < k < idx.len() ==> #[trigger] idx[j] < #[trigger] idx[k]
        };
    assert forall|i: int| 0 <= i < a.len() implies #[trigger] definition_sorted(a[i]) by {
        assert(a[i] == b[idx[i]]);
        assert(definition_sorted(b[idx[i]]));
    }
    assert forall|i: int| 0 <= i < a.len() implies #[trigger] variables_written(a[i]) by {
        assert(a[i] == b[idx[i]]);
        assert(variables_written(b[idx[i]]));
    }
}

/// Law: a fragment named by any spread of the chosen operation's own
/// selections, whatever directives the spread carries, is in the result.
pub proof fn law_spread_fragment_is_kept(doc: SpecDocument, name: Seq<char>, j: int, i: int)
    requires
        chosen_operation(doc.definitions, name) is Some,
        doc.definitions[chosen_operation(doc.definitions, name)->0] is Operation,
        0 <= j < operation_selections(
            doc.definitions[chosen_operation(doc.definitions, name)->0]->Operation_0,
        ).len(),
        0 <= i < doc.definitions.len(),
        crate::spreads::spreads_fragment(
            operation_selections(
                doc.definitions[chosen_operation(doc.definitions, name)->0]->Operation_0,
            )[j],
            doc.definitions[i]->Fragment_0.name,
        ),
        doc.definitions[i] is Fragment,
    ensures
        pruned(doc, name).definitions.contains(doc.definitions[i]),
{
    let defs = doc.definitions;
    let c = chosen_operation(defs, name)->0;
    let items = operation_selections(defs[c]->Operation_0);
    let n = defs[i]->Fragment_0.name;
    crate::spreads::law_spread_names_are_the_spreads(items, n);
    assert(operation_spreads(defs, c) == spread_names(items));
    lemma_root_reachable(fragment_graph(defs), operation_spreads(defs, c), n);
    law_fragment_kept_iff_reachable(doc, name, i);
}

} // verus!
