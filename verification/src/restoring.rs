//! Why `print` finds every placeholder again in what the parser's printer
//! writes for a printable document.
//!
//! Rewriting interns the string values in the order the printer writes them
//! and leaves the objects' keys alone; placeholders are written verbatim; so
//! the printed text holds the quoted placeholders one after another, and a
//! forward search finds each of them.
use vstd::prelude::*;
use crate::ast::{SpecDocument, 
    SpecDefinition, SpecDirective, SpecOperation, SpecOperationDefinition, SpecSelection,
    SpecValue, SpecVariableDefinition,
};
use crate::text::{decimal, occurs_at, find_from, first_occurrence, trim_newlines, lemma_trim_newlines_prefix};
use crate::printing::{restore, prepared,
    placeholder, rw_args, rw_definition, rw_definitions, rw_directives, rw_operation,
    rw_selection, rw_selections, rw_value, rw_values, rw_variables, shorthand, is_bare_query,
    SpecTable,
};
use crate::string_values::{
    writes_verbatim, quoted, quoted_all, occurs_in_order, all_written_verbatim, document_sorted,
    document_strings, printable, blank_value, blank_values, blank_args, blank_directives,
    blank_variables, blank_selection, blank_selections, blank_operation, blank_definition,
    args_sorted, args_strings, definition_sorted, definition_strings, definitions_strings,
    directives_sorted, directives_strings, keys_ascending, operation_sorted, operation_strings,
    selection_sorted, selection_strings, selections_sorted, selections_strings, value_sorted,
    value_strings, values_sorted, values_strings, variables_sorted, variables_strings,
    variables_written,
};

verus! {

/// The table entries that interning `ss` adds to a table of `n` entries.
pub open spec fn fresh(n: nat, ss: Seq<Seq<char>>) -> SpecTable {
    Seq::new(ss.len(), |i: int| (placeholder((n + i) as nat), ss[i]))
}

/// The `k` placeholders that follow the first `n`.
pub open spec fn placeholders_from(n: nat, k: nat) -> Seq<Seq<char>> {
    Seq::new(k, |i: int| placeholder((n + i) as nat))
}

proof fn lemma_fresh_concat(t: SpecTable, a: Seq<Seq<char>>, b: Seq<Seq<char>>)
    ensures
        t + fresh(t.len(), a) + fresh(t.len() + a.len(), b) == t + fresh(t.len(), a + b),
        placeholders_from(t.len(), a.len()) + placeholders_from(t.len() + a.len(), b.len())
            == placeholders_from(t.len(), a.len() + b.len()),
{
    assert(fresh(t.len(), a) + fresh(t.len() + a.len(), b) =~= fresh(t.len(), a + b));
    assert(t + fresh(t.len(), a) + fresh(t.len() + a.len(), b) =~= t + fresh(t.len(), a + b));
    assert(placeholders_from(t.len(), a.len()) + placeholders_from(t.len() + a.len(), b.len())
        =~= placeholders_from(t.len(), a.len() + b.len()));
}

proof fn lemma_fresh_empty(t: SpecTable)
    ensures
        t + fresh(t.len(), Seq::empty()) == t,
        placeholders_from(t.len(), 0) == Seq::<Seq<char>>::empty(),
{
    assert(t + fresh(t.len(), Seq::empty()) =~= t);
    assert(placeholders_from(t.len(), 0) =~= Seq::<Seq<char>>::empty());
}

/// Rewriting a value interns its string values in printing order, leaves
/// placeholders in their place and keeps its objects' keys.
proof fn lemma_rw_value(v: SpecValue, t: SpecTable)
    ensures
        rw_value(v, t).1 == t + fresh(t.len(), value_strings(v)),
        value_strings(rw_value(v, t).0) == placeholders_from(t.len(), value_strings(v).len()),
        value_sorted(rw_value(v, t).0) == value_sorted(v),
    decreases v,
{
    match v {
        SpecValue::Str(s) => {
            assert(t + fresh(t.len(), seq![s]) =~= t.push((placeholder(t.len()), s)));
            assert(placeholders_from(t.len(), 1) =~= seq![placeholder(t.len())]);
        },
        SpecValue::List(items) => {
            lemma_rw_values(items, t);
        },
        SpecValue::Object(fields) => {
            lemma_rw_args(fields, t);
            let fs2 = rw_args(fields, t).0;
            assert(keys_ascending(fs2) == keys_ascending(fields)) by {
                if keys_ascending(fields) {
                    assert forall|i: int, j: int| 0 <= i < j < fs2.len() implies crate::string_values::name_less(
                        #[trigger] fs2[i].0,
                        #[trigger] fs2[j].0,
                    ) by {
                        assert(fields[i].0 == fs2[i].0 && fields[j].0 == fs2[j].0);
                    }
                }
                if keys_ascending(fs2) {
                    assert forall|i: int, j: int| 0 <= i < j < fields.len() implies crate::string_values::name_less(
                        #[trigger] fields[i].0,
                        #[trigger] fields[j].0,
                    ) by {
                        assert(fields[i].0 == fs2[i].0 && fields[j].0 == fs2[j].0);
                    }
                }
            }
        },
        SpecValue::Scalar(_) => {
            lemma_fresh_empty(t);
        },
    }
}

proof fn lemma_rw_values(vs: Seq<SpecValue>, t: SpecTable)
    ensures
        rw_values(vs, t).1 == t + fresh(t.len(), values_strings(vs)),
        values_strings(rw_values(vs, t).0) == placeholders_from(t.len(), values_strings(vs).len()),
        values_sorted(rw_values(vs, t).0) == values_sorted(vs),
        rw_values(vs, t).0.len() == vs.len(),
    decreases vs,
{
    if vs.len() == 0 {
        lemma_fresh_empty(t);
    } else {
        lemma_rw_values(vs.drop_last(), t);
        let (front, t1) = rw_values(vs.drop_last(), t);
        lemma_rw_value(vs.last(), t1);
        let (x, t2) = rw_value(vs.last(), t1);
        assert(front.push(x).drop_last() =~= front);
        lemma_fresh_concat(t, values_strings(vs.drop_last()), value_strings(vs.last()));
    }
}

proof fn lemma_rw_args(fs: Seq<(Seq<char>, SpecValue)>, t: SpecTable)
    ensures
        rw_args(fs, t).1 == t + fresh(t.len(), args_strings(fs)),
        args_strings(rw_args(fs, t).0) == placeholders_from(t.len(), args_strings(fs).len()),
        args_sorted(rw_args(fs, t).0) == args_sorted(fs),
        rw_args(fs, t).0.len() == fs.len(),
        forall|i: int| 0 <= i < fs.len() ==> (#[trigger] rw_args(fs, t).0[i]).0 == fs[i].0,
    decreases fs,
{
    if fs.len() == 0 {
        lemma_fresh_empty(t);
    } else {
        lemma_rw_args(fs.drop_last(), t);
        let (front, t1) = rw_args(fs.drop_last(), t);
        lemma_rw_value(fs.last().1, t1);
        let (x, t2) = rw_value(fs.last().1, t1);
        let fs2 = front.push((fs.last().0, x));
        assert(fs2.drop_last() =~= front);
        assert forall|i: int| 0 <= i < fs.len() implies (#[trigger] fs2[i]).0 == fs[i].0 by {
            if i < fs.len() - 1 {
                assert(fs.drop_last()[i] == fs[i]);
            }
        }
        lemma_fresh_concat(t, args_strings(fs.drop_last()), value_strings(fs.last().1));
    }
}

proof fn lemma_rw_directives(ds: Seq<SpecDirective>, t: SpecTable)
    ensures
        rw_directives(ds, t).1 == t + fresh(t.len(), directives_strings(ds)),
        directives_strings(rw_directives(ds, t).0) == placeholders_from(
            t.len(),
            directives_strings(ds).len(),
        ),
        directives_sorted(rw_directives(ds, t).0) == directives_sorted(ds),
        rw_directives(ds, t).0.len() == ds.len(),
    decreases ds.len(),
{
    if ds.len() == 0 {
        lemma_fresh_empty(t);
    } else {
        lemma_rw_directives(ds.drop_last(), t);
        let (front, t1) = rw_directives(ds.drop_last(), t);
        lemma_rw_args(ds.last().arguments, t1);
        let (args, t2) = rw_args(ds.last().arguments, t1);
        let d2 = SpecDirective { name: ds.last().name, arguments: args };
        assert(front.push(d2).drop_last() =~= front);
        lemma_fresh_concat(t, directives_strings(ds.drop_last()), args_strings(ds.last().arguments));
    }
}

proof fn lemma_rw_variables(vs: Seq<SpecVariableDefinition>, t: SpecTable)
    ensures
        rw_variables(vs, t).1 == t + fresh(t.len(), variables_strings(vs)),
        variables_strings(rw_variables(vs, t).0) == placeholders_from(
            t.len(),
            variables_strings(vs).len(),
        ),
        variables_sorted(rw_variables(vs, t).0) == variables_sorted(vs),
        rw_variables(vs, t).0.len() == vs.len(),
    decreases vs.len(),
{
    if vs.len() == 0 {
        lemma_fresh_empty(t);
    } else {
        lemma_rw_variables(vs.drop_last(), t);
        let (front, t1) = rw_variables(vs.drop_last(), t);
        let last = vs.last();
        match last.default_value {
            Some(v) => {
                lemma_rw_value(v, t1);
            },
            None => {
                lemma_fresh_empty(t1);
            },
        }
        let (d, t2) = crate::printing::rw_opt_value(last.default_value, t1);
        let x = SpecVariableDefinition { default_value: d, ..last };
        assert(front.push(x).drop_last() =~= front);
        lemma_fresh_concat(
            t,
            variables_strings(vs.drop_last()),
            crate::string_values::opt_value_strings(last.default_value),
        );
    }
}

proof fn lemma_rw_selection(s: SpecSelection, t: SpecTable)
    ensures
        rw_selection(s, t).1 == t + fresh(t.len(), selection_strings(s)),
        selection_strings(rw_selection(s, t).0) == placeholders_from(
            t.len(),
            selection_strings(s).len(),
        ),
        selection_sorted(rw_selection(s, t).0) == selection_sorted(s),
    decreases s,
{
    match s {
        SpecSelection::Field { alias, name, arguments, directives, selection_set } => {
            lemma_rw_args(arguments, t);
            let (a2, t1) = rw_args(arguments, t);
            lemma_rw_directives(directives, t1);
            let (d2, t2) = rw_directives(directives, t1);
            lemma_rw_selections(selection_set, t2);
            lemma_fresh_concat(t, args_strings(arguments), directives_strings(directives));
            lemma_fresh_concat(
                t,
                args_strings(arguments) + directives_strings(directives),
                selections_strings(selection_set),
            );
        },
        SpecSelection::FragmentSpread { fragment_name, directives } => {
            lemma_rw_directives(directives, t);
        },
        SpecSelection::InlineFragment { type_condition, directives, selection_set } => {
            lemma_rw_directives(directives, t);
            let (d2, t1) = rw_directives(directives, t);
            lemma_rw_selections(selection_set, t1);
            lemma_fresh_concat(t, directives_strings(directives), selections_strings(selection_set));
        },
    }
}

proof fn lemma_rw_selections(ss: Seq<SpecSelection>, t: SpecTable)
    ensures
        rw_selections(ss, t).1 == t + fresh(t.len(), selections_strings(ss)),
        selections_strings(rw_selections(ss, t).0) == placeholders_from(
            t.len(),
            selections_strings(ss).len(),
        ),
        selections_sorted(rw_selections(ss, t).0) == selections_sorted(ss),
    decreases ss,
{
    if ss.len() == 0 {
        lemma_fresh_empty(t);
    } else {
        lemma_rw_selections(ss.drop_last(), t);
        let (front, t1) = rw_selections(ss.drop_last(), t);
        lemma_rw_selection(ss.last(), t1);
        let (x, t2) = rw_selection(ss.last(), t1);
        assert(front.push(x).drop_last() =~= front);
        lemma_fresh_concat(t, selections_strings(ss.drop_last()), selection_strings(ss.last()));
    }
}

proof fn lemma_rw_operation(op: SpecOperation, t: SpecTable)
    ensures
        rw_operation(op, t).1 == t + fresh(t.len(), operation_strings(op, true)),
        operation_strings(rw_operation(op, t).0, true) == placeholders_from(
            t.len(),
            operation_strings(op, true).len(),
        ),
        operation_sorted(rw_operation(op, t).0) == operation_sorted(op),
        rw_operation(op, t).0.name == op.name,
        rw_operation(op, t).0.variable_definitions.len() == op.variable_definitions.len(),
        rw_operation(op, t).0.directives.len() == op.directives.len(),
        variables_strings(rw_operation(op, t).0.variable_definitions).len() == variables_strings(
            op.variable_definitions,
        ).len(),
{
    lemma_rw_variables(op.variable_definitions, t);
    let (v2, t1) = rw_variables(op.variable_definitions, t);
    lemma_rw_directives(op.directives, t1);
    let (d2, t2) = rw_directives(op.directives, t1);
    lemma_rw_selections(op.selection_set, t2);
    lemma_fresh_concat(t, variables_strings(op.variable_definitions), directives_strings(op.directives));
    lemma_fresh_concat(
        t,
        variables_strings(op.variable_definitions) + directives_strings(op.directives),
        selections_strings(op.selection_set),
    );
}

/// An operation whose variables hold no string value has the same string
/// values whether or not its variables are written.
proof fn lemma_operation_strings_without_variables(op: SpecOperation)
    requires
        variables_strings(op.variable_definitions).len() == 0,
    ensures
        operation_strings(op, false) == operation_strings(op, true),
{
    assert(variables_strings(op.variable_definitions) =~= Seq::<Seq<char>>::empty());
}

proof fn lemma_empty_variables(vs: Seq<SpecVariableDefinition>, ds: Seq<SpecDirective>)
    requires
        vs.len() == 0,
        ds.len() == 0,
    ensures
        variables_strings(vs) == Seq::<Seq<char>>::empty(),
        directives_strings(ds) == Seq::<Seq<char>>::empty(),
        variables_sorted(vs),
        directives_sorted(ds),
{
}

/// Rewriting a definition of a printable document, and putting a bare query
/// in shorthand, interns its string values in printing order.
proof fn lemma_rw_definition(d: SpecDefinition, t: SpecTable)
    requires
        variables_written(d),
    ensures
        rw_definition(d, t).1 == t + fresh(t.len(), definition_strings(d)),
        definition_strings(shorthand(rw_definition(d, t).0)) == placeholders_from(
            t.len(),
            definition_strings(d).len(),
        ),
        definition_sorted(shorthand(rw_definition(d, t).0)) == definition_sorted(d),
        variables_written(shorthand(rw_definition(d, t).0)),
{
    match d {
        SpecDefinition::Operation(op) => {
            match op {
                SpecOperationDefinition::SelectionSet(set) => {
                    lemma_rw_selections(set, t);
                },
                SpecOperationDefinition::Query(q) => {
                    lemma_rw_operation(q, t);
                    let q2 = rw_operation(q, t).0;
                    if is_bare_query(SpecDefinition::Operation(SpecOperationDefinition::Query(q2))) {
                        lemma_empty_variables(q2.variable_definitions, q2.directives);
                        assert(operation_strings(q2, true) =~= selections_strings(q2.selection_set));
                    }
                },
                SpecOperationDefinition::Mutation(m) => {
                    lemma_rw_operation(m, t);
                },
                SpecOperationDefinition::Subscription(s) => {
                    lemma_rw_operation(s, t);
                    let s2 = rw_operation(s, t).0;
                    if s.name is None {
                        lemma_operation_strings_without_variables(s);
                        lemma_operation_strings_without_variables(s2);
                    }
                },
            }
        },
        SpecDefinition::Fragment(f) => {
            lemma_rw_directives(f.directives, t);
            let (d2, t1) = rw_directives(f.directives, t);
            lemma_rw_selections(f.selection_set, t1);
            lemma_fresh_concat(t, directives_strings(f.directives), selections_strings(f.selection_set));
        },
    }
}

/// Rewriting the definitions of a printable document interns their string
/// values in printing order and keeps the document printable.
pub proof fn lemma_rw_definitions(ds: Seq<SpecDefinition>, t: SpecTable)
    requires
        forall|i: int| 0 <= i < ds.len() ==> #[trigger] variables_written(ds[i]),
    ensures
        rw_definitions(ds, t).1 == t + fresh(t.len(), definitions_strings(ds)),
        definitions_strings(rw_definitions(ds, t).0) == placeholders_from(
            t.len(),
            definitions_strings(ds).len(),
        ),
        rw_definitions(ds, t).0.len() == ds.len(),
        (forall|i: int| 0 <= i < ds.len() ==> #[trigger] definition_sorted(ds[i])) ==> forall|i: int|
            0 <= i < ds.len() ==> #[trigger] definition_sorted(rw_definitions(ds, t).0[i]),
    decreases ds.len(),
{
    if ds.len() == 0 {
        lemma_fresh_empty(t);
    } else {
        assert forall|i: int| 0 <= i < ds.drop_last().len() implies #[trigger] variables_written(
            ds.drop_last()[i],
        ) by {
            assert(ds.drop_last()[i] == ds[i]);
        }
        assert(variables_written(ds[ds.len() - 1]));
        lemma_rw_definitions(ds.drop_last(), t);
        let (front, t1) = rw_definitions(ds.drop_last(), t);
        lemma_rw_definition(ds.last(), t1);
        let (x, t2) = rw_definition(ds.last(), t1);
        let ds2 = front.push(shorthand(x));
        assert(ds2.drop_last() =~= front);
        lemma_fresh_concat(t, definitions_strings(ds.drop_last()), definition_strings(ds.last()));
        if forall|i: int| 0 <= i < ds.len() ==> #[trigger] definition_sorted(ds[i]) {
            assert forall|i: int| 0 <= i < ds.drop_last().len() implies #[trigger] definition_sorted(
                ds.drop_last()[i],
            ) by {
                assert(ds.drop_last()[i] == ds[i]);
            }
            assert(definition_sorted(ds[ds.len() - 1]));
            assert forall|i: int| 0 <= i < ds.len() implies #[trigger] definition_sorted(ds2[i]) by {
                if i < ds.len() - 1 {
                    assert(ds2[i] == front[i]);
                }
            }
        }
    }
}

proof fn lemma_decimal_digits(n: nat)
    ensures
        forall|i: int| 0 <= i < decimal(n).len() ==> 48 <= (#[trigger] decimal(n)[i] as u32) <= 57,
    decreases n,
{
    if n >= 10 {
        lemma_decimal_digits(n / 10);
        let d = decimal(n / 10);
        assert forall|i: int| 0 <= i < decimal(n).len() implies 48 <= (#[trigger] decimal(n)[i] as u32) <= 57 by {
            if i < d.len() {
                assert(decimal(n)[i] == d[i]);
            }
        }
    }
}

/// Every placeholder is written verbatim between quotes.
proof fn lemma_placeholder_verbatim(k: nat)
    ensures
        writes_verbatim(placeholder(k)),
{
    reveal_strlit("__GQL_STRING_PLACEHOLDER_");
    reveal_strlit("__");
    lemma_decimal_digits(k);
    let a = "__GQL_STRING_PLACEHOLDER_"@;
    let d = decimal(k);
    let p = placeholder(k);
    assert forall|i: int| 0 <= i < p.len() implies 0x20 <= (#[trigger] p[i] as u32) <= 0xFFFF && p[i] != '"' && p[i] != '\\' by {
        if i < a.len() {
            assert(p[i] == a[i]);
        } else if i < a.len() + d.len() {
            assert(p[i] == d[i - a.len()]);
        } else {
            assert(p[i] == '_');
        }
    }
}

/// A forward search from `i` finds `n` no later than an occurrence at `p`.
proof fn lemma_find_from_at_most(h: Seq<char>, n: Seq<char>, i: int, p: int)
    requires
        0 <= i <= p,
        occurs_at(h, n, p),
    ensures
        find_from(h, n, i) matches Some(f) && i <= f <= p && occurs_at(h, n, f),
    decreases p - i,
{
    if !occurs_at(h, n, i) {
        lemma_find_from_at_most(h, n, i + 1, p);
    }
}

/// Needles that occur in order after position `d` occur in order.
proof fn lemma_occurs_in_order_skip(s: Seq<char>, d: int, ns: Seq<Seq<char>>)
    requires
        0 <= d <= s.len(),
        occurs_in_order(s.skip(d), ns),
    ensures
        occurs_in_order(s, ns),
{
    if ns.len() > 0 {
        let n0 = ns[0];
        let p = choose|p: int|
            #[trigger] occurs_at(s.skip(d), n0, p) && occurs_in_order(
                s.skip(d).skip(p + n0.len()),
                ns.drop_first(),
            );
        assert(s.subrange(p + d, p + d + n0.len()) =~= s.skip(d).subrange(p, p + n0.len()));
        assert(s.skip(p + d + n0.len()) =~= s.skip(d).skip(p + n0.len()));
        assert(occurs_at(s, n0, p + d));
    }
}

/// The quoted placeholders of a table.
pub open spec fn quoted_keys(e: SpecTable) -> Seq<Seq<char>> {
    e.map_values(|x: (Seq<char>, Seq<char>)| quoted(x.0))
}

/// When the quoted placeholders of `e` occur in `text` in order, restoring
/// finds every one of them.
proof fn lemma_restore_some(text: Seq<char>, e: SpecTable)
    requires
        occurs_in_order(text, quoted_keys(e)),
    ensures
        restore(text, e) is Some,
    decreases e.len(),
{
    if e.len() > 0 {
        let ns = quoted_keys(e);
        let n0 = ns[0];
        assert(n0 == quoted(e[0].0));
        let p = choose|p: int|
            #[trigger] occurs_at(text, n0, p) && occurs_in_order(
                text.skip(p + n0.len()),
                ns.drop_first(),
            );
        lemma_find_from_at_most(text, n0, 0, p);
        let f = first_occurrence(text, n0)->0;
        let rest = text.skip(f + n0.len());
        assert(text.skip(p + n0.len()) =~= rest.skip(p - f));
        assert(ns.drop_first() =~= quoted_keys(e.drop_first()));
        lemma_occurs_in_order_skip(rest, p - f, quoted_keys(e.drop_first()));
        lemma_restore_some(rest, e.drop_first());
    }
}

/// What trimming newlines drops is newlines.
proof fn lemma_trimmed_tail(s: Seq<char>)
    ensures
        trim_newlines(s).len() <= s.len(),
        forall|i: int| trim_newlines(s).len() <= i < s.len() ==> s[i] == '\n',
    decreases s.len(),
{
    if s.len() > 0 && s.last() == '\n' {
        lemma_trimmed_tail(s.drop_last());
        assert forall|i: int| trim_newlines(s).len() <= i < s.len() implies s[i] == '\n' by {
            if i < s.len() - 1 {
                assert(s.drop_last()[i] == s[i]);
            }
        }
    }
}

/// Needles that do not end with a newline still occur in order once the
/// trailing newlines are cut.
proof fn lemma_occurs_in_prefix(s: Seq<char>, l: int, ns: Seq<Seq<char>>)
    requires
        0 <= l <= s.len(),
        forall|i: int| l <= i < s.len() ==> s[i] == '\n',
        forall|k: int| 0 <= k < ns.len() ==> (#[trigger] ns[k]).len() > 0 && ns[k].last() != '\n',
        occurs_in_order(s, ns),
    ensures
        occurs_in_order(s.take(l), ns),
    decreases ns.len(),
{
    if ns.len() > 0 {
        let n0 = ns[0];
        let p = choose|p: int|
            #[trigger] occurs_at(s, n0, p) && occurs_in_order(s.skip(p + n0.len()), ns.drop_first());
        let q = p + n0.len();
        assert(n0.len() > 0 && n0.last() != '\n');
        assert(s[q - 1] == s.subrange(p, q)[n0.len() - 1]);
        assert(q <= l);
        assert(s.take(l).subrange(p, q) =~= s.subrange(p, q));
        assert(occurs_at(s.take(l), n0, p));
        let s2 = s.skip(q);
        assert forall|k: int| 0 <= k < ns.drop_first().len() implies (#[trigger] ns.drop_first()[k]).len() > 0
            && ns.drop_first()[k].last() != '\n' by {
            assert(ns.drop_first()[k] == ns[k + 1]);
        }
        assert forall|i: int| l - q <= i < s2.len() implies s2[i] == '\n' by {
            assert(s2[i] == s[i + q]);
        }
        lemma_occurs_in_prefix(s2, l - q, ns.drop_first());
        assert(s2.take(l - q) =~= s.take(l).skip(q));
    }
}

/// A printable document, prepared for printing: its objects keep ascending
/// keys, its string values are the placeholders in order, written
/// verbatim, and its table interns the document's string values in
/// printing order.
proof fn lemma_prepared_printable(doc: SpecDocument)
    requires
        printable(doc),
    ensures
        document_sorted(prepared(doc).0),
        document_strings(prepared(doc).0) == placeholders_from(0, document_strings(doc).len()),
        all_written_verbatim(document_strings(prepared(doc).0)),
        prepared(doc).1 == fresh(0, document_strings(doc)),
{
    let e = Seq::<(Seq<char>, Seq<char>)>::empty();
    lemma_rw_definitions(doc.definitions, e);
    assert(e + fresh(0, document_strings(doc)) =~= fresh(0, document_strings(doc)));
    let ss = document_strings(prepared(doc).0);
    assert forall|i: int| 0 <= i < ss.len() implies writes_verbatim(#[trigger] ss[i]) by {
        lemma_placeholder_verbatim(i as nat);
    }
}

/// The text the parser's printer writes for a printable document, once
/// prepared, gives every placeholder back.
pub proof fn lemma_printable_restores(doc: SpecDocument, rendered: Seq<char>)
    requires
        printable(doc),
        document_sorted(prepared(doc).0) && all_written_verbatim(document_strings(prepared(doc).0))
            ==> occurs_in_order(rendered, quoted_all(document_strings(prepared(doc).0))),
    ensures
        restore(trim_newlines(rendered), prepared(doc).1) is Some,
{
    lemma_prepared_printable(doc);
    let t = prepared(doc).1;
    let ns = quoted_all(document_strings(prepared(doc).0));
    assert(ns =~= quoted_keys(t));
    lemma_trimmed_tail(rendered);
    lemma_trim_newlines_prefix(rendered);
    let l = trim_newlines(rendered).len() as int;
    assert forall|k: int| 0 <= k < ns.len() implies (#[trigger] ns[k]).len() > 0 && ns[k].last() != '\n' by {
        assert(ns[k] == quoted(document_strings(prepared(doc).0)[k]));
    }
    lemma_occurs_in_prefix(rendered, l, ns);
    lemma_restore_some(trim_newlines(rendered), t);
}

// ---------------------------------------------------------------------------
// Rewriting touches string values only
// ---------------------------------------------------------------------------

proof fn lemma_blank_rw_value(v: SpecValue, t: SpecTable)
    ensures
        blank_value(rw_value(v, t).0) == blank_value(v),
    decreases v,
{
    match v {
        SpecValue::List(items) => lemma_blank_rw_values(items, t),
        SpecValue::Object(fields) => lemma_blank_rw_args(fields, t),
        _ => {},
    }
}

proof fn lemma_blank_rw_values(vs: Seq<SpecValue>, t: SpecTable)
    ensures
        blank_values(rw_values(vs, t).0) == blank_values(vs),
    decreases vs,
{
    if vs.len() > 0 {
        lemma_blank_rw_values(vs.drop_last(), t);
        let (front, t1) = rw_values(vs.drop_last(), t);
        lemma_blank_rw_value(vs.last(), t1);
        let x = rw_value(vs.last(), t1).0;
        assert(front.push(x).drop_last() =~= front);
    }
}

proof fn lemma_blank_rw_args(fs: Seq<(Seq<char>, SpecValue)>, t: SpecTable)
    ensures
        blank_args(rw_args(fs, t).0) == blank_args(fs),
    decreases fs,
{
    if fs.len() > 0 {
        lemma_blank_rw_args(fs.drop_last(), t);
        let (front, t1) = rw_args(fs.drop_last(), t);
        lemma_blank_rw_value(fs.last().1, t1);
        let x = rw_value(fs.last().1, t1).0;
        assert(front.push((fs.last().0, x)).drop_last() =~= front);
    }
}

proof fn lemma_blank_rw_directives(ds: Seq<SpecDirective>, t: SpecTable)
    ensures
        blank_directives(rw_directives(ds, t).0) == blank_directives(ds),
    decreases ds.len(),
{
    if ds.len() > 0 {
        lemma_blank_rw_directives(ds.drop_last(), t);
        let (front, t1) = rw_directives(ds.drop_last(), t);
        lemma_blank_rw_args(ds.last().arguments, t1);
        let args = rw_args(ds.last().arguments, t1).0;
        let d2 = SpecDirective { name: ds.last().name, arguments: args };
        assert(front.push(d2).drop_last() =~= front);
    }
}

proof fn lemma_blank_rw_variables(vs: Seq<SpecVariableDefinition>, t: SpecTable)
    ensures
        blank_variables(rw_variables(vs, t).0) == blank_variables(vs),
    decreases vs.len(),
{
    if vs.len() > 0 {
        lemma_blank_rw_variables(vs.drop_last(), t);
        let (front, t1) = rw_variables(vs.drop_last(), t);
        let last = vs.last();
        if let Some(v) = last.default_value {
            lemma_blank_rw_value(v, t1);
        }
        let d = crate::printing::rw_opt_value(last.default_value, t1).0;
        let x = SpecVariableDefinition { default_value: d, ..last };
        assert(front.push(x).drop_last() =~= front);
    }
}

proof fn lemma_blank_rw_selection(s: SpecSelection, t: SpecTable)
    ensures
        blank_selection(rw_selection(s, t).0) == blank_selection(s),
    decreases s,
{
    match s {
        SpecSelection::Field { alias, name, arguments, directives, selection_set } => {
            lemma_blank_rw_args(arguments, t);
            let t1 = rw_args(arguments, t).1;
            lemma_blank_rw_directives(directives, t1);
            let t2 = rw_directives(directives, t1).1;
            lemma_blank_rw_selections(selection_set, t2);
        },
        SpecSelection::FragmentSpread { fragment_name, directives } => {
            lemma_blank_rw_directives(directives, t);
        },
        SpecSelection::InlineFragment { type_condition, directives, selection_set } => {
            lemma_blank_rw_directives(directives, t);
            let t1 = rw_directives(directives, t).1;
            lemma_blank_rw_selections(selection_set, t1);
        },
    }
}

proof fn lemma_blank_rw_selections(ss: Seq<SpecSelection>, t: SpecTable)
    ensures
        blank_selections(rw_selections(ss, t).0) == blank_selections(ss),
    decreases ss,
{
    if ss.len() > 0 {
        lemma_blank_rw_selections(ss.drop_last(), t);
        let (front, t1) = rw_selections(ss.drop_last(), t);
        lemma_blank_rw_selection(ss.last(), t1);
        let x = rw_selection(ss.last(), t1).0;
        assert(front.push(x).drop_last() =~= front);
    }
}

proof fn lemma_blank_rw_operation(op: SpecOperation, t: SpecTable)
    ensures
        blank_operation(rw_operation(op, t).0) == blank_operation(op),
        blank_selections(rw_operation(op, t).0.selection_set) == blank_selections(op.selection_set),
{
    lemma_blank_rw_variables(op.variable_definitions, t);
    let t1 = rw_variables(op.variable_definitions, t).1;
    lemma_blank_rw_directives(op.directives, t1);
    let t2 = rw_directives(op.directives, t1).1;
    lemma_blank_rw_selections(op.selection_set, t2);
}

proof fn lemma_blank_rw_definition(d: SpecDefinition, t: SpecTable)
    ensures
        blank_definition(shorthand(rw_definition(d, t).0)) == blank_definition(shorthand(d)),
{
    match d {
        SpecDefinition::Operation(op) => {
            match op {
                SpecOperationDefinition::SelectionSet(set) => {
                    lemma_blank_rw_selections(set, t);
                },
                SpecOperationDefinition::Query(q) => {
                    lemma_rw_operation(q, t);
                    lemma_blank_rw_operation(q, t);
                },
                SpecOperationDefinition::Mutation(m) => {
                    lemma_blank_rw_operation(m, t);
                },
                SpecOperationDefinition::Subscription(s) => {
                    lemma_blank_rw_operation(s, t);
                },
            }
        },
        SpecDefinition::Fragment(f) => {
            lemma_blank_rw_directives(f.directives, t);
            let t1 = rw_directives(f.directives, t).1;
            lemma_blank_rw_selections(f.selection_set, t1);
        },
    }
}

proof fn lemma_blank_rw_definitions(ds: Seq<SpecDefinition>, t: SpecTable)
    ensures
        rw_definitions(ds, t).0.len() == ds.len(),
        forall|i: int|
            0 <= i < ds.len() ==> blank_definition(#[trigger] rw_definitions(ds, t).0[i])
                == blank_definition(shorthand(ds[i])),
    decreases ds.len(),
{
    if ds.len() > 0 {
        lemma_blank_rw_definitions(ds.drop_last(), t);
        let (front, t1) = rw_definitions(ds.drop_last(), t);
        lemma_blank_rw_definition(ds.last(), t1);
        let x = rw_definition(ds.last(), t1).0;
        let ds2 = front.push(shorthand(x));
        assert forall|i: int| 0 <= i < ds.len() implies blank_definition(#[trigger] ds2[i])
            == blank_definition(shorthand(ds[i])) by {
            if i < ds.len() - 1 {
                assert(ds2[i] == front[i]);
                assert(ds.drop_last()[i] == ds[i]);
            }
        }
    }
}

/// Law: the document handed to the parser's printer is the input with bare
/// queries in shorthand and nothing else changed but string values: with
/// its strings blanked, each definition equals the input's definition in
/// shorthand with its strings blanked (same kind, names, aliases, arguments,
/// directives, variables and selections, in the same order).
pub proof fn law_preparing_changes_only_strings(doc: SpecDocument)
    ensures
        prepared(doc).0.definitions.len() == doc.definitions.len(),
        forall|i: int|
            0 <= i < doc.definitions.len() ==> blank_definition(
                #[trigger] prepared(doc).0.definitions[i],
            ) == blank_definition(shorthand(doc.definitions[i])),
{
    lemma_blank_rw_definitions(doc.definitions, Seq::empty());
}

/// Law: for a printable document, the strings that replace the string
/// values are the placeholders `0, 1, 2, ...` in printing order, and the
/// table pairs the `k`-th placeholder with the `k`-th string value of the
/// document in that order; so the placeholders, put back, give the
/// document's own strings.
pub proof fn law_placeholders_stand_for_the_strings(doc: SpecDocument)
    requires
        printable(doc),
    ensures
        document_strings(prepared(doc).0) == placeholders_from(0, document_strings(doc).len()),
        prepared(doc).1.len() == document_strings(doc).len(),
        forall|k: int|
            0 <= k < prepared(doc).1.len() ==> #[trigger] prepared(doc).1[k] == (
            placeholder(k as nat),
            document_strings(doc)[k],
        ),
{
    lemma_prepared_printable(doc);
}

} // verus!
