//! Rendering a document back to GraphQL source.
use vstd::prelude::*;
use crate::ast::{
    args_model, definitions_model, directives_model, opt_value_model, selections_model,
    values_model, variables_model, Definition, Directive, Document, Field, FragmentDefinition,
    FragmentSpread, InlineFragment, Operation, OperationDefinition, Selection, SelectionSet,
    SpecDefinition, SpecDirective, SpecDocument, SpecFragmentDefinition, SpecOperation,
    SpecOperationDefinition, SpecSelection, SpecValue, SpecVariableDefinition, Value,
    VariableDefinition,
};
use crate::escape::{canonical, canonical_string, law_canonical_string_is_single_line};
use crate::raw::{render_document, rendered_document};
use crate::string_values::{printable, quoted};
use crate::restoring::lemma_printable_restores;
use crate::text::{
    chars_of, decimal, find_in, first_occurrence, lemma_find_from_bounds, lemma_trim_newlines_prefix, push_chars, push_decimal, push_char,
    trim_newlines, trimmed_len,
};

verus! {

/// The placeholder/value pairs of a string table, in interning order.
pub type SpecTable = Seq<(Seq<char>, Seq<char>)>;

/// The placeholder that stands for the `k`-th interned string value.
pub open spec fn placeholder(k: nat) -> Seq<char> {
    "__GQL_STRING_PLACEHOLDER_"@ + decimal(k) + "__"@
}

/// Placeholders standing in for string values during the structural print.
///
/// Each string value gets a fresh ASCII key with no characters that need
/// escaping, so the parser's printer writes it verbatim inside quotes. After
/// printing, each `"key"` is swapped for the canonical rendering of the
/// value it stands for.
pub struct StringTable {
    values: Vec<(String, String)>,
}

impl View for StringTable {
    type V = SpecTable;

    closed spec fn view(&self) -> SpecTable {
        self.values@.map_values(|e: (String, String)| (e.0@, e.1@))
    }
}

/// The views of borrowed placeholder/value pairs.
pub open spec fn entry_views(v: Seq<(&str, &str)>) -> SpecTable {
    v.map_values(|e: (&str, &str)| (e.0@, e.1@))
}

impl StringTable {
    /// An empty table.
    pub fn new() -> (t: StringTable)
        ensures
            t@ == Seq::<(Seq<char>, Seq<char>)>::empty(),
    {
        let t = StringTable { values: Vec::new() };
        assert(t@ =~= Seq::<(Seq<char>, Seq<char>)>::empty());
        t
    }

    /// Reserve a placeholder for `value` and return it.
    pub fn intern(&mut self, value: String) -> (key: String)
        ensures
            key@ == placeholder(old(self)@.len()),
            final(self)@ == old(self)@.push((key@, value@)),
    {
        let mut key = "__GQL_STRING_PLACEHOLDER_".to_owned();
        push_decimal(&mut key, self.values.len());
        key.append("__");
        let ghost before = self.values@;
        self.values.push((key.clone(), value));
        assert(self@ =~= old(self)@.push((key@, value@)));
        key
    }

    /// The placeholder/value pairs in interning order.
    ///
    /// Placeholders print in this order, so a single forward pass consumes
    /// each one exactly once.
    pub fn entries(&self) -> (r: Vec<(&str, &str)>)
        ensures
            entry_views(r@) == self@,
    {
        let mut out: Vec<(&str, &str)> = Vec::new();
        let mut i: usize = 0;
        while i < self.values.len()
            invariant
                0 <= i <= self.values.len(),
                out@.len() == i,
                self@.len() == self.values@.len(),
                entry_views(out@) == self@.take(i as int),
            decreases self.values.len() - i,
        {
            let ghost before = out@;
            let entry = &self.values[i];
            assert(self@[i as int] == (entry.0@, entry.1@));
            let pair = (entry.0.as_str(), entry.1.as_str());
            out.push(pair);
            assert(out@ == before.push(pair));
            assert(entry_views(before) == self@.take(i as int));
            assert forall|j: int| 0 <= j < i + 1 implies #[trigger] entry_views(out@)[j] == self@[j] by {
                if j < i {
                    assert(entry_views(before)[j] == self@.take(i as int)[j]);
                }
            }
            assert(entry_views(out@) =~= self@.take(i + 1));
            i = i + 1;
        }
        assert(self@.take(self.values.len() as int) =~= self@);
        out
    }
}

// ---------------------------------------------------------------------------
// What rewriting the string values does, over the view
// ---------------------------------------------------------------------------

/// A value with each string value replaced by a fresh placeholder, and the
/// table with those strings interned in order.
pub open spec fn rw_value(v: SpecValue, t: SpecTable) -> (SpecValue, SpecTable)
    decreases v,
{
    match v {
        SpecValue::Str(s) => (
            SpecValue::Str(placeholder(t.len())),
            t.push((placeholder(t.len()), s)),
        ),
        SpecValue::List(items) => {
            let (items2, t2) = rw_values(items, t);
            (SpecValue::List(items2), t2)
        },
        SpecValue::Object(fields) => {
            let (fields2, t2) = rw_args(fields, t);
            (SpecValue::Object(fields2), t2)
        },
        SpecValue::Scalar(_) => (v, t),
    }
}

pub open spec fn rw_values(vs: Seq<SpecValue>, t: SpecTable) -> (Seq<SpecValue>, SpecTable)
    decreases vs,
{
    if vs.len() == 0 {
        (vs, t)
    } else {
        let (front, t1) = rw_values(vs.drop_last(), t);
        let (x, t2) = rw_value(vs.last(), t1);
        (front.push(x), t2)
    }
}

pub open spec fn rw_args(fs: Seq<(Seq<char>, SpecValue)>, t: SpecTable) -> (
    Seq<(Seq<char>, SpecValue)>,
    SpecTable,
)
    decreases fs,
{
    if fs.len() == 0 {
        (fs, t)
    } else {
        let (front, t1) = rw_args(fs.drop_last(), t);
        let (x, t2) = rw_value(fs.last().1, t1);
        (front.push((fs.last().0, x)), t2)
    }
}

pub open spec fn rw_directives(ds: Seq<SpecDirective>, t: SpecTable) -> (
    Seq<SpecDirective>,
    SpecTable,
)
    decreases ds.len(),
{
    if ds.len() == 0 {
        (ds, t)
    } else {
        let (front, t1) = rw_directives(ds.drop_last(), t);
        let (args, t2) = rw_args(ds.last().arguments, t1);
        (front.push(SpecDirective { name: ds.last().name, arguments: args }), t2)
    }
}

pub open spec fn rw_opt_value(o: Option<SpecValue>, t: SpecTable) -> (Option<SpecValue>, SpecTable) {
    match o {
        Some(v) => {
            let (v2, t2) = rw_value(v, t);
            (Some(v2), t2)
        },
        None => (None, t),
    }
}

pub open spec fn rw_variables(vs: Seq<SpecVariableDefinition>, t: SpecTable) -> (
    Seq<SpecVariableDefinition>,
    SpecTable,
)
    decreases vs.len(),
{
    if vs.len() == 0 {
        (vs, t)
    } else {
        let (front, t1) = rw_variables(vs.drop_last(), t);
        let (d, t2) = rw_opt_value(vs.last().default_value, t1);
        (front.push(SpecVariableDefinition { default_value: d, ..vs.last() }), t2)
    }
}

pub open spec fn rw_selection(s: SpecSelection, t: SpecTable) -> (SpecSelection, SpecTable)
    decreases s,
{
    match s {
        SpecSelection::Field { alias, name, arguments, directives, selection_set } => {
            let (a2, t1) = rw_args(arguments, t);
            let (d2, t2) = rw_directives(directives, t1);
            let (s2, t3) = rw_selections(selection_set, t2);
            (
                SpecSelection::Field {
                    alias,
                    name,
                    arguments: a2,
                    directives: d2,
                    selection_set: s2,
                },
                t3,
            )
        },
        SpecSelection::FragmentSpread { fragment_name, directives } => {
            let (d2, t1) = rw_directives(directives, t);
            (SpecSelection::FragmentSpread { fragment_name, directives: d2 }, t1)
        },
        SpecSelection::InlineFragment { type_condition, directives, selection_set } => {
            let (d2, t1) = rw_directives(directives, t);
            let (s2, t2) = rw_selections(selection_set, t1);
            (
                SpecSelection::InlineFragment {
                    type_condition,
                    directives: d2,
                    selection_set: s2,
                },
                t2,
            )
        },
    }
}

pub open spec fn rw_selections(ss: Seq<SpecSelection>, t: SpecTable) -> (
    Seq<SpecSelection>,
    SpecTable,
)
    decreases ss,
{
    if ss.len() == 0 {
        (ss, t)
    } else {
        let (front, t1) = rw_selections(ss.drop_last(), t);
        let (x, t2) = rw_selection(ss.last(), t1);
        (front.push(x), t2)
    }
}

pub open spec fn rw_operation(op: SpecOperation, t: SpecTable) -> (SpecOperation, SpecTable) {
    let (v2, t1) = rw_variables(op.variable_definitions, t);
    let (d2, t2) = rw_directives(op.directives, t1);
    let (s2, t3) = rw_selections(op.selection_set, t2);
    (
        SpecOperation {
            name: op.name,
            variable_definitions: v2,
            directives: d2,
            selection_set: s2,
        },
        t3,
    )
}

pub open spec fn rw_operation_definition(op: SpecOperationDefinition, t: SpecTable) -> (
    SpecOperationDefinition,
    SpecTable,
) {
    match op {
        SpecOperationDefinition::SelectionSet(set) => {
            let (s2, t1) = rw_selections(set, t);
            (SpecOperationDefinition::SelectionSet(s2), t1)
        },
        SpecOperationDefinition::Query(q) => {
            let (q2, t1) = rw_operation(q, t);
            (SpecOperationDefinition::Query(q2), t1)
        },
        SpecOperationDefinition::Mutation(m) => {
            let (m2, t1) = rw_operation(m, t);
            (SpecOperationDefinition::Mutation(m2), t1)
        },
        SpecOperationDefinition::Subscription(s) => {
            let (s2, t1) = rw_operation(s, t);
            (SpecOperationDefinition::Subscription(s2), t1)
        },
    }
}

pub open spec fn rw_definition(d: SpecDefinition, t: SpecTable) -> (SpecDefinition, SpecTable) {
    match d {
        SpecDefinition::Operation(op) => {
            let (op2, t1) = rw_operation_definition(op, t);
            (SpecDefinition::Operation(op2), t1)
        },
        SpecDefinition::Fragment(f) => {
            let (d2, t1) = rw_directives(f.directives, t);
            let (s2, t2) = rw_selections(f.selection_set, t1);
            (
                SpecDefinition::Fragment(
                    SpecFragmentDefinition { directives: d2, selection_set: s2, ..f },
                ),
                t2,
            )
        },
    }
}

// ---------------------------------------------------------------------------
// Rewriting the string values
// ---------------------------------------------------------------------------

/// A copy of `value` with every string value replaced by an interned
/// placeholder.
fn rewrite_strings_in_value(value: &Value, table: &mut StringTable) -> (r: Value)
    ensures
        (r@, final(table)@) == rw_value(value@, old(table)@),
    decreases value,
{
    match value {
        Value::Str(text) => {
            let placeholder = table.intern(text.clone());
            Value::Str(placeholder)
        },
        Value::List(items) => Value::List(rewrite_strings_in_values(items, table)),
        Value::Object(fields) => Value::Object(rewrite_strings_in_arguments(fields, table)),
        Value::Scalar(raw) => Value::Scalar(raw.duplicate()),
    }
}

fn rewrite_strings_in_values(items: &Vec<Value>, table: &mut StringTable) -> (r: Vec<Value>)
    ensures
        (values_model(r@), final(table)@) == rw_values(values_model(items@), old(table)@),
    decreases items,
{
    let ghost t0 = table@;
    let ghost vs = values_model(items@);
    let mut out: Vec<Value> = Vec::new();
    let mut i: usize = 0;
    while i < items.len()
        invariant
            0 <= i <= items.len(),
            vs == values_model(items@),
            rw_values(vs.take(i as int), t0) == (values_model(out@), table@),
        decreases items.len() - i,
    {
        assert(vs.take(i + 1).drop_last() =~= vs.take(i as int));
        assert(decreases_to!(items => items[i as int]));
        let ghost before = out@;
        let x = rewrite_strings_in_value(&items[i], table);
        out.push(x);
        assert(values_model(out@) =~= values_model(before).push(x@));
        i = i + 1;
    }
    assert(vs.take(items.len() as int) =~= vs);
    out
}

/// A copy of an argument list (or of an object's fields) with every string
/// value replaced by an interned placeholder.
fn rewrite_strings_in_arguments(arguments: &Vec<(String, Value)>, table: &mut StringTable) -> (r:
    Vec<(String, Value)>)
    ensures
        (args_model(r@), final(table)@) == rw_args(args_model(arguments@), old(table)@),
    decreases arguments,
{
    let ghost t0 = table@;
    let ghost fs = args_model(arguments@);
    let mut out: Vec<(String, Value)> = Vec::new();
    let mut i: usize = 0;
    while i < arguments.len()
        invariant
            0 <= i <= arguments.len(),
            fs == args_model(arguments@),
            rw_args(fs.take(i as int), t0) == (args_model(out@), table@),
        decreases arguments.len() - i,
    {
        assert(fs.take(i + 1).drop_last() =~= fs.take(i as int));
        assert(decreases_to!(arguments => arguments[i as int].1)) by {
            assert(decreases_to!(arguments => arguments[i as int]));
        };
        let ghost before = out@;
        let x = rewrite_strings_in_value(&arguments[i].1, table);
        out.push((arguments[i].0.clone(), x));
        assert(args_model(out@) =~= args_model(before).push((arguments@[i as int].0@, x@)));
        i = i + 1;
    }
    assert(fs.take(arguments.len() as int) =~= fs);
    out
}

fn rewrite_strings_in_directives(directives: &Vec<Directive>, table: &mut StringTable) -> (r: Vec<
    Directive,
>)
    ensures
        (directives_model(r@), final(table)@) == rw_directives(
            directives_model(directives@),
            old(table)@,
        ),
{
    let ghost t0 = table@;
    let ghost ds = directives_model(directives@);
    let mut out: Vec<Directive> = Vec::new();
    let mut i: usize = 0;
    while i < directives.len()
        invariant
            0 <= i <= directives.len(),
            ds == directives_model(directives@),
            rw_directives(ds.take(i as int), t0) == (directives_model(out@), table@),
        decreases directives.len() - i,
    {
        assert(ds.take(i + 1).drop_last() =~= ds.take(i as int));
        let ghost before = out@;
        let directive = &directives[i];
        let arguments = rewrite_strings_in_arguments(&directive.arguments, table);
        let d = Directive { name: directive.name.clone(), arguments };
        out.push(d);
        assert(directives_model(out@) =~= directives_model(before).push(d@));
        i = i + 1;
    }
    assert(ds.take(directives.len() as int) =~= ds);
    out
}

fn rewrite_strings_in_variables(
    variables: &Vec<VariableDefinition>,
    table: &mut StringTable,
) -> (r: Vec<VariableDefinition>)
    ensures
        (variables_model(r@), final(table)@) == rw_variables(
            variables_model(variables@),
            old(table)@,
        ),
{
    let ghost t0 = table@;
    let ghost vs = variables_model(variables@);
    let mut out: Vec<VariableDefinition> = Vec::new();
    let mut i: usize = 0;
    while i < variables.len()
        invariant
            0 <= i <= variables.len(),
            vs == variables_model(variables@),
            rw_variables(vs.take(i as int), t0) == (variables_model(out@), table@),
        decreases variables.len() - i,
    {
        assert(vs.take(i + 1).drop_last() =~= vs.take(i as int));
        let ghost before = out@;
        let variable = &variables[i];
        let default_value = match &variable.default_value {
            Some(v) => Some(rewrite_strings_in_value(v, table)),
            None => None,
        };
        assert(opt_value_model(default_value) == rw_opt_value(
            opt_value_model(variable.default_value),
            rw_variables(vs.take(i as int), t0).1,
        ).0);
        let d = VariableDefinition {
            name: variable.name.clone(),
            var_type: variable.var_type.duplicate(),
            default_value,
        };
        out.push(d);
        assert(variables_model(out@) =~= variables_model(before).push(d@));
        i = i + 1;
    }
    assert(vs.take(variables.len() as int) =~= vs);
    out
}

/// A copy of a selection set with every string value under it replaced by
/// an interned placeholder.
fn rewrite_strings_in_selection_set(selection_set: &SelectionSet, table: &mut StringTable) -> (r:
    SelectionSet)
    ensures
        (r@, final(table)@) == rw_selections(selection_set@, old(table)@),
    decreases selection_set,
{
    let ghost t0 = table@;
    let ghost ss = selection_set@;
    let mut out: Vec<Selection> = Vec::new();
    let mut i: usize = 0;
    while i < selection_set.items.len()
        invariant
            0 <= i <= selection_set.items.len(),
            ss == selection_set@,
            rw_selections(ss.take(i as int), t0) == (selections_model(out@), table@),
        decreases selection_set.items.len() - i,
    {
        assert(ss.take(i + 1).drop_last() =~= ss.take(i as int));
        let ghost before = out@;
        let selection = &selection_set.items[i];
        assert(ss[i as int] == selection@);
        let ghost t1 = table@;
        let x = match selection {
            Selection::Field(field) => {
                let arguments = rewrite_strings_in_arguments(&field.arguments, table);
                let directives = rewrite_strings_in_directives(&field.directives, table);
                assert(decreases_to!(selection_set => field.selection_set)) by {
                    assert(decreases_to!(selection_set.items => selection_set.items[i as int]));
                };
                let sub = rewrite_strings_in_selection_set(&field.selection_set, table);
                Selection::Field(
                    Field {
                        alias: match &field.alias {
                            Some(a) => Some(a.clone()),
                            None => None,
                        },
                        name: field.name.clone(),
                        arguments,
                        directives,
                        selection_set: sub,
                    },
                )
            },
            Selection::FragmentSpread(spread) => {
                let directives = rewrite_strings_in_directives(&spread.directives, table);
                Selection::FragmentSpread(
                    FragmentSpread { fragment_name: spread.fragment_name.clone(), directives },
                )
            },
            Selection::InlineFragment(inline) => {
                let directives = rewrite_strings_in_directives(&inline.directives, table);
                assert(decreases_to!(selection_set => inline.selection_set)) by {
                    assert(decreases_to!(selection_set.items => selection_set.items[i as int]));
                };
                let sub = rewrite_strings_in_selection_set(&inline.selection_set, table);
                Selection::InlineFragment(
                    InlineFragment {
                        type_condition: match &inline.type_condition {
                            Some(c) => Some(c.clone()),
                            None => None,
                        },
                        directives,
                        selection_set: sub,
                    },
                )
            },
        };
        assert((x@, table@) == rw_selection(selection@, t1));
        out.push(x);
        assert(selections_model(out@) =~= selections_model(before).push(x@));
        i = i + 1;
    }
    assert(ss.take(selection_set.items.len() as int) =~= ss);
    SelectionSet { items: out }
}

fn rewrite_strings_in_operation(operation: &Operation, table: &mut StringTable) -> (r: Operation)
    ensures
        (r@, final(table)@) == rw_operation(operation@, old(table)@),
{
    let variable_definitions = rewrite_strings_in_variables(&operation.variable_definitions, table);
    let directives = rewrite_strings_in_directives(&operation.directives, table);
    let selection_set = rewrite_strings_in_selection_set(&operation.selection_set, table);
    Operation {
        name: match &operation.name {
            Some(n) => Some(n.clone()),
            None => None,
        },
        variable_definitions,
        directives,
        selection_set,
    }
}

/// A copy of a definition with every string value in it replaced by an
/// interned placeholder.
fn rewrite_strings_in_definition(definition: &Definition, table: &mut StringTable) -> (r:
    Definition)
    ensures
        (r@, final(table)@) == rw_definition(definition@, old(table)@),
{
    match definition {
        Definition::Operation(operation) => {
            let op = match operation {
                OperationDefinition::SelectionSet(set) => OperationDefinition::SelectionSet(
                    rewrite_strings_in_selection_set(set, table),
                ),
                OperationDefinition::Query(q) => OperationDefinition::Query(
                    rewrite_strings_in_operation(q, table),
                ),
                OperationDefinition::Mutation(m) => OperationDefinition::Mutation(
                    rewrite_strings_in_operation(m, table),
                ),
                OperationDefinition::Subscription(s) => OperationDefinition::Subscription(
                    rewrite_strings_in_operation(s, table),
                ),
            };
            Definition::Operation(op)
        },
        Definition::Fragment(fragment) => {
            let directives = rewrite_strings_in_directives(&fragment.directives, table);
            let selection_set = rewrite_strings_in_selection_set(&fragment.selection_set, table);
            Definition::Fragment(
                FragmentDefinition {
                    name: fragment.name.clone(),
                    type_condition: fragment.type_condition.clone(),
                    directives,
                    selection_set,
                },
            )
        },
    }
}

// ---------------------------------------------------------------------------
// Shorthand, restoring the strings, printing
// ---------------------------------------------------------------------------

/// Whether a definition is a `query` with no name, no variables and no
/// directives.
pub open spec fn is_bare_query(d: SpecDefinition) -> bool {
    match d {
        SpecDefinition::Operation(SpecOperationDefinition::Query(q)) => q.name is None
            && q.variable_definitions.len() == 0 && q.directives.len() == 0,
        _ => false,
    }
}

/// A bare query in its shorthand form; any other definition as it is.
pub open spec fn shorthand(d: SpecDefinition) -> SpecDefinition {
    match d {
        SpecDefinition::Operation(SpecOperationDefinition::Query(q)) => if is_bare_query(d) {
            SpecDefinition::Operation(SpecOperationDefinition::SelectionSet(q.selection_set))
        } else {
            d
        },
        _ => d,
    }
}

/// Law: putting a definition in shorthand changes only a `query` with no
/// name, no variables and no directives, which becomes its selection set;
/// every other query, every mutation, subscription and shorthand operation,
/// and every fragment stays as it is.
pub proof fn law_shorthand_changes_only_bare_queries(d: SpecDefinition)
    ensures
        (d matches SpecDefinition::Operation(SpecOperationDefinition::Query(q)) && q.name is None
            && q.variable_definitions.len() == 0 && q.directives.len() == 0) ==> shorthand(d)
            == SpecDefinition::Operation(
            SpecOperationDefinition::SelectionSet(d->Operation_0->Query_0.selection_set),
        ),
        !(d matches SpecDefinition::Operation(SpecOperationDefinition::Query(q)) && q.name is None
            && q.variable_definitions.len() == 0 && q.directives.len() == 0) ==> shorthand(d) == d,
{
}

/// Collapse a `query` with no name, variables, or directives into shorthand.
///
/// GraphQL source allows `{ ... }` as a synonym for an unadorned anonymous
/// query, and that is the canonical printed form. Other operations pass
/// through untouched.
pub fn shorthand_if_bare_query(definition: Definition) -> (r: Definition)
    ensures
        r@ == shorthand(definition@),
{
    match definition {
        Definition::Operation(OperationDefinition::Query(query)) => {
            if query.name.is_none() && query.variable_definitions.len() == 0
                && query.directives.len() == 0 {
                Definition::Operation(OperationDefinition::SelectionSet(query.selection_set))
            } else {
                Definition::Operation(OperationDefinition::Query(query))
            }
        },
        other => other,
    }
}

/// The rewritten definitions of a document and the table of their strings.
pub open spec fn rw_definitions(ds: Seq<SpecDefinition>, t: SpecTable) -> (
    Seq<SpecDefinition>,
    SpecTable,
)
    decreases ds.len(),
{
    if ds.len() == 0 {
        (ds, t)
    } else {
        let (front, t1) = rw_definitions(ds.drop_last(), t);
        let (x, t2) = rw_definition(ds.last(), t1);
        (front.push(shorthand(x)), t2)
    }
}

/// The document handed to the parser's printer, and the string table that
/// goes with it: every string value replaced by a placeholder, bare queries
/// in shorthand.
pub open spec fn prepared(doc: SpecDocument) -> (SpecDocument, SpecTable) {
    let (defs, t) = rw_definitions(doc.definitions, Seq::empty());
    (SpecDocument { definitions: defs }, t)
}

/// `text` with each quoted placeholder of `entries`, found in order by a
/// single forward pass, replaced by the canonical rendering of its value;
/// `None` when a placeholder is not found.
pub open spec fn restore(text: Seq<char>, entries: SpecTable) -> Option<Seq<char>>
    decreases entries.len(),
{
    if entries.len() == 0 {
        Some(text)
    } else {
        let needle = quoted(entries[0].0);
        match first_occurrence(text, needle) {
            None => None,
            Some(pos) => match restore(text.skip(pos + needle.len()), entries.drop_first()) {
                None => None,
                Some(tail) => Some(text.take(pos) + canonical(entries[0].1) + tail),
            },
        }
    }
}

/// What `print` writes for a document, or `None` where the parser's printer
/// does not write every placeholder in order.
pub open spec fn printed(doc: SpecDocument) -> Option<Seq<char>> {
    let (p, t) = prepared(doc);
    restore(trim_newlines(rendered_document(p)), t)
}

/// A document with every string value replaced by a placeholder and bare
/// queries in shorthand, and the string table that goes with it.
pub fn prepare_for_printing(document: &Document) -> (r: (Document, StringTable))
    ensures
        (r.0@, r.1@) == prepared(document@),
{
    let ghost defs = document@.definitions;
    let mut table = StringTable::new();
    let mut definitions: Vec<Definition> = Vec::new();
    let mut i: usize = 0;
    while i < document.definitions.len()
        invariant
            0 <= i <= document.definitions.len(),
            defs == document@.definitions,
            rw_definitions(defs.take(i as int), Seq::empty()) == (definitions_model(definitions@), table@),
        decreases document.definitions.len() - i,
    {
        assert(defs.take(i + 1).drop_last() =~= defs.take(i as int));
        assert(defs[i as int] == document.definitions[i as int]@);
        let ghost before = definitions@;
        let d = rewrite_strings_in_definition(&document.definitions[i], &mut table);
        let d = shorthand_if_bare_query(d);
        definitions.push(d);
        assert(definitions_model(definitions@) =~= definitions_model(before).push(d@));
        i = i + 1;
    }
    assert(defs.take(document.definitions.len() as int) =~= defs);
    (Document { definitions }, table)
}

/// The chars of a placeholder wrapped in double quotes.
fn quoted_chars(s: &str) -> (r: Vec<char>)
    ensures
        r@ == quoted(s@),
{
    let mut q = String::new();
    push_char(&mut q, '"');
    q.append(s);
    push_char(&mut q, '"');
    assert(q@ =~= quoted(s@));
    chars_of(q.as_str())
}

/// Put the canonical renderings of the string values back into the text the
/// parser's printer wrote for a prepared document.
///
/// Trailing newlines are dropped first. Placeholders print once and in
/// interning order, so finding each in turn and never rescanning what was
/// already written leaves a value whose own text equals a placeholder
/// untouched. `None` when a placeholder is not found.
pub fn restore_placeholders(rendered: &str, table: &StringTable) -> (r: Option<String>)
    ensures
        match restore(trim_newlines(rendered@), table@) {
            Some(s) => r matches Some(out) && out@ == s,
            None => r is None,
        },
{
    let text = chars_of(rendered);
    let end = trimmed_len(&text);
    let ghost whole = text@.take(end as int);
    let entries = table.entries();
    let ghost es = table@;
    let mut out = String::new();
    let mut start: usize = 0;
    let mut k: usize = 0;
    assert(whole.skip(0) =~= whole);
    assert(es.skip(0) =~= es);
    while k < entries.len()
        invariant
            start <= end <= text@.len(),
            whole == text@.take(end as int),
            whole == trim_newlines(rendered@),
            0 <= k <= entries@.len(),
            crate::printing::entry_views(entries@) == es,
            es == table@,
            restore(whole, es) == match restore(whole.skip(start as int), es.skip(k as int)) {
                Some(tail) => Some(out@ + tail),
                None => None,
            },
        decreases entries@.len() - k,
    {
        let ghost rest = whole.skip(start as int);
        assert(rest =~= text@.subrange(start as int, end as int));
        assert(es.skip(k as int)[0] == es[k as int]);
        assert(es.skip(k as int).drop_first() =~= es.skip(k + 1));
        let (placeholder, original) = entries[k];
        assert(es[k as int] == (placeholder@, original@));
        let needle = quoted_chars(placeholder);
        assert(needle@ == quoted(es.skip(k as int)[0].0));
        proof {
            lemma_find_from_bounds(rest, needle@, 0);
        }
        match find_in(&text, start, end, &needle) {
            None => {
                assert(first_occurrence(rest, needle@) is None);
                assert(restore(rest, es.skip(k as int)) is None);
                assert(restore(whole, es) is None);
                assert(es == table@);
                return None;
            },
            Some(pos) => {
                let ghost p = pos - start;
                assert(first_occurrence(rest, needle@) == Some(p));
                assert(rest.take(p) =~= text@.subrange(start as int, pos as int));
                assert(rest.skip(p + needle@.len()) =~= whole.skip(pos + needle@.len()));
                push_chars(&mut out, &text, start, pos);
                let canon = canonical_string(original);
                out.append(canon.as_str());
                start = pos + needle.len();
            },
        }
        k = k + 1;
    }
    assert(es.skip(k as int) =~= Seq::<(Seq<char>, Seq<char>)>::empty());
    assert(whole.skip(start as int) =~= text@.subrange(start as int, end as int));
    push_chars(&mut out, &text, start, end);
    Some(out)
}

/// Render a document back to GraphQL source, or `None` where the parser's
/// printer does not write the placeholders as expected.
///
/// A printable document always prints.
pub fn try_print(document: &Document) -> (r: Option<String>)
    ensures
        match printed(document@) {
            Some(s) => r matches Some(out) && out@ == s,
            None => r is None,
        },
        printable(document@) ==> r is Some,
{
    let (normalized, table) = prepare_for_printing(document);
    let rendered = render_document(&normalized);
    proof {
        if printable(document@) {
            lemma_printable_restores(document@, rendered@);
        }
    }
    restore_placeholders(rendered.as_str(), &table)
}

/// Render a [`Document`] back to GraphQL source.
///
/// Output uses two-space indentation, one selection per line, and a single
/// blank line between top level definitions. There is no trailing newline.
/// A `query` with no name, no variables, and no directives prints in
/// shorthand form as just its selection set. String values print as
/// canonical single-line GraphQL strings.
///
/// The document must be printable: every object's keys strictly ascending,
/// as [`crate::parse`] makes them, and no string value in the variables of a
/// subscription without a name, which the parser's printer does not write.
pub fn print(document: &Document) -> (r: String)
    requires
        printable(document@),
    ensures
        printed(document@) is Some,
        r@ == printed(document@)->0,
{
    match try_print(document) {
        Some(out) => out,
        None => {
            assert(false);
            String::new()
        },
    }
}

proof fn lemma_restore_no_trailing_newline(text: Seq<char>, entries: SpecTable)
    requires
        text.len() == 0 || text.last() != '\n',
    ensures
        restore(text, entries) matches Some(s) ==> s.len() == 0 || s.last() != '\n',
    decreases entries.len(),
{
    if entries.len() > 0 {
        let needle = quoted(entries[0].0);
        lemma_find_from_bounds(text, needle, 0);
        if let Some(pos) = first_occurrence(text, needle) {
            let rest = text.skip(pos + needle.len());
            if rest.len() > 0 {
                assert(rest.last() == text.last());
            }
            lemma_restore_no_trailing_newline(rest, entries.drop_first());
            if let Some(tail) = restore(rest, entries.drop_first()) {
                let c = canonical(entries[0].1);
                law_canonical_string_is_single_line(entries[0].1);
                let s = text.take(pos) + c + tail;
                if tail.len() > 0 {
                    assert(s.last() == tail.last());
                } else {
                    assert(s.last() == c.last());
                }
            }
        }
    }
}

/// Law: what `print` writes has no trailing newline.
pub proof fn law_print_has_no_trailing_newline(doc: SpecDocument)
    ensures
        printed(doc) matches Some(s) ==> s.len() == 0 || s.last() != '\n',
{
    let (p, t) = prepared(doc);
    lemma_trim_newlines_prefix(rendered_document(p));
    lemma_restore_no_trailing_newline(trim_newlines(rendered_document(p)), t);
}

proof fn lemma_rw_definitions_not_bare(ds: Seq<SpecDefinition>, t: SpecTable)
    ensures
        forall|i: int|
            0 <= i < rw_definitions(ds, t).0.len() ==> !is_bare_query(
                #[trigger] rw_definitions(ds, t).0[i],
            ),
        rw_definitions(ds, t).0.len() == ds.len(),
    decreases ds.len(),
{
    if ds.len() > 0 {
        lemma_rw_definitions_not_bare(ds.drop_last(), t);
        let (front, t1) = rw_definitions(ds.drop_last(), t);
        let (x, t2) = rw_definition(ds.last(), t1);
        assert forall|i: int| 0 <= i < front.push(shorthand(x)).len() implies !is_bare_query(
            #[trigger] front.push(shorthand(x))[i],
        ) by {
            if i < front.len() {
                assert(front.push(shorthand(x))[i] == front[i]);
            }
        }
    }
}

/// Law: the document handed to the parser's printer holds no bare query
/// (no `query` without name, variables and directives), so each such
/// query prints in its shorthand form; and it has as many definitions as
/// the document printed.
pub proof fn law_bare_queries_print_as_shorthand(doc: SpecDocument)
    ensures
        prepared(doc).0.definitions.len() == doc.definitions.len(),
        forall|i: int|
            0 <= i < prepared(doc).0.definitions.len() ==> !is_bare_query(
                #[trigger] prepared(doc).0.definitions[i],
            ),
{
    lemma_rw_definitions_not_bare(doc.definitions, Seq::empty());
}

} // verus!
