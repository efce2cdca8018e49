//! The string values of a document in the order the parser's printer writes
//! them, and the shape of document that it prints with every one of them.
use vstd::prelude::*;
use crate::ast::{
    SpecFragmentDefinition, SpecDefinition, SpecDirective, SpecDocument, SpecOperation, SpecOperationDefinition,
    SpecSelection, SpecValue, SpecVariableDefinition,
};
use crate::text::occurs_at;

verus! {

// ---------------------------------------------------------------------------
// String values in printing order
// ---------------------------------------------------------------------------

pub open spec fn value_strings(v: SpecValue) -> Seq<Seq<char>>
    decreases v,
{
    match v {
        SpecValue::Str(s) => seq![s],
        SpecValue::List(items) => values_strings(items),
        SpecValue::Object(fields) => args_strings(fields),
        SpecValue::Scalar(_) => Seq::empty(),
    }
}

pub open spec fn values_strings(vs: Seq<SpecValue>) -> Seq<Seq<char>>
    decreases vs,
{
    if vs.len() == 0 {
        Seq::empty()
    } else {
        values_strings(vs.drop_last()) + value_strings(vs.last())
    }
}

/// The string values of an argument list or of an object's fields.
pub open spec fn args_strings(fs: Seq<(Seq<char>, SpecValue)>) -> Seq<Seq<char>>
    decreases fs,
{
    if fs.len() == 0 {
        Seq::empty()
    } else {
        args_strings(fs.drop_last()) + value_strings(fs.last().1)
    }
}

pub open spec fn directives_strings(ds: Seq<SpecDirective>) -> Seq<Seq<char>>
    decreases ds.len(),
{
    if ds.len() == 0 {
        Seq::empty()
    } else {
        directives_strings(ds.drop_last()) + args_strings(ds.last().arguments)
    }
}

pub open spec fn opt_value_strings(o: Option<SpecValue>) -> Seq<Seq<char>> {
    match o {
        Some(v) => value_strings(v),
        None => Seq::empty(),
    }
}

/// The string values of the variables' default values.
pub open spec fn variables_strings(vs: Seq<SpecVariableDefinition>) -> Seq<Seq<char>>
    decreases vs.len(),
{
    if vs.len() == 0 {
        Seq::empty()
    } else {
        variables_strings(vs.drop_last()) + opt_value_strings(vs.last().default_value)
    }
}

pub open spec fn selection_strings(s: SpecSelection) -> Seq<Seq<char>>
    decreases s,
{
    match s {
        SpecSelection::Field { arguments, directives, selection_set, .. } => args_strings(arguments)
            + directives_strings(directives) + selections_strings(selection_set),
        SpecSelection::FragmentSpread { directives, .. } => directives_strings(directives),
        SpecSelection::InlineFragment { directives, selection_set, .. } => directives_strings(
            directives,
        ) + selections_strings(selection_set),
    }
}

pub open spec fn selections_strings(ss: Seq<SpecSelection>) -> Seq<Seq<char>>
    decreases ss,
{
    if ss.len() == 0 {
        Seq::empty()
    } else {
        selections_strings(ss.drop_last()) + selection_strings(ss.last())
    }
}

/// The string values of an operation; those of its variables' defaults only
/// when `with_variables`.
pub open spec fn operation_strings(op: SpecOperation, with_variables: bool) -> Seq<Seq<char>> {
    (if with_variables {
        variables_strings(op.variable_definitions)
    } else {
        Seq::empty()
    }) + directives_strings(op.directives) + selections_strings(op.selection_set)
}

/// The string values that the printer writes for an operation definition: a
/// subscription's variable definitions are written only when it has a name.
pub open spec fn operation_definition_strings(op: SpecOperationDefinition) -> Seq<Seq<char>> {
    match op {
        SpecOperationDefinition::SelectionSet(set) => selections_strings(set),
        SpecOperationDefinition::Query(q) => operation_strings(q, true),
        SpecOperationDefinition::Mutation(m) => operation_strings(m, true),
        SpecOperationDefinition::Subscription(s) => operation_strings(s, s.name is Some),
    }
}

pub open spec fn definition_strings(d: SpecDefinition) -> Seq<Seq<char>> {
    match d {
        SpecDefinition::Operation(op) => operation_definition_strings(op),
        SpecDefinition::Fragment(f) => directives_strings(f.directives) + selections_strings(
            f.selection_set,
        ),
    }
}

pub open spec fn definitions_strings(ds: Seq<SpecDefinition>) -> Seq<Seq<char>>
    decreases ds.len(),
{
    if ds.len() == 0 {
        Seq::empty()
    } else {
        definitions_strings(ds.drop_last()) + definition_strings(ds.last())
    }
}

/// The string values that the parser's printer writes for a document, in
/// the order it writes them.
pub open spec fn document_strings(doc: SpecDocument) -> Seq<Seq<char>> {
    definitions_strings(doc.definitions)
}

// ---------------------------------------------------------------------------
// Objects with ascending keys
// ---------------------------------------------------------------------------

/// `a` comes before `b` in the order of `String`: lexicographic by code
/// point, a proper prefix first.
pub open spec fn name_less(a: Seq<char>, b: Seq<char>) -> bool
    decreases a.len(),
{
    if a.len() == 0 {
        b.len() > 0
    } else if b.len() == 0 {
        false
    } else if a[0] != b[0] {
        (a[0] as u32) < (b[0] as u32)
    } else {
        name_less(a.drop_first(), b.drop_first())
    }
}

/// The keys of an object's fields are strictly ascending, as a map keyed by
/// `String` yields them: no key twice.
pub open spec fn keys_ascending(fs: Seq<(Seq<char>, SpecValue)>) -> bool {
    forall|i: int, j: int| 0 <= i < j < fs.len() ==> name_less(#[trigger] fs[i].0, #[trigger] fs[j].0)
}

pub open spec fn value_sorted(v: SpecValue) -> bool
    decreases v,
{
    match v {
        SpecValue::List(items) => values_sorted(items),
        SpecValue::Object(fields) => keys_ascending(fields) && args_sorted(fields),
        _ => true,
    }
}

pub open spec fn values_sorted(vs: Seq<SpecValue>) -> bool
    decreases vs,
{
    vs.len() == 0 || (values_sorted(vs.drop_last()) && value_sorted(vs.last()))
}

/// Every object in an argument list, or in an object's fields, has
/// ascending keys.
pub open spec fn args_sorted(fs: Seq<(Seq<char>, SpecValue)>) -> bool
    decreases fs,
{
    fs.len() == 0 || (args_sorted(fs.drop_last()) && value_sorted(fs.last().1))
}

pub open spec fn directives_sorted(ds: Seq<SpecDirective>) -> bool
    decreases ds.len(),
{
    ds.len() == 0 || (directives_sorted(ds.drop_last()) && args_sorted(ds.last().arguments))
}

pub open spec fn variables_sorted(vs: Seq<SpecVariableDefinition>) -> bool
    decreases vs.len(),
{
    vs.len() == 0 || (variables_sorted(vs.drop_last()) && match vs.last().default_value {
        Some(v) => value_sorted(v),
        None => true,
    })
}

pub open spec fn selection_sorted(s: SpecSelection) -> bool
    decreases s,
{
    match s {
        SpecSelection::Field { arguments, directives, selection_set, .. } => args_sorted(arguments)
            && directives_sorted(directives) && selections_sorted(selection_set),
        SpecSelection::FragmentSpread { directives, .. } => directives_sorted(directives),
        SpecSelection::InlineFragment { directives, selection_set, .. } => directives_sorted(
            directives,
        ) && selections_sorted(selection_set),
    }
}

pub open spec fn selections_sorted(ss: Seq<SpecSelection>) -> bool
    decreases ss,
{
    ss.len() == 0 || (selections_sorted(ss.drop_last()) && selection_sorted(ss.last()))
}

pub open spec fn operation_sorted(op: SpecOperation) -> bool {
    variables_sorted(op.variable_definitions) && directives_sorted(op.directives)
        && selections_sorted(op.selection_set)
}

pub open spec fn definition_sorted(d: SpecDefinition) -> bool {
    match d {
        SpecDefinition::Operation(SpecOperationDefinition::SelectionSet(set)) => selections_sorted(
            set,
        ),
        SpecDefinition::Operation(SpecOperationDefinition::Query(q)) => operation_sorted(q),
        SpecDefinition::Operation(SpecOperationDefinition::Mutation(m)) => operation_sorted(m),
        SpecDefinition::Operation(SpecOperationDefinition::Subscription(s)) => operation_sorted(s),
        SpecDefinition::Fragment(f) => directives_sorted(f.directives) && selections_sorted(
            f.selection_set,
        ),
    }
}

/// Every object of the document has strictly ascending keys, as the
/// parser's map-backed objects do.
pub open spec fn document_sorted(doc: SpecDocument) -> bool {
    forall|i: int| 0 <= i < doc.definitions.len() ==> #[trigger] definition_sorted(doc.definitions[i])
}

// ---------------------------------------------------------------------------
// Printable documents
// ---------------------------------------------------------------------------

/// A subscription without a name holds no string value in its variables'
/// default values (the printer writes no variables for it).
pub open spec fn variables_written(d: SpecDefinition) -> bool {
    match d {
        SpecDefinition::Operation(SpecOperationDefinition::Subscription(s)) => s.name is Some
            || variables_strings(s.variable_definitions).len() == 0,
        _ => true,
    }
}

/// A document that `print` renders with every string value in place:
/// objects with ascending keys, and no string value in the variables of a
/// subscription without a name.
pub open spec fn printable(doc: SpecDocument) -> bool {
    &&& document_sorted(doc)
    &&& forall|i: int| 0 <= i < doc.definitions.len() ==> #[trigger] variables_written(doc.definitions[i])
}

// ---------------------------------------------------------------------------
// What the printer writes
// ---------------------------------------------------------------------------

/// A string that the printer writes between quotes as it is: no `"`, no
/// `\`, every character in U+0020..=U+FFFF.
pub open spec fn writes_verbatim(s: Seq<char>) -> bool {
    forall|i: int|
        0 <= i < s.len() ==> 0x20 <= (#[trigger] s[i] as u32) <= 0xFFFF && s[i] != '"' && s[i] != '\\'
}

/// Each of `ss` is written verbatim between quotes.
pub open spec fn all_written_verbatim(ss: Seq<Seq<char>>) -> bool {
    forall|i: int| 0 <= i < ss.len() ==> writes_verbatim(#[trigger] ss[i])
}

/// A string wrapped in double quotes.
pub open spec fn quoted(s: Seq<char>) -> Seq<char> {
    seq!['"'] + s + seq!['"']
}

/// Each of `ss` wrapped in double quotes.
pub open spec fn quoted_all(ss: Seq<Seq<char>>) -> Seq<Seq<char>> {
    ss.map_values(|s: Seq<char>| quoted(s))
}

/// The `needles` occur in `text` one after another, without overlapping.
pub open spec fn occurs_in_order(text: Seq<char>, needles: Seq<Seq<char>>) -> bool
    decreases needles.len(),
{
    if needles.len() == 0 {
        true
    } else {
        exists|p: int|
            #[trigger] occurs_at(text, needles[0], p) && occurs_in_order(
                text.skip(p + needles[0].len()),
                needles.drop_first(),
            )
    }
}

// ---------------------------------------------------------------------------
// Documents with their string values blanked
// ---------------------------------------------------------------------------

/// A value with every string value in it replaced by the empty string, and
/// everything else kept.
pub open spec fn blank_value(v: SpecValue) -> SpecValue
    decreases v,
{
    match v {
        SpecValue::Str(_) => SpecValue::Str(Seq::empty()),
        SpecValue::List(items) => SpecValue::List(blank_values(items)),
        SpecValue::Object(fields) => SpecValue::Object(blank_args(fields)),
        SpecValue::Scalar(_) => v,
    }
}

pub open spec fn blank_values(vs: Seq<SpecValue>) -> Seq<SpecValue>
    decreases vs,
{
    if vs.len() == 0 {
        vs
    } else {
        blank_values(vs.drop_last()).push(blank_value(vs.last()))
    }
}

pub open spec fn blank_args(fs: Seq<(Seq<char>, SpecValue)>) -> Seq<(Seq<char>, SpecValue)>
    decreases fs,
{
    if fs.len() == 0 {
        fs
    } else {
        blank_args(fs.drop_last()).push((fs.last().0, blank_value(fs.last().1)))
    }
}

pub open spec fn blank_directives(ds: Seq<SpecDirective>) -> Seq<SpecDirective>
    decreases ds.len(),
{
    if ds.len() == 0 {
        ds
    } else {
        blank_directives(ds.drop_last()).push(
            SpecDirective { name: ds.last().name, arguments: blank_args(ds.last().arguments) },
        )
    }
}

pub open spec fn blank_variables(vs: Seq<SpecVariableDefinition>) -> Seq<SpecVariableDefinition>
    decreases vs.len(),
{
    if vs.len() == 0 {
        vs
    } else {
        blank_variables(vs.drop_last()).push(
            SpecVariableDefinition {
                default_value: match vs.last().default_value {
                    Some(v) => Some(blank_value(v)),
                    None => None,
                },
                ..vs.last()
            },
        )
    }
}

pub open spec fn blank_selection(s: SpecSelection) -> SpecSelection
    decreases s,
{
    match s {
        SpecSelection::Field { alias, name, arguments, directives, selection_set } => SpecSelection::Field {
            alias,
            name,
            arguments: blank_args(arguments),
            directives: blank_directives(directives),
            selection_set: blank_selections(selection_set),
        },
        SpecSelection::FragmentSpread { fragment_name, directives } => SpecSelection::FragmentSpread {
            fragment_name,
            directives: blank_directives(directives),
        },
        SpecSelection::InlineFragment { type_condition, directives, selection_set } => SpecSelection::InlineFragment {
            type_condition,
            directives: blank_directives(directives),
            selection_set: blank_selections(selection_set),
        },
    }
}

pub open spec fn blank_selections(ss: Seq<SpecSelection>) -> Seq<SpecSelection>
    decreases ss,
{
    if ss.len() == 0 {
        ss
    } else {
        blank_selections(ss.drop_last()).push(blank_selection(ss.last()))
    }
}

pub open spec fn blank_operation(op: SpecOperation) -> SpecOperation {
    SpecOperation {
        name: op.name,
        variable_definitions: blank_variables(op.variable_definitions),
        directives: blank_directives(op.directives),
        selection_set: blank_selections(op.selection_set),
    }
}

/// A definition with every string value in it replaced by the empty string,
/// and everything else (kinds, names, aliases, arguments, directives,
/// selections, in their order) kept.
pub open spec fn blank_definition(d: SpecDefinition) -> SpecDefinition {
    match d {
        SpecDefinition::Operation(op) => SpecDefinition::Operation(
            match op {
                SpecOperationDefinition::SelectionSet(set) => SpecOperationDefinition::SelectionSet(
                    blank_selections(set),
                ),
                SpecOperationDefinition::Query(q) => SpecOperationDefinition::Query(blank_operation(q)),
                SpecOperationDefinition::Mutation(m) => SpecOperationDefinition::Mutation(
                    blank_operation(m),
                ),
                SpecOperationDefinition::Subscription(s) => SpecOperationDefinition::Subscription(
                    blank_operation(s),
                ),
            },
        ),
        SpecDefinition::Fragment(f) => SpecDefinition::Fragment(
            SpecFragmentDefinition {
                directives: blank_directives(f.directives),
                selection_set: blank_selections(f.selection_set),
                ..f
            },
        ),
    }
}

} // verus!
