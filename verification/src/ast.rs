//! The document model: an owned GraphQL executable document, and the
//! mathematical view of it that the contracts speak of.
//!
//! Every exec type has a `Spec` counterpart in which strings are `Seq<char>`
//! and vectors are `Seq`; `@` maps the one to the other.
use vstd::prelude::*;
use crate::raw::RawScalar;

verus! {

// ---------------------------------------------------------------------------
// Exec types
// ---------------------------------------------------------------------------

/// A value in an argument list or a variable default.
#[derive(Debug)]
pub enum Value {
    /// A string value, as the parser decoded it.
    Str(String),
    /// A list value.
    List(Vec<Value>),
    /// An input object, its fields in the order the parser yields them.
    Object(Vec<(String, Value)>),
    /// Any other value (variable, number, boolean, null, enum), carried as
    /// the parser produced it.
    Scalar(RawScalar),
}

/// A variable's type annotation.
#[derive(Debug)]
pub enum Type {
    Named(String),
    List(Box<Type>),
    NonNull(Box<Type>),
}

/// A directive such as `@include(if: $x)`.
#[derive(Debug)]
pub struct Directive {
    pub name: String,
    pub arguments: Vec<(String, Value)>,
}

/// A variable definition of an operation, such as `$id: ID! = 4`.
#[derive(Debug)]
pub struct VariableDefinition {
    pub name: String,
    pub var_type: Type,
    pub default_value: Option<Value>,
}

/// A selection set: the items between braces.
#[derive(Debug)]
pub struct SelectionSet {
    pub items: Vec<Selection>,
}

/// One item of a selection set.
#[derive(Debug)]
pub enum Selection {
    Field(Field),
    FragmentSpread(FragmentSpread),
    InlineFragment(InlineFragment),
}

/// A field, with its alias, arguments, directives and sub-selection.
#[derive(Debug)]
pub struct Field {
    pub alias: Option<String>,
    pub name: String,
    pub arguments: Vec<(String, Value)>,
    pub directives: Vec<Directive>,
    pub selection_set: SelectionSet,
}

/// A spread of a named fragment, `...Name`.
#[derive(Debug)]
pub struct FragmentSpread {
    pub fragment_name: String,
    pub directives: Vec<Directive>,
}

/// An inline fragment, `... on Type { ... }`.
#[derive(Debug)]
pub struct InlineFragment {
    pub type_condition: Option<String>,
    pub directives: Vec<Directive>,
    pub selection_set: SelectionSet,
}

/// The parts common to a query, a mutation and a subscription.
#[derive(Debug)]
pub struct Operation {
    pub name: Option<String>,
    pub variable_definitions: Vec<VariableDefinition>,
    pub directives: Vec<Directive>,
    pub selection_set: SelectionSet,
}

/// An operation definition: the shorthand `{ ... }` form or a keyword form.
#[derive(Debug)]
pub enum OperationDefinition {
    SelectionSet(SelectionSet),
    Query(Operation),
    Mutation(Operation),
    Subscription(Operation),
}

/// A fragment definition, `fragment Name on Type { ... }`.
#[derive(Debug)]
pub struct FragmentDefinition {
    pub name: String,
    pub type_condition: String,
    pub directives: Vec<Directive>,
    pub selection_set: SelectionSet,
}

/// A top level definition.
#[derive(Debug)]
pub enum Definition {
    Operation(OperationDefinition),
    Fragment(FragmentDefinition),
}

/// A parsed GraphQL executable document.
#[derive(Debug)]
pub struct Document {
    pub definitions: Vec<Definition>,
}

// ---------------------------------------------------------------------------
// Spec types
// ---------------------------------------------------------------------------

pub enum SpecValue {
    Str(Seq<char>),
    List(Seq<SpecValue>),
    Object(Seq<(Seq<char>, SpecValue)>),
    Scalar(RawScalar),
}

pub enum SpecType {
    Named(Seq<char>),
    List(Box<SpecType>),
    NonNull(Box<SpecType>),
}

pub struct SpecDirective {
    pub name: Seq<char>,
    pub arguments: Seq<(Seq<char>, SpecValue)>,
}

pub struct SpecVariableDefinition {
    pub name: Seq<char>,
    pub var_type: SpecType,
    pub default_value: Option<SpecValue>,
}

pub enum SpecSelection {
    Field {
        alias: Option<Seq<char>>,
        name: Seq<char>,
        arguments: Seq<(Seq<char>, SpecValue)>,
        directives: Seq<SpecDirective>,
        selection_set: Seq<SpecSelection>,
    },
    FragmentSpread { fragment_name: Seq<char>, directives: Seq<SpecDirective> },
    InlineFragment {
        type_condition: Option<Seq<char>>,
        directives: Seq<SpecDirective>,
        selection_set: Seq<SpecSelection>,
    },
}

pub struct SpecOperation {
    pub name: Option<Seq<char>>,
    pub variable_definitions: Seq<SpecVariableDefinition>,
    pub directives: Seq<SpecDirective>,
    pub selection_set: Seq<SpecSelection>,
}

pub enum SpecOperationDefinition {
    SelectionSet(Seq<SpecSelection>),
    Query(SpecOperation),
    Mutation(SpecOperation),
    Subscription(SpecOperation),
}

pub struct SpecFragmentDefinition {
    pub name: Seq<char>,
    pub type_condition: Seq<char>,
    pub directives: Seq<SpecDirective>,
    pub selection_set: Seq<SpecSelection>,
}

pub enum SpecDefinition {
    Operation(SpecOperationDefinition),
    Fragment(SpecFragmentDefinition),
}

pub struct SpecDocument {
    pub definitions: Seq<SpecDefinition>,
}

// ---------------------------------------------------------------------------
// Views
// ---------------------------------------------------------------------------

pub open spec fn opt_str_model(o: Option<String>) -> Option<Seq<char>> {
    match o {
        Some(s) => Some(s@),
        None => None,
    }
}

pub open spec fn value_model(v: Value) -> SpecValue
    decreases v,
{
    match v {
        Value::Str(s) => SpecValue::Str(s@),
        Value::List(items) => SpecValue::List(values_model(items@)),
        Value::Object(fields) => SpecValue::Object(args_model(fields@)),
        Value::Scalar(r) => SpecValue::Scalar(r),
    }
}

pub open spec fn values_model(vs: Seq<Value>) -> Seq<SpecValue>
    decreases vs,
{
    Seq::new(
        vs.len(),
        |i: int|
            if 0 <= i < vs.len() {
                value_model(vs[i])
            } else {
                SpecValue::Str(Seq::empty())
            },
    )
}

/// The view of an argument list or of an object's fields.
pub open spec fn args_model(fs: Seq<(String, Value)>) -> Seq<(Seq<char>, SpecValue)>
    decreases fs,
{
    Seq::new(
        fs.len(),
        |i: int|
            if 0 <= i < fs.len() {
                (fs[i].0@, value_model(fs[i].1))
            } else {
                (Seq::empty(), SpecValue::Str(Seq::empty()))
            },
    )
}

pub open spec fn type_model(t: Type) -> SpecType
    decreases t,
{
    match t {
        Type::Named(n) => SpecType::Named(n@),
        Type::List(inner) => SpecType::List(Box::new(type_model(*inner))),
        Type::NonNull(inner) => SpecType::NonNull(Box::new(type_model(*inner))),
    }
}

pub open spec fn directive_model(d: Directive) -> SpecDirective {
    SpecDirective { name: d.name@, arguments: args_model(d.arguments@) }
}

pub open spec fn directives_model(ds: Seq<Directive>) -> Seq<SpecDirective> {
    ds.map_values(|d: Directive| directive_model(d))
}

pub open spec fn opt_value_model(o: Option<Value>) -> Option<SpecValue> {
    match o {
        Some(v) => Some(value_model(v)),
        None => None,
    }
}

pub open spec fn variable_model(v: VariableDefinition) -> SpecVariableDefinition {
    SpecVariableDefinition {
        name: v.name@,
        var_type: type_model(v.var_type),
        default_value: opt_value_model(v.default_value),
    }
}

pub open spec fn variables_model(vs: Seq<VariableDefinition>) -> Seq<SpecVariableDefinition> {
    vs.map_values(|v: VariableDefinition| variable_model(v))
}

pub open spec fn selection_model(s: Selection) -> SpecSelection
    decreases s,
{
    match s {
        Selection::Field(f) => SpecSelection::Field {
            alias: opt_str_model(f.alias),
            name: f.name@,
            arguments: args_model(f.arguments@),
            directives: directives_model(f.directives@),
            selection_set: selections_model(f.selection_set.items@),
        },
        Selection::FragmentSpread(fs) => SpecSelection::FragmentSpread {
            fragment_name: fs.fragment_name@,
            directives: directives_model(fs.directives@),
        },
        Selection::InlineFragment(inl) => SpecSelection::InlineFragment {
            type_condition: opt_str_model(inl.type_condition),
            directives: directives_model(inl.directives@),
            selection_set: selections_model(inl.selection_set.items@),
        },
    }
}

pub open spec fn selections_model(ss: Seq<Selection>) -> Seq<SpecSelection>
    decreases ss,
{
    Seq::new(
        ss.len(),
        |i: int|
            if 0 <= i < ss.len() {
                selection_model(ss[i])
            } else {
                SpecSelection::FragmentSpread { fragment_name: Seq::empty(), directives: Seq::empty() }
            },
    )
}

pub open spec fn operation_model(op: Operation) -> SpecOperation {
    SpecOperation {
        name: opt_str_model(op.name),
        variable_definitions: variables_model(op.variable_definitions@),
        directives: directives_model(op.directives@),
        selection_set: selections_model(op.selection_set.items@),
    }
}

pub open spec fn operation_definition_model(op: OperationDefinition) -> SpecOperationDefinition {
    match op {
        OperationDefinition::SelectionSet(set) => SpecOperationDefinition::SelectionSet(
            selections_model(set.items@),
        ),
        OperationDefinition::Query(q) => SpecOperationDefinition::Query(operation_model(q)),
        OperationDefinition::Mutation(m) => SpecOperationDefinition::Mutation(operation_model(m)),
        OperationDefinition::Subscription(s) => SpecOperationDefinition::Subscription(
            operation_model(s),
        ),
    }
}

pub open spec fn fragment_model(f: FragmentDefinition) -> SpecFragmentDefinition {
    SpecFragmentDefinition {
        name: f.name@,
        type_condition: f.type_condition@,
        directives: directives_model(f.directives@),
        selection_set: selections_model(f.selection_set.items@),
    }
}

pub open spec fn definition_model(d: Definition) -> SpecDefinition {
    match d {
        Definition::Operation(op) => SpecDefinition::Operation(operation_definition_model(op)),
        Definition::Fragment(f) => SpecDefinition::Fragment(fragment_model(f)),
    }
}

pub open spec fn definitions_model(ds: Seq<Definition>) -> Seq<SpecDefinition> {
    ds.map_values(|d: Definition| definition_model(d))
}

impl View for Value {
    type V = SpecValue;

    open spec fn view(&self) -> SpecValue {
        value_model(*self)
    }
}

impl View for Type {
    type V = SpecType;

    open spec fn view(&self) -> SpecType {
        type_model(*self)
    }
}

impl View for Directive {
    type V = SpecDirective;

    open spec fn view(&self) -> SpecDirective {
        directive_model(*self)
    }
}

impl View for VariableDefinition {
    type V = SpecVariableDefinition;

    open spec fn view(&self) -> SpecVariableDefinition {
        variable_model(*self)
    }
}

impl View for SelectionSet {
    type V = Seq<SpecSelection>;

    open spec fn view(&self) -> Seq<SpecSelection> {
        selections_model(self.items@)
    }
}

impl View for Selection {
    type V = SpecSelection;

    open spec fn view(&self) -> SpecSelection {
        selection_model(*self)
    }
}

impl View for Operation {
    type V = SpecOperation;

    open spec fn view(&self) -> SpecOperation {
        operation_model(*self)
    }
}

impl View for OperationDefinition {
    type V = SpecOperationDefinition;

    open spec fn view(&self) -> SpecOperationDefinition {
        operation_definition_model(*self)
    }
}

impl View for FragmentDefinition {
    type V = SpecFragmentDefinition;

    open spec fn view(&self) -> SpecFragmentDefinition {
        fragment_model(*self)
    }
}

impl View for Definition {
    type V = SpecDefinition;

    open spec fn view(&self) -> SpecDefinition {
        definition_model(*self)
    }
}

impl View for Document {
    type V = SpecDocument;

    open spec fn view(&self) -> SpecDocument {
        SpecDocument { definitions: definitions_model(self.definitions@) }
    }
}

} // verus!
