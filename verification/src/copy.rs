//! Deep copies of the document model that keep the view.
use vstd::prelude::*;
use crate::ast::{
    args_model, directives_model, selections_model, values_model, variables_model, Definition,
    Directive, Document, Field, FragmentDefinition, FragmentSpread, InlineFragment, Operation,
    OperationDefinition, Selection, SelectionSet, Type, Value, VariableDefinition,
};

verus! {

fn copy_opt_string(s: &Option<String>) -> (r: Option<String>)
    ensures
        r == *s,
{
    match s {
        Some(s) => Some(s.clone()),
        None => None,
    }
}

impl Value {
    /// A copy of this value.
    pub fn duplicate(&self) -> (r: Value)
        ensures
            r@ == self@,
        decreases self,
    {
        match self {
            Value::Str(s) => Value::Str(s.clone()),
            Value::List(items) => Value::List(copy_values(items)),
            Value::Object(fields) => Value::Object(copy_args(fields)),
            Value::Scalar(raw) => Value::Scalar(raw.duplicate()),
        }
    }
}

fn copy_values(items: &Vec<Value>) -> (r: Vec<Value>)
    ensures
        values_model(r@) == values_model(items@),
    decreases items,
{
    let mut out: Vec<Value> = Vec::new();
    let mut i: usize = 0;
    while i < items.len()
        invariant
            0 <= i <= items.len(),
            out@.len() == i,
            forall|j: int| 0 <= j < i ==> (#[trigger] out@[j])@ == items@[j]@,
        decreases items.len() - i,
    {
        assert(decreases_to!(items => items[i as int]));
        let v = items[i].duplicate();
        out.push(v);
        i = i + 1;
    }
    assert(values_model(out@) =~= values_model(items@));
    out
}

fn copy_args(fields: &Vec<(String, Value)>) -> (r: Vec<(String, Value)>)
    ensures
        args_model(r@) == args_model(fields@),
    decreases fields,
{
    let mut out: Vec<(String, Value)> = Vec::new();
    let mut i: usize = 0;
    while i < fields.len()
        invariant
            0 <= i <= fields.len(),
            out@.len() == i,
            forall|j: int|
                0 <= j < i ==> (#[trigger] out@[j]).0@ == fields@[j].0@ && out@[j].1@
                    == fields@[j].1@,
        decreases fields.len() - i,
    {
        assert(decreases_to!(fields => fields[i as int]));
        let name = fields[i].0.clone();
        let v = fields[i].1.duplicate();
        out.push((name, v));
        i = i + 1;
    }
    assert(args_model(out@) =~= args_model(fields@));
    out
}

impl Type {
    /// A copy of this type annotation.
    pub fn duplicate(&self) -> (r: Type)
        ensures
            r@ == self@,
        decreases self,
    {
        match self {
            Type::Named(n) => Type::Named(n.clone()),
            Type::List(inner) => Type::List(Box::new((**inner).duplicate())),
            Type::NonNull(inner) => Type::NonNull(Box::new((**inner).duplicate())),
        }
    }
}

impl Directive {
    /// A copy of this directive.
    pub fn duplicate(&self) -> (r: Directive)
        ensures
            r@ == self@,
    {
        Directive { name: self.name.clone(), arguments: copy_args(&self.arguments) }
    }
}

fn copy_directives(ds: &Vec<Directive>) -> (r: Vec<Directive>)
    ensures
        directives_model(r@) == directives_model(ds@),
{
    let mut out: Vec<Directive> = Vec::new();
    let mut i: usize = 0;
    while i < ds.len()
        invariant
            0 <= i <= ds.len(),
            out@.len() == i,
            forall|j: int| 0 <= j < i ==> (#[trigger] out@[j])@ == ds@[j]@,
        decreases ds.len() - i,
    {
        out.push(ds[i].duplicate());
        i = i + 1;
    }
    assert(directives_model(out@) =~= directives_model(ds@));
    out
}

impl VariableDefinition {
    /// A copy of this variable definition.
    pub fn duplicate(&self) -> (r: VariableDefinition)
        ensures
            r@ == self@,
    {
        let default_value = match &self.default_value {
            Some(v) => Some(v.duplicate()),
            None => None,
        };
        VariableDefinition {
            name: self.name.clone(),
            var_type: self.var_type.duplicate(),
            default_value,
        }
    }
}

fn copy_variables(vs: &Vec<VariableDefinition>) -> (r: Vec<VariableDefinition>)
    ensures
        variables_model(r@) == variables_model(vs@),
{
    let mut out: Vec<VariableDefinition> = Vec::new();
    let mut i: usize = 0;
    while i < vs.len()
        invariant
            0 <= i <= vs.len(),
            out@.len() == i,
            forall|j: int| 0 <= j < i ==> (#[trigger] out@[j])@ == vs@[j]@,
        decreases vs.len() - i,
    {
        out.push(vs[i].duplicate());
        i = i + 1;
    }
    assert(variables_model(out@) =~= variables_model(vs@));
    out
}

impl Selection {
    /// A copy of this selection and everything under it.
    pub fn duplicate(&self) -> (r: Selection)
        ensures
            r@ == self@,
        decreases self,
    {
        match self {
            Selection::Field(f) => Selection::Field(
                Field {
                    alias: copy_opt_string(&f.alias),
                    name: f.name.clone(),
                    arguments: copy_args(&f.arguments),
                    directives: copy_directives(&f.directives),
                    selection_set: f.selection_set.duplicate(),
                },
            ),
            Selection::FragmentSpread(s) => Selection::FragmentSpread(
                FragmentSpread {
                    fragment_name: s.fragment_name.clone(),
                    directives: copy_directives(&s.directives),
                },
            ),
            Selection::InlineFragment(inl) => Selection::InlineFragment(
                InlineFragment {
                    type_condition: copy_opt_string(&inl.type_condition),
                    directives: copy_directives(&inl.directives),
                    selection_set: inl.selection_set.duplicate(),
                },
            ),
        }
    }
}

impl SelectionSet {
    /// A copy of this selection set and everything under it.
    pub fn duplicate(&self) -> (r: SelectionSet)
        ensures
            r@ == self@,
        decreases self,
    {
        let mut out: Vec<Selection> = Vec::new();
        let mut i: usize = 0;
        while i < self.items.len()
            invariant
                0 <= i <= self.items.len(),
                out@.len() == i,
                forall|j: int| 0 <= j < i ==> (#[trigger] out@[j])@ == self.items@[j]@,
            decreases self.items.len() - i,
        {
            assert(decreases_to!(self.items => self.items[i as int]));
            out.push(self.items[i].duplicate());
            i = i + 1;
        }
        assert(selections_model(out@) =~= selections_model(self.items@));
        SelectionSet { items: out }
    }
}

impl Operation {
    /// A copy of this operation.
    pub fn duplicate(&self) -> (r: Operation)
        ensures
            r@ == self@,
    {
        Operation {
            name: copy_opt_string(&self.name),
            variable_definitions: copy_variables(&self.variable_definitions),
            directives: copy_directives(&self.directives),
            selection_set: self.selection_set.duplicate(),
        }
    }
}

impl OperationDefinition {
    /// A copy of this operation definition.
    pub fn duplicate(&self) -> (r: OperationDefinition)
        ensures
            r@ == self@,
    {
        match self {
            OperationDefinition::SelectionSet(set) => OperationDefinition::SelectionSet(
                set.duplicate(),
            ),
            OperationDefinition::Query(q) => OperationDefinition::Query(q.duplicate()),
            OperationDefinition::Mutation(m) => OperationDefinition::Mutation(m.duplicate()),
            OperationDefinition::Subscription(s) => OperationDefinition::Subscription(
                s.duplicate(),
            ),
        }
    }
}

impl FragmentDefinition {
    /// A copy of this fragment definition.
    pub fn duplicate(&self) -> (r: FragmentDefinition)
        ensures
            r@ == self@,
    {
        FragmentDefinition {
            name: self.name.clone(),
            type_condition: self.type_condition.clone(),
            directives: copy_directives(&self.directives),
            selection_set: self.selection_set.duplicate(),
        }
    }
}

impl Definition {
    /// A copy of this definition.
    pub fn duplicate(&self) -> (r: Definition)
        ensures
            r@ == self@,
    {
        match self {
            Definition::Operation(op) => Definition::Operation(op.duplicate()),
            Definition::Fragment(f) => Definition::Fragment(f.duplicate()),
        }
    }
}

impl Document {
    /// A copy of this document.
    pub fn duplicate(&self) -> (r: Document)
        ensures
            r@ == self@,
    {
        let mut out: Vec<Definition> = Vec::new();
        let mut i: usize = 0;
        while i < self.definitions.len()
            invariant
                0 <= i <= self.definitions.len(),
                out@.len() == i,
                forall|j: int| 0 <= j < i ==> (#[trigger] out@[j])@ == self.definitions@[j]@,
            decreases self.definitions.len() - i,
        {
            out.push(self.definitions[i].duplicate());
            i = i + 1;
        }
        let r = Document { definitions: out };
        assert(r@.definitions =~= self@.definitions);
        r
    }
}

} // verus!
