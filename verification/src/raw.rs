//! The boundary with `graphql_parser`: the calls that parse and render
//! documents, and the parser's AST nodes, which the library holds only
//! inside opaque structs while converting them to and from the document
//! model.
//!
//! Each AST node type of the parser is held in an opaque struct of this
//! module, and the conversions are methods of those structs. They move or
//! copy fields one for one; a parser value other than a string, list or
//! object is kept whole as a [`RawScalar`]; positions are set to
//! `Pos::default()`, which the printer ignores.
use vstd::prelude::*;
use graphql_parser::query as gq;
use graphql_parser::query::OperationDefinition as Op;
use graphql_parser::Pos;
use crate::block_strings::block_strings_safe;
use crate::string_values::{
    all_written_verbatim, document_sorted, document_strings, occurs_in_order, quoted_all,
};
use crate::ast::{
    Definition, Directive, Document, Field, FragmentDefinition, FragmentSpread, InlineFragment,
    Operation, OperationDefinition, Selection, SelectionSet, SpecDocument, Type, Value,
    VariableDefinition,
};

verus! {

/// A leaf value of the parser's AST (variable, integer, float, boolean,
/// null or enum) that the library carries through unread.
#[derive(Debug)]
#[verifier::external_body]
pub struct RawScalar {
    value: gq::Value<'static, String>,
}

impl RawScalar {
    /// `Clone::clone` of the parser's `Value` (a derived clone): the copy
    /// is the same value.
    #[verifier::external_body]
    pub fn duplicate(&self) -> (r: RawScalar)
        ensures
            r == *self,
    {
        RawScalar { value: self.value.clone() }
    }
}

/// What `graphql_parser::parse_query` makes of a source text: the
/// document converted to the model, or the `Display` text of the error with
/// which it rejects the source.
pub uninterp spec fn parsed_document(source: Seq<char>) -> Result<SpecDocument, Seq<char>>;

/// The text that `graphql_parser`'s `Display` for `Document` writes for a
/// document converted from the model.
pub uninterp spec fn rendered_document(doc: SpecDocument) -> Seq<char>;

/// `graphql_parser::parse_query::<String>`, the result made `'static` by
/// `Document::into_static` and converted to the document model; a rejected
/// source gives the error's `Display` text.
///
/// The contract names the result: the grammar and the wording of the error
/// are the parser's. The parser panics while unquoting a block string whose
/// indentation holds non-ASCII whitespace, so the source must meet
/// [`block_strings_safe`]. The parser holds an object's fields in a map
/// keyed by name, which yields them in ascending order of the keys, so the
/// converted document's objects have strictly ascending keys.
#[verifier::external_body]
pub(crate) fn parse_query_text(source: &str) -> (r: Result<Document, String>)
    requires
        block_strings_safe(source@),
    ensures
        r matches Ok(d) ==> (parsed_document(source@) matches Ok(pd) && pd == d@),
        r matches Err(m) ==> (parsed_document(source@) matches Err(pm) && pm == m@),
        r matches Ok(d) ==> document_sorted(d@),
{
    match gq::parse_query::<String>(source) {
        Ok(doc) => Ok(DocumentNode { raw: doc.into_static() }.into_model()),
        Err(e) => Err(e.to_string()),
    }
}

/// `format!("{}", document)` with `graphql_parser`'s `Display` for
/// `Document`, on the document converted to the parser's AST.
///
/// The text is named, not stated. Of it the contract says one thing that
/// the printer's source shows: it appends as it walks the document, in the
/// order of `document_strings`, and writes a string value that needs no
/// escape (`writes_verbatim`) between quotes as it is. An object is converted
/// to the parser's map, whose order is that of its keys, so this holds when
/// every object's keys are strictly ascending (`document_sorted`).
#[verifier::external_body]
pub(crate) fn render_document(doc: &Document) -> (r: String)
    ensures
        r@ == rendered_document(doc@),
        document_sorted(doc@) && all_written_verbatim(document_strings(doc@)) ==> occurs_in_order(
            r@,
            quoted_all(document_strings(doc@)),
        ),
{
    format!("{}", DocumentNode::from_model(doc).raw)
}

#[verifier::external_body]
struct ValueNode {
    raw: gq::Value<'static, String>,
}

impl ValueNode {
    #[verifier::external_body]
    fn into_model(self) -> Value {
        match self.raw {
            gq::Value::String(s) => Value::Str(s),
            gq::Value::List(l) => Value::List(l.into_iter().map(|raw| ValueNode { raw }.into_model()).collect()),
            gq::Value::Object(o) => Value::Object(ArgumentsNode { raw: o.into_iter().collect() }.into_model()),
            raw => Value::Scalar(RawScalar { value: raw }),
        }
    }

    #[verifier::external_body]
    fn from_model(v: &Value) -> ValueNode {
        ValueNode { raw: match v {
            Value::Str(s) => gq::Value::String(s.clone()),
            Value::List(l) => gq::Value::List(l.iter().map(|v| ValueNode::from_model(v).raw).collect()),
            Value::Object(o) => gq::Value::Object(ArgumentsNode::from_model(o).raw.into_iter().collect()),
            Value::Scalar(s) => s.value.clone(),
        } }
    }
}

#[verifier::external_body]
struct ArgumentsNode {
    raw: Vec<(String, gq::Value<'static, String>)>,
}

impl ArgumentsNode {
    #[verifier::external_body]
    fn into_model(self) -> Vec<(String, Value)> {
        self.raw.into_iter().map(|(k, raw)| (k, ValueNode { raw }.into_model())).collect()
    }

    #[verifier::external_body]
    fn from_model(args: &Vec<(String, Value)>) -> ArgumentsNode {
        ArgumentsNode { raw: args.iter().map(|(k, v)| (k.clone(), ValueNode::from_model(v).raw)).collect() }
    }
}

#[verifier::external_body]
struct TypeNode {
    raw: gq::Type<'static, String>,
}

impl TypeNode {
    #[verifier::external_body]
    fn into_model(self) -> Type {
        match self.raw {
            gq::Type::NamedType(n) => Type::Named(n),
            gq::Type::ListType(t) => Type::List(Box::new(TypeNode { raw: *t }.into_model())),
            gq::Type::NonNullType(t) => Type::NonNull(Box::new(TypeNode { raw: *t }.into_model())),
        }
    }

    #[verifier::external_body]
    fn from_model(t: &Type) -> TypeNode {
        TypeNode { raw: match t {
            Type::Named(n) => gq::Type::NamedType(n.clone()),
            Type::List(t) => gq::Type::ListType(Box::new(TypeNode::from_model(t).raw)),
            Type::NonNull(t) => gq::Type::NonNullType(Box::new(TypeNode::from_model(t).raw)),
        } }
    }
}

#[verifier::external_body]
struct DirectivesNode {
    raw: Vec<gq::Directive<'static, String>>,
}

impl DirectivesNode {
    #[verifier::external_body]
    fn into_model(self) -> Vec<Directive> {
        self.raw.into_iter().map(|d| Directive {
            name: d.name, arguments: ArgumentsNode { raw: d.arguments }.into_model(),
        }).collect()
    }

    #[verifier::external_body]
    fn from_model(ds: &Vec<Directive>) -> DirectivesNode {
        DirectivesNode { raw: ds.iter().map(|d| gq::Directive {
            position: Pos::default(), name: d.name.clone(), arguments: ArgumentsNode::from_model(&d.arguments).raw,
        }).collect() }
    }
}

#[verifier::external_body]
struct VariablesNode {
    raw: Vec<gq::VariableDefinition<'static, String>>,
}

impl VariablesNode {
    #[verifier::external_body]
    fn into_model(self) -> Vec<VariableDefinition> {
        self.raw.into_iter().map(|v| VariableDefinition {
            name: v.name, var_type: TypeNode { raw: v.var_type }.into_model(),
            default_value: v.default_value.map(|raw| ValueNode { raw }.into_model()),
        }).collect()
    }

    #[verifier::external_body]
    fn from_model(vs: &Vec<VariableDefinition>) -> VariablesNode {
        VariablesNode { raw: vs.iter().map(|v| gq::VariableDefinition {
            position: Pos::default(), name: v.name.clone(), var_type: TypeNode::from_model(&v.var_type).raw,
            default_value: v.default_value.as_ref().map(|d| ValueNode::from_model(d).raw),
        }).collect() }
    }
}

#[verifier::external_body]
struct SelectionSetNode {
    raw: gq::SelectionSet<'static, String>,
}

impl SelectionSetNode {
    #[verifier::external_body]
    fn into_model(self) -> SelectionSet {
        SelectionSet { items: self.raw.items.into_iter().map(|raw| SelectionNode { raw }.into_model()).collect() }
    }

    #[verifier::external_body]
    fn from_model(set: &SelectionSet) -> SelectionSetNode {
        SelectionSetNode { raw: gq::SelectionSet {
            span: (Pos::default(), Pos::default()),
            items: set.items.iter().map(|s| SelectionNode::from_model(s).raw).collect(),
        } }
    }
}

#[verifier::external_body]
struct SelectionNode {
    raw: gq::Selection<'static, String>,
}

impl SelectionNode {
    #[verifier::external_body]
    fn into_model(self) -> Selection {
        match self.raw {
            gq::Selection::Field(f) => Selection::Field(FieldNode { raw: f }.into_model()),
            gq::Selection::FragmentSpread(s) => Selection::FragmentSpread(FragmentSpread {
                fragment_name: s.fragment_name,
                directives: DirectivesNode { raw: s.directives }.into_model(),
            }),
            gq::Selection::InlineFragment(i) => Selection::InlineFragment(InlineNode { raw: i }.into_model()),
        }
    }

    #[verifier::external_body]
    fn from_model(s: &Selection) -> SelectionNode {
        SelectionNode { raw: match s {
            Selection::Field(f) => gq::Selection::Field(FieldNode::from_model(f).raw),
            Selection::FragmentSpread(s) => gq::Selection::FragmentSpread(gq::FragmentSpread {
                position: Pos::default(),
                fragment_name: s.fragment_name.clone(),
                directives: DirectivesNode::from_model(&s.directives).raw,
            }),
            Selection::InlineFragment(i) => gq::Selection::InlineFragment(InlineNode::from_model(i).raw),
        } }
    }
}

#[verifier::external_body]
struct FieldNode {
    raw: gq::Field<'static, String>,
}

impl FieldNode {
    #[verifier::external_body]
    fn into_model(self) -> Field {
        let f = self.raw;
        Field {
            alias: f.alias,
            name: f.name,
            arguments: ArgumentsNode { raw: f.arguments }.into_model(),
            directives: DirectivesNode { raw: f.directives }.into_model(),
            selection_set: SelectionSetNode { raw: f.selection_set }.into_model(),
        }
    }

    #[verifier::external_body]
    fn from_model(f: &Field) -> FieldNode {
        FieldNode { raw: gq::Field {
            position: Pos::default(),
            alias: f.alias.clone(),
            name: f.name.clone(),
            arguments: ArgumentsNode::from_model(&f.arguments).raw,
            directives: DirectivesNode::from_model(&f.directives).raw,
            selection_set: SelectionSetNode::from_model(&f.selection_set).raw,
        } }
    }
}

#[verifier::external_body]
struct InlineNode {
    raw: gq::InlineFragment<'static, String>,
}

impl InlineNode {
    #[verifier::external_body]
    fn into_model(self) -> InlineFragment {
        let i = self.raw;
        InlineFragment {
            type_condition: i.type_condition.map(|gq::TypeCondition::On(t)| t),
            directives: DirectivesNode { raw: i.directives }.into_model(),
            selection_set: SelectionSetNode { raw: i.selection_set }.into_model(),
        }
    }

    #[verifier::external_body]
    fn from_model(i: &InlineFragment) -> InlineNode {
        InlineNode { raw: gq::InlineFragment {
            position: Pos::default(),
            type_condition: i.type_condition.clone().map(gq::TypeCondition::On),
            directives: DirectivesNode::from_model(&i.directives).raw,
            selection_set: SelectionSetNode::from_model(&i.selection_set).raw,
        } }
    }
}

/// The parts common to the parser's `Query`, `Mutation` and `Subscription`.
#[verifier::external_body]
struct OperationNode {
    name: Option<String>,
    variables: Vec<gq::VariableDefinition<'static, String>>,
    directives: Vec<gq::Directive<'static, String>>,
    selection_set: gq::SelectionSet<'static, String>,
}

impl OperationNode {
    #[verifier::external_body]
    fn into_model(self) -> Operation {
        Operation {
            name: self.name,
            variable_definitions: VariablesNode { raw: self.variables }.into_model(),
            directives: DirectivesNode { raw: self.directives }.into_model(),
            selection_set: SelectionSetNode { raw: self.selection_set }.into_model(),
        }
    }

    #[verifier::external_body]
    fn from_model(op: &Operation) -> OperationNode {
        OperationNode {
            name: op.name.clone(),
            variables: VariablesNode::from_model(&op.variable_definitions).raw,
            directives: DirectivesNode::from_model(&op.directives).raw,
            selection_set: SelectionSetNode::from_model(&op.selection_set).raw,
        }
    }
}

#[verifier::external_body]
struct OperationDefinitionNode {
    raw: gq::OperationDefinition<'static, String>,
}

impl OperationDefinitionNode {
    #[verifier::external_body]
    fn into_model(self) -> OperationDefinition {
        match self.raw {
            Op::SelectionSet(s) => OperationDefinition::SelectionSet(SelectionSetNode { raw: s }.into_model()),
            Op::Query(q) => OperationDefinition::Query(OperationNode { name: q.name, variables: q.variable_definitions, directives: q.directives, selection_set: q.selection_set }.into_model()),
            Op::Mutation(m) => OperationDefinition::Mutation(OperationNode { name: m.name, variables: m.variable_definitions, directives: m.directives, selection_set: m.selection_set }.into_model()),
            Op::Subscription(s) => OperationDefinition::Subscription(OperationNode { name: s.name, variables: s.variable_definitions, directives: s.directives, selection_set: s.selection_set }.into_model()),
        }
    }

    #[verifier::external_body]
    fn from_model(op: &OperationDefinition) -> OperationDefinitionNode {
        match op {
            OperationDefinition::SelectionSet(s) => OperationDefinitionNode { raw: Op::SelectionSet(SelectionSetNode::from_model(s).raw) },
            OperationDefinition::Query(q) => OperationDefinitionNode::from_query(OperationNode::from_model(q)),
            OperationDefinition::Mutation(m) => OperationDefinitionNode::from_mutation(OperationNode::from_model(m)),
            OperationDefinition::Subscription(s) => OperationDefinitionNode::from_subscription(OperationNode::from_model(s)),
        }
    }

    #[verifier::external_body]
    fn from_query(o: OperationNode) -> OperationDefinitionNode {
        OperationDefinitionNode { raw: Op::Query(gq::Query {
            position: Pos::default(), name: o.name, variable_definitions: o.variables,
            directives: o.directives, selection_set: o.selection_set,
        }) }
    }

    #[verifier::external_body]
    fn from_mutation(o: OperationNode) -> OperationDefinitionNode {
        OperationDefinitionNode { raw: Op::Mutation(gq::Mutation {
            position: Pos::default(), name: o.name, variable_definitions: o.variables,
            directives: o.directives, selection_set: o.selection_set,
        }) }
    }

    #[verifier::external_body]
    fn from_subscription(o: OperationNode) -> OperationDefinitionNode {
        OperationDefinitionNode { raw: Op::Subscription(gq::Subscription {
            position: Pos::default(), name: o.name, variable_definitions: o.variables,
            directives: o.directives, selection_set: o.selection_set,
        }) }
    }
}

#[verifier::external_body]
struct FragmentNode {
    raw: gq::FragmentDefinition<'static, String>,
}

impl FragmentNode {
    #[verifier::external_body]
    fn into_model(self) -> FragmentDefinition {
        let f = self.raw;
        FragmentDefinition {
            name: f.name,
            type_condition: match f.type_condition { gq::TypeCondition::On(t) => t },
            directives: DirectivesNode { raw: f.directives }.into_model(),
            selection_set: SelectionSetNode { raw: f.selection_set }.into_model(),
        }
    }

    #[verifier::external_body]
    fn from_model(f: &FragmentDefinition) -> FragmentNode {
        FragmentNode { raw: gq::FragmentDefinition {
            position: Pos::default(),
            name: f.name.clone(),
            type_condition: gq::TypeCondition::On(f.type_condition.clone()),
            directives: DirectivesNode::from_model(&f.directives).raw,
            selection_set: SelectionSetNode::from_model(&f.selection_set).raw,
        } }
    }
}

#[verifier::external_body]
struct DefinitionNode {
    raw: gq::Definition<'static, String>,
}

impl DefinitionNode {
    #[verifier::external_body]
    fn into_model(self) -> Definition {
        match self.raw {
            gq::Definition::Operation(op) => Definition::Operation(OperationDefinitionNode { raw: op }.into_model()),
            gq::Definition::Fragment(f) => Definition::Fragment(FragmentNode { raw: f }.into_model()),
        }
    }

    #[verifier::external_body]
    fn from_model(d: &Definition) -> DefinitionNode {
        DefinitionNode { raw: match d {
            Definition::Operation(op) => gq::Definition::Operation(OperationDefinitionNode::from_model(op).raw),
            Definition::Fragment(f) => gq::Definition::Fragment(FragmentNode::from_model(f).raw),
        } }
    }
}

#[verifier::external_body]
struct DocumentNode {
    raw: gq::Document<'static, String>,
}

impl DocumentNode {
    #[verifier::external_body]
    fn into_model(self) -> Document {
        Document { definitions: self.raw.definitions.into_iter().map(|raw| DefinitionNode { raw }.into_model()).collect() }
    }

    #[verifier::external_body]
    fn from_model(doc: &Document) -> DocumentNode {
        DocumentNode { raw: gq::Document { definitions: doc.definitions.iter().map(|d| DefinitionNode::from_model(d).raw).collect() } }
    }
}

} // verus!
