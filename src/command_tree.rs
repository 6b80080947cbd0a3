//! The declarative description of the API: resources, operations, parameters.
use vstd::prelude::*;
use crate::text::{concat, str_eq};

verus! {

/// The root of the API description.
#[derive(Clone, Debug, PartialEq)]
pub struct CommandTree {
    pub version: u32,
    pub api_version: String,
    pub base_url: String,
    pub resources: Vec<Resource>,
}

/// A named group of operations.
#[derive(Clone, Debug, PartialEq)]
pub struct Resource {
    pub name: String,
    pub ops: Vec<Operation>,
}

/// One security requirement: scheme names, each with its scopes. Credential
/// selection asks only whether a scheme name occurs, so a repeated name
/// selects nothing different.
pub type SecurityRequirement = Vec<(String, Vec<String>)>;

/// One API operation.
#[derive(Clone, Debug, PartialEq)]
pub struct Operation {
    pub name: String,
    pub method: String,
    pub path: String,
    pub summary: Option<String>,
    pub tags: Vec<String>,
    pub paginated: bool,
    pub security: Vec<SecurityRequirement>,
    pub params: Vec<ParamDef>,
    pub request_body: Option<RequestBodyDef>,
}

/// A parameter of an operation.
#[derive(Clone, Debug, PartialEq)]
pub struct ParamDef {
    pub name: String,
    pub flag: String,
    /// `path` or `query`.
    pub location: String,
    pub required: bool,
    /// `deepObject`, another style, or none.
    pub style: Option<String>,
    pub explode: Option<bool>,
    pub schema_type: String,
    pub items_type: Option<String>,
}

/// The request body an operation accepts.
#[derive(Clone, Debug, PartialEq)]
pub struct RequestBodyDef {
    pub required: bool,
    pub content_types: Vec<String>,
}

/// The first resource named `name`.
pub open spec fn first_resource(rs: Seq<Resource>, name: Seq<char>) -> Option<Resource>
    decreases rs.len(),
{
    if rs.len() == 0 {
        None
    } else if rs[0].name@ == name {
        Some(rs[0])
    } else {
        first_resource(rs.subrange(1, rs.len() as int), name)
    }
}

/// The first operation named `name`.
pub open spec fn first_op(os: Seq<Operation>, name: Seq<char>) -> Option<Operation>
    decreases os.len(),
{
    if os.len() == 0 {
        None
    } else if os[0].name@ == name {
        Some(os[0])
    } else {
        first_op(os.subrange(1, os.len() as int), name)
    }
}

/// The operation `op` of resource `res`, both taken first by name.
pub open spec fn lookup_op(tree: CommandTree, res: Seq<char>, op: Seq<char>) -> Option<Operation> {
    match first_resource(tree.resources@, res) {
        Some(r) => first_op(r.ops@, op),
        None => None,
    }
}

/// Finds operation `op` of resource `res`.
pub fn find_op<'a>(tree: &'a CommandTree, res: &str, op: &str) -> (r: Option<&'a Operation>)
    ensures
        r matches Some(o) ==> lookup_op(*tree, res@, op@) == Some(*o),
        r is None ==> lookup_op(*tree, res@, op@) is None,
{
    let rs = &tree.resources;
    let mut i: usize = 0;
    assert(rs@.subrange(0, rs@.len() as int) =~= rs@);
    while i < rs.len()
        invariant
            i <= rs.len(),
            rs == &tree.resources,
            first_resource(rs@, res@) == first_resource(rs@.subrange(i as int, rs@.len() as int), res@),
        decreases rs.len() - i,
    {
        let ghost rest = rs@.subrange(i as int, rs@.len() as int);
        assert(rest.subrange(1, rest.len() as int) =~= rs@.subrange(i + 1, rs@.len() as int));
        assert(rest[0] == rs@[i as int]);
        if str_eq(rs[i].name.as_str(), res) {
            assert(first_resource(rest, res@) == Some(rs@[i as int]));
            let os = &rs[i].ops;
            let mut j: usize = 0;
            assert(os@.subrange(0, os@.len() as int) =~= os@);
            while j < os.len()
                invariant
                    j <= os.len(),
                    i < rs.len(),
                    rs == &tree.resources,
                    os == &rs@[i as int].ops,
                    first_resource(rs@, res@) == Some(rs@[i as int]),
                    first_op(os@, op@) == first_op(os@.subrange(j as int, os@.len() as int), op@),
                decreases os.len() - j,
            {
                let ghost orest = os@.subrange(j as int, os@.len() as int);
                assert(orest.subrange(1, orest.len() as int) =~= os@.subrange(j + 1, os@.len() as int));
                assert(orest[0] == os@[j as int]);
                if str_eq(os[j].name.as_str(), op) {
                    assert(first_op(orest, op@) == Some(os@[j as int]));
                    return Some(&os[j]);
                }
                j = j + 1;
            }
            return None;
        }
        i = i + 1;
    }
    None
}

/// Whether an optional string holds exactly `s`.
pub open spec fn opt_is(o: Option<String>, s: Seq<char>) -> bool {
    o matches Some(x) && x@ == s
}

/// Whether a parameter uses the deep-object style.
pub open spec fn is_deep_object(p: ParamDef) -> bool {
    opt_is(p.style, "deepObject"@)
}

/// Whether a parameter is an array.
pub open spec fn is_array(p: ParamDef) -> bool {
    p.schema_type@ == "array"@
}

/// Whether `o` holds exactly `s`.
pub fn opt_eq(o: &Option<String>, s: &str) -> (r: bool)
    ensures
        r == opt_is(*o, s@),
{
    match o {
        Some(x) => str_eq(x.as_str(), s),
        None => false,
    }
}

/// The placeholder name under which a parameter is known to argument parsing.
pub fn param_key(param: &ParamDef) -> (r: String)
    ensures
        r@ == "param__"@ + param.name@,
{
    concat("param__", param.name.as_str())
}

/// What a parameter's value is called in help text.
pub open spec fn value_name(p: ParamDef) -> Seq<char> {
    if is_deep_object(p) {
        "JSON"@
    } else if is_array(p) {
        match p.items_type {
            Some(t) => t@,
            None => "value"@,
        }
    } else {
        p.schema_type@
    }
}

/// What a parameter's value is called in help text: `JSON` for a deep object,
/// the element type for an array, the schema type otherwise.
pub fn param_value_name(param: &ParamDef) -> (r: String)
    ensures
        r@ == value_name(*param),
{
    if opt_eq(&param.style, "deepObject") {
        return "JSON".to_owned();
    }
    if str_eq(param.schema_type.as_str(), "array") {
        return match &param.items_type {
            Some(t) => t.clone(),
            None => "value".to_owned(),
        };
    }
    param.schema_type.clone()
}

} // verus!
