use crate::json::{json_content, json_text, json_to_string, JsonView};
use crate::text::{
    find_str, first_occurrence, integer_text, lemma_first_occurrence, integer_to_string, occurs_at, split_lines, text_lines,
    trim, trim_spec,
};
use crate::util::{spec_truncate, truncate};
use reqwest::header::HeaderMap;
use graphql_parser::query::Definition::{Fragment, Operation};
use graphql_parser::query::OperationDefinition::{Mutation, Query, SelectionSet, Subscription};
use graphql_parser::query::Type::ListType;
use vstd::prelude::*;
use vstd::string::*;

verus! {

/// The kind of a GraphQL operation.
#[derive(Debug, PartialEq, Eq)]
pub enum GraphQLOperation {
    Query,
    Mutation,
    Subscription,
}

impl GraphQLOperation {
    /// The keyword that introduces the operation.
    pub fn text(&self) -> (res: String)
        ensures
            res@ == match self {
                GraphQLOperation::Query => "query"@,
                GraphQLOperation::Mutation => "mutation"@,
                GraphQLOperation::Subscription => "subscription"@,
            },
    {
        match self {
            GraphQLOperation::Query => String::from_str("query"),
            GraphQLOperation::Mutation => String::from_str("mutation"),
            GraphQLOperation::Subscription => String::from_str("subscription"),
        }
    }
}

/// A GraphQL operation and the variables it declares.
pub struct GraphQLRequest {
    pub operation: GraphQLOperation,
    pub args: Vec<GraphQLVariable>,
}

/// A variable declared by a GraphQL operation; `list` when its declared
/// type is a list type (`[T]`, not `[T]!`).
#[derive(Debug, PartialEq, Eq)]
pub struct GraphQLVariable {
    pub name: String,
    pub list: bool,
}

/// The first definition of a GraphQL document.
pub enum FirstDefinition {
    /// An operation, with its variables: each name and whether its type is
    /// a list type.
    Operation(GraphQLOperation, Vec<(String, bool)>),
    /// A bare selection set `{ .. }`.
    SelectionSet,
    /// A fragment definition.
    Fragment,
}

/// The mathematical form of the first definition of a GraphQL document.
pub enum FirstDefinitionView {
    Operation(GraphQLOperation, Seq<(Seq<char>, bool)>),
    SelectionSet,
    Fragment,
}

pub open spec fn first_definition_view(d: FirstDefinition) -> FirstDefinitionView {
    match d {
        FirstDefinition::Operation(op, vars) => FirstDefinitionView::Operation(
            op,
            vars@.map_values(|v: (String, bool)| (v.0@, v.1)),
        ),
        FirstDefinition::SelectionSet => FirstDefinitionView::SelectionSet,
        FirstDefinition::Fragment => FirstDefinitionView::Fragment,
    }
}

/// What `graphql_parser::parse_query` makes of a document: its first
/// definition, or the parser's message.
pub uninterp spec fn graphql_first_definition(source: Seq<char>) -> Result<
    FirstDefinitionView,
    Seq<char>,
>;

/// Parses a GraphQL document (`graphql_parser::parse_query`) and gives its
/// first definition; a parsed document has at least one.
#[verifier::external_body]
fn parse_first_definition(source: &str) -> (res: Result<FirstDefinition, String>)
    ensures
        match graphql_first_definition(source@) {
            Ok(d) => res matches Ok(r) && first_definition_view(r) == d,
            Err(m) => res matches Err(e) && e@ == m,
        },
{
    let doc = graphql_parser::parse_query::<String>(source).map_err(|e| e.to_string())?;
    let (op, defs) = match &doc.definitions[0] {
        Operation(Query(q)) => (GraphQLOperation::Query, &q.variable_definitions),
        Operation(Mutation(m)) => (GraphQLOperation::Mutation, &m.variable_definitions),
        Operation(Subscription(s)) => (GraphQLOperation::Subscription, &s.variable_definitions),
        Operation(SelectionSet(_)) => return Ok(FirstDefinition::SelectionSet),
        Fragment(_) => return Ok(FirstDefinition::Fragment),
    };
    let vars = defs.iter().map(|d| (d.name.clone(), matches!(d.var_type, ListType(_))));
    Ok(FirstDefinition::Operation(op, vars.collect()))
}

/// Why the variables of a GraphQL document could not be found.
#[derive(Debug, PartialEq)]
pub enum FindArgsError {
    /// The document does not parse; the parser's message.
    Parse(String),
    /// The document does not start with a query, mutation or subscription.
    NotSupported,
}

impl FindArgsError {
    /// The message shown to the user.
    pub fn message(&self) -> (res: String)
        ensures
            res@ == match self {
                FindArgsError::Parse(m) => m@,
                FindArgsError::NotSupported => "Not supported"@,
            },
    {
        match self {
            FindArgsError::Parse(m) => m.clone(),
            FindArgsError::NotSupported => String::from_str("Not supported"),
        }
    }
}

/// The variables declared by the first operation of a GraphQL document, in
/// the order of their declaration.
pub fn find_args(source: &str) -> (res: Result<Vec<GraphQLVariable>, FindArgsError>)
    ensures
        match graphql_first_definition(source@) {
            Err(m) => res matches Err(FindArgsError::Parse(e)) && e@ == m,
            Ok(FirstDefinitionView::Operation(_, vars)) => res matches Ok(args) && args@.len()
                == vars.len() && forall|i: int|
                0 <= i < vars.len() ==> (#[trigger] args@[i]).name@ == vars[i].0 && args@[i].list
                    == vars[i].1,
            Ok(_) => res matches Err(FindArgsError::NotSupported),
        },
{
    match parse_first_definition(source) {
        Err(m) => Err(FindArgsError::Parse(m)),
        Ok(FirstDefinition::Operation(_, vars)) => {
            let mut args: Vec<GraphQLVariable> = Vec::new();
            let mut i: usize = 0;
            while i < vars.len()
                invariant
                    i <= vars@.len(),
                    args@.len() == i,
                    forall|j: int|
                        0 <= j < i ==> (#[trigger] args@[j]).name@ == vars@[j].0@ && args@[j].list
                            == vars@[j].1,
                decreases vars@.len() - i,
            {
                args.push(GraphQLVariable { name: vars[i].0.clone(), list: vars[i].1 });
                i = i + 1;
            }
            Ok(args)
        },
        Ok(_) => Err(FindArgsError::NotSupported),
    }
}

/// The body of a request: plain text, or a GraphQL document with the values
/// of its variables.
pub enum HitmanBody {
    Plain { body: String },
    GraphQL { body: String, variables: Option<serde_json::Value> },
}

/// The JSON payload of a GraphQL request: an object holding the query and,
/// when there are any, the variables (`"query"` sorts before
/// `"variables"` in `serde_json`'s map).
pub open spec fn graphql_payload_view(query: Seq<char>, variables: Option<JsonView>) -> JsonView {
    JsonView::Object(
        seq![("query"@, JsonView::String(query))] + match variables {
            Some(v) => seq![("variables"@, v)],
            None => Seq::empty(),
        },
    )
}

/// A JSON string holding `s` (`serde_json::Value::String`).
#[verifier::external_body]
fn json_string(s: String) -> (res: serde_json::Value)
    ensures
        json_content(res) == JsonView::String(s@),
{
    serde_json::Value::String(s)
}

/// The object that `serde_json` collects from one named value is that
/// value alone.
proof fn lemma_object_of_one(p: (Seq<char>, JsonView), members: Seq<(Seq<char>, JsonView)>)
    requires
        object_of(seq![p], members),
    ensures
        members == seq![p],
{
    reveal(object_of);
    let ps = seq![p];
    assert(ps[0] == p);
    assert(exists|i: int| 0 <= i < members.len() && #[trigger] members[i].0 == ps[0].0);
    assert forall|k: int| 0 <= k < members.len() implies #[trigger] members[k] == p by {
        assert(exists|j: int| 0 <= j < ps.len() && #[trigger] ps[j] == members[k]);
    }
    if members.len() > 1 {
        assert(members[0] == p && members[1] == p);
        assert(crate::value::str_lt(members[0].0, members[1].0));
        crate::value::lemma_str_lt_irreflexive(p.0);
    }
    assert(members =~= seq![p]);
}

/// A member of the object that `serde_json` collects from named values is
/// one of those values.
proof fn lemma_member_given(
    ps: Seq<(Seq<char>, JsonView)>,
    members: Seq<(Seq<char>, JsonView)>,
    k: int,
)
    requires
        object_of(ps, members),
        0 <= k < members.len(),
    ensures
        exists|j: int| 0 <= j < ps.len() && ps[j] == members[k],
{
    reveal(object_of);
    let m = members[k];
    assert(exists|j: int| 0 <= j < ps.len() && #[trigger] ps[j] == members[k]);
}

/// Each name given is the name of a member of the object that `serde_json`
/// collects.
proof fn lemma_name_kept(ps: Seq<(Seq<char>, JsonView)>, members: Seq<(Seq<char>, JsonView)>, j: int)
    requires
        object_of(ps, members),
        0 <= j < ps.len(),
    ensures
        exists|i: int| 0 <= i < members.len() && members[i].0 == ps[j].0,
{
    reveal(object_of);
    let x = ps[j];
}

/// The object that `serde_json` collects from two values under distinct
/// names, the first sorting before the second, holds them in that order.
proof fn lemma_object_of_two(
    p: (Seq<char>, JsonView),
    q: (Seq<char>, JsonView),
    members: Seq<(Seq<char>, JsonView)>,
)
    requires
        crate::value::str_lt(p.0, q.0),
        object_of(seq![p, q], members),
    ensures
        members == seq![p, q],
{
    let ps = seq![p, q];
    assert(ps[0] == p && ps[1] == q && ps.len() == 2);
    crate::value::lemma_str_lt_irreflexive(p.0);
    crate::value::lemma_str_lt_irreflexive(q.0);
    crate::value::lemma_str_lt_total(p.0, q.0);
    lemma_name_kept(ps, members, 0);
    lemma_name_kept(ps, members, 1);
    let i0 = choose|i: int| 0 <= i < members.len() && members[i].0 == ps[0].0;
    let i1 = choose|i: int| 0 <= i < members.len() && members[i].0 == ps[1].0;
    assert(i0 != i1);
    assert(members.len() >= 2);
    lemma_member_given(ps, members, 0);
    lemma_member_given(ps, members, 1);
    assert(members[0] == p || members[0] == q);
    assert(members[1] == p || members[1] == q);
    assert(crate::value::str_lt(members[0].0, members[1].0)) by {
        reveal(object_of);
    }
    assert(members[0] == p);
    assert(members[1] == q);
    if members.len() > 2 {
        lemma_member_given(ps, members, 2);
        assert(crate::value::str_lt(members[1].0, members[2].0)) by {
            reveal(object_of);
        }
        crate::value::lemma_str_lt_transitive(members[0].0, members[1].0, members[2].0);
        assert(false);
    }
    assert(members =~= seq![p, q]);
}

/// The JSON text of the payload of a GraphQL request.
fn graphql_payload_text(body: String, variables: Option<serde_json::Value>) -> (res: String)
    ensures
        res@ == json_text(
            graphql_payload_view(
                body@,
                match variables {
                    Some(v) => Some(json_content(v)),
                    None => None,
                },
            ),
        ),
{
    let ghost q = body@;
    let mut pairs: Vec<(String, serde_json::Value)> = Vec::new();
    pairs.push((String::from_str("query"), json_string(body)));
    proof {
        reveal_strlit("query");
        reveal_strlit("variables");
        assert(pairs_view(pairs@) =~= seq![("query"@, JsonView::String(q))]);
    }
    match variables {
        Some(v) => {
            let ghost vv = json_content(v);
            pairs.push((String::from_str("variables"), v));
            proof {
                assert(pairs_view(pairs@) =~= seq![
                    ("query"@, JsonView::String(q)),
                    ("variables"@, vv),
                ]);
                assert("query"@[0] == 'q' && "variables"@[0] == 'v');
                assert(crate::value::str_lt("query"@, "variables"@));
            }
            let obj = json_object(pairs);
            proof {
                lemma_object_of_two(
                    ("query"@, JsonView::String(q)),
                    ("variables"@, vv),
                    json_content(obj)->Object_0,
                );
                assert(seq![("query"@, JsonView::String(q))] + seq![("variables"@, vv)] =~= seq![
                    ("query"@, JsonView::String(q)),
                    ("variables"@, vv),
                ]);
                assert(json_content(obj) =~= graphql_payload_view(q, Some(vv)));
            }
            json_to_string(&obj)
        },
        None => {
            let obj = json_object(pairs);
            proof {
                lemma_object_of_one(("query"@, JsonView::String(q)), json_content(obj)->Object_0);
                assert(json_content(obj) =~= graphql_payload_view(q, None));
            }
            json_to_string(&obj)
        },
    }
}

/// The indented JSON text of a value (`serde_json::to_string_pretty`).
pub uninterp spec fn json_pretty_text(v: JsonView) -> Seq<char>;

/// The indented JSON text of a value, as `serde_json::to_string_pretty`
/// writes it; that call cannot fail on a `Value`, whose map keys are
/// strings, and its compact text stands in for the result if it did.
#[verifier::external_body]
pub(crate) fn json_to_string_pretty(v: &serde_json::Value) -> (res: String)
    ensures
        res@ == json_pretty_text(json_content(*v)),
{
    serde_json::to_string_pretty(v).unwrap_or_else(|_| v.to_string())
}

impl HitmanBody {
    /// The text sent as the body of the request: the plain text, or the
    /// JSON payload of a GraphQL request.
    pub fn to_body(self) -> (res: String)
        ensures
            res@ == match self {
                HitmanBody::Plain { body } => body@,
                HitmanBody::GraphQL { body, variables } => json_text(
                    graphql_payload_view(
                        body@,
                        match variables {
                            Some(v) => Some(json_content(v)),
                            None => None,
                        },
                    ),
                ),
            },
    {
        match self {
            HitmanBody::Plain { body } => body,
            HitmanBody::GraphQL { body, variables } => graphql_payload_text(body, variables),
        }
    }

    /// The body as shown to the user: the text, and for a GraphQL request
    /// with variables, the variables as indented JSON on the lines after it.
    pub fn text(&self) -> (res: String)
        ensures
            res@ == match self {
                HitmanBody::Plain { body } => body@,
                HitmanBody::GraphQL { body, variables } => match variables {
                    Some(v) => body@ + "\n"@ + json_pretty_text(json_content(*v)),
                    None => body@,
                },
            },
    {
        match self {
            HitmanBody::Plain { body } => body.clone(),
            HitmanBody::GraphQL { body, variables } => match variables {
                Some(v) => {
                    let vars = json_to_string_pretty(v);
                    body.clone().concat("\n").concat(vars.as_str())
                },
                None => body.clone(),
            },
        }
    }
}

/// The number of headers a request may have.
pub const MAX_HEADERS: usize = 64;

/// What `httparse` reads from the head of a request.
pub struct ParsedHead {
    /// The text after the head, when the head is complete.
    pub rest: Option<String>,
    pub method: Option<String>,
    pub path: Option<String>,
    /// The header slots that `httparse` leaves: each name, and its value
    /// when the value is UTF-8. A slot with an empty name ends the headers.
    pub headers: Vec<(String, Option<String>)>,
}

/// The mathematical form of a `ParsedHead`.
pub struct ParsedHeadView {
    pub rest: Option<Seq<char>>,
    pub method: Option<Seq<char>>,
    pub path: Option<Seq<char>>,
    pub headers: Seq<(Seq<char>, Option<Seq<char>>)>,
}

pub open spec fn optional_text(o: Option<String>) -> Option<Seq<char>> {
    match o {
        Some(s) => Some(s@),
        None => None,
    }
}

pub open spec fn raw_headers_view(h: Seq<(String, Option<String>)>) -> Seq<
    (Seq<char>, Option<Seq<char>>),
> {
    h.map_values(|e: (String, Option<String>)| (e.0@, optional_text(e.1)))
}

pub open spec fn parsed_head_view(h: ParsedHead) -> ParsedHeadView {
    ParsedHeadView {
        rest: optional_text(h.rest),
        method: optional_text(h.method),
        path: optional_text(h.path),
        headers: raw_headers_view(h.headers@),
    }
}

/// What `httparse::Request::parse` makes of a request text, with room for
/// `max_headers` headers: the head it read, or its error's message.
pub uninterp spec fn http_head(buf: Seq<char>, max_headers: nat) -> Result<ParsedHeadView, Seq<char>>;

/// Parses the head of a request (`httparse::Request::parse`), with
/// `max_headers` header slots; the headers it leaves are some of those
/// slots.
#[verifier::external_body]
fn parse_http_head(buf: &str, max_headers: usize) -> (res: Result<ParsedHead, String>)
    ensures
        match http_head(buf@, max_headers as nat) {
            Ok(h) => res matches Ok(r) && parsed_head_view(r) == h,
            Err(m) => res matches Err(e) && e@ == m,
        },
        res matches Ok(r) ==> r.headers@.len() <= max_headers,
{
    let mut slots = vec![httparse::EMPTY_HEADER; max_headers];
    let mut req = httparse::Request::new(&mut slots);
    let status = req.parse(buf.as_bytes()).map_err(|e| e.to_string())?;
    let rest = match status {
        httparse::Status::Complete(n) => Some(buf[n..].to_owned()),
        httparse::Status::Partial => None,
    };
    let headers = req.headers.iter().map(|h| (h.name.to_owned(), std::str::from_utf8(h.value).ok().map(String::from)));
    let headers = headers.collect();
    Ok(ParsedHead { rest, method: req.method.map(String::from), path: req.path.map(String::from), headers })
}

/// Whether `reqwest::Method::from_str` accepts a method; the method it
/// makes gives the same text back (`Method::as_str`).
pub uninterp spec fn http_method_valid(m: Seq<char>) -> bool;

/// Whether `reqwest::Method::from_str` accepts a method: the result is
/// the name above, taken of the text alone.
#[verifier::external_body]
fn method_is_valid(m: &str) -> (res: bool)
    ensures
        res == http_method_valid(m@),
{
    <reqwest::Method as std::str::FromStr>::from_str(m).is_ok()
}

/// What `reqwest::Url::parse` makes of a URL: its serialization
/// (`Url::as_str`), or its error's message.
pub uninterp spec fn url_parse(u: Seq<char>) -> Result<Seq<char>, Seq<char>>;

/// Parses a URL (`reqwest::Url::parse`): its serialization, or the
/// message of its error, as the name above gives them for the text.
#[verifier::external_body]
fn parse_url(u: &str) -> (res: Result<String, String>)
    ensures
        match url_parse(u@) {
            Ok(t) => res matches Ok(r) && r@ == t,
            Err(m) => res matches Err(e) && e@ == m,
        },
{
    reqwest::Url::parse(u).map(|url| url.as_str().to_owned()).map_err(|e| e.to_string())
}

/// What `reqwest::header::HeaderName::from_str` makes of a header name:
/// the name in its normal form (`HeaderName::as_str`), or `None` when it
/// refuses it.
pub uninterp spec fn header_name_parse(n: Seq<char>) -> Option<Seq<char>>;

/// Parses a header name (`reqwest::header::HeaderName::from_str`): its
/// normal form, or `None`, as the name above gives them for the text.
#[verifier::external_body]
fn parse_header_name(n: &str) -> (res: Option<String>)
    ensures
        match header_name_parse(n@) {
            Some(t) => res matches Some(r) && r@ == t,
            None => res is None,
        },
{
    <reqwest::header::HeaderName as std::str::FromStr>::from_str(n).ok().map(|h| h.as_str().to_owned())
}

/// A character that may stand in a header value: `HeaderValue::from_str`
/// accepts the bytes from 32 up, but 127, and the tab (every byte of a
/// character above 127 is above 127).
pub open spec fn header_value_char(c: char) -> bool {
    (c as int >= 32 && c as int != 127) || c == '\t'
}

/// A value that `HeaderValue::from_str` accepts.
pub open spec fn valid_header_value(v: Seq<char>) -> bool {
    forall|i: int| 0 <= i < v.len() ==> header_value_char(#[trigger] v[i])
}

/// Whether `HeaderValue::from_str` accepts a value.
pub fn header_value_valid(v: &str) -> (res: bool)
    ensures
        res == valid_header_value(v@),
{
    let n = v.unicode_len();
    let mut i: usize = 0;
    while i < n
        invariant
            i <= n,
            n == v@.len(),
            forall|j: int| 0 <= j < i ==> header_value_char(#[trigger] v@[j]),
        decreases n - i,
    {
        let c = v.get_char(i);
        let u = c as u32;
        if !((u >= 32 && u != 127) || c == '\t') {
            return false;
        }
        i = i + 1;
    }
    true
}

/// Why a request text could not be made into a request.
#[derive(Debug, PartialEq)]
pub enum RequestError {
    /// The head does not parse; the parser's message.
    Malformed(String),
    MethodNotFound,
    UrlNotFound,
    InvalidMethod,
    /// The URL does not parse; the parser's message.
    InvalidUrl(String),
    HeaderEncoding,
    InvalidHeaderName,
    InvalidHeaderValue,
}

impl RequestError {
    /// The message shown to the user.
    pub fn message(&self) -> (res: String)
        ensures
            res@ == match self {
                RequestError::Malformed(_) => "Invalid input: malformed request"@,
                RequestError::MethodNotFound => "Invalid input: HTTP method not found"@,
                RequestError::UrlNotFound => "Invalid input: URL not found"@,
                RequestError::InvalidMethod => "invalid HTTP method"@,
                RequestError::InvalidUrl(m) => m@,
                RequestError::HeaderEncoding => "invalid utf-8 sequence in header value"@,
                RequestError::InvalidHeaderName => "invalid HTTP header name"@,
                RequestError::InvalidHeaderValue => "failed to parse header value"@,
            },
    {
        match self {
            RequestError::Malformed(_) => String::from_str("Invalid input: malformed request"),
            RequestError::MethodNotFound => String::from_str("Invalid input: HTTP method not found"),
            RequestError::UrlNotFound => String::from_str("Invalid input: URL not found"),
            RequestError::InvalidMethod => String::from_str("invalid HTTP method"),
            RequestError::InvalidUrl(m) => m.clone(),
            RequestError::HeaderEncoding => String::from_str("invalid utf-8 sequence in header value"),
            RequestError::InvalidHeaderName => String::from_str("invalid HTTP header name"),
            RequestError::InvalidHeaderValue => String::from_str("failed to parse header value"),
        }
    }
}

/// The start of a request: its method and URL, the text after its head
/// (when the head is complete), and its headers as read.
pub struct RequestHead {
    pub method: String,
    pub url: String,
    pub rest: Option<String>,
    pub headers: Vec<(String, Option<String>)>,
}

/// Reads the head of a request text (after substitution): the request line
/// must name a method and a URL, which must be valid.
pub fn prepare_head(buf: &str) -> (res: Result<RequestHead, RequestError>)
    ensures
        match http_head(buf@, MAX_HEADERS as nat) {
            Err(m) => res matches Err(RequestError::Malformed(e)) && e@ == m,
            Ok(h) => match (h.method, h.path) {
                (None, _) => res matches Err(RequestError::MethodNotFound),
                (Some(_), None) => res matches Err(RequestError::UrlNotFound),
                (Some(m), Some(p)) => if !http_method_valid(m) {
                    res matches Err(RequestError::InvalidMethod)
                } else {
                    match url_parse(p) {
                        Err(e) => res matches Err(RequestError::InvalidUrl(x)) && x@ == e,
                        Ok(u) => res matches Ok(r) && r.method@ == m && r.url@ == u
                            && optional_text(r.rest) == h.rest && raw_headers_view(r.headers@)
                            == h.headers && r.headers@.len() <= MAX_HEADERS,
                    }
                },
            },
        },
{
    let head = match parse_http_head(buf, MAX_HEADERS) {
        Ok(h) => h,
        Err(m) => {
            return Err(RequestError::Malformed(m));
        },
    };
    let method = match head.method {
        Some(m) => m,
        None => {
            return Err(RequestError::MethodNotFound);
        },
    };
    let path = match head.path {
        Some(p) => p,
        None => {
            return Err(RequestError::UrlNotFound);
        },
    };
    if !method_is_valid(method.as_str()) {
        return Err(RequestError::InvalidMethod);
    }
    let url = match parse_url(path.as_str()) {
        Ok(u) => u,
        Err(e) => {
            return Err(RequestError::InvalidUrl(e));
        },
    };
    Ok(RequestHead { method, url, rest: head.rest, headers: head.headers })
}

#[verifier::external_type_specification]
#[verifier::external_body]
#[verifier::reject_recursive_types(T)]
pub struct ExHeaderMap<T>(reqwest::header::HeaderMap<T>);

#[verifier::external_type_specification]
#[verifier::external_body]
pub struct ExHeaderValue(reqwest::header::HeaderValue);

/// What a `HeaderMap` holds: under each name, in its normal form, the
/// texts of its values (their bytes read as UTF-8), in order.
pub uninterp spec fn header_map_content(m: reqwest::header::HeaderMap) -> Map<Seq<char>, Seq<Seq<char>>>;

/// The map of names to values, one value under each name, that headers
/// make.
pub open spec fn one_value_each(m: Map<Seq<char>, Seq<char>>) -> Map<Seq<char>, Seq<Seq<char>>> {
    m.map_values(|v: Seq<char>| seq![v])
}

/// An empty header map (`HeaderMap::new`).
#[verifier::external_body]
fn header_map_new() -> (res: HeaderMap)
    ensures
        header_map_content(res).dom().finite(),
        forall|k: Seq<char>| !#[trigger] header_map_content(res).contains_key(k),
{
    reqwest::header::HeaderMap::new()
}

/// Stores the value `v` under the name `n` (`HeaderMap::insert`, after
/// `HeaderName::from_str` and `HeaderValue::from_str`, which take both):
/// the value replaces every value the name had. The map holds fewer than
/// `1 << 15` names, past which `insert` panics.
#[verifier::external_body]
fn header_map_insert(m: &mut reqwest::header::HeaderMap, n: &str, v: &str)
    requires
        header_name_parse(n@) is Some,
        valid_header_value(v@),
        header_map_content(*old(m)).dom().finite(),
        header_map_content(*old(m)).dom().len() < 32768,
    ensures
        header_map_content(*final(m)) == header_map_content(*old(m)).insert(
            header_name_parse(n@)->0,
            seq![v@],
        ),
{
    if let (Ok(name), Ok(value)) = (
        <reqwest::header::HeaderName as std::str::FromStr>::from_str(n),
        reqwest::header::HeaderValue::from_str(v),
    ) {
        m.insert(name, value);
    }
}

/// The names and values of a header map that holds one value under each
/// name, in the map's order of iteration (`HeaderMap::iter`, which its
/// documentation leaves arbitrary): each name once, with its value.
#[verifier::external_body]
fn header_map_pairs(m: &reqwest::header::HeaderMap) -> (res: Vec<(String, String)>)
    requires
        forall|k: Seq<char>|
            #[trigger] header_map_content(*m).contains_key(k) ==> header_map_content(*m)[k].len() == 1,
    ensures
        forall|a: int, b: int| 0 <= a < b < res@.len() ==> (#[trigger] res@[a]).0@ != (#[trigger] res@[b]).0@,
        forall|i: int|
            0 <= i < res@.len() ==> header_map_content(*m).contains_key((#[trigger] res@[i]).0@)
                && header_map_content(*m)[res@[i].0@] == seq![res@[i].1@],
        forall|k: Seq<char>|
            #[trigger] header_map_content(*m).contains_key(k) ==> exists|i: int|
                0 <= i < res@.len() && (#[trigger] res@[i]).0@ == k,
{
    m.iter().map(|(n, v)| (n.as_str().to_owned(), String::from_utf8_lossy(v.as_bytes()).into_owned())).collect()
}

/// The headers that the slots `raw` add to `acc`, read in order up to the
/// first slot with an empty name, a later value replacing an earlier one
/// under the same name; or the first slot's error: a value that is not
/// UTF-8, a name or a value that is refused.
pub open spec fn collect_headers(
    acc: Map<Seq<char>, Seq<char>>,
    raw: Seq<(Seq<char>, Option<Seq<char>>)>,
) -> Result<Map<Seq<char>, Seq<char>>, RequestError>
    decreases raw.len(),
{
    if raw.len() == 0 || raw[0].0.len() == 0 {
        Ok(acc)
    } else {
        match raw[0].1 {
            None => Err(RequestError::HeaderEncoding),
            Some(v) => match header_name_parse(raw[0].0) {
                None => Err(RequestError::InvalidHeaderName),
                Some(n) => if valid_header_value(v) {
                    collect_headers(acc.insert(n, v), raw.drop_first())
                } else {
                    Err(RequestError::InvalidHeaderValue)
                },
            },
        }
    }
}

pub open spec fn headers_view(h: Seq<(String, String)>) -> Seq<(Seq<char>, Seq<char>)> {
    h.map_values(|e: (String, String)| (e.0@, e.1@))
}

/// `hs` lists the headers of `m`: each name once, with its value, in some
/// order.
pub open spec fn lists_headers(hs: Seq<(Seq<char>, Seq<char>)>, m: Map<Seq<char>, Seq<char>>) -> bool {
    &&& forall|a: int, b: int| 0 <= a < b < hs.len() ==> (#[trigger] hs[a]).0 != (#[trigger] hs[b]).0
    &&& forall|i: int| 0 <= i < hs.len() ==> m.contains_pair((#[trigger] hs[i]).0, hs[i].1)
    &&& forall|k: Seq<char>| #[trigger] m.contains_key(k) ==> exists|i: int| 0 <= i < hs.len() && (#[trigger] hs[i]).0 == k
}

/// A request, ready to be sent.
pub struct HitmanRequest {
    pub method: String,
    pub url: String,
    /// Each header's name, in normal form, and value, in the order
    /// `HeaderMap` keeps them.
    pub headers: Vec<(String, String)>,
    pub body: Option<HitmanBody>,
}

/// A copy of a JSON value (`serde_json::Value`'s `Clone`).
#[verifier::external_body]
fn json_clone(v: &serde_json::Value) -> (res: serde_json::Value)
    ensures
        json_content(res) == json_content(*v),
{
    v.clone()
}

/// The mathematical form of a body: its text, and the JSON content of
/// the variables of a GraphQL request.
pub open spec fn body_view(b: HitmanBody) -> (Seq<char>, Option<Option<JsonView>>) {
    match b {
        HitmanBody::Plain { body } => (body@, None),
        HitmanBody::GraphQL { body, variables } => (
            body@,
            Some(
                match variables {
                    Some(v) => Some(json_content(v)),
                    None => None,
                },
            ),
        ),
    }
}

impl HitmanBody {
    /// A copy of the body.
    pub fn duplicate(&self) -> (res: HitmanBody)
        ensures
            body_view(res) == body_view(*self),
    {
        match self {
            HitmanBody::Plain { body } => HitmanBody::Plain { body: body.clone() },
            HitmanBody::GraphQL { body, variables } => HitmanBody::GraphQL {
                body: body.clone(),
                variables: match variables {
                    Some(v) => Some(json_clone(v)),
                    None => None,
                },
            },
        }
    }
}

impl HitmanRequest {
    /// The request's method, URL, headers and body, as values.
    pub open spec fn same_as(self, other: HitmanRequest) -> bool {
        &&& self.method@ == other.method@
        &&& self.url@ == other.url@
        &&& headers_view(self.headers@) == headers_view(other.headers@)
        &&& match (self.body, other.body) {
            (Some(a), Some(b)) => body_view(a) == body_view(b),
            (None, None) => true,
            _ => false,
        }
    }

    /// A copy of the request.
    pub fn duplicate(&self) -> (res: HitmanRequest)
        ensures
            res.same_as(*self),
    {
        let mut headers: Vec<(String, String)> = Vec::new();
        let mut i: usize = 0;
        while i < self.headers.len()
            invariant
                i <= self.headers@.len(),
                headers@.len() == i,
                headers_view(headers@) == headers_view(self.headers@).take(i as int),
            decreases self.headers@.len() - i,
        {
            let n = self.headers[i].0.clone();
            let v = self.headers[i].1.clone();
            headers.push((n, v));
            proof {
                assert(headers_view(headers@)[i as int] == headers_view(self.headers@)[i as int]);
                assert(headers_view(headers@) =~= headers_view(self.headers@).take(i + 1));
            }
            i = i + 1;
        }
        proof {
            assert(headers_view(self.headers@).take(i as int) =~= headers_view(self.headers@));
        }
        HitmanRequest {
            method: self.method.clone(),
            url: self.url.clone(),
            headers,
            body: match &self.body {
                Some(b) => Some(b.duplicate()),
                None => None,
            },
        }
    }
}

/// Completes a request from its head and its body: the headers are read
/// from the head's slots into a `HeaderMap` (`collect_headers`), and listed
/// in the map's order. The head holds at most `MAX_HEADERS` slots, as
/// `prepare_head` reads it.
pub fn finish_request(head: RequestHead, body: Option<HitmanBody>) -> (res: Result<
    HitmanRequest,
    RequestError,
>)
    requires
        head.headers@.len() <= MAX_HEADERS,
    ensures
        match collect_headers(Map::empty(), raw_headers_view(head.headers@)) {
            Ok(m) => res matches Ok(r) && r.method == head.method && r.url == head.url
                && lists_headers(headers_view(r.headers@), m) && r.body == body,
            Err(e) => res matches Err(x) && x == e,
        },
{
    let raw = &head.headers;
    let ghost rv = raw_headers_view(raw@);
    let mut map = header_map_new();
    let ghost mut acc: Map<Seq<char>, Seq<char>> = Map::empty();
    let mut i: usize = 0;
    proof {
        assert(rv.skip(0) =~= rv);
        assert(one_value_each(acc) =~= header_map_content(map));
    }
    while i < raw.len()
        invariant
            rv == raw_headers_view(raw@),
            raw@ == head.headers@,
            raw@.len() <= MAX_HEADERS,
            i <= raw@.len(),
            acc.dom().finite(),
            acc.dom().len() <= i,
            header_map_content(map) == one_value_each(acc),
            collect_headers(Map::empty(), rv) == collect_headers(acc, rv.skip(i as int)),
        ensures
            collect_headers(Map::empty(), rv) == Ok::<Map<Seq<char>, Seq<char>>, RequestError>(acc),
            header_map_content(map) == one_value_each(acc),
        decreases raw@.len() - i,
    {
        let ghost rest = rv.skip(i as int);
        proof {
            assert(rest[0] == rv[i as int]);
            assert(rv[i as int] == (raw@[i as int].0@, optional_text(raw@[i as int].1)));
            assert(rest.drop_first() =~= rv.skip(i + 1));
        }
        let name = &raw[i].0;
        if name.unicode_len() == 0 {
            proof {
                assert(rest[0].0.len() == 0);
            }
            break;
        }
        let value = match &raw[i].1 {
            Some(v) => v,
            None => {
                return Err(RequestError::HeaderEncoding);
            },
        };
        let header_name = match parse_header_name(name.as_str()) {
            Some(n) => n,
            None => {
                return Err(RequestError::InvalidHeaderName);
            },
        };
        if !header_value_valid(value.as_str()) {
            return Err(RequestError::InvalidHeaderValue);
        }
        proof {
            assert(header_map_content(map).dom() =~= acc.dom());
        }
        header_map_insert(&mut map, name.as_str(), value.as_str());
        proof {
            acc = acc.insert(header_name@, value@);
            assert(header_map_content(map) =~= one_value_each(acc));
        }
        i = i + 1;
        proof {
            if i == raw@.len() {
                assert(rv.skip(i as int) =~= Seq::<(Seq<char>, Option<Seq<char>>)>::empty());
            }
        }
    }
    let headers = header_map_pairs(&map);
    proof {
        let hv = headers_view(headers@);
        assert forall|a: int, b: int| 0 <= a < b < hv.len() implies (#[trigger] hv[a]).0 != (#[trigger] hv[b]).0 by {
            assert(hv[a].0 == headers@[a].0@);
            assert(hv[b].0 == headers@[b].0@);
        }
        assert forall|j: int| 0 <= j < hv.len() implies acc.contains_pair((#[trigger] hv[j]).0, hv[j].1) by {
            assert(hv[j] == (headers@[j].0@, headers@[j].1@));
            assert(one_value_each(acc).contains_key(headers@[j].0@));
            assert(seq![acc[headers@[j].0@]][0] == seq![headers@[j].1@][0]);
        }
        assert forall|k: Seq<char>| #[trigger] acc.contains_key(k) implies exists|j: int|
            0 <= j < hv.len() && (#[trigger] hv[j]).0 == k by {
            assert(header_map_content(map).contains_key(k));
            let j = choose|j: int| 0 <= j < headers@.len() && (#[trigger] headers@[j]).0@ == k;
            assert(hv[j].0 == k);
        }
    }
    Ok(HitmanRequest { method: head.method, url: head.url, headers, body })
}

/// The body of a request whose template is a plain HTTP file: the text
/// after its head, when the head is complete.
pub fn simple_body(head: &RequestHead) -> (res: Option<HitmanBody>)
    ensures
        match head.rest {
            Some(r) => res matches Some(HitmanBody::Plain { body }) && body@ == r@,
            None => res is None,
        },
{
    match &head.rest {
        Some(r) => Some(HitmanBody::Plain { body: r.clone() }),
        None => None,
    }
}

/// The members of the JSON object that `serde_json` makes of a list of
/// named values (collected into its map): the distinct names in ascending
/// order, each with one of the values given for it (which one, for a name
/// given twice, the map's documentation leaves open).
#[verifier::opaque]
pub open spec fn object_of(pairs: Seq<(Seq<char>, JsonView)>, members: Seq<(Seq<char>, JsonView)>) -> bool {
    &&& forall|a: int, b: int|
        0 <= a < b < members.len() ==> crate::value::str_lt(
            #[trigger] members[a].0,
            #[trigger] members[b].0,
        )
    &&& forall|i: int|
        #![trigger members[i]]
        0 <= i < members.len() ==> exists|j: int| 0 <= j < pairs.len() && #[trigger] pairs[j] == members[i]
    &&& forall|j: int|
        #![trigger pairs[j]]
        0 <= j < pairs.len() ==> exists|i: int| 0 <= i < members.len() && #[trigger] members[i].0 == pairs[j].0
}

pub open spec fn pairs_view(pairs: Seq<(String, serde_json::Value)>) -> Seq<(Seq<char>, JsonView)> {
    pairs.map_values(|p: (String, serde_json::Value)| (p.0@, json_content(p.1)))
}

/// The JSON object made of named values (`serde_json::Map`'s
/// `FromIterator`; its map is a `BTreeMap` here, with the names in
/// ascending order). Which value is kept for a name given twice is not
/// stated: `BTreeMap`'s documentation says only that one is.
#[verifier::external_body]
fn json_object(pairs: Vec<(String, serde_json::Value)>) -> (res: serde_json::Value)
    ensures
        match json_content(res) {
            JsonView::Object(members) => object_of(pairs_view(pairs@), members),
            _ => false,
        },
{
    serde_json::Value::Object(pairs.into_iter().collect())
}

/// The body of a GraphQL request: the document, and when it declares
/// variables, the object of their values (`values[i]` for `args[i]`).
pub fn graphql_body(body: String, args: &Vec<GraphQLVariable>, values: Vec<serde_json::Value>) -> (res:
    HitmanBody)
    requires
        values@.len() == args@.len(),
    ensures
        res matches HitmanBody::GraphQL { body: b, variables } && b == body && if args@.len() == 0 {
            variables is None
        } else {
            variables matches Some(v) && json_content(v) matches JsonView::Object(members)
                && object_of(
                Seq::new(args@.len(), |i: int| (args@[i].name@, json_content(values@[i]))),
                members,
            )
        },
{
    if args.len() == 0 {
        return HitmanBody::GraphQL { body, variables: None };
    }
    let mut pairs: Vec<(String, serde_json::Value)> = Vec::new();
    let mut values = values;
    let ghost vals = values@;
    let mut i: usize = args.len();
    while i > 0
        invariant
            i <= args@.len(),
            vals.len() == args@.len(),
            values@ == vals.take(i as int),
            pairs@.len() == args@.len() - i,
            forall|j: int|
                0 <= j < pairs@.len() ==> #[trigger] pairs@[j] == (
                    args@[i + j].name,
                    vals[i + j],
                ),
        decreases i,
    {
        let v = values.pop().unwrap();
        i = i - 1;
        proof {
            assert(vals.take(i + 1).drop_last() =~= vals.take(i as int));
        }
        let ghost before = pairs@;
        pairs.insert(0, (args[i].name.clone(), v));
        proof {
            assert forall|j: int| 0 <= j < pairs@.len() implies #[trigger] pairs@[j] == (
                args@[i + j].name,
                vals[i + j],
            ) by {
                if j > 0 {
                    assert(pairs@[j] == before[j - 1]);
                }
            }
        }
    }
    let ghost pv = pairs_view(pairs@);
    proof {
        assert(pv =~= Seq::new(args@.len(), |k: int| (args@[k].name@, json_content(vals[k]))));
    }
    HitmanBody::GraphQL { body, variables: Some(json_object(pairs)) }
}

/// A character that `HeaderValue::to_str` lets through: visible ASCII,
/// the space and the tab.
pub open spec fn visible_ascii(c: char) -> bool {
    ((c as int) >= 32 && (c as int) < 127) || c == '\t'
}

/// A header value as shown to the user: the value when it is visible
/// ASCII, else a placeholder.
pub open spec fn shown_value(v: Seq<char>) -> Seq<char> {
    if forall|i: int| 0 <= i < v.len() ==> visible_ascii(#[trigger] v[i]) {
        v
    } else {
        "unknown value"@
    }
}

/// One `name: value` line per header.
pub open spec fn headers_text(hs: Seq<(Seq<char>, Seq<char>)>) -> Seq<char>
    decreases hs.len(),
{
    if hs.len() == 0 {
        Seq::empty()
    } else {
        hs[0].0 + ": "@ + shown_value(hs[0].1) + "\n"@ + headers_text(hs.drop_first())
    }
}

/// Each line followed by a line ending.
pub open spec fn lines_text(ls: Seq<Seq<char>>) -> Seq<char>
    decreases ls.len(),
{
    if ls.len() == 0 {
        Seq::empty()
    } else {
        ls[0] + "\n"@ + lines_text(ls.drop_first())
    }
}

/// The body as shown to the user.
pub open spec fn body_text(b: HitmanBody) -> Seq<char> {
    match b {
        HitmanBody::Plain { body } => body@,
        HitmanBody::GraphQL { body, variables } => match variables {
            Some(v) => body@ + "\n"@ + json_pretty_text(json_content(v)),
            None => body@,
        },
    }
}

/// A request as shown to the user: the request line, the headers, and
/// after an empty line, the lines of the body.
pub open spec fn request_text(r: HitmanRequest) -> Seq<char> {
    r.method@ + " "@ + r.url@ + "\n"@ + headers_text(headers_view(r.headers@)) + match r.body {
        Some(b) => "\n"@ + lines_text(text_lines(body_text(b))),
        None => Seq::empty(),
    }
}

/// Whether a header value is shown as it is.
fn is_visible_ascii(v: &str) -> (res: bool)
    ensures
        res == forall|i: int| 0 <= i < v@.len() ==> visible_ascii(#[trigger] v@[i]),
{
    let n = v.unicode_len();
    let mut i: usize = 0;
    while i < n
        invariant
            i <= n,
            n == v@.len(),
            forall|j: int| 0 <= j < i ==> visible_ascii(#[trigger] v@[j]),
        decreases n - i,
    {
        let c = v.get_char(i);
        let u = c as u32;
        if !((u >= 32 && u < 127) || c == '\t') {
            return false;
        }
        i = i + 1;
    }
    true
}

impl HitmanRequest {
    /// The request as shown to the user (`Display`).
    pub fn text(&self) -> (res: String)
        ensures
            res@ == request_text(*self),
    {
        let mut out = self.method.clone().concat(" ").concat(self.url.as_str()).concat("\n");
        let ghost hv = headers_view(self.headers@);
        let ghost start = out@;
        let mut i: usize = 0;
        proof {
            assert(hv.skip(0) =~= hv);
            assert(start + headers_text(hv) =~= out@ + headers_text(hv.skip(0)));
        }
        while i < self.headers.len()
            invariant
                hv == headers_view(self.headers@),
                i <= self.headers@.len(),
                start + headers_text(hv) == out@ + headers_text(hv.skip(i as int)),
            decreases self.headers@.len() - i,
        {
            let ghost rest = hv.skip(i as int);
            proof {
                assert(rest[0] == hv[i as int]);
                assert(rest.drop_first() =~= hv.skip(i + 1));
            }
            let (name, value) = &self.headers[i];
            let shown = if is_visible_ascii(value.as_str()) {
                value.clone()
            } else {
                String::from_str("unknown value")
            };
            let ghost before = out@;
            out = out.concat(name.as_str()).concat(": ").concat(shown.as_str()).concat("\n");
            proof {
                assert(out@ + headers_text(hv.skip(i + 1)) =~= before + headers_text(rest));
            }
            i = i + 1;
        }
        proof {
            assert(hv.skip(i as int) =~= Seq::<(Seq<char>, Seq<char>)>::empty());
        }
        match &self.body {
            Some(b) => {
                let lines = split_lines(b.text().as_str());
                let ghost lv = lines@.map_values(|l: String| l@);
                let ghost head = out@;
                out = out.concat("\n");
                let mut j: usize = 0;
                proof {
                    assert(lv.skip(0) =~= lv);
                }
                while j < lines.len()
                    invariant
                        lv == lines@.map_values(|l: String| l@),
                        j <= lines@.len(),
                        head + "\n"@ + lines_text(lv) == out@ + lines_text(lv.skip(j as int)),
                    decreases lines@.len() - j,
                {
                    let ghost rest = lv.skip(j as int);
                    proof {
                        assert(rest[0] == lv[j as int]);
                        assert(rest.drop_first() =~= lv.skip(j + 1));
                    }
                    let ghost before = out@;
                    out = out.concat(lines[j].as_str()).concat("\n");
                    proof {
                        assert(out@ + lines_text(lv.skip(j + 1)) =~= before + lines_text(rest));
                    }
                    j = j + 1;
                }
                proof {
                    assert(lv.skip(j as int) =~= Seq::<Seq<char>>::empty());
                    assert(out@ =~= request_text(*self));
                }
                out
            },
            None => {
                proof {
                    assert(out@ =~= request_text(*self));
                }
                out
            },
        }
    }
}

/// The lines logged for a request about to be sent: each line of its text,
/// cut to the display width, after `> `.
pub fn request_log_lines(req: &HitmanRequest) -> (res: Vec<String>)
    ensures
        res@.map_values(|l: String| l@) == text_lines(request_text(*req)).map_values(
            |l: Seq<char>| "> "@ + spec_truncate(l),
        ),
{
    let text = req.text();
    let lines = split_lines(text.as_str());
    let ghost lv = lines@.map_values(|l: String| l@);
    let mut out: Vec<String> = Vec::new();
    let mut i: usize = 0;
    while i < lines.len()
        invariant
            lv == lines@.map_values(|l: String| l@),
            lv == text_lines(request_text(*req)),
            i <= lines@.len(),
            out@.len() == i,
            forall|j: int| 0 <= j < i ==> (#[trigger] out@[j])@ == "> "@ + spec_truncate(lv[j]),
        decreases lines@.len() - i,
    {
        let t = truncate(lines[i].as_str());
        out.push(String::from_str("> ").concat(t.as_str()));
        i = i + 1;
    }
    proof {
        assert(out@.map_values(|l: String| l@) =~= lv.map_values(
            |l: Seq<char>| "> "@ + spec_truncate(l),
        ));
    }
    out
}

/// The JSON value that `serde_json` parses from a text, if it parses.
pub uninterp spec fn json_from_text(t: Seq<char>) -> Option<JsonView>;

/// Parses a JSON text (`serde_json::Value::from_str`): the value holds
/// what the name `json_from_text` gives for the text, `None` when it does
/// not parse.
#[verifier::external_body]
fn parse_json(t: &str) -> (res: Option<serde_json::Value>)
    ensures
        match json_from_text(t@) {
            Some(j) => res matches Some(v) && json_content(v) == j,
            None => res is None,
        },
{
    <serde_json::Value as std::str::FromStr>::from_str(t).ok()
}

/// The data of an event in a chunk of an event stream: the text between
/// the first `data:` and the first empty line, trimmed.
pub open spec fn stream_event_data(chunk: Seq<char>) -> Option<Seq<char>> {
    match (first_occurrence(chunk, "data:"@), first_occurrence(chunk, "\n\n"@)) {
        (Some(start), Some(end)) => Some(trim_spec(chunk.subrange(start + 5, end))),
        _ => None,
    }
}

/// A chunk in which the empty line comes before the end of the first
/// `data:` (its data cannot be cut out).
#[verifier::opaque]
pub open spec fn stream_chunk_garbled(chunk: Seq<char>) -> bool {
    garbled_positions(first_occurrence(chunk, "data:"@), first_occurrence(chunk, "\n\n"@))
}

/// The data of an event would start past the end of the event.
pub open spec fn garbled_positions(start: Option<int>, end: Option<int>) -> bool {
    match (start, end) {
        (Some(s), Some(e)) => s + 5 > e,
        _ => false,
    }
}

/// What is printed for one chunk of an event stream (a GraphQL
/// subscription): the data of its event, as indented JSON when it is
/// JSON, else as it is; nothing for a chunk without an event.
pub fn stream_chunk_output(chunk: &str) -> (res: Option<String>)
    requires
        !stream_chunk_garbled(chunk@),
    ensures
        match stream_event_data(chunk@) {
            Some(d) => res matches Some(out) && out@ == match json_from_text(d) {
                Some(j) => json_pretty_text(j),
                None => d,
            },
            None => res is None,
        },
{
    match (find_str(chunk, "data:"), find_str(chunk, "\n\n")) {
        (Some(start), Some(end)) => {
            proof {
                reveal(stream_chunk_garbled);
                lemma_first_occurrence(chunk@, "\n\n"@);
            }
            let data = trim(chunk.substring_char(start + 5, end));
            match parse_json(data.as_str()) {
                Some(json) => Some(json_to_string_pretty(&json)),
                None => Some(data),
            }
        },
        _ => None,
    }
}

proof fn lemma_garbled(chunk: Seq<char>, start: Option<int>, end: Option<int>)
    requires
        start == first_occurrence(chunk, "data:"@),
        end == first_occurrence(chunk, "\n\n"@),
    ensures
        stream_chunk_garbled(chunk) == garbled_positions(start, end),
{
    reveal(stream_chunk_garbled);
}

/// Whether a chunk is garbled (`stream_chunk_garbled`): its first `\n\n`
/// comes before the end of its first `data:`.
#[verifier::rlimit(30)]
pub fn is_garbled_chunk(chunk: &str) -> (res: bool)
    ensures
        res == stream_chunk_garbled(chunk@),
{
    let a = find_str(chunk, "data:");
    let b = find_str(chunk, "\n\n");
    let res = match (a, b) {
        (Some(start), Some(end)) => end < 5 || start > end - 5,
        _ => false,
    };
    proof {
        let oa: Option<int> = match a {
            Some(x) => Some(x as int),
            None => None,
        };
        let ob: Option<int> = match b {
            Some(x) => Some(x as int),
            None => None,
        };
        assert(res == garbled_positions(oa, ob));
        lemma_garbled(chunk@, oa, ob);
    }
    res
}

/// The output of `stream_chunk_output` for a chunk that is not garbled;
/// `None` for one that is.
pub fn try_stream_chunk_output(chunk: &str) -> (res: Option<Option<String>>)
    ensures
        stream_chunk_garbled(chunk@) <==> res is None,
        res matches Some(o) ==> match stream_event_data(chunk@) {
            Some(d) => o matches Some(out) && out@ == match json_from_text(d) {
                Some(j) => json_pretty_text(j),
                None => d,
            },
            None => o is None,
        },
{
    if is_garbled_chunk(chunk) {
        return None;
    }
    Some(stream_chunk_output(chunk))
}

/// The status line logged for a response.
pub fn status_log_line(code: u16, reason: Option<&str>) -> (res: String)
    ensures
        res@ == "< HTTP/1.1 "@ + integer_text(code as int) + " "@ + match reason {
            Some(r) => r@,
            None => Seq::empty(),
        },
{
    let text = String::from_str("< HTTP/1.1 ").concat(integer_to_string(code as i64).as_str()).concat(
        " ",
    );
    match reason {
        Some(r) => text.concat(r),
        None => text,
    }
}

/// Why the headers of a response could not be logged.
#[derive(Debug, PartialEq)]
pub enum HeaderNotText {
    /// A header value that is not visible ASCII.
    NotVisibleAscii,
}

/// The lines logged for the headers of a response, each header given by
/// its name and its value when that value is visible ASCII: `< ` and the
/// `name: value` line, cut to the display width. The first value that is
/// not text fails the whole.
pub fn header_log_lines(headers: &Vec<(String, Option<String>)>) -> (res: Result<
    Vec<String>,
    HeaderNotText,
>)
    ensures
        (exists|i: int| 0 <= i < headers@.len() && (#[trigger] headers@[i]).1 is None) <==> res is Err,
        res matches Ok(lines) ==> lines@.len() == headers@.len() && forall|i: int|
            0 <= i < headers@.len() ==> (#[trigger] lines@[i])@ == "< "@ + spec_truncate(
                headers@[i].0@ + ": "@ + headers@[i].1->0@,
            ),
{
    let mut out: Vec<String> = Vec::new();
    let mut i: usize = 0;
    while i < headers.len()
        invariant
            i <= headers@.len(),
            out@.len() == i,
            forall|j: int| 0 <= j < i ==> (#[trigger] headers@[j]).1 is Some,
            forall|j: int|
                0 <= j < i ==> (#[trigger] out@[j])@ == "< "@ + spec_truncate(
                    headers@[j].0@ + ": "@ + headers@[j].1->0@,
                ),
        decreases headers@.len() - i,
    {
        match &headers[i].1 {
            Some(v) => {
                let line = headers[i].0.clone().concat(": ").concat(v.as_str());
                let t = truncate(line.as_str());
                out.push(String::from_str("< ").concat(t.as_str()));
            },
            None => {
                return Err(HeaderNotText::NotVisibleAscii);
            },
        }
        i = i + 1;
    }
    Ok(out)
}

} // verus!
