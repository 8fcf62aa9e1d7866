//! Requests, as far as routing reads and annotates them.

use crate::method::Method;
use crate::pattern;
use vstd::hash_map::StringHashMap;
use vstd::prelude::*;

verus! {

/// The HTTP version of a request.
#[derive(Clone, Copy, Debug, PartialEq, Eq, Structural)]
pub enum Version {
    Http09,
    Http10,
    Http11,
    H2,
    H3,
}

/// A header field.
#[derive(Debug)]
pub struct Header {
    pub name: String,
    pub value: Vec<u8>,
}

impl View for Header {
    type V = (Seq<char>, Seq<u8>);

    open spec fn view(&self) -> (Seq<char>, Seq<u8>) {
        (self.name@, self.value@)
    }
}

impl Clone for Header {
    fn clone(&self) -> (r: Header)
        ensures
            r@ == self@,
    {
        let value = self.value.clone();
        assert(value@ =~= self.value@);
        Header { name: self.name.clone(), value }
    }
}

/// The names and values of header fields, in order.
pub open spec fn header_fields(headers: Seq<Header>) -> Seq<(Seq<char>, Seq<u8>)> {
    Seq::new(headers.len(), |i: int| headers[i]@)
}

/// The URI of a request, taken apart.
#[derive(Debug)]
pub struct Uri {
    pub scheme: Option<String>,
    pub authority: Option<String>,
    pub path: String,
    pub query: Option<String>,
}

impl Clone for Uri {
    fn clone(&self) -> (r: Uri)
        ensures
            r == *self,
    {
        Uri {
            scheme: clone_part(&self.scheme),
            authority: clone_part(&self.authority),
            path: self.path.clone(),
            query: clone_part(&self.query),
        }
    }
}

fn clone_part(part: &Option<String>) -> (r: Option<String>)
    ensures
        r == *part,
{
    match part {
        Some(text) => Some(text.clone()),
        None => None,
    }
}

/// The parameters that a route pattern took from the path of a request, by name.
pub struct RouteParams(StringHashMap<String>);

/// The map from each name to the value at the same place. A name without a value
/// is left out, and of equal names the last one with a value counts.
pub open spec fn bound(names: Seq<Seq<char>>, values: Seq<Option<Seq<char>>>) -> Map<
    Seq<char>,
    Seq<char>,
>
    decreases names.len(),
{
    if names.len() == 0 {
        Map::empty()
    } else {
        let rest = bound(names.drop_last(), values);
        let i = names.len() - 1;
        if i < values.len() && values[i] is Some {
            rest.insert(names[i], values[i]->0)
        } else {
            rest
        }
    }
}

/// The texts of the groups of a match, behind the first one, which is the whole
/// match.
pub open spec fn group_values(groups: Seq<Option<String>>) -> Seq<Option<Seq<char>>> {
    Seq::new(
        if groups.len() == 0 {
            0
        } else {
            (groups.len() - 1) as nat
        },
        |i: int|
            match groups[i + 1] {
                Some(group) => Some(group@),
                None => None,
            },
    )
}

pub proof fn lemma_bound_nothing(names: Seq<Seq<char>>, values: Seq<Option<Seq<char>>>)
    requires
        values.len() == 0,
    ensures
        bound(names, values) == Map::<Seq<char>, Seq<char>>::empty(),
    decreases names.len(),
{
    if names.len() > 0 {
        lemma_bound_nothing(names.drop_last(), values);
    }
}

impl View for RouteParams {
    type V = Map<Seq<char>, Seq<char>>;

    closed spec fn view(&self) -> Map<Seq<char>, Seq<char>> {
        self.0@.map_values(|value: String| value@)
    }
}

impl RouteParams {
    /// Names the groups that a route's regular expression captured. The first
    /// group is the whole path and gets no name.
    pub fn bind(names: &Vec<String>, groups: &Vec<Option<String>>) -> (r: RouteParams)
        ensures
            r@ == bound(pattern::texts(names@), group_values(groups@)),
    {
        let mut hash: StringHashMap<String> = StringHashMap::with_capacity(names.len());
        let mut i: usize = 0;
        assert(hash@.map_values(|value: String| value@) =~= bound(
            pattern::texts(names@).take(0),
            group_values(groups@),
        ));
        while i < names.len()
            invariant
                i <= names.len(),
                hash@.map_values(|value: String| value@) == bound(
                    pattern::texts(names@).take(i as int),
                    group_values(groups@),
                ),
            decreases names.len() - i,
        {
            assert(pattern::texts(names@).take(i + 1).drop_last() =~= pattern::texts(names@).take(i as int));
            if i + 1 < groups.len() {
                if let Some(group) = &groups[i + 1] {
                    let ghost before = hash@;
                    hash.insert(names[i].clone(), group.clone());
                    assert(hash@.map_values(|value: String| value@) =~= before.map_values(
                        |value: String| value@,
                    ).insert(names@[i as int]@, group@));
                }
            }
            i = i + 1;
        }
        assert(pattern::texts(names@).take(i as int) =~= pattern::texts(names@));
        RouteParams(hash)
    }

    /// The value of a parameter.
    pub fn get(&self, param_name: &str) -> (r: Option<&String>)
        ensures
            match r {
                Some(value) => self@.contains_key(param_name@) && value@ == self@[param_name@],
                None => !self@.contains_key(param_name@),
            },
    {
        self.0.get(param_name)
    }
}

/// What routing adds to a request.
pub struct RequestMeta {
    pub route_params: Option<RouteParams>,
}

impl RequestMeta {
    pub fn route_params(&self) -> (r: Option<&RouteParams>)
        ensures
            match self.route_params {
                Some(params) => r == Some(&params),
                None => r is None,
            },
    {
        match &self.route_params {
            Some(params) => Some(params),
            None => None,
        }
    }
}

/// A request: its head, and what routing has added to it.
pub struct Request {
    pub method: Method,
    pub uri: Uri,
    pub version: Version,
    pub headers: Vec<Header>,
    pub meta: Option<RequestMeta>,
}

impl Request {
    /// The description of this request that an error handler can be given.
    pub open spec fn info(self) -> RequestInfoView {
        RequestInfoView {
            headers: header_fields(self.headers@),
            method: self.method@,
            uri: self.uri,
            version: self.version,
        }
    }
}

/// Access to the parameters of a routed request.
pub trait RequestExt {
    /// Whether routing has left parameters on the request.
    spec fn has_params(&self) -> bool;

    /// The parameters that routing has left on the request.
    spec fn params_map(&self) -> Map<Seq<char>, Seq<char>>;

    /// The parameters of the route that the request took.
    fn params(&self) -> (r: &RouteParams)
        requires
            self.has_params(),
        ensures
            r@ == self.params_map(),
    ;

    /// The value of one of these parameters.
    fn param(&self, param_name: &str) -> (r: Option<&String>)
        requires
            self.has_params(),
        ensures
            match r {
                Some(value) => self.params_map().contains_key(param_name@) && value@
                    == self.params_map()[param_name@],
                None => !self.params_map().contains_key(param_name@),
            },
    ;
}

impl RequestExt for Request {
    open spec fn has_params(&self) -> bool {
        self.meta is Some && self.meta->0.route_params is Some
    }

    open spec fn params_map(&self) -> Map<Seq<char>, Seq<char>> {
        self.meta->0.route_params->0@
    }

    fn params(&self) -> (r: &RouteParams) {
        match &self.meta {
            Some(meta) => match meta.route_params() {
                Some(params) => params,
                None => vstd::pervasive::unreached(),
            },
            None => vstd::pervasive::unreached(),
        }
    }

    fn param(&self, param_name: &str) -> (r: Option<&String>) {
        self.params().get(param_name)
    }
}

/// What a [`RequestInfo`] says of a request.
pub struct RequestInfoView {
    pub headers: Seq<(Seq<char>, Seq<u8>)>,
    pub method: Seq<char>,
    pub uri: Uri,
    pub version: Version,
}

/// A description of a request, for error handlers.
#[derive(Debug)]
pub struct RequestInfo {
    headers: Vec<Header>,
    method: Method,
    uri: Uri,
    version: Version,
}

impl View for RequestInfo {
    type V = RequestInfoView;

    closed spec fn view(&self) -> RequestInfoView {
        RequestInfoView {
            headers: header_fields(self.headers@),
            method: self.method@,
            uri: self.uri,
            version: self.version,
        }
    }
}

impl RequestInfo {
    pub fn new_from_req(req: &Request) -> (r: RequestInfo)
        ensures
            r@ == req.info(),
    {
        let mut headers: Vec<Header> = Vec::new();
        let mut i: usize = 0;
        while i < req.headers.len()
            invariant
                i <= req.headers.len(),
                headers.len() == i,
                forall|k: int| 0 <= k < i ==> (#[trigger] headers@[k])@ == req.headers@[k]@,
            decreases req.headers.len() - i,
        {
            headers.push(req.headers[i].clone());
            i = i + 1;
        }
        assert(header_fields(headers@) =~= header_fields(req.headers@));
        RequestInfo {
            headers,
            method: req.method.clone(),
            uri: req.uri.clone(),
            version: req.version,
        }
    }

    /// Returns the request headers.
    pub fn headers(&self) -> (r: &Vec<Header>)
        ensures
            header_fields(r@) == self@.headers,
    {
        &self.headers
    }

    /// Returns the request method type.
    pub fn method(&self) -> (r: &Method)
        ensures
            r@ == self@.method,
    {
        &self.method
    }

    /// Returns the request uri.
    pub fn uri(&self) -> (r: &Uri)
        ensures
            *r == self@.uri,
    {
        &self.uri
    }

    /// Returns the request's HTTP version.
    pub fn version(&self) -> (r: Version)
        ensures
            r == self@.version,
    {
        self.version
    }
}

} // verus!
