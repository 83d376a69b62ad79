use vstd::prelude::*;

use crate::decimal::{int_error_text, parse_i32_list, parse_i32_list_spec};
use crate::polynomial::Polynomial;

verus! {

/// What goes wrong while reading a request.
#[derive(Debug)]
pub enum ServerError {
    /// A required parameter is absent.
    InvalidArgument(String),
    /// A parameter is present but is not the number it should be.
    ParsingError { field: String, message: String },
    UnknownError,
}

/// What `url::form_urlencoded::parse` yields for a query string.
pub uninterp spec fn form_decoded(query: Seq<char>) -> Seq<(Seq<char>, Seq<char>)>;

/// The texts of name/value pairs.
pub open spec fn pairs_view(ps: Seq<(String, String)>) -> Seq<(Seq<char>, Seq<char>)> {
    ps.map_values(|p: (String, String)| (p.0@, p.1@))
}

/// Relies on url::form_urlencoded::parse (through into_owned): the
/// percent-decoded name/value pairs of a query string, in order. They depend
/// on the text alone, and an empty text has none.
#[verifier::external_body]
fn decode_form(query: &str) -> (r: Vec<(String, String)>)
    ensures
        pairs_view(r@) == form_decoded(query@),
        query@.len() == 0 ==> r@.len() == 0,
{
    url::form_urlencoded::parse(query.as_bytes()).into_owned().collect()
}

/// The value of the last pair called `name`: a later pair replaces an
/// earlier one of the same name.
pub open spec fn param_value(ps: Seq<(Seq<char>, Seq<char>)>, name: Seq<char>) -> Option<
    Seq<char>,
>
    decreases ps.len(),
{
    if ps.len() == 0 {
        None
    } else if ps.last().0 == name {
        Some(ps.last().1)
    } else {
        param_value(ps.drop_last(), name)
    }
}

/// The parameters of a request's query string.
pub struct QueryParams {
    pairs: Vec<(String, String)>,
}

impl View for QueryParams {
    type V = Seq<(Seq<char>, Seq<char>)>;

    closed spec fn view(&self) -> Seq<(Seq<char>, Seq<char>)> {
        pairs_view(self.pairs@)
    }
}

impl QueryParams {
    /// Parameters given as name/value pairs, in order.
    pub fn from_pairs(pairs: Vec<(String, String)>) -> (r: QueryParams)
        ensures
            r@ == pairs_view(pairs@),
    {
        QueryParams { pairs }
    }

    /// The value of parameter `name`, as `param_value` picks it.
    pub fn get(&self, name: &str) -> (r: Option<&String>)
        ensures
            match param_value(self@, name@) {
                None => r is None,
                Some(v) => r matches Some(x) && x@ == v,
            },
    {
        let key = String::from_str(name);
        let mut i: usize = self.pairs.len();
        assert(self@.take(i as int) =~= self@);
        while i > 0
            invariant
                i <= self.pairs@.len(),
                key@ == name@,
                self@.len() == self.pairs@.len(),
                param_value(self@, name@) == param_value(self@.take(i as int), name@),
            decreases i,
        {
            i = i - 1;
            let ghost t = self@.take(i + 1);
            assert(t.drop_last() =~= self@.take(i as int));
            assert(t.last() == (self.pairs@[i as int].0@, self.pairs@[i as int].1@));
            if self.pairs[i].0 == key {
                return Some(&self.pairs[i].1);
            }
        }
        None
    }
}

/// Reads the parameters of a query string (the part of a URI after `?`).
pub fn read_query(query: &str) -> (r: QueryParams)
    ensures
        r@ == form_decoded(query@),
        query@.len() == 0 ==> r@.len() == 0,
{
    QueryParams { pairs: decode_form(query) }
}

/// The value of parameter `name`, or `InvalidArgument("missing <name>")`.
pub fn required_param<'a>(params: &'a QueryParams, name: &str) -> (r: Result<
    &'a String,
    ServerError,
>)
    ensures
        match param_value(params@, name@) {
            None => r matches Err(ServerError::InvalidArgument(m)) && m@ == "missing "@ + name@,
            Some(v) => r matches Ok(x) && x@ == v,
        },
{
    match params.get(name) {
        Some(v) => Ok(v),
        None => {
            let mut m = String::from_str("missing ");
            m.append(name);
            Err(ServerError::InvalidArgument(m))
        },
    }
}

/// The polynomial of parameter `pol`: comma-separated decimal `i32`
/// coefficients, lowest degree first.
pub fn parse_pol_param(params: &QueryParams) -> (r: Result<Polynomial, ServerError>)
    ensures
        match param_value(params@, "pol"@) {
            None => r matches Err(ServerError::InvalidArgument(m)) && m@ == "missing pol"@,
            Some(v) => match parse_i32_list_spec(v) {
                Ok(cs) => r matches Ok(p) && p@ == cs,
                Err(e) => r matches Err(ServerError::ParsingError { field, message }) && field@
                    == "pol"@ && message@ == int_error_text(e),
            },
        },
{
    proof {
        reveal_strlit("missing ");
        reveal_strlit("pol");
        reveal_strlit("missing pol");
        assert("missing "@ + "pol"@ =~= "missing pol"@);
    }
    let text = match required_param(params, "pol") {
        Ok(v) => v,
        Err(e) => {
            return Err(e);
        },
    };
    match parse_i32_list(text.as_str()) {
        Ok(coeff) => Ok(Polynomial::new(coeff)),
        Err(e) => Err(
            ServerError::ParsingError {
                field: String::from_str("pol"),
                message: String::from_str(e.message()),
            },
        ),
    }
}

/// Where a request goes.
#[derive(Debug, Clone, Copy, PartialEq, Eq, Structural)]
pub enum Route {
    /// `GET /`: render the fractal the query describes.
    Image,
    /// Anything else.
    NotFound,
}

/// Routes a request by its method and path: only `GET /` is served.
pub fn route(method: &str, path: &str) -> (r: Route)
    ensures
        r == (if method@ == "GET"@ && path@ == "/"@ {
            Route::Image
        } else {
            Route::NotFound
        }),
{
    let m = String::from_str(method);
    let p = String::from_str(path);
    if m == String::from_str("GET") && p == String::from_str("/") {
        Route::Image
    } else {
        Route::NotFound
    }
}

} // verus!
