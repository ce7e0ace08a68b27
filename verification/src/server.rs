use crate::canvas::{
    buffer_write_jpeg, image_height, image_pixels, image_width, jpeg_encoding, RgbImage,
};
use crate::math::complex::Complex;
use crate::math::fixed::Fixed;
use crate::math::polynomial::Polynomial;
use crate::rendering::{picture_spec, render_image};
use crate::text::{
    chars_of, parse_fixed, parse_fixed_spec, parse_i32_list, parse_list_spec, same_text,
};
use crate::{field_result_spec, newton_method_field, Field};
use vstd::prelude::*;

verus! {

/// The number of steps that a request allows each point.
pub const MAX_ITER: u32 = 100;

/// The number of samples along each side of a requested picture.
pub const GRID: u32 = 512;

/// The quality at which pictures are encoded; the encoder takes what is
/// above its best for its best.
pub const JPEG_QUALITY: u8 = 255;

/// The outcome of a request, as the status of its answer.
#[derive(Clone, Copy, Debug, PartialEq, Eq, Structural)]
pub enum StatusCode {
    Success,
    BadRequest,
    NotFound,
    InternalServerError,
}

/// A request that was not served, with the status to answer it by.
#[derive(Clone, Copy, Debug, PartialEq, Eq, Structural)]
pub struct ServerError {
    pub code: StatusCode,
}

/// The answer to a request: a status and, where it is `Ok`, a JPEG file.
#[derive(Debug)]
pub struct Reply {
    pub status: StatusCode,
    pub body: Vec<u8>,
}

/// The name and value pairs of a query, in the order in which it gives them.
pub type Params = Vec<(String, String)>;

/// The pairs of names and values that the `url` crate reads from a query
/// string in the form `application/x-www-form-urlencoded`.
pub uninterp spec fn form_pairs(query: Seq<char>) -> Seq<(Seq<char>, Seq<char>)>;

/// `url::form_urlencoded::parse`, with every pair made an owned one: the
/// pairs are a function of the query's text alone.
#[verifier::external_body]
fn parse_form(query: &str) -> (pairs: Params)
    ensures
        pairs.deep_view() == form_pairs(query@),
{
    url::form_urlencoded::parse(query.as_bytes()).into_owned().collect()
}

impl StatusCode {
    pub open spec fn number_spec(self) -> u16 {
        match self {
            StatusCode::Success => 200,
            StatusCode::BadRequest => 400,
            StatusCode::NotFound => 404,
            StatusCode::InternalServerError => 500,
        }
    }

    /// The status as the number that HTTP gives it.
    pub fn number(self) -> (n: u16)
        ensures
            n == self.number_spec(),
    {
        match self {
            StatusCode::Success => 200,
            StatusCode::BadRequest => 400,
            StatusCode::NotFound => 404,
            StatusCode::InternalServerError => 500,
        }
    }
}

/// The value that the pairs give a name: that of the last pair that has the
/// name, as in a map filled pair by pair.
pub open spec fn lookup_spec(pairs: Seq<(Seq<char>, Seq<char>)>, name: Seq<char>) -> Option<
    Seq<char>,
>
    decreases pairs.len(),
{
    if pairs.len() == 0 {
        None
    } else if pairs.last().0 == name {
        Some(pairs.last().1)
    } else {
        lookup_spec(pairs.drop_last(), name)
    }
}

/// The number that the pairs give a name, or `default` where they give none
/// or give it a value that is no number.
pub open spec fn param_spec(
    pairs: Seq<(Seq<char>, Seq<char>)>,
    name: Seq<char>,
    default: Fixed,
) -> Fixed {
    match lookup_spec(pairs, name) {
        Some(text) => match parse_fixed_spec(text) {
            Some(value) => value,
            None => default,
        },
        None => default,
    }
}

/// The field that a query asks for: the corner `(tx, ty)`, by default
/// `(-5, -5)`, the side `tw`, by default 10, and `GRID` samples per side.
pub open spec fn field_params_spec(pairs: Seq<(Seq<char>, Seq<char>)>) -> Field {
    Field {
        source: Complex {
            re: param_spec(pairs, "tx"@, Fixed::from_int_spec(-5)),
            im: param_spec(pairs, "ty"@, Fixed::from_int_spec(-5)),
        },
        size: param_spec(pairs, "tw"@, Fixed::from_int_spec(10)),
        grid: GRID,
    }
}

/// The coefficients that a query gives under `pol`, the constant term first;
/// `None` where it gives none or the value is no list of integers.
pub open spec fn pol_param_spec(pairs: Seq<(Seq<char>, Seq<char>)>) -> Option<Seq<i32>> {
    match lookup_spec(pairs, "pol"@) {
        Some(text) => parse_list_spec(text),
        None => None,
    }
}

/// What is answered for a JPEG encoding, or for the lack of one.
pub open spec fn encoded_spec(encoding: Option<Seq<u8>>) -> Result<Seq<u8>, ServerError> {
    match encoding {
        Some(bytes) => Ok(bytes),
        None => Err(ServerError { code: StatusCode::InternalServerError }),
    }
}

/// What is answered for a polynomial and a field: a field that cannot be
/// solved is a bad request, and a picture that cannot be encoded is a fault
/// of the server.
pub open spec fn image_request_spec(coefs: Seq<int>, field: Field) -> Result<
    Seq<u8>,
    ServerError,
> {
    match field_result_spec(coefs, field, MAX_ITER) {
        Err(_) => Err(ServerError { code: StatusCode::BadRequest }),
        Ok(solutions) => encoded_spec(
            jpeg_encoding(
                picture_spec(solutions, field.grid, MAX_ITER),
                field.grid as nat,
                field.grid as nat,
                JPEG_QUALITY,
            ),
        ),
    }
}

/// What is answered for the pairs of a query.
pub open spec fn query_reply_spec(pairs: Seq<(Seq<char>, Seq<char>)>) -> (StatusCode, Seq<u8>) {
    match pol_param_spec(pairs) {
        None => (StatusCode::BadRequest, Seq::<u8>::empty()),
        Some(coefs) => match image_request_spec(
            coefs.map_values(|c: i32| c as int),
            field_params_spec(pairs),
        ) {
            Ok(bytes) => (StatusCode::Success, bytes),
            Err(e) => (e.code, Seq::<u8>::empty()),
        },
    }
}

/// What is answered for a request: only `GET /` is served, and only with a
/// query.
pub open spec fn api_spec(method: Seq<char>, path: Seq<char>, query: Option<Seq<char>>) -> (
    StatusCode,
    Seq<u8>,
) {
    if method == "GET"@ && path == "/"@ {
        match query {
            Some(text) => query_reply_spec(form_pairs(text)),
            None => (StatusCode::BadRequest, Seq::<u8>::empty()),
        }
    } else {
        (StatusCode::NotFound, Seq::<u8>::empty())
    }
}

/// Looks a name up among the pairs of a query.
pub fn lookup<'a>(params: &'a Params, name: &str) -> (value: Option<&'a String>)
    ensures
        match value {
            Some(text) => lookup_spec(params.deep_view(), name@) == Some(text@),
            None => lookup_spec(params.deep_view(), name@) is None,
        },
{
    let wanted = chars_of(name);
    let ghost pairs = params.deep_view();
    let mut i: usize = params.len();
    assert(pairs.take(i as int) =~= pairs);
    while i > 0
        invariant
            i <= params.len(),
            wanted@ == name@,
            pairs == params.deep_view(),
            lookup_spec(pairs, name@) == lookup_spec(pairs.take(i as int), name@),
        decreases i,
    {
        i = i - 1;
        let key = chars_of(params[i].0.as_str());
        proof {
            let front = pairs.take(i + 1);
            assert(front.drop_last() =~= pairs.take(i as int));
            assert(front.last() == (params[i as int].0@, params[i as int].1@));
        }
        if same_text(key.as_slice(), wanted.as_slice()) {
            return Some(&params[i].1);
        }
    }
    None
}

/// The pairs of a query, or a bad request where there is no query.
pub fn read_query(query: Option<&str>) -> (res: Result<Params, ServerError>)
    ensures
        match res {
            Ok(params) => query matches Some(text) && params.deep_view() == form_pairs(text@),
            Err(e) => query is None && e.code == StatusCode::BadRequest,
        },
{
    match query {
        Some(text) => Ok(parse_form(text)),
        None => Err(ServerError { code: StatusCode::BadRequest }),
    }
}

/// The number that a query gives a name, or the default.
pub fn parse_param_fixed(params: &Params, name: &str, default: Fixed) -> (value: Fixed)
    ensures
        value == param_spec(params.deep_view(), name@, default),
{
    if let Some(text) = lookup(params, name) {
        let chars = chars_of(text.as_str());
        if let Some(value) = parse_fixed(chars.as_slice()) {
            return value;
        }
    }
    default
}

/// The field that a query asks for.
pub fn parse_field_params(params: &Params) -> (field: Field)
    ensures
        field == field_params_spec(params.deep_view()),
{
    let tw = parse_param_fixed(params, "tw", Fixed::from_int(10));
    let tx = parse_param_fixed(params, "tx", Fixed::from_int(-5));
    let ty = parse_param_fixed(params, "ty", Fixed::from_int(-5));
    Field { source: Complex { re: tx, im: ty }, size: tw, grid: GRID }
}

/// The polynomial that a query asks for, or a bad request.
pub fn parse_pol_param(params: &Params) -> (res: Result<Polynomial, ServerError>)
    ensures
        match res {
            Ok(pol) => pol_param_spec(params.deep_view()) == Some(pol.coefs@),
            Err(e) => pol_param_spec(params.deep_view()) is None && e.code
                == StatusCode::BadRequest,
        },
{
    if let Some(text) = lookup(params, "pol") {
        let chars = chars_of(text.as_str());
        match parse_i32_list(chars.as_slice()) {
            Some(coefs) => Ok(Polynomial::new(coefs)),
            None => Err(ServerError { code: StatusCode::BadRequest }),
        }
    } else {
        Err(ServerError { code: StatusCode::BadRequest })
    }
}

/// The answer for what the encoder returned.
pub fn encoded_reply(encoded: Result<Vec<u8>, image::ImageError>) -> (res: Result<
    Vec<u8>,
    ServerError,
>)
    ensures
        match encoded {
            Ok(bytes) => res == Ok::<Vec<u8>, ServerError>(bytes),
            Err(_) => res == Err::<Vec<u8>, ServerError>(
                ServerError { code: StatusCode::InternalServerError },
            ),
        },
{
    match encoded {
        Ok(bytes) => Ok(bytes),
        Err(_) => Err(ServerError { code: StatusCode::InternalServerError }),
    }
}

/// The image as a JPEG file.
pub fn serialize_image(image: RgbImage) -> (res: Result<Vec<u8>, ServerError>)
    ensures
        match res {
            Ok(bytes) => Ok(bytes@),
            Err(e) => Err(e),
        } == encoded_spec(
            jpeg_encoding(
                image_pixels(image),
                image_width(image),
                image_height(image),
                JPEG_QUALITY,
            ),
        ),
{
    encoded_reply(buffer_write_jpeg(&image, JPEG_QUALITY))
}

/// Solves the field for the polynomial and paints the outcome.
pub fn handle_image_request(pol: Polynomial, field: Field) -> (res: Result<Vec<u8>, ServerError>)
    requires
        3 * field.grid * field.grid <= isize::MAX,
    ensures
        match res {
            Ok(bytes) => Ok(bytes@),
            Err(e) => Err(e),
        } == image_request_spec(pol@, field),
{
    let ghost coefs = pol@;
    match newton_method_field(pol, field, MAX_ITER) {
        Ok(solutions) => {
            let image = render_image(&solutions, &field, MAX_ITER);
            serialize_image(image)
        },
        Err(_) => Err(ServerError { code: StatusCode::BadRequest }),
    }
}

/// The answer for the pairs of a query.
pub fn reply_to_query(params: &Params) -> (reply: Reply)
    ensures
        (reply.status, reply.body@) == query_reply_spec(params.deep_view()),
{
    let field = parse_field_params(params);
    match parse_pol_param(params) {
        Ok(pol) => match handle_image_request(pol, field) {
            Ok(payload) => Reply { status: StatusCode::Success, body: payload },
            Err(err) => Reply { status: err.code, body: Vec::new() },
        },
        Err(err) => Reply { status: err.code, body: Vec::new() },
    }
}

/// Answers a request, given by its method, its path and its query string.
pub fn api(method: &str, path: &str, query: Option<&str>) -> (reply: Reply)
    ensures
        (reply.status, reply.body@) == api_spec(
            method@,
            path@,
            match query {
                Some(text) => Some(text@),
                None => None,
            },
        ),
{
    let is_get = same_text(chars_of(method).as_slice(), chars_of("GET").as_slice());
    let is_root = same_text(chars_of(path).as_slice(), chars_of("/").as_slice());
    if is_get && is_root {
        match read_query(query) {
            Ok(params) => reply_to_query(&params),
            Err(err) => Reply { status: err.code, body: Vec::new() },
        }
    } else {
        Reply { status: StatusCode::NotFound, body: Vec::new() }
    }
}

} // verus!
