use newton_fractal::math::complex::Complex;
use newton_fractal::math::fixed::Fixed;
use newton_fractal::math::polynomial::Polynomial;
use newton_fractal::rendering::render_image;
use newton_fractal::server::{
    api, encoded_reply, handle_image_request, lookup, parse_field_params, parse_param_fixed,
    parse_pol_param, read_query, reply_to_query, serialize_image, Params, ServerError, StatusCode,
    GRID, MAX_ITER,
};
use newton_fractal::{newton_method_field, Field};

fn params(pairs: &[(&str, &str)]) -> Params {
    pairs.iter().map(|(k, v)| (k.to_string(), v.to_string())).collect()
}

fn field(x: i64, y: i64, size: i64, grid: u32) -> Field {
    Field {
        source: Complex { re: Fixed::from_int(x), im: Fixed::from_int(y) },
        size: Fixed::from_int(size),
        grid,
    }
}

fn plain(f: &Field) -> (i64, i64, i64, u32) {
    (f.source.re.raw, f.source.im.raw, f.size.raw, f.grid)
}

fn is_jpeg(bytes: &[u8]) -> bool {
    bytes.len() > 4 && bytes[..2] == [0xff, 0xd8] && bytes[bytes.len() - 2..] == [0xff, 0xd9]
}

#[test]
fn status_codes_have_their_numbers() {
    assert_eq!(StatusCode::Success.number(), 200);
    assert_eq!(StatusCode::BadRequest.number(), 400);
    assert_eq!(StatusCode::NotFound.number(), 404);
    assert_eq!(StatusCode::InternalServerError.number(), 500);
    assert_eq!(MAX_ITER, 100);
    assert_eq!(GRID, 512);
}

#[test]
fn read_query_needs_a_query() {
    assert_eq!(read_query(None).err(), Some(ServerError { code: StatusCode::BadRequest }));
    assert_eq!(read_query(Some("")).unwrap(), params(&[]));
}

#[test]
fn read_query_decodes_the_pairs() {
    let got = read_query(Some("pol=-1%2C0,0,1&tw=2.5&a+b=c%20d&flag&&x=1=2")).unwrap();
    let want = params(&[
        ("pol", "-1,0,0,1"),
        ("tw", "2.5"),
        ("a b", "c d"),
        ("flag", ""),
        ("x", "1=2"),
    ]);
    assert_eq!(got, want);
}

#[test]
fn lookup_takes_the_last_pair_of_a_name() {
    let p = params(&[("a", "1"), ("b", "2"), ("a", "3"), ("", "4")]);
    assert_eq!(lookup(&p, "a").map(String::as_str), Some("3"));
    assert_eq!(lookup(&p, "b").map(String::as_str), Some("2"));
    assert_eq!(lookup(&p, "").map(String::as_str), Some("4"));
    assert_eq!(lookup(&p, "c"), None);
    assert_eq!(lookup(&params(&[]), "a"), None);
}

#[test]
fn parse_param_fixed_falls_back_to_the_default() {
    let p = params(&[("tw", "2.5"), ("tx", "wide"), ("ty", "")]);
    let default = Fixed::from_int(7);
    assert_eq!(parse_param_fixed(&p, "tw", default).raw, 2_500_000_000);
    assert_eq!(parse_param_fixed(&p, "tx", default).raw, 7_000_000_000);
    assert_eq!(parse_param_fixed(&p, "ty", default).raw, 7_000_000_000);
    assert_eq!(parse_param_fixed(&p, "tz", default).raw, 7_000_000_000);
}

#[test]
fn parse_field_params_defaults() {
    let f = parse_field_params(&params(&[]));
    assert_eq!(plain(&f), (-5_000_000_000, -5_000_000_000, 10_000_000_000, 512));
}

#[test]
fn parse_field_params_reads_corner_and_side() {
    let f = parse_field_params(&params(&[("tx", "-1.5"), ("tw", "3"), ("ty", "0.25")]));
    assert_eq!(plain(&f), (-1_500_000_000, 250_000_000, 3_000_000_000, 512));
    let f = parse_field_params(&params(&[("tx", "1"), ("tx", "2"), ("tw", "x"), ("grid", "7")]));
    assert_eq!(plain(&f), (2_000_000_000, -5_000_000_000, 10_000_000_000, 512));
}

#[test]
fn parse_pol_param_reads_the_coefficients() {
    let pol = parse_pol_param(&params(&[("pol", "-1,0,0,1")])).unwrap();
    assert_eq!(pol.coefs, vec![-1, 0, 0, 1]);
    let pol = parse_pol_param(&params(&[("pol", "x"), ("pol", "5")])).unwrap();
    assert_eq!(pol.coefs, vec![5]);
}

#[test]
fn parse_pol_param_rejects_bad_requests() {
    let bad = Some(ServerError { code: StatusCode::BadRequest });
    assert_eq!(parse_pol_param(&params(&[])).err(), bad);
    assert_eq!(parse_pol_param(&params(&[("tw", "1")])).err(), bad);
    assert_eq!(parse_pol_param(&params(&[("pol", "")])).err(), bad);
    assert_eq!(parse_pol_param(&params(&[("pol", "1,2,")])).err(), bad);
    assert_eq!(parse_pol_param(&params(&[("pol", "1,a,3")])).err(), bad);
    assert_eq!(parse_pol_param(&params(&[("pol", "1.5")])).err(), bad);
    assert_eq!(parse_pol_param(&params(&[("pol", "1"), ("pol", "z")])).err(), bad);
}

#[test]
fn encoded_reply_keeps_the_bytes() {
    assert_eq!(encoded_reply(Ok(vec![1, 2, 3])), Ok(vec![1, 2, 3]));
}

#[test]
fn encoded_reply_turns_an_error_into_a_server_fault() {
    let refused = image::ImageError::Parameter(image::error::ParameterError::from_kind(
        image::error::ParameterErrorKind::DimensionMismatch,
    ));
    assert_eq!(
        encoded_reply(Err(refused)),
        Err(ServerError { code: StatusCode::InternalServerError })
    );
}

#[test]
fn serialize_image_writes_a_jpeg_of_the_same_size() {
    let f = field(-5, -5, 10, 24);
    let solutions = newton_method_field(Polynomial::new(vec![-1, 0, 0, 1]), f, 50).unwrap();
    let bytes = serialize_image(render_image(&solutions, &f, 50)).unwrap();
    assert!(is_jpeg(&bytes));
    let decoded = image::load_from_memory_with_format(&bytes, image::ImageFormat::Jpeg).unwrap();
    assert_eq!((decoded.width(), decoded.height()), (24, 24));
}

#[test]
fn serialize_image_keeps_the_colours_nearly() {
    let f = field(-5, -5, 10, 16);
    let solutions = newton_method_field(Polynomial::new(vec![-1, 0, 0, 1]), f, 50).unwrap();
    let image = render_image(&solutions, &f, 50);
    let corner = image.get_pixel(0, 0).unwrap();
    let bytes = serialize_image(image).unwrap();
    let decoded = image::load_from_memory_with_format(&bytes, image::ImageFormat::Jpeg)
        .unwrap()
        .to_rgb8();
    let got = decoded.get_pixel(0, 0).0;
    for (a, b) in [corner.0, corner.1, corner.2].iter().zip(got.iter()) {
        assert!((*a as i32 - *b as i32).abs() < 40, "{corner:?} against {got:?}");
    }
}

#[test]
fn serialize_image_is_reproducible() {
    let f = field(-5, -5, 10, 8);
    let solutions = newton_method_field(Polynomial::new(vec![-1, 0, 0, 1]), f, 50).unwrap();
    let first = serialize_image(render_image(&solutions, &f, 50)).unwrap();
    let second = serialize_image(render_image(&solutions, &f, 50)).unwrap();
    assert_eq!(first, second);
}

#[test]
fn handle_image_request_answers_with_a_jpeg() {
    let bytes = handle_image_request(Polynomial::new(vec![-1, 0, 0, 1]), field(-5, -5, 10, 32))
        .unwrap();
    assert!(is_jpeg(&bytes));
}

#[test]
fn handle_image_request_rejects_what_cannot_be_solved() {
    let bad = Some(ServerError { code: StatusCode::BadRequest });
    assert_eq!(handle_image_request(Polynomial::new(vec![1]), field(-5, -5, 10, 8)).err(), bad);
    assert_eq!(
        handle_image_request(Polynomial::new(vec![-1, 0, 0, 1]), field(-5, -5, 0, 8)).err(),
        bad
    );
    assert_eq!(
        handle_image_request(Polynomial::new(vec![-1, 0, 0, 1]), field(-5, -5, 10, 0)).err(),
        bad
    );
}

#[test]
fn reply_to_query_without_a_polynomial_is_a_bad_request() {
    let reply = reply_to_query(&params(&[("tw", "3")]));
    assert_eq!(reply.status, StatusCode::BadRequest);
    assert!(reply.body.is_empty());
    let reply = reply_to_query(&params(&[("pol", "7")]));
    assert_eq!(reply.status, StatusCode::BadRequest);
    let reply = reply_to_query(&params(&[("pol", "-1,0,0,1"), ("tw", "-3")]));
    assert_eq!(reply.status, StatusCode::BadRequest);
    assert!(reply.body.is_empty());
}

#[test]
fn api_serves_only_get_on_the_root() {
    for (method, path) in [("POST", "/"), ("GET", "/image"), ("get", "/"), ("GET", ""), ("", "/")] {
        let reply = api(method, path, Some("pol=-1,0,0,1"));
        assert_eq!(reply.status, StatusCode::NotFound);
        assert!(reply.body.is_empty());
    }
}

#[test]
fn api_needs_a_query_and_a_polynomial() {
    let reply = api("GET", "/", None);
    assert_eq!(reply.status, StatusCode::BadRequest);
    assert!(reply.body.is_empty());
    let reply = api("GET", "/", Some("tw=3"));
    assert_eq!(reply.status, StatusCode::BadRequest);
    let reply = api("GET", "/", Some("pol=1,x"));
    assert_eq!(reply.status, StatusCode::BadRequest);
    let reply = api("GET", "/", Some("pol=1,2&tw=0"));
    assert_eq!(reply.status, StatusCode::BadRequest);
}

#[test]
fn api_answers_a_request_with_a_picture() {
    let reply = api("GET", "/", Some("pol=-1%2C0%2C0%2C1&tx=-2&ty=-2&tw=4"));
    assert_eq!(reply.status, StatusCode::Success);
    assert!(is_jpeg(&reply.body));
    let decoded =
        image::load_from_memory_with_format(&reply.body, image::ImageFormat::Jpeg).unwrap();
    assert_eq!((decoded.width(), decoded.height()), (512, 512));
}
