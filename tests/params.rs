use newton_fractal::decimal::{parse_i32_list, parse_i32_range, IntParseError};
use newton_fractal::server::{
    parse_pol_param, read_query, required_param, route, QueryParams, Route, ServerError,
};

fn params(pairs: &[(&str, &str)]) -> QueryParams {
    QueryParams::from_pairs(
        pairs
            .iter()
            .map(|(k, v)| (k.to_string(), v.to_string()))
            .collect(),
    )
}

#[test]
fn pol_param_reads_coefficients() {
    let p = parse_pol_param(&params(&[("pol", "-1,0,0,1")])).unwrap();
    assert_eq!(vec![-1, 0, 0, 1], *p.coeff());
}

#[test]
fn pol_param_missing() {
    match parse_pol_param(&params(&[("tx", "1")])) {
        Err(ServerError::InvalidArgument(m)) => assert_eq!("missing pol", m),
        other => panic!("unexpected {:?}", other),
    }
}

#[test]
fn pol_param_invalid_digit() {
    match parse_pol_param(&params(&[("pol", "1,x,3")])) {
        Err(ServerError::ParsingError { field, message }) => {
            assert_eq!("pol", field);
            assert_eq!("invalid digit found in string", message);
        }
        other => panic!("unexpected {:?}", other),
    }
}

#[test]
fn pol_param_empty_piece() {
    match parse_pol_param(&params(&[("pol", "1,,3")])) {
        Err(ServerError::ParsingError { field, message }) => {
            assert_eq!("pol", field);
            assert_eq!("cannot parse integer from empty string", message);
        }
        other => panic!("unexpected {:?}", other),
    }
}

#[test]
fn pol_param_overflow_messages() {
    match parse_pol_param(&params(&[("pol", "2147483648")])) {
        Err(ServerError::ParsingError { message, .. }) => {
            assert_eq!("number too large to fit in target type", message)
        }
        other => panic!("unexpected {:?}", other),
    }
    match parse_pol_param(&params(&[("pol", "0,-2147483649")])) {
        Err(ServerError::ParsingError { message, .. }) => {
            assert_eq!("number too small to fit in target type", message)
        }
        other => panic!("unexpected {:?}", other),
    }
}

#[test]
fn pol_param_last_value_wins() {
    let p = parse_pol_param(&params(&[("pol", "x"), ("pol", "3,4")])).unwrap();
    assert_eq!(vec![3, 4], *p.coeff());
}

#[test]
fn int_list_matches_std() {
    let cases = [
        "", "+", "-", "0", "-0", "+17", "-17", "12a", "a12", "2147483647", "-2147483648",
        "2147483648", "-2147483649", "99999999999x", "1x99999999999", "+-1", " 1", "1 ",
        "00000000000000000000042", "1,2,3", "1,,2", ",", "5,", "-5,+6,x",
    ];
    for case in cases {
        let ours = parse_i32_list(case);
        let std: Result<Vec<i32>, _> = case.split(',').map(|s| s.parse::<i32>()).collect();
        match (ours, std) {
            (Ok(a), Ok(b)) => assert_eq!(a, b, "{case:?}"),
            (Err(a), Err(b)) => assert_eq!(a.message(), b.to_string(), "{case:?}"),
            (a, b) => panic!("{case:?}: {a:?} vs {b:?}"),
        }
    }
}

#[test]
fn int_range_reads_a_slice() {
    assert_eq!(Ok(-45), parse_i32_range("ab-45cd", 2, 5));
    assert_eq!(Err(IntParseError::Empty), parse_i32_range("abc", 1, 1));
    assert_eq!(Err(IntParseError::InvalidDigit), parse_i32_range("+", 0, 1));
    assert_eq!(Err(IntParseError::PosOverflow), parse_i32_range("3000000000", 0, 10));
}

#[test]
fn query_is_percent_decoded() {
    let q = read_query("pol=-1%2C0%2C0%2C1&tx=-5&ty=-5&tw=10");
    let p = parse_pol_param(&q).unwrap();
    assert_eq!(vec![-1, 0, 0, 1], *p.coeff());
    assert_eq!("10", required_param(&q, "tw").unwrap());
    assert_eq!("-5", q.get("tx").unwrap());
}

#[test]
fn query_plus_is_space() {
    let q = read_query("name=a+b");
    assert_eq!("a b", q.get("name").unwrap());
}

#[test]
fn empty_query_has_no_params() {
    let q = read_query("");
    assert!(q.get("pol").is_none());
    match required_param(&q, "tw") {
        Err(ServerError::InvalidArgument(m)) => assert_eq!("missing tw", m),
        other => panic!("unexpected {:?}", other),
    }
}

#[test]
fn routes_only_get_root() {
    assert_eq!(Route::Image, route("GET", "/"));
    assert_eq!(Route::NotFound, route("POST", "/"));
    assert_eq!(Route::NotFound, route("GET", "/other"));
    assert_eq!(Route::NotFound, route("GET", ""));
}
