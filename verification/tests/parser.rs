//! Tests of the route-template grammar.

use mattak::routing::parser::{
    mod_prefix, parse, path, pct_encoded, segment, segment_variable, segment_varspec,
    Expression, Op, Parsed, Part, VarMod, VarSpec,
};
use mattak::routing::InnerSingle;

fn chars(s: &str) -> Vec<char> {
    s.chars().collect()
}

#[test]
fn test_parse() {
    let input = "http://example.com/user/{user_id}{?something,mysterious}";
    assert_eq!(
        parse(input),
        Ok(Parsed {
            auth: Some(vec![
                Part::Lit("http:".to_string()),
                Part::Lit("//".to_string()),
                Part::Lit("example.com".to_string()),
            ]),
            path: vec![
                Part::Lit("/user".to_string()),
                Part::SegVar(Expression {
                    operator: Op::Simple,
                    varspecs: vec![VarSpec {
                        varname: "user_id".to_string(),
                        modifier: VarMod::NoMod,
                    }],
                }),
            ],
            query: Some(vec![Part::Expression(Expression {
                operator: Op::Query,
                varspecs: vec![
                    VarSpec { varname: "something".to_string(), modifier: VarMod::NoMod },
                    VarSpec { varname: "mysterious".to_string(), modifier: VarMod::NoMod },
                ],
            })]),
        })
    );
    let input = "/user/{user_id}{?something,mysterious}";
    assert_eq!(
        parse(input),
        Ok(Parsed {
            path: vec![
                Part::Lit("/user".to_string()),
                Part::SegVar(Expression {
                    operator: Op::Simple,
                    varspecs: vec![VarSpec {
                        varname: "user_id".to_string(),
                        modifier: VarMod::NoMod,
                    }],
                }),
            ],
            query: Some(vec![Part::Expression(Expression {
                operator: Op::Query,
                varspecs: vec![
                    VarSpec { varname: "something".to_string(), modifier: VarMod::NoMod },
                    VarSpec { varname: "mysterious".to_string(), modifier: VarMod::NoMod },
                ],
            })]),
            ..Parsed::default()
        })
    );
    assert_eq!(
        parse("/user/{user_id}?something=good{&mysterious}"),
        Ok(Parsed {
            path: vec![
                Part::Lit("/user".to_string()),
                Part::SegVar(Expression {
                    operator: Op::Simple,
                    varspecs: vec![VarSpec {
                        varname: "user_id".to_string(),
                        modifier: VarMod::NoMod,
                    }],
                }),
            ],
            query: Some(vec![
                Part::Lit("?something=good".to_string()),
                Part::Expression(Expression {
                    operator: Op::QueryCont,
                    varspecs: vec![VarSpec {
                        varname: "mysterious".to_string(),
                        modifier: VarMod::NoMod,
                    }],
                }),
            ]),
            ..Parsed::default()
        })
    );
    let input = "/user/{user_id,user_name}";
    assert_eq!(
        parse(input),
        Ok(Parsed {
            path: vec![
                Part::Lit("/user".to_string()),
                Part::SegVar(Expression {
                    operator: Op::Simple,
                    varspecs: vec![
                        VarSpec { varname: "user_id".to_string(), modifier: VarMod::NoMod },
                        VarSpec { varname: "user_name".to_string(), modifier: VarMod::NoMod },
                    ],
                }),
            ],
            ..Parsed::default()
        })
    );
    let input = "/user{/user_id,user_name}";
    assert_eq!(
        parse(input),
        Ok(Parsed {
            path: vec![
                Part::Lit("/user".to_string()),
                Part::SegPathVar(Expression {
                    operator: Op::Path,
                    varspecs: vec![
                        VarSpec { varname: "user_id".to_string(), modifier: VarMod::NoMod },
                        VarSpec { varname: "user_name".to_string(), modifier: VarMod::NoMod },
                    ],
                }),
            ],
            ..Parsed::default()
        })
    );
    let input = "/user{/user_id}";
    assert_eq!(
        parse(input),
        Ok(Parsed {
            path: vec![
                Part::Lit("/user".to_string()),
                Part::SegPathVar(Expression {
                    operator: Op::Path,
                    varspecs: vec![VarSpec {
                        varname: "user_id".to_string(),
                        modifier: VarMod::NoMod,
                    }],
                }),
            ],
            ..Parsed::default()
        })
    );
    let input = "/user/{user_id*}";
    assert_eq!(
        parse(input),
        Ok(Parsed {
            path: vec![
                Part::Lit("/user".to_string()),
                Part::SegRest(Expression {
                    operator: Op::Simple,
                    varspecs: vec![VarSpec {
                        varname: "user_id".to_string(),
                        modifier: VarMod::Explode,
                    }],
                }),
            ],
            ..Parsed::default()
        })
    );
    let input = "/user{/user_id*}";
    assert_eq!(
        parse(input),
        Ok(Parsed {
            path: vec![
                Part::Lit("/user".to_string()),
                Part::SegPathRest(Expression {
                    operator: Op::Path,
                    varspecs: vec![VarSpec {
                        varname: "user_id".to_string(),
                        modifier: VarMod::Explode,
                    }],
                }),
            ],
            ..Parsed::default()
        })
    );
    let input = "/user/{user_id}";
    assert_eq!(
        parse(input),
        Ok(Parsed {
            path: vec![
                Part::Lit("/user".to_string()),
                Part::SegVar(Expression {
                    operator: Op::Simple,
                    varspecs: vec![VarSpec {
                        varname: "user_id".to_string(),
                        modifier: VarMod::NoMod,
                    }],
                }),
            ],
            ..Parsed::default()
        })
    );
    let input = "/";
    assert_eq!(
        parse(input),
        Ok(Parsed { path: vec![Part::Lit("/".to_string())], ..Parsed::default() })
    );
}

#[test]
fn test_path() {
    let t = chars("/user/{user_id}");
    assert_eq!(
        path(&t, 0),
        Some((
            t.len(),
            vec![
                Part::Lit("/user".to_string()),
                Part::SegVar(Expression {
                    operator: Op::Simple,
                    varspecs: vec![VarSpec {
                        varname: "user_id".to_string(),
                        modifier: VarMod::NoMod,
                    }],
                }),
            ]
        ))
    )
}

#[test]
fn test_segment() {
    let t = chars("/user");
    assert_eq!(segment(&t, 0), Some((t.len(), Part::Lit("/user".to_string()))));
    let t = chars("/{user_id}");
    assert_eq!(
        segment(&t, 0),
        Some((
            t.len(),
            Part::SegVar(Expression {
                operator: Op::Simple,
                varspecs: vec![VarSpec {
                    varname: "user_id".to_string(),
                    modifier: VarMod::NoMod,
                }],
            })
        ))
    )
}

#[test]
fn test_segment_variable() {
    let t = chars("/{user_id}");
    assert_eq!(
        segment_variable(&t, 0),
        Some((
            t.len(),
            Part::SegVar(Expression {
                operator: Op::Simple,
                varspecs: vec![VarSpec {
                    varname: "user_id".to_string(),
                    modifier: VarMod::NoMod,
                }],
            })
        ))
    )
}

#[test]
fn test_segment_varspec() {
    let t = chars("user_id");
    assert_eq!(
        segment_varspec(&t, 0),
        Some((t.len(), VarSpec { varname: "user_id".to_string(), modifier: VarMod::NoMod }))
    )
}

#[test]
fn test_prefix() {
    let t = chars(":17");
    assert_eq!(Some((t.len(), 17)), mod_prefix(&t, 0));
    let t = chars(":1");
    assert_eq!(Some((t.len(), 1)), mod_prefix(&t, 0));
}

#[test]
fn test_pct_encoded() {
    let t = chars("%30*");
    assert_eq!(pct_encoded(&t, 0), Some((3, '0')));
    let t = chars("%41g");
    assert_eq!(pct_encoded(&t, 0), Some((3, 'A')));
    let t = chars("41");
    assert_eq!(pct_encoded(&t, 0), None);
    let t = chars("%4");
    assert_eq!(pct_encoded(&t, 0), None);
}

#[test]
fn rejects_malformed_templates() {
    assert!(parse("/user/").is_err());
    assert!(parse("/user/{user_id").is_err());
    assert!(parse("").is_err());
    assert!(parse("/x/{:3}").is_err());
    assert!(parse("/x/{id:0}").is_err());
    assert!(parse("/x/{id:12345}").is_err());
}

#[test]
fn canonical_renders_modifiers() {
    let template = "/a/{x:42}/b{/rest*}{?q,r:7}";
    let route = InnerSingle::from_parsed(parse(template).unwrap());
    assert_eq!(route.template_string(), template.to_string());
}
