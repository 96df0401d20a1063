use clash_info::json::Json;
use clash_info::model::{History, Proxies, Proxy};

fn record(name: &str, ty: &str) -> Proxy {
    Proxy {
        history: vec![],
        name: name.to_string(),
        proxy_type: ty.to_string(),
        udp: false,
    }
}

#[test]
fn parses_single_proxy() {
    let body = r#"{"proxies":{"p1":{"history":[],"name":"p1","type":"Direct","udp":false}}}"#;
    let got = Proxies::from_response(body).expect("well-formed body parses");
    assert_eq!(got.records.len(), 1);
    assert_eq!(got.records[0], record("p1", "Direct"));
}

#[test]
fn missing_type_field_is_absent() {
    let body = r#"{"proxies":{"p1":{"history":[],"name":"p1","udp":false}}}"#;
    assert!(Proxies::from_response(body).is_none());
}

#[test]
fn invalid_json_is_absent() {
    assert!(Proxies::from_response("not json at all").is_none());
    assert!(Proxies::from_response("").is_none());
    assert!(Proxies::from_response(r#"{"proxies":"#).is_none());
}

#[test]
fn top_level_not_object_is_absent() {
    assert!(Proxies::from_response("[1,2,3]").is_none());
    assert!(Proxies::from_response("42").is_none());
    assert!(Proxies::from_response("\"proxies\"").is_none());
}

#[test]
fn missing_proxies_field_is_absent() {
    assert!(Proxies::from_response("{}").is_none());
    assert!(Proxies::from_response(r#"{"other":{}}"#).is_none());
}

#[test]
fn proxies_field_not_object_is_absent() {
    assert!(Proxies::from_response(r#"{"proxies":3}"#).is_none());
    assert!(Proxies::from_response(r#"{"proxies":[]}"#).is_none());
}

#[test]
fn empty_proxies_object_is_empty_collection() {
    let got = Proxies::from_response(r#"{"proxies":{}}"#).expect("parses");
    assert!(got.records.is_empty());
}

#[test]
fn history_samples_preserved() {
    let body = r#"{"proxies":{"p":{"history":[
        {"time":"2023-01-01T00:00:00Z","delay":120,"meanDelay":110},
        {"time":"2023-01-01T00:01:00Z","delay":-1,"meanDelay":0}
    ],"name":"p","type":"Selector","udp":true}}}"#;
    let got = Proxies::from_response(body).expect("parses");
    assert_eq!(got.records.len(), 1);
    let p = &got.records[0];
    assert!(p.udp);
    assert_eq!(
        p.history,
        vec![
            History {
                time: "2023-01-01T00:00:00Z".to_string(),
                delay: 120,
                mean_delay: 110,
            },
            History {
                time: "2023-01-01T00:01:00Z".to_string(),
                delay: -1,
                mean_delay: 0,
            },
        ]
    );
}

#[test]
fn bad_sample_is_absent() {
    let body = r#"{"proxies":{"p":{"history":[{"time":"t"}],"name":"p","type":"Direct","udp":false}}}"#;
    assert!(Proxies::from_response(body).is_none());
}

#[test]
fn udp_wrong_kind_is_absent() {
    let body = r#"{"proxies":{"p":{"history":[],"name":"p","type":"Direct","udp":"yes"}}}"#;
    assert!(Proxies::from_response(body).is_none());
}

#[test]
fn delay_out_of_range_is_absent() {
    let body = r#"{"proxies":{"p":{"history":[{"time":"t","delay":3000000000,"meanDelay":0}],"name":"p","type":"Direct","udp":false}}}"#;
    assert!(Proxies::from_response(body).is_none());
}

#[test]
fn fractional_number_is_absent() {
    let body = r#"{"proxies":{"p":{"history":[{"time":"t","delay":1.5,"meanDelay":0}],"name":"p","type":"Direct","udp":false}}}"#;
    assert!(Proxies::from_response(body).is_none());
}

#[test]
fn duplicate_field_last_wins() {
    let body = r#"{"proxies":{"p":{"history":[],"name":"first","name":"second","type":"Direct","udp":false}}}"#;
    let got = Proxies::from_response(body).expect("parses");
    assert_eq!(got.records[0].name, "second");
}

#[test]
fn unknown_fields_ignored() {
    let body = r#"{"proxies":{"p":{"history":[],"name":"p","type":"Direct","udp":false,"alive":true,"extra":null}}}"#;
    let got = Proxies::from_response(body).expect("parses");
    assert_eq!(got.records[0], record("p", "Direct"));
}

#[test]
fn whitespace_tolerated() {
    let body = " \t\r\n{ \"proxies\" : { \"p\" : { \"history\" : [ ] , \"name\" : \"p\" ,\n \"type\" : \"Direct\" , \"udp\" : false } } }\n";
    let got = Proxies::from_response(body).expect("parses");
    assert_eq!(got.records[0], record("p", "Direct"));
}

#[test]
fn escapes_in_strings() {
    let body = r#"{"proxies":{"p":{"history":[],"name":"a\"b\\c\nd\t","type":"Direct","udp":false}}}"#;
    let got = Proxies::from_response(body).expect("parses");
    assert_eq!(got.records[0].name, "a\"b\\c\nd\t");
}

#[test]
fn unterminated_string_is_absent() {
    assert!(Proxies::from_response(r#"{"proxies"#).is_none());
}

#[test]
fn record_order_follows_body() {
    let body = r#"{"proxies":{
        "z":{"history":[],"name":"z","type":"Direct","udp":false},
        "a":{"history":[],"name":"a","type":"Direct","udp":false}
    }}"#;
    let got = Proxies::from_response(body).expect("parses");
    let names: Vec<&str> = got.records.iter().map(|p| p.name.as_str()).collect();
    assert_eq!(names, vec!["z", "a"]);
}

#[test]
fn parse_json_scalars() {
    assert_eq!(clash_info::json::parse_json("null"), Some(Json::Null));
    assert_eq!(clash_info::json::parse_json(" true "), Some(Json::Bool(true)));
    assert_eq!(clash_info::json::parse_json("false"), Some(Json::Bool(false)));
    assert_eq!(clash_info::json::parse_json("-12"), Some(Json::Int(-12)));
    assert_eq!(clash_info::json::parse_json("0"), Some(Json::Int(0)));
    assert_eq!(
        clash_info::json::parse_json("\"hi\""),
        Some(Json::Str("hi".to_string()))
    );
}

#[test]
fn parse_json_signed_64_bit_bounds() {
    assert_eq!(
        clash_info::json::parse_json("9223372036854775807"),
        Some(Json::Int(i64::MAX))
    );
    assert_eq!(
        clash_info::json::parse_json("-9223372036854775808"),
        Some(Json::Int(i64::MIN))
    );
    assert_eq!(
        clash_info::json::parse_json("9223372036854775808"),
        Some(Json::Num)
    );
    assert_eq!(
        clash_info::json::parse_json("-9223372036854775809"),
        Some(Json::Num)
    );
}

#[test]
fn parse_json_number_grammar() {
    assert_eq!(clash_info::json::parse_json("-0"), Some(Json::Int(0)));
    assert_eq!(clash_info::json::parse_json("1.5"), Some(Json::Num));
    assert_eq!(clash_info::json::parse_json("1e2"), Some(Json::Num));
    assert_eq!(clash_info::json::parse_json("-2.5e-3"), Some(Json::Num));
    assert_eq!(clash_info::json::parse_json("0.0"), Some(Json::Num));
    assert_eq!(clash_info::json::parse_json("01"), None);
    assert_eq!(clash_info::json::parse_json("-01"), None);
    assert_eq!(clash_info::json::parse_json("1."), None);
    assert_eq!(clash_info::json::parse_json("1e"), None);
    assert_eq!(clash_info::json::parse_json(".5"), None);
    assert_eq!(clash_info::json::parse_json("-"), None);
}

#[test]
fn unicode_escapes_decoded() {
    assert_eq!(
        clash_info::json::parse_json("\"\\u0041\\u0026\""),
        Some(Json::Str("A&".to_string()))
    );
    let body = "{\"proxies\":{\"p\":{\"history\":[],\"name\":\"a\\u0026b\",\"type\":\"Direct\",\"udp\":false}}}";
    let got = Proxies::from_response(body).expect("parses");
    assert_eq!(got.records[0].name, "a&b");
}

#[test]
fn surrogate_pair_escapes_decoded() {
    let body = "{\"proxies\":{\"p\":{\"history\":[],\"name\":\"\\uD83D\\uDE00\",\"type\":\"Direct\",\"udp\":false}}}";
    let got = Proxies::from_response(body).expect("parses");
    assert_eq!(got.records[0].name, "\u{1F600}");
}

#[test]
fn lone_surrogate_is_absent() {
    assert_eq!(clash_info::json::parse_json("\"\\uD83D\""), None);
    assert_eq!(clash_info::json::parse_json("\"\\uDE00\""), None);
    assert_eq!(clash_info::json::parse_json("\"\\uD83Dxx\""), None);
}

#[test]
fn bad_unicode_escape_is_absent() {
    assert_eq!(clash_info::json::parse_json("\"\\u12\""), None);
    assert_eq!(clash_info::json::parse_json("\"\\uGGGG\""), None);
}

#[test]
fn raw_control_character_is_absent() {
    assert_eq!(
        clash_info::json::parse_json("\"a\\u0000b\""),
        Some(Json::Str("a\u{0}b".to_string()))
    );
    assert_eq!(clash_info::json::parse_json("\"a\u{1}b\""), None);
    assert_eq!(clash_info::json::parse_json("\"a\nb\""), None);
    assert_eq!(clash_info::json::parse_json("\"a\tb\""), None);
}

#[test]
fn float_in_ignored_field_is_fine() {
    let body = "{\"proxies\":{\"p\":{\"history\":[],\"name\":\"p\",\"type\":\"Direct\",\"udp\":false,\"score\":1.5,\"big\":99999999999999999999999}}}";
    let got = Proxies::from_response(body).expect("parses");
    assert_eq!(got.records[0], record("p", "Direct"));
}

#[test]
fn duplicate_proxy_keys_later_wins() {
    let body = r#"{"proxies":{
        "p":{"history":[],"name":"first","type":"Direct","udp":false},
        "q":{"history":[],"name":"other","type":"Direct","udp":false},
        "p":{"history":[],"name":"second","type":"Selector","udp":true}
    }}"#;
    let got = Proxies::from_response(body).expect("parses");
    assert_eq!(got.records.len(), 2);
    assert_eq!(got.records[0].name, "other");
    assert_eq!(got.records[1].name, "second");
    assert_eq!(got.records[1].proxy_type, "Selector");
}

#[test]
fn overwritten_malformed_entry_is_ignored() {
    let body = r#"{"proxies":{
        "p":{"history":[]},
        "p":{"history":[],"name":"good","type":"Direct","udp":false}
    }}"#;
    let got = Proxies::from_response(body).expect("parses");
    assert_eq!(got.records.len(), 1);
    assert_eq!(got.records[0].name, "good");
}

#[test]
fn parse_json_rejects_trailing_text() {
    assert_eq!(clash_info::json::parse_json("null null"), None);
    assert_eq!(clash_info::json::parse_json("{} x"), None);
}

#[test]
fn parse_json_nested() {
    let got = clash_info::json::parse_json(r#"[1,[2],{"k":3}]"#).expect("parses");
    assert_eq!(
        got,
        Json::Arr(vec![
            Json::Int(1),
            Json::Arr(vec![Json::Int(2)]),
            Json::Obj(vec![("k".to_string(), Json::Int(3))]),
        ])
    );
}
