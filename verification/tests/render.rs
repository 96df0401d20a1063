use clash_info::model::{Proxies, Proxy};
use clash_info::order::Row;

fn record(name: &str, ty: &str) -> Proxy {
    Proxy {
        history: vec![],
        name: name.to_string(),
        proxy_type: ty.to_string(),
        udp: false,
    }
}

fn row(name: &str, ty: &str) -> Row {
    Row {
        name: name.to_string(),
        proxy_type: ty.to_string(),
    }
}

#[test]
fn rows_sorted_by_type_then_name() {
    let proxies = Proxies {
        records: vec![
            record("b", "Direct"),
            record("a", "Selector"),
            record("c", "Direct"),
        ],
    };
    let rows = proxies.render();
    assert_eq!(
        rows,
        vec![row("b", "Direct"), row("c", "Direct"), row("a", "Selector")]
    );
}

#[test]
fn empty_collection_renders_no_rows() {
    let proxies = Proxies { records: vec![] };
    assert!(proxies.render().is_empty());
}

#[test]
fn same_type_sorted_by_name() {
    let proxies = Proxies {
        records: vec![
            record("zz", "Direct"),
            record("mm", "Direct"),
            record("aa", "Direct"),
        ],
    };
    let rows = proxies.render();
    let names: Vec<&str> = rows.iter().map(|r| r.name.as_str()).collect();
    assert_eq!(names, vec!["aa", "mm", "zz"]);
}

#[test]
fn types_group_alphabetically() {
    let proxies = Proxies {
        records: vec![
            record("x", "URLTest"),
            record("y", "Direct"),
            record("z", "Selector"),
        ],
    };
    let rows = proxies.render();
    let types: Vec<&str> = rows.iter().map(|r| r.proxy_type.as_str()).collect();
    assert_eq!(types, vec!["Direct", "Selector", "URLTest"]);
}

#[test]
fn proxy_renders_its_row() {
    let p = record("p1", "Direct");
    assert_eq!(p.render(), row("p1", "Direct"));
}

#[test]
fn full_pipeline_parses_and_orders() {
    let body = r#"{"proxies":{
        "b":{"history":[],"name":"b","type":"Direct","udp":false},
        "a":{"history":[],"name":"a","type":"Selector","udp":false},
        "c":{"history":[],"name":"c","type":"Direct","udp":false}
    }}"#;
    let proxies = Proxies::from_response(body).expect("parses");
    let rows = proxies.render();
    assert_eq!(
        rows,
        vec![row("b", "Direct"), row("c", "Direct"), row("a", "Selector")]
    );
}
