use clash_info::model::{Proxies, Proxy};
use clash_info::shell::{build_url, Action, Message, Shell};

fn record(name: &str, ty: &str) -> Proxy {
    Proxy {
        history: vec![],
        name: name.to_string(),
        proxy_type: ty.to_string(),
        udp: false,
    }
}

fn one_record_collection(name: &str) -> Proxies {
    Proxies {
        records: vec![record(name, "Direct")],
    }
}

#[test]
fn starts_with_default_endpoint_and_no_records() {
    let shell = Shell::new();
    assert_eq!(shell.ip, "http://127.0.0.1");
    assert_eq!(shell.port, "9090");
    assert!(shell.proxies.records.is_empty());
}

#[test]
fn build_url_joins_host_port_and_path() {
    assert_eq!(
        build_url("http://127.0.0.1", "9090"),
        "http://127.0.0.1:9090/proxies"
    );
}

#[test]
fn lookup_after_host_edit_uses_new_host_and_default_port() {
    let mut shell = Shell::new();
    let a = shell.update(Message::IPChanged("http://10.0.0.1".to_string()));
    assert_eq!(a, Action::Stay);
    let a = shell.update(Message::FetchData);
    assert_eq!(a, Action::Fetch("http://10.0.0.1:9090/proxies".to_string()));
}

#[test]
fn port_edit_changes_url() {
    let mut shell = Shell::new();
    shell.update(Message::PortChanged("7890".to_string()));
    let a = shell.update(Message::FetchData);
    assert_eq!(a, Action::Fetch("http://127.0.0.1:7890/proxies".to_string()));
}

#[test]
fn edits_replace_fields_without_fetching() {
    let mut shell = Shell::new();
    assert_eq!(
        shell.update(Message::IPChanged("http://[::1]".to_string())),
        Action::Stay
    );
    assert_eq!(shell.ip, "http://[::1]");
    assert_eq!(shell.port, "9090");
    assert_eq!(
        shell.update(Message::PortChanged("not a number".to_string())),
        Action::Stay
    );
    assert_eq!(shell.port, "not a number");
}

#[test]
fn fetch_leaves_state_unchanged() {
    let mut shell = Shell::new();
    shell.update(Message::FetchData);
    assert_eq!(shell.ip, "http://127.0.0.1");
    assert_eq!(shell.port, "9090");
    assert!(shell.proxies.records.is_empty());
}

#[test]
fn present_result_replaces_collection() {
    let mut shell = Shell::new();
    let a = shell.update(Message::AllProxies(Some(one_record_collection("p1"))));
    assert_eq!(a, Action::Stay);
    assert_eq!(shell.proxies, one_record_collection("p1"));
}

#[test]
fn absent_result_leaves_state_unchanged() {
    let mut shell = Shell::new();
    shell.update(Message::AllProxies(Some(one_record_collection("kept"))));
    let a = shell.update(Message::AllProxies(None));
    assert_eq!(a, Action::Stay);
    assert_eq!(shell.ip, "http://127.0.0.1");
    assert_eq!(shell.port, "9090");
    assert_eq!(shell.proxies, one_record_collection("kept"));
}

#[test]
fn overlapping_completions_last_arrival_wins() {
    let mut shell = Shell::new();
    shell.update(Message::FetchData);
    shell.update(Message::FetchData);
    shell.update(Message::AllProxies(Some(one_record_collection("from_b"))));
    assert_eq!(shell.proxies, one_record_collection("from_b"));
    shell.update(Message::AllProxies(Some(one_record_collection("from_a"))));
    assert_eq!(shell.proxies, one_record_collection("from_a"));
}
