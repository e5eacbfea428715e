use route_warden::controller::{
    check_switch, controller_endpoint, group_url, request_base, ControllerEndpoint, ControllerError,
};

#[test]
fn unix_socket_endpoint() {
    let e = controller_endpoint("unix:///tmp/verge/verge-mihomo.sock").unwrap();
    assert_eq!(e, ControllerEndpoint::UnixSocket { socket_path: "/tmp/verge/verge-mihomo.sock".to_string() });
    assert_eq!(request_base(&e), "http://localhost");
    let padded = controller_endpoint("  unix://  /run/mihomo.sock \n").unwrap();
    assert_eq!(padded, ControllerEndpoint::UnixSocket { socket_path: "/run/mihomo.sock".to_string() });
}

#[test]
fn http_endpoint_loses_trailing_slashes() {
    let e = controller_endpoint(" http://127.0.0.1:9090// ").unwrap();
    assert_eq!(e, ControllerEndpoint::Http { base: "http://127.0.0.1:9090".to_string() });
    assert_eq!(request_base(&e), "http://127.0.0.1:9090");
    assert_eq!(group_url(&request_base(&e), "RW_OPENAI"), "http://127.0.0.1:9090/proxies/RW_OPENAI");
}

#[test]
fn endpoint_errors() {
    assert_eq!(controller_endpoint(""), Err(ControllerError::EmptyBaseUrl));
    assert_eq!(controller_endpoint(" \t "), Err(ControllerError::EmptyBaseUrl));
    assert_eq!(controller_endpoint("///"), Err(ControllerError::EmptyBaseUrl));
    assert_eq!(controller_endpoint("unix://   "), Err(ControllerError::EmptySocketPath));
}

#[test]
fn switch_needs_group_and_node() {
    assert_eq!(check_switch("RW_PROBE", "NodeA"), Ok(()));
    assert_eq!(check_switch("  ", "NodeA"), Err(ControllerError::EmptyGroup));
    assert_eq!(check_switch("  ", " "), Err(ControllerError::EmptyGroup));
    assert_eq!(check_switch("RW_PROBE", "\t"), Err(ControllerError::EmptyNode));
}
