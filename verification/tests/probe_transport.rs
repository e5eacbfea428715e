use route_warden::probe::{classify_transport_error_parts, IoErrorKind};

#[test]
fn classify_timeout_first() {
    assert_eq!(
        classify_transport_error_parts(true, "tls handshake timeout", None),
        "timeout"
    );
}

#[test]
fn classify_tcp_reset_by_io_kind_or_message() {
    assert_eq!(
        classify_transport_error_parts(false, "network error", Some(IoErrorKind::ConnectionReset)),
        "tcp_reset"
    );
    assert_eq!(
        classify_transport_error_parts(false, "connection reset by peer", None),
        "tcp_reset"
    );
}

#[test]
fn classify_tls_failure_by_message() {
    assert_eq!(
        classify_transport_error_parts(false, "tls handshake eof", None),
        "tls_fail"
    );
    assert_eq!(
        classify_transport_error_parts(false, "invalid certificate chain", None),
        "tls_fail"
    );
}

#[test]
fn classify_other_transport_failure() {
    assert_eq!(
        classify_transport_error_parts(false, "dns lookup failed", None),
        "transport_error"
    );
}

#[test]
fn transport_messages_are_matched_case_insensitively() {
    assert_eq!(
        classify_transport_error_parts(false, "Connection RESET by peer", None),
        "tcp_reset"
    );
    assert_eq!(
        classify_transport_error_parts(false, "bad X509 data", None),
        "tls_fail"
    );
    assert_eq!(
        classify_transport_error_parts(false, "SSL alert", Some(IoErrorKind::Other)),
        "tls_fail"
    );
    assert_eq!(
        classify_transport_error_parts(false, "TCP Reset seen", None),
        "tcp_reset"
    );
}

#[test]
fn reset_kind_wins_over_tls_message() {
    assert_eq!(
        classify_transport_error_parts(false, "tls handshake", Some(IoErrorKind::ConnectionReset)),
        "tcp_reset"
    );
    assert_eq!(classify_transport_error_parts(false, "", None), "transport_error");
}
