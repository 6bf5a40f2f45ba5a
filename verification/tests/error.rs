use mcp_proxy::xds::error::{Error, Status};

fn error_status(message: &str, details: &str, source: Option<&str>) -> Status {
    Status {
        code: "Unavailable".to_string(),
        message: message.to_string(),
        details: details.to_string(),
        source: source.map(|s| s.to_string()),
    }
}

#[test]
fn status_with_code_and_message_only() {
    let s = error_status("went away", "", None);
    assert_eq!(s.describe(), "status: Unavailable, message: \"went away\"");
}

#[test]
fn status_message_is_quoted_as_debug_writes_it() {
    let s = error_status("say \"hi\"\n", "", None);
    assert_eq!(s.describe(), "status: Unavailable, message: \"say \\\"hi\\\"\\n\"");
}

#[test]
fn status_hints_at_a_failed_authentication() {
    let s = error_status("xds: authentication failure: bad token", "", None);
    assert_eq!(
        s.describe(),
        "status: Unavailable, message: \"xds: authentication failure: bad token\" (hint: check the control plane logs for more information)"
    );
    // the words must stand as they are
    let s = error_status("Authentication Failure", "", None);
    assert_eq!(s.describe(), "status: Unavailable, message: \"Authentication Failure\"");
}

#[test]
fn status_with_details_and_source() {
    let s = error_status("m", "more", Some("connection refused"));
    assert_eq!(
        s.describe(),
        "status: Unavailable, message: \"m\", details: more, source: connection refused"
    );
}

#[test]
fn status_hints_at_a_name_that_does_not_resolve() {
    let s = error_status(
        "m",
        "",
        Some("dns error: Temporary failure in name resolution (os error -3)"),
    );
    assert_eq!(
        s.describe(),
        "status: Unavailable, message: \"m\", source: dns error: Temporary failure in name resolution (os error -3) (hint: is the DNS server reachable?)"
    );
}

#[test]
fn status_describe_with_takes_the_quoted_message_as_given() {
    let s = error_status("authentication failure", "d", None);
    assert_eq!(
        s.describe_with("<m>"),
        "status: Unavailable, message: <m> (hint: check the control plane logs for more information), details: d"
    );
}

#[test]
fn error_in_words() {
    let status = error_status("m", "", None);
    assert_eq!(
        Error::GrpcStatus(status.clone()).describe(),
        "gRPC error status: Unavailable, message: \"m\""
    );
    assert_eq!(
        Error::Connection("http://xds:9090".to_string(), status).describe(),
        "gRPC connection error connecting to http://xds:9090: status: Unavailable, message: \"m\""
    );
    assert_eq!(Error::RequestFailure.describe(), "channel closed");
    assert_eq!(
        Error::Transport("connection reset".to_string()).describe(),
        "transport error: connection reset"
    );
}
