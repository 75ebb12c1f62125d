use redqueue::connection::open_client;

#[test]
fn local_server_url_is_accepted() {
    assert!(open_client("redis://127.0.0.1/").is_ok());
    assert!(open_client("redis://127.0.0.1:6379/0").is_ok());
}

#[test]
fn malformed_url_is_refused() {
    assert!(open_client("not a url").is_err());
    assert!(open_client("http://127.0.0.1/").is_err());
}
