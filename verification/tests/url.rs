use osmviews::DOWNLOAD_URL;

#[test]
fn download_url_points_at_a_tiff() {
    assert!(DOWNLOAD_URL.starts_with("https://"));
    assert!(DOWNLOAD_URL.ends_with(".tiff"));
}

#[test]
fn library_types_are_send_and_sync() {
    fn assert_send_sync<T: Send + Sync>() {}
    assert_send_sync::<osmviews::Cache>();
    assert_send_sync::<osmviews::Header>();
    assert_send_sync::<osmviews::Metrics>();
    assert_send_sync::<osmviews::Error>();
}
