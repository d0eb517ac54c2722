use reina_core::webdav::{
    backups_from_events, build_listing_url, build_remote_url, check_connection_params,
    connection_status_result, nested_folder_urls_of, parse_propfind_response, propfind_xml,
    remote_folder_url, status_is_success, XmlEvent,
};

fn s(v: &str) -> String {
    v.to_string()
}

#[test]
fn remote_url_joins_base_root_and_file() {
    assert_eq!(
        build_remote_url("https://dav.example.com/", &Some(s("backups/")), "a.db"),
        "https://dav.example.com/backups/a.db"
    );
    assert_eq!(build_remote_url("https://dav.example.com//", &None, "a.db"), "https://dav.example.com/a.db");
    assert_eq!(build_remote_url("https://dav.example.com", &Some(s("   ")), "a.db"), "https://dav.example.com/a.db");
    assert_eq!(
        build_remote_url("https://h/dav", &Some(s("r")), "Game/save.zip"),
        "https://h/dav/r/Game/save.zip"
    );
}

#[test]
fn listing_url_names_the_root_folder() {
    assert_eq!(build_listing_url("https://h/dav/", &Some(s("backups//"))), "https://h/dav/backups");
    assert_eq!(build_listing_url("https://h/dav/", &None), "https://h/dav");
    assert_eq!(build_listing_url("https://h/dav", &Some(s(" "))), "https://h/dav");
}

#[test]
fn folder_url_ends_with_a_separator() {
    assert_eq!(remote_folder_url("https://h/dav", &Some(s("backups"))), Some(s("https://h/dav/backups/")));
    assert_eq!(remote_folder_url("https://h/dav/", &None), Some(s("https://h/dav/")));
}

#[test]
fn nested_folders_are_created_outermost_first() {
    assert_eq!(
        nested_folder_urls_of("https://h/dav/", "root/game//a/"),
        vec![s("https://h/dav/root"), s("https://h/dav/root/game"), s("https://h/dav/root/game/a")]
    );
    assert_eq!(nested_folder_urls_of("https://h", ""), Vec::<String>::new());
    assert_eq!(nested_folder_urls_of("https://h", "///"), Vec::<String>::new());
}

#[test]
fn connection_parameters_must_not_be_blank() {
    assert_eq!(check_connection_params(" ", "u"), Err(s("WebDAV URL 不能为空")));
    assert_eq!(check_connection_params("https://h", "\t"), Err(s("用户名不能为空")));
    assert_eq!(check_connection_params("", ""), Err(s("WebDAV URL 不能为空")));
    assert_eq!(check_connection_params("https://h", "me"), Ok(()));
}

#[test]
fn connection_status_is_read() {
    assert_eq!(connection_status_result(200), Ok(true));
    assert_eq!(connection_status_result(207), Ok(true));
    assert_eq!(connection_status_result(401), Err(s("WebDAV 认证失败，请检查用户名和密码")));
    assert_eq!(connection_status_result(404), Err(s("WebDAV 路径不存在，请检查 URL")));
    assert_eq!(connection_status_result(500), Err(s("WebDAV 返回错误状态码: 500")));
    assert_eq!(connection_status_result(204), Err(s("WebDAV 返回错误状态码: 204")));
}

#[test]
fn success_statuses_are_the_2xx_range() {
    assert!(status_is_success(200));
    assert!(status_is_success(201));
    assert!(status_is_success(207));
    assert!(status_is_success(299));
    assert!(!status_is_success(199));
    assert!(!status_is_success(300));
    assert!(!status_is_success(404));
}

#[test]
fn propfind_body_asks_for_the_listed_properties() {
    assert_eq!(
        propfind_xml(),
        "<?xml version=\"1.0\" encoding=\"utf-8\"?>\n<d:propfind xmlns:d=\"DAV:\">\n  <d:prop>\n    <d:displayname/>\n    <d:getcontentlength/>\n    <d:getlastmodified/>\n    <d:resourcetype/>\n  </d:prop>\n</d:propfind>"
    );
}

const LISTING: &str = r#"<?xml version="1.0" encoding="utf-8"?>
<D:multistatus xmlns:D="DAV:">
  <D:response>
    <D:href>/dav/backups/</D:href>
    <D:propstat><D:prop><D:getlastmodified>Mon, 01 Jan 2024 10:00:00 GMT</D:getlastmodified></D:prop></D:propstat>
  </D:response>
  <D:response>
    <D:href>/dav/backups/reina_manager_20240101_120000.db</D:href>
    <D:propstat>
      <D:prop>
        <D:getcontentlength>2048</D:getcontentlength>
        <D:getlastmodified>Mon, 01 Jan 2024 12:00:00 GMT</D:getlastmodified>
      </D:prop>
    </D:propstat>
  </D:response>
  <D:response>
    <D:href>/dav/backups/notes.txt</D:href>
    <D:propstat><D:prop><D:getcontentlength>5</D:getcontentlength></D:prop></D:propstat>
  </D:response>
  <d:RESPONSE>
    <d:href>/dav/backups/reina_manager_auto_a&amp;b.db</d:href>
    <d:propstat><d:prop><d:getcontentlength>big</d:getcontentlength></d:prop></d:propstat>
  </d:RESPONSE>
</D:multistatus>"#;

#[test]
fn propfind_listing_keeps_backup_files_only() {
    let backups = parse_propfind_response(LISTING);
    assert_eq!(backups.len(), 2);
    assert_eq!(backups[0].name, "reina_manager_20240101_120000.db");
    assert_eq!(backups[0].size, 2048);
    assert_eq!(backups[0].modified, "Mon, 01 Jan 2024 12:00:00 GMT");
    assert_eq!(backups[1].name, "reina_manager_auto_a&b.db");
    assert_eq!(backups[1].size, 0);
    assert_eq!(backups[1].modified, "");
}

#[test]
fn propfind_listing_of_broken_xml_keeps_what_was_read() {
    let xml = "<D:multistatus xmlns:D=\"DAV:\"><D:response><D:href>/reina_manager_x.db</D:href></D:response><D:response></D:wrong>";
    let backups = parse_propfind_response(xml);
    assert_eq!(backups.len(), 1);
    assert_eq!(backups[0].name, "reina_manager_x.db");
    assert!(parse_propfind_response("").is_empty());
}

#[test]
fn events_drive_the_listing() {
    let events = vec![
        XmlEvent::Start(b"d:response".to_vec()),
        XmlEvent::Start(b"d:href".to_vec()),
        XmlEvent::Text(b"/x/reina_manager_1.db".to_vec()),
        XmlEvent::End(b"d:href".to_vec()),
        XmlEvent::Start(b"d:propstat".to_vec()),
        XmlEvent::Start(b"d:getcontentlength".to_vec()),
        XmlEvent::Text(b"77".to_vec()),
        XmlEvent::End(b"d:getcontentlength".to_vec()),
        XmlEvent::End(b"d:propstat".to_vec()),
        XmlEvent::End(b"d:response".to_vec()),
        XmlEvent::Eof,
        XmlEvent::Start(b"d:response".to_vec()),
    ];
    let backups = backups_from_events(&events);
    assert_eq!(backups.len(), 1);
    assert_eq!(backups[0].name, "reina_manager_1.db");
    assert_eq!(backups[0].size, 77);
}

#[test]
fn propfind_reads_length_and_time_inside_propstat() {
    let xml = "<d:multistatus><d:response><d:href>/r/reina_manager_a.db</d:href><d:propstat><d:prop><d:getcontentlength>500</d:getcontentlength></d:prop></d:propstat></d:response><d:response><d:href>/r/reina_manager_b.db</d:href><d:propstat><d:prop><d:getlastmodified>Tue</d:getlastmodified></d:prop></d:propstat></d:response></d:multistatus>";
    let backups = parse_propfind_response(xml);
    assert_eq!(backups.len(), 2);
    assert_eq!((backups[0].name.as_str(), backups[0].size, backups[0].modified.as_str()), ("reina_manager_a.db", 500, ""));
    assert_eq!((backups[1].name.as_str(), backups[1].size, backups[1].modified.as_str()), ("reina_manager_b.db", 0, "Tue"));
}

#[test]
fn propfind_skips_collections_and_other_files() {
    let xml = "<D:multistatus><D:response><D:href>/dav/reina_manager_x.db</D:href><D:propstat><D:getcontentlength>abc</D:getcontentlength></D:propstat></D:response><D:response><D:href>/dav/sub/</D:href></D:response><D:response><D:href>/dav/notes.txt</D:href></D:response></D:multistatus>";
    let backups = parse_propfind_response(xml);
    assert_eq!(backups.len(), 1);
    assert_eq!((backups[0].name.as_str(), backups[0].size, backups[0].modified.as_str()), ("reina_manager_x.db", 0, ""));
}
