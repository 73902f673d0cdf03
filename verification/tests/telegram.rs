use cephei::telegram::{
    api_credentials_for, assemble_credentials, detect_session_format, extract_init_data,
    normalize_phone, parse_proxies, payload_after_marker, plan_credentials, AppCredentials,
    LoadError, SessionSource,
};

fn sqlite_blob(marker: &str) -> Vec<u8> {
    let mut blob = b"SQLite format 3\0".to_vec();
    blob.extend_from_slice(b"...schema...");
    blob.extend_from_slice(marker.as_bytes());
    blob.extend_from_slice(b"...rows...");
    blob
}

#[test]
fn detects_desktop_key_file() {
    let blob = b"TDF$rest of the key data".to_vec();
    assert!(matches!(
        detect_session_format(&blob),
        Ok(SessionSource::TDestkop)
    ));
}

#[test]
fn detects_telethon_database() {
    let blob = sqlite_blob("server_address");
    assert!(matches!(
        detect_session_format(&blob),
        Ok(SessionSource::Telethon)
    ));
}

#[test]
fn detects_pyrogram_database() {
    let blob = sqlite_blob("test_mode");
    assert!(matches!(
        detect_session_format(&blob),
        Ok(SessionSource::Pyrogram)
    ));
}

#[test]
fn unknown_blob_is_rejected_with_unknown_format() {
    let blob = b"neither magic nor header".to_vec();
    assert_eq!(detect_session_format(&blob), Err(LoadError::UnknownFormat));
}

#[test]
fn database_without_known_schema_is_rejected() {
    let blob = sqlite_blob("some_other_schema");
    assert_eq!(detect_session_format(&blob), Err(LoadError::UnknownFormat));
}

#[test]
fn empty_blob_is_rejected() {
    let blob: Vec<u8> = Vec::new();
    assert_eq!(detect_session_format(&blob), Err(LoadError::UnknownFormat));
}

#[test]
fn proxies_split_on_line_breaks() {
    let lines = parse_proxies("socks5://a:1\nsocks5://b:2");
    assert_eq!(lines, vec!["socks5://a:1", "socks5://b:2"]);
}

#[test]
fn proxies_are_trimmed_at_the_ends_only() {
    let lines = parse_proxies("\n  socks5://a:1\nsocks5://b:2\n\n");
    assert_eq!(lines, vec!["socks5://a:1", "socks5://b:2"]);
}

#[test]
fn empty_proxy_text_is_one_empty_line() {
    let lines = parse_proxies("");
    assert_eq!(lines, vec![""]);
}

#[test]
fn positional_pairing_binds_ith_file_to_ith_proxy() {
    let blobs = vec![b"TDF$one".to_vec(), sqlite_blob("server_address")];
    let proxies = vec![String::from("p1"), String::from("p2")];
    let plans = plan_credentials(&blobs, &proxies).unwrap();
    assert_eq!(plans.len(), 2);
    assert_eq!(plans[0].source, SessionSource::TDestkop);
    assert_eq!(plans[0].proxy, "p1");
    assert_eq!(plans[1].source, SessionSource::Telethon);
    assert_eq!(plans[1].proxy, "p2");
}

#[test]
fn count_mismatch_aborts_the_load() {
    let blobs = vec![
        b"TDF$one".to_vec(),
        b"TDF$two".to_vec(),
        b"TDF$three".to_vec(),
    ];
    let proxies = vec![String::from("p1"), String::from("p2")];
    assert_eq!(
        plan_credentials(&blobs, &proxies),
        Err(LoadError::ProxyCountMismatch)
    );
}

#[test]
fn one_unknown_file_aborts_the_load() {
    let blobs = vec![b"TDF$fine".to_vec(), b"garbage".to_vec()];
    let proxies = vec![String::from("p1"), String::from("p2")];
    assert_eq!(
        plan_credentials(&blobs, &proxies),
        Err(LoadError::UnknownFormat)
    );
}

#[test]
fn assembly_pairs_converted_bytes_with_plans() {
    let blobs = vec![b"TDF$one".to_vec(), sqlite_blob("test_mode")];
    let proxies = vec![String::from("p1"), String::from("p2")];
    let plans = plan_credentials(&blobs, &proxies).unwrap();
    let converted = vec![Some(vec![1u8, 2, 3]), Some(vec![4u8, 5])];
    let creds = assemble_credentials(plans, converted).unwrap();
    assert_eq!(creds.len(), 2);
    assert_eq!(creds[0].data, vec![1, 2, 3]);
    assert_eq!(creds[0].source, SessionSource::TDestkop);
    assert_eq!(creds[0].proxy, "p1");
    assert_eq!(creds[1].data, vec![4, 5]);
    assert_eq!(creds[1].source, SessionSource::Pyrogram);
    assert_eq!(creds[1].proxy, "p2");
}

#[test]
fn one_failed_conversion_aborts_the_load() {
    let blobs = vec![b"TDF$one".to_vec(), b"TDF$two".to_vec()];
    let proxies = vec![String::from("p1"), String::from("p2")];
    let plans = plan_credentials(&blobs, &proxies).unwrap();
    let converted = vec![Some(vec![1u8]), None];
    assert_eq!(
        assemble_credentials(plans, converted),
        Err(LoadError::ConversionFailed)
    );
}

#[test]
fn loading_twice_gives_equal_credentials() {
    // Unchanged inputs loaded twice yield credential lists equal in
    // content.
    let blobs = vec![b"TDF$one".to_vec(), sqlite_blob("server_address")];
    let proxies = vec![String::from("p1"), String::from("p2")];
    let converted = vec![Some(vec![9u8, 9]), Some(vec![8u8])];

    let first = assemble_credentials(
        plan_credentials(&blobs, &proxies).unwrap(),
        converted.clone(),
    )
    .unwrap();
    let second =
        assemble_credentials(plan_credentials(&blobs, &proxies).unwrap(), converted).unwrap();

    assert_eq!(first.len(), second.len());
    for (a, b) in first.iter().zip(second.iter()) {
        assert_eq!(a.data, b.data);
        assert_eq!(a.source, b.source);
        assert_eq!(a.proxy, b.proxy);
    }
}

#[test]
fn payload_follows_the_last_marker() {
    let url = "https://web.app/page#tgWebAppData=query%3Did%26user%3D7";
    assert_eq!(payload_after_marker(url), "query%3Did%26user%3D7");
}

#[test]
fn payload_without_marker_is_the_whole_url() {
    let url = "https://web.app/page";
    assert_eq!(payload_after_marker(url), url);
}

#[test]
fn payload_after_marker_takes_the_last_occurrence() {
    let url = "a#tgWebAppData=first#tgWebAppData=second";
    assert_eq!(payload_after_marker(url), "second");
}

#[test]
fn init_data_is_percent_decoded() {
    // Would fail if the decoding step handed its argument back unchanged.
    let url = "https://web.app/page#tgWebAppData=query%3Did%26user%3D7";
    assert_eq!(extract_init_data(url).unwrap(), "query=id&user=7");
}

#[test]
fn init_data_without_escapes_is_returned_as_is() {
    let url = "x#tgWebAppData=plaintext";
    assert_eq!(extract_init_data(url).unwrap(), "plaintext");
}

#[test]
fn phone_numbers_lose_plus_signs_and_spaces() {
    assert_eq!(normalize_phone("+1 555 01 02"), "15550102");
    assert_eq!(normalize_phone("15550102"), "15550102");
    assert_eq!(normalize_phone("+ + "), "");
}

#[test]
fn desktop_sessions_use_the_desktop_identity() {
    let configured = AppCredentials {
        api_id: 7,
        api_hash: String::from("configured-hash"),
    };
    let picked = api_credentials_for(SessionSource::TDestkop, &configured);
    assert_eq!(picked.api_id, 2040);
    assert_eq!(picked.api_hash, "b18441a1ff607e10a989891a5462e627");
}

#[test]
fn other_sessions_use_the_configured_identity() {
    let configured = AppCredentials {
        api_id: 7,
        api_hash: String::from("configured-hash"),
    };
    let picked = api_credentials_for(SessionSource::Pyrogram, &configured);
    assert_eq!(picked.api_id, 7);
    assert_eq!(picked.api_hash, "configured-hash");
}
