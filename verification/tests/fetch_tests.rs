use radio_sync::fetch::{parse_entry, parse_playlist, playlist_description, playlist_name, FetchError};
use radio_sync::date::Date;

#[test]
fn test_playlist_item_deserialization() {
    let json = r#"{"since":"2024-09-01T00:03:10+02:00","id":20862650,"interpret":"LYNKS","interpret_id":33859,"track":"Tennis Song","track_id":114355,"itemcode":"9779240","files":[{"source":"gselector","id":"9779240","asset":"http:\/\/data.rozhlas.cz\/api\/v2\/asset\/cover\/gselector\/9779240.jpg","asset_width":240,"asset_height":240}]}"#;
    let item = parse_entry(json).unwrap();
    assert_eq!(item.artist, "LYNKS".to_string());
    assert_eq!(item.title, "Tennis Song".to_string());
}

#[test]
fn decodes_a_one_item_playlist_ignoring_unknown_fields() {
    let json = r#"{"data":[{"since":"2024-09-01T00:03:10+02:00","id":20862650,"interpret":"LYNKS","interpret_id":33859,"track":"Tennis Song","track_id":114355}]}"#;
    let entries = parse_playlist(json).unwrap();
    assert_eq!(entries.len(), 1);
    assert_eq!(entries[0].artist, "LYNKS".to_string());
    assert_eq!(entries[0].title, "Tennis Song".to_string());
}

#[test]
fn decodes_an_empty_playlist() {
    let entries = parse_playlist(r#"{"data":[]}"#).unwrap();
    assert_eq!(entries.len(), 0);
}

#[test]
fn keeps_the_source_order() {
    let json = r#"{"data":[{"interpret":"A","track":"1"},{"interpret":"B","track":"2"},{"interpret":"C","track":"3"}]}"#;
    let entries = parse_playlist(json).unwrap();
    let artists: Vec<String> = entries.iter().map(|e| e.artist.clone()).collect();
    assert_eq!(artists, vec!["A".to_string(), "B".to_string(), "C".to_string()]);
}

#[test]
fn rejects_malformed_json() {
    assert_eq!(parse_playlist("not json").unwrap_err(), FetchError::InvalidJson);
    assert_eq!(parse_playlist(r#"{"data":["#).unwrap_err(), FetchError::InvalidJson);
}

#[test]
fn rejects_wrong_shapes() {
    assert_eq!(parse_playlist(r#"{}"#).unwrap_err(), FetchError::UnexpectedShape);
    assert_eq!(parse_playlist(r#"{"data":5}"#).unwrap_err(), FetchError::UnexpectedShape);
    assert_eq!(parse_playlist(r#"[1,2]"#).unwrap_err(), FetchError::UnexpectedShape);
    assert_eq!(
        parse_playlist(r#"{"data":[{"interpret":"A"}]}"#).unwrap_err(),
        FetchError::UnexpectedShape
    );
    assert_eq!(
        parse_playlist(r#"{"data":[{"interpret":7,"track":"T"}]}"#).unwrap_err(),
        FetchError::UnexpectedShape
    );
    assert_eq!(
        parse_playlist(r#"{"data":[{"interpret":"A","track":null}]}"#).unwrap_err(),
        FetchError::UnexpectedShape
    );
}

#[test]
fn rejects_a_non_object_item() {
    assert!(parse_entry("[]").is_none());
    assert!(parse_entry("not json").is_none());
    assert!(parse_entry(r#"{"interpret":"A"}"#).is_none());
}

#[test]
fn names_the_playlist_for_the_date() {
    let d = Date::from_str("2024-09-01").unwrap();
    assert_eq!(playlist_name(&d), "Radio Wave 2024-09-01".to_string());
    assert_eq!(
        playlist_description(&d),
        "Playlist for Radio Wave for 2024-09-01".to_string()
    );
}
