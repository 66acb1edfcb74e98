use stream_check::content_type::{
    classify_content_type, type_is_asx, type_is_m3u, type_is_playlist, type_is_pls, type_is_stream, type_is_xspf,
    ContentClass,
};

fn codec_of(c: ContentClass) -> Option<String> {
    match c {
        ContentClass::Stream(s) => Some(s),
        _ => None,
    }
}

#[test]
fn playlist_tables() {
    assert!(type_is_m3u("audio/x-mpegurl"));
    assert!(type_is_m3u("application/vnd.apple.mpegurl"));
    assert!(!type_is_m3u("audio/mpeg"));
    assert!(type_is_pls("audio/x-scpls"));
    assert!(type_is_pls("application/pls+xml"));
    assert!(type_is_asx("video/x-ms-asf"));
    assert!(type_is_xspf("application/xspf+xml"));
    assert!(!type_is_xspf("application/xspf"));
}

#[test]
fn playlist_ignores_parameters() {
    assert!(type_is_playlist("audio/x-scpls; charset=utf-8"));
    assert!(type_is_playlist("audio/x-mpegurl"));
    assert!(type_is_playlist("text/xml"));
    assert!(!type_is_playlist("audio/mpeg;charset=utf-8"));
}

#[test]
fn stream_codec_labels() {
    assert_eq!(type_is_stream("audio/mpeg"), Some("MP3"));
    assert_eq!(type_is_stream("audio/x-mpeg"), Some("MP3"));
    assert_eq!(type_is_stream("audio/aac"), Some("AAC"));
    assert_eq!(type_is_stream("audio/aacp"), Some("AAC+"));
    assert_eq!(type_is_stream("application/ogg"), Some("OGG"));
    assert_eq!(type_is_stream("audio/flac"), Some("FLAC"));
    assert_eq!(type_is_stream("application/flv"), Some("FLV"));
    assert_eq!(type_is_stream("application/octet-stream"), Some("UNKNOWN"));
    assert_eq!(type_is_stream("audio/aac;charset=utf-8"), Some("AAC"));
    assert_eq!(type_is_stream("text/html"), None);
    assert_eq!(type_is_stream(""), None);
}

#[test]
fn content_type_case_and_charset_ignored() {
    let plain = codec_of(classify_content_type("audio/mpeg"));
    let shouting = codec_of(classify_content_type("AUDIO/MPEG;charset=utf-8"));
    assert_eq!(plain, Some("MP3".to_string()));
    assert_eq!(shouting, plain);
    assert!(matches!(classify_content_type("Audio/X-SCPLS"), ContentClass::Playlist));
    assert!(matches!(classify_content_type("text/html"), ContentClass::Unknown));
    assert!(matches!(classify_content_type(""), ContentClass::Unknown));
}
