use kukufm_dl::m3u8::{
    media_playlist_url_from, media_segment_urls, resolve_media_playlist, segment_urls_from, ParsedPlaylist,
    PlaylistError,
};

const MASTER: &str = "#EXTM3U\n#EXT-X-STREAM-INF:BANDWIDTH=128000\nlow/index.m3u8\n#EXT-X-STREAM-INF:BANDWIDTH=256000\nhigh/index.m3u8\n";
const MEDIA: &str = "#EXTM3U\n#EXT-X-VERSION:3\n#EXT-X-TARGETDURATION:10\n#EXT-X-MEDIA-SEQUENCE:0\n#EXTINF:10.0,\nseg0.ts\n#EXTINF:10.0,\nhttps://cdn.example.com/seg1.ts\n#EXTINF:5.0,\nsub/seg2.ts\n#EXT-X-ENDLIST\n";

#[test]
fn master_playlist_leads_to_first_variant() {
    let url = resolve_media_playlist("https://h.example.com/a/b/master.m3u8", MASTER.as_bytes()).unwrap();
    assert_eq!(url, "https://h.example.com/a/b/low/index.m3u8");
}

#[test]
fn media_playlist_is_its_own_media_playlist() {
    let url = resolve_media_playlist("https://h/x/p.m3u8", MEDIA.as_bytes()).unwrap();
    assert_eq!(url, "https://h/x/p.m3u8");
}

#[test]
fn garbage_is_refused() {
    assert_eq!(resolve_media_playlist("https://h/p", b"hello"), Err(PlaylistError::InvalidMaster));
    assert_eq!(media_segment_urls("https://h/p", b"hello"), Err(PlaylistError::InvalidMedia));
    assert_eq!(media_segment_urls("https://h/p", MASTER.as_bytes()), Err(PlaylistError::InvalidMedia));
}

#[test]
fn segments_resolved_against_playlist_directory() {
    let urls = media_segment_urls("https://h.example.com/a/low/index.m3u8", MEDIA.as_bytes()).unwrap();
    assert_eq!(
        urls,
        vec![
            "https://h.example.com/a/low/seg0.ts".to_string(),
            "https://cdn.example.com/seg1.ts".to_string(),
            "https://h.example.com/a/low/sub/seg2.ts".to_string(),
        ]
    );
}

#[test]
fn resolution_on_parsed_playlists() {
    assert_eq!(
        media_playlist_url_from("noslash", &ParsedPlaylist::Master(vec!["v.m3u8".to_string()])),
        Ok("noslashv.m3u8".to_string())
    );
    assert_eq!(
        media_playlist_url_from("https://h/m.m3u8", &ParsedPlaylist::Master(Vec::new())),
        Err(PlaylistError::EmptyMaster)
    );
    assert_eq!(
        segment_urls_from("https://h/d/", &ParsedPlaylist::Media(vec!["http://o/s".to_string(), "s2".to_string()])),
        Ok(vec!["http://o/s".to_string(), "https://h/d/s2".to_string()])
    );
    assert_eq!(
        segment_urls_from("https://h/d/", &ParsedPlaylist::Invalid),
        Err(PlaylistError::InvalidMedia)
    );
}
