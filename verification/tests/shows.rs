use kukufm_dl::kukufm::{
    episodes_page_url, parse_show_slug, show_info, ApiError, ApiResponse, RawAuthor, RawShow, SlugError,
};

#[test]
fn slug_from_show_url() {
    assert_eq!(parse_show_slug("https://kukufm.com/show/my-story").unwrap(), "my-story");
    assert_eq!(parse_show_slug("  https://kukufm.com/show/my-story/  ").unwrap(), "my-story");
    assert_eq!(parse_show_slug("https://kukufm.com/show/slug?x=1").unwrap(), "slug?x=1");
    assert_eq!(parse_show_slug("show/abc").unwrap(), "abc");
}

#[test]
fn slug_refused() {
    assert_eq!(parse_show_slug("https://kukufm.com/show/"), Err(SlugError::NoShowSlug));
    assert_eq!(parse_show_slug("https://kukufm.com/show"), Err(SlugError::NoShowSlug));
    assert_eq!(parse_show_slug("https://kukufm.com/shows/abc"), Err(SlugError::NoShowSlug));
    assert_eq!(parse_show_slug(""), Err(SlugError::NoShowSlug));
    // Only the first `show` segment counts.
    assert_eq!(parse_show_slug("https://x/show//show/abc"), Err(SlugError::NoShowSlug));
}

#[test]
fn slug_trims_unicode_white_space() {
    assert_eq!(parse_show_slug("\u{3000}\t/show/a\u{a0}\n").unwrap(), "a");
}

#[test]
fn page_urls() {
    assert_eq!(
        episodes_page_url("my-story", 1),
        "https://kukufm.com/api/v2.1/channels/my-story/episodes?lang=english&page=1"
    );
    assert_eq!(
        episodes_page_url("s", 120),
        "https://kukufm.com/api/v2.1/channels/s/episodes?lang=english&page=120"
    );
}

#[test]
fn show_info_defaults() {
    let res = ApiResponse {
        show: Some(RawShow {
            title: Some("T".to_string()),
            description: None,
            author: Some(RawAuthor { name: Some("A".to_string()) }),
            language: None,
        }),
        n_pages: None,
        episodes: None,
    };
    let show = show_info(&res).unwrap();
    assert_eq!(show.title, "T");
    assert_eq!(show.description, "");
    assert_eq!(show.author, "A");
    assert_eq!(show.language, "");
    assert_eq!(show.total_pages, 1);

    let res = ApiResponse {
        show: Some(RawShow { title: None, description: Some("D".to_string()), author: Some(RawAuthor { name: None }), language: Some("hi".to_string()) }),
        n_pages: Some(7),
        episodes: None,
    };
    let show = show_info(&res).unwrap();
    assert_eq!(show.author, "");
    assert_eq!(show.language, "hi");
    assert_eq!(show.total_pages, 7);
}

#[test]
fn show_info_missing_show() {
    let res = ApiResponse { show: None, n_pages: Some(3), episodes: None };
    assert_eq!(show_info(&res).err(), Some(ApiError::MissingShow));
}
