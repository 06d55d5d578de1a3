use kukufm_dl::kukufm::{EpisodeCollector, RawContent, RawEpisode};
use kukufm_dl::models::ShowInfo;

fn show() -> ShowInfo {
    ShowInfo {
        title: "Show".to_string(),
        description: "Desc".to_string(),
        author: "Auth".to_string(),
        language: "english".to_string(),
        total_pages: 3,
    }
}

fn raw(index: Option<usize>, hls: Option<&str>) -> RawEpisode {
    RawEpisode {
        index,
        title: None,
        duration_s: Some(60),
        content: Some(RawContent { hls_url: hls.map(|s| s.to_string()) }),
        image: Some("cover.jpg".to_string()),
    }
}

#[test]
fn first_page_holds_first_episode() {
    assert_eq!(EpisodeCollector::new(show(), 0, 0).next_page(), Some(1));
    assert_eq!(EpisodeCollector::new(show(), 1, 0).next_page(), Some(1));
    assert_eq!(EpisodeCollector::new(show(), 10, 0).next_page(), Some(1));
    assert_eq!(EpisodeCollector::new(show(), 11, 0).next_page(), Some(2));
    assert_eq!(EpisodeCollector::new(show(), 25, 30).next_page(), Some(3));
}

#[test]
fn gathers_range_across_pages() {
    let mut c = EpisodeCollector::new(show(), 9, 12);
    assert_eq!(c.next_page(), Some(1));
    let page1: Vec<RawEpisode> = (1..=10).map(|i| raw(Some(i), Some("https://h/a.m3u8"))).collect();
    c.page_received(Some(page1));
    assert_eq!(c.next_page(), Some(2));
    let mut page2: Vec<RawEpisode> = (11..=20).map(|i| raw(Some(i), Some("https://h/b.m3u8"))).collect();
    page2[0].content = Some(RawContent { hls_url: Some(String::new()) });
    page2[1].title = Some("Twelve".to_string());
    c.page_received(Some(page2));
    assert_eq!(c.next_page(), None);
    let (s, eps) = c.into_parts();
    assert_eq!(s.title, "Show");
    let idx: Vec<usize> = eps.iter().map(|e| e.index).collect();
    assert_eq!(idx, vec![9, 10, 12]);
    assert_eq!(eps[0].title, "Episode - 9");
    assert_eq!(eps[2].title, "Twelve");
    assert_eq!(eps[0].show_title, "Show");
    assert_eq!(eps[0].author, "Auth");
    assert_eq!(eps[0].cover_url, "cover.jpg");
    assert_eq!(eps[0].duration_seconds, 60);
    assert_eq!(eps[0].hls_url, "https://h/a.m3u8");
}

#[test]
fn empty_or_missing_page_ends() {
    let mut c = EpisodeCollector::new(show(), 1, 0);
    c.page_received(Some(vec![raw(Some(1), Some("u"))]));
    assert_eq!(c.next_page(), Some(2));
    c.page_received(Some(Vec::new()));
    assert_eq!(c.next_page(), None);
    let (_, eps) = c.into_parts();
    assert_eq!(eps.len(), 1);

    let mut c = EpisodeCollector::new(show(), 1, 0);
    c.page_received(None);
    assert_eq!(c.next_page(), None);
}

#[test]
fn failed_page_keeps_what_was_gathered() {
    let mut c = EpisodeCollector::new(show(), 1, 0);
    c.page_received(Some(vec![raw(Some(1), Some("u")), raw(None, Some("v")), raw(Some(2), None)]));
    c.page_failed();
    assert_eq!(c.next_page(), None);
    let (_, eps) = c.into_parts();
    assert_eq!(eps.len(), 1);
    assert_eq!(eps[0].index, 1);
}

#[test]
fn missing_index_counts_as_zero() {
    let mut c = EpisodeCollector::new(show(), 0, 0);
    c.page_received(Some(vec![RawEpisode { index: None, title: None, duration_s: None, content: Some(RawContent { hls_url: Some("x".to_string()) }), image: None }]));
    let (_, eps) = c.into_parts();
    assert_eq!(eps[0].index, 0);
    assert_eq!(eps[0].title, "Episode - 0");
    assert_eq!(eps[0].duration_seconds, 0);
    assert_eq!(eps[0].cover_url, "");
}
