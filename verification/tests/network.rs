use kukufm_dl::client::{cookie_source, looks_like_url, parse_cookie_lines, CookieSource};
use kukufm_dl::kukufm::{next_fetch_action, FetchAction, FetchOutcome};

#[test]
fn cookie_lines_from_string() {
    let lines = parse_cookie_lines(" session=xyz123; token = abc456 ;# note=1; ; noequals; a=b=c");
    assert_eq!(
        lines,
        vec![
            "session=xyz123; Domain=kukufm.com; Path=/".to_string(),
            "token=abc456; Domain=kukufm.com; Path=/".to_string(),
            "a=b=c; Domain=kukufm.com; Path=/".to_string(),
        ]
    );
    assert!(parse_cookie_lines("").is_empty());
    assert!(parse_cookie_lines("   ;  ;").is_empty());
    assert_eq!(parse_cookie_lines("x=\n"), vec!["x=; Domain=kukufm.com; Path=/".to_string()]);
}

#[test]
fn cookie_sources() {
    assert_eq!(cookie_source(Some("https://e.com/c.txt"), None), CookieSource::Url("https://e.com/c.txt".to_string()));
    assert_eq!(cookie_source(Some("a=1"), Some("f.txt")), CookieSource::Inline("a=1".to_string()));
    assert_eq!(cookie_source(None, Some("http://e.com/c")), CookieSource::Url("http://e.com/c".to_string()));
    assert_eq!(cookie_source(None, Some("my.txt")), CookieSource::File { path: "my.txt".to_string(), explicit: true });
    assert_eq!(cookie_source(None, None), CookieSource::File { path: "cookies.txt".to_string(), explicit: false });
    assert!(looks_like_url("http://x"));
    assert!(!looks_like_url("ftp://x"));
    assert!(!looks_like_url("https:/x"));
}

#[test]
fn fetch_decisions() {
    assert_eq!(next_fetch_action(1, FetchOutcome::Status(200)), FetchAction::ReadBody);
    assert_eq!(next_fetch_action(3, FetchOutcome::Status(204)), FetchAction::ReadBody);
    assert_eq!(next_fetch_action(1, FetchOutcome::Status(404)), FetchAction::NotFound);
    assert_eq!(next_fetch_action(1, FetchOutcome::Status(500)), FetchAction::Retry { next_attempt: 2 });
    assert_eq!(next_fetch_action(3, FetchOutcome::Status(500)), FetchAction::GiveUp);
    assert_eq!(next_fetch_action(2, FetchOutcome::TransportError), FetchAction::Retry { next_attempt: 3 });
    assert_eq!(next_fetch_action(3, FetchOutcome::TransportError), FetchAction::Fail);
}

#[test]
fn never_more_than_three_attempts() {
    let outcomes = [FetchOutcome::Status(500), FetchOutcome::TransportError, FetchOutcome::Status(302)];
    for first in outcomes {
        for second in outcomes {
            for third in outcomes {
                let seq = [first, second, third, FetchOutcome::Status(500)];
                let mut attempt = 1u32;
                let mut k = 0;
                loop {
                    match next_fetch_action(attempt, seq[k]) {
                        FetchAction::Retry { next_attempt } => {
                            attempt = next_attempt;
                            k += 1;
                        }
                        _ => break,
                    }
                }
                assert!(attempt <= 3);
            }
        }
    }
}
