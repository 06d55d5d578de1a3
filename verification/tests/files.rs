use std::path::PathBuf;
use kukufm_dl::downloader::{
    check_arguments, episode_temp_dir_name, segment_file_name, ArgumentError,
};
use kukufm_dl::audio::{concat_list_content, AudioTags};
use kukufm_dl::models::Episode;
use kukufm_dl::text::is_whitespace;

fn episode(show: &str, title: &str) -> Episode {
    Episode {
        show_title: show.to_string(),
        title: title.to_string(),
        index: 3,
        duration_seconds: 1,
        hls_url: "u".to_string(),
        cover_url: String::new(),
        author: String::new(),
        language: String::new(),
        description: String::new(),
    }
}

#[test]
fn output_file_names() {
    assert_eq!(episode("My Show", "Ep 1").output_filename(), "My Show - Ep 1.m4a");
    assert_eq!(episode("A/B", "x/y/z").output_filename(), "A-B - x-y-z.m4a");
    assert_eq!(episode("", "").output_filename(), " - .m4a");
}

#[test]
fn output_paths() {
    let base = PathBuf::from("downloads");
    assert_eq!(
        episode("My Show", "Ep/1").output_path(&base),
        PathBuf::from("downloads").join("My Show").join("My Show - Ep-1.m4a")
    );
}

#[test]
fn segment_and_scratch_names() {
    assert_eq!(segment_file_name(0), "00000.ts");
    assert_eq!(segment_file_name(42), "00042.ts");
    assert_eq!(segment_file_name(99999), "99999.ts");
    assert_eq!(segment_file_name(123456), "123456.ts");
    assert_eq!(episode_temp_dir_name(7), "ep_7");
    for i in 0..20000usize {
        assert_eq!(segment_file_name(i), format!("{:05}.ts", i));
    }
    let mut names: Vec<String> = (0..1500usize).rev().map(segment_file_name).collect();
    names.sort();
    assert_eq!(names, (0..1500usize).map(segment_file_name).collect::<Vec<_>>());
}

#[test]
fn concat_list() {
    assert_eq!(concat_list_content(&[]), "");
    assert_eq!(
        concat_list_content(&["/t/00000.ts".to_string(), "/t/00001.ts".to_string()]),
        "file '/t/00000.ts'\nfile '/t/00001.ts'\n"
    );
}

#[test]
fn arguments() {
    assert_eq!(check_arguments("https://kukufm.com/show/x", 1, 0, 1), Ok(()));
    assert_eq!(check_arguments("https://kukufm.com/x", 1, 0, 1), Err(ArgumentError::InvalidUrl));
    assert_eq!(check_arguments("https://kukufm.com/show/x", 0, 0, 1), Err(ArgumentError::InvalidFromEp));
    assert_eq!(check_arguments("https://kukufm.com/show/x", 5, 4, 1), Err(ArgumentError::InvalidRange));
    assert_eq!(check_arguments("https://kukufm.com/show/x", 5, 5, 0), Err(ArgumentError::InvalidParallelDownloads));
}

#[test]
fn white_space_matches_std() {
    for u in 0..=0x10ffffu32 {
        if let Some(c) = char::from_u32(u) {
            assert_eq!(is_whitespace(c), c.is_whitespace(), "U+{:04X}", u);
        }
    }
}

#[test]
fn audio_tags_of_episode() {
    let mut e = episode("Show", "Title");
    e.author = "Writer".to_string();
    let tags = AudioTags::for_episode(&e);
    assert_eq!(tags.title, "Title");
    assert_eq!(tags.artist, "Writer");
    assert_eq!(tags.album, "Show");
}
