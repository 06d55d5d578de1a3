//! Shows and episodes, as the library models them.

use std::path::PathBuf;
use vstd::prelude::*;
use crate::paths::{joined, join_path};
use crate::text::{push_char, push_chars, to_chars};

verus! {

/// What is known of a show.
#[derive(Debug, Clone)]
pub struct ShowInfo {
    pub title: String,
    pub description: String,
    pub author: String,
    pub language: String,
    pub total_pages: usize,
}

/// One episode of a show, with what is needed to download and tag it.
#[derive(Debug, Clone)]
pub struct Episode {
    pub show_title: String,
    pub title: String,
    pub index: usize,
    pub duration_seconds: u64,
    pub hls_url: String,
    pub cover_url: String,
    pub author: String,
    pub language: String,
    pub description: String,
}

/// An episode with its text fields seen as character sequences.
pub struct EpisodeView {
    pub show_title: Seq<char>,
    pub title: Seq<char>,
    pub index: usize,
    pub duration_seconds: u64,
    pub hls_url: Seq<char>,
    pub cover_url: Seq<char>,
    pub author: Seq<char>,
    pub language: Seq<char>,
    pub description: Seq<char>,
}

impl View for Episode {
    type V = EpisodeView;

    open spec fn view(&self) -> EpisodeView {
        EpisodeView {
            show_title: self.show_title@,
            title: self.title@,
            index: self.index,
            duration_seconds: self.duration_seconds,
            hls_url: self.hls_url@,
            cover_url: self.cover_url@,
            author: self.author@,
            language: self.language@,
            description: self.description@,
        }
    }
}

/// A show's text fields seen as character sequences.
pub struct ShowInfoView {
    pub title: Seq<char>,
    pub description: Seq<char>,
    pub author: Seq<char>,
    pub language: Seq<char>,
    pub total_pages: usize,
}

impl View for ShowInfo {
    type V = ShowInfoView;

    open spec fn view(&self) -> ShowInfoView {
        ShowInfoView {
            title: self.title@,
            description: self.description@,
            author: self.author@,
            language: self.language@,
            total_pages: self.total_pages,
        }
    }
}

/// `s` with every `/` replaced by `-`.
pub open spec fn without_slashes(s: Seq<char>) -> Seq<char> {
    s.map_values(|c: char| if c == '/' { '-' } else { c })
}

/// The file name of an episode: `<show> - <title>.m4a`, with `/` in either part made `-`.
pub open spec fn file_name(show_title: Seq<char>, title: Seq<char>) -> Seq<char> {
    without_slashes(show_title) + seq![' ', '-', ' '] + without_slashes(title) + seq!['.', 'm', '4', 'a']
}

/// Appends `cs` to `s` with every `/` replaced by `-`.
fn push_without_slashes(s: &mut String, cs: &[char])
    ensures
        final(s)@ == old(s)@ + without_slashes(cs@),
{
    let ghost start = s@;
    let mut i: usize = 0;
    while i < cs.len()
        invariant
            i <= cs@.len(),
            s@ == start + without_slashes(cs@.take(i as int)),
        decreases cs@.len() - i,
    {
        let c = cs[i];
        push_char(s, if c == '/' { '-' } else { c });
        assert(without_slashes(cs@.take(i + 1)) =~= without_slashes(cs@.take(i as int)).push(
            if c == '/' { '-' } else { c },
        ));
        i += 1;
    }
    assert(cs@.take(cs@.len() as int) == cs@);
}

impl Episode {
    /// The name of the audio file for this episode.
    pub fn output_filename(&self) -> (r: String)
        ensures
            r@ == file_name(self.show_title@, self.title@),
    {
        let mut s = String::new();
        push_without_slashes(&mut s, &to_chars(self.show_title.as_str()));
        push_chars(&mut s, &[' ', '-', ' ']);
        push_without_slashes(&mut s, &to_chars(self.title.as_str()));
        push_chars(&mut s, &['.', 'm', '4', 'a']);
        assert(s@ =~= file_name(self.show_title@, self.title@));
        s
    }

    /// Where the audio file for this episode goes: `<base_dir>/<show title>/<file name>`.
    pub fn output_path(&self, base_dir: &PathBuf) -> (r: PathBuf)
        ensures
            r == joined(joined(*base_dir, self.show_title@), file_name(self.show_title@, self.title@)),
    {
        let show_dir = join_path(base_dir, self.show_title.as_str());
        let name = self.output_filename();
        join_path(&show_dir, name.as_str())
    }
}

/// A file name never holds a path separator, whatever the titles hold.
pub proof fn lemma_file_name_has_no_slash(show_title: Seq<char>, title: Seq<char>)
    ensures
        !file_name(show_title, title).contains('/'),
{
    let f = file_name(show_title, title);
    assert forall|i: int| 0 <= i < f.len() implies f[i] != '/' by {
        let a = without_slashes(show_title).len();
        let b = without_slashes(title).len();
        if i < a {
        } else if i < a + 3 {
        } else if i < a + 3 + b {
            assert(f[i] == without_slashes(title)[i - a - 3]);
        } else {
        }
    }
}


/// A file name is the show title, ` - `, the episode title and `.m4a`, character for
/// character, except that each `/` of the titles becomes `-`.
pub proof fn lemma_file_name_layout(show_title: Seq<char>, title: Seq<char>)
    ensures
        file_name(show_title, title).len() == show_title.len() + title.len() + 7,
        forall|i: int|
            0 <= i < show_title.len() ==> #[trigger] file_name(show_title, title)[i] == (if show_title[i] == '/' {
                '-'
            } else {
                show_title[i]
            }),
        forall|i: int|
            0 <= i < title.len() ==> #[trigger] file_name(show_title, title)[show_title.len() + 3 + i] == (
            if title[i] == '/' {
                '-'
            } else {
                title[i]
            }),
        file_name(show_title, title).subrange(show_title.len() as int, show_title.len() + 3int) == seq![' ', '-', ' '],
        file_name(show_title, title).skip(show_title.len() + 3int + title.len()) == seq!['.', 'm', '4', 'a'],
{
    let f = file_name(show_title, title);
    let a = show_title.len() as int;
    let b = title.len() as int;
    assert(f.subrange(a, a + 3) =~= seq![' ', '-', ' ']);
    assert(f.skip(a + 3 + b) =~= seq!['.', 'm', '4', 'a']);
}

} // verus!
