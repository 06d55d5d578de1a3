//! Merging downloaded segments into one audio file, and the tags it receives.

use vstd::prelude::*;
use crate::client::string_views;
use crate::models::Episode;

verus! {

/// The list that ffmpeg's concat demuxer reads: one line `file '<path>'` per segment, in order.
pub open spec fn concat_list(paths: Seq<Seq<char>>) -> Seq<char>
    decreases paths.len(),
{
    if paths.len() == 0 {
        Seq::empty()
    } else {
        concat_list(paths.drop_last()) + "file '"@ + paths.last() + "'\n"@
    }
}

/// The concat list for the segment files at `paths`, in order.
pub fn concat_list_content(paths: &[String]) -> (r: String)
    ensures
        r@ == concat_list(string_views(paths@)),
{
    let ghost ps = string_views(paths@);
    let mut s = String::new();
    let mut i: usize = 0;
    assert(ps.take(0) =~= Seq::<Seq<char>>::empty());
    while i < paths.len()
        invariant
            ps == string_views(paths@),
            i <= paths@.len(),
            s@ == concat_list(ps.take(i as int)),
        decreases paths@.len() - i,
    {
        assert(ps.take(i + 1).drop_last() == ps.take(i as int));
        assert(ps.take(i + 1).last() == paths@[i as int]@);
        s.append("file '");
        s.append(paths[i].as_str());
        s.append("'\n");
        i += 1;
    }
    assert(ps.take(paths@.len() as int) == ps);
    s
}


/// The concat list of two lists of segments one after the other is the list of the first
/// followed by the list of the second; one segment `p` gives the single line `file 'p'`.
pub proof fn lemma_concat_list_appends(a: Seq<Seq<char>>, b: Seq<Seq<char>>)
    ensures
        concat_list(a + b) == concat_list(a) + concat_list(b),
    decreases b.len(),
{
    if b.len() == 0 {
        assert(a + b =~= a);
        assert(concat_list(b) =~= Seq::<char>::empty());
        assert(concat_list(a) + concat_list(b) =~= concat_list(a));
    } else {
        lemma_concat_list_appends(a, b.drop_last());
        assert((a + b).drop_last() =~= a + b.drop_last());
        assert((a + b).last() == b.last());
    }
}

/// One segment `p` gives the single line `file 'p'` and a line break, with the path whole.
pub proof fn lemma_concat_list_one(p: Seq<char>)
    ensures
        concat_list(seq![p]) == "file '"@ + p + "'\n"@,
{
    let one = seq![p];
    assert(one.drop_last() =~= Seq::<Seq<char>>::empty());
    assert(concat_list(one.drop_last()) =~= Seq::<char>::empty());
    assert(one.last() == p);
    assert(Seq::<char>::empty() + "file '"@ =~= "file '"@);
}

/// The tags written into an episode's audio file.
#[derive(Debug, Clone, PartialEq, Eq)]
pub struct AudioTags {
    pub title: String,
    pub artist: String,
    pub album: String,
}

impl AudioTags {
    /// The tags of an episode's file: the episode title as title, the show's author as
    /// artist, and the show title as album.
    pub fn for_episode(episode: &Episode) -> (r: AudioTags)
        ensures
            r.title@ == episode.title@,
            r.artist@ == episode.author@,
            r.album@ == episode.show_title@,
    {
        AudioTags {
            title: episode.title.clone(),
            artist: episode.author.clone(),
            album: episode.show_title.clone(),
        }
    }
}

} // verus!
