//! Following an HLS playlist to the addresses of its media segments.

use vstd::prelude::*;
use crate::client::{is_http_url, looks_like_url, string_views};
use crate::text::has_prefix;
use crate::text::{find_last, from_chars, sub_chars, to_chars};

verus! {

/// A playlist as the parser reads it, reduced to the addresses the library follows.
#[derive(Debug, Clone, PartialEq, Eq)]
pub enum ParsedPlaylist {
    /// A master playlist, with the address of each variant stream in order.
    Master(Vec<String>),
    /// A media playlist, with the address of each segment in order.
    Media(Vec<String>),
    /// Bytes that are not a playlist.
    Invalid,
}

/// A parsed playlist with its addresses seen as character sequences.
pub enum PlaylistView {
    Master(Seq<Seq<char>>),
    Media(Seq<Seq<char>>),
    Invalid,
}

impl View for ParsedPlaylist {
    type V = PlaylistView;

    open spec fn view(&self) -> PlaylistView {
        match self {
            ParsedPlaylist::Master(v) => PlaylistView::Master(string_views(v@)),
            ParsedPlaylist::Media(v) => PlaylistView::Media(string_views(v@)),
            ParsedPlaylist::Invalid => PlaylistView::Invalid,
        }
    }
}

/// What `m3u8_rs::parse_playlist` makes of `bytes`, reduced to the variant and segment addresses.
pub uninterp spec fn parsed_playlist(bytes: Seq<u8>) -> PlaylistView;

/// `m3u8_rs::parse_playlist`: reads `input` as a master or a media playlist. Its result is a
/// function of the bytes alone, named `parsed_playlist`; the grammar it accepts is not stated.
#[verifier::external_body]
fn parse_playlist(input: &[u8]) -> (r: ParsedPlaylist)
    ensures
        r@ == parsed_playlist(input@),
{
    match m3u8_rs::parse_playlist(input) {
        Ok((_, m3u8_rs::Playlist::MasterPlaylist(pl))) => ParsedPlaylist::Master(
            pl.variants.into_iter().map(|v| v.uri).collect(),
        ),
        Ok((_, m3u8_rs::Playlist::MediaPlaylist(pl))) => ParsedPlaylist::Media(
            pl.segments.into_iter().map(|s| s.uri).collect(),
        ),
        Err(_) => ParsedPlaylist::Invalid,
    }
}

/// Why a playlist could not be followed.
#[derive(Debug, Clone, Copy, PartialEq, Eq)]
pub enum PlaylistError {
    /// The master playlist lists no variant stream.
    EmptyMaster,
    /// The first playlist is not a playlist.
    InvalidMaster,
    /// The second playlist is not a media playlist.
    InvalidMedia,
}

/// The directory part of an address: everything up to and including its last `/`, or the
/// whole address when it has none.
pub open spec fn url_base(url: Seq<char>) -> Seq<char> {
    match url.index_of_last('/') {
        Some(p) => url.take(p + 1),
        None => url,
    }
}

/// The directory part of an address.
fn base_of(url: &[char]) -> (r: Vec<char>)
    ensures
        r@ == url_base(url@),
{
    let n = url.len();
    match find_last(url, '/') {
        Some(p) => {
            assert(p < n);
            let r = sub_chars(url, 0, p + 1);
            assert(r@ =~= url@.take(p + 1));
            r
        },
        None => sub_chars(url, 0, url.len()),
    }
}

/// The address of the media playlist reached from `hls_url`, whose playlist is `p`: the first
/// variant of a master playlist, resolved against the directory of `hls_url`, or `hls_url`
/// itself when it is already a media playlist.
pub open spec fn media_playlist_url(hls_url: Seq<char>, p: PlaylistView) -> Result<Seq<char>, PlaylistError> {
    match p {
        PlaylistView::Master(variants) => if variants.len() == 0 {
            Err(PlaylistError::EmptyMaster)
        } else {
            Ok(url_base(hls_url) + variants[0])
        },
        PlaylistView::Media(_) => Ok(hls_url),
        PlaylistView::Invalid => Err(PlaylistError::InvalidMaster),
    }
}

/// The address of the media playlist reached from `hls_url`, whose playlist parsed as `parsed`.
pub fn media_playlist_url_from(hls_url: &str, parsed: &ParsedPlaylist) -> (r: Result<String, PlaylistError>)
    ensures
        match r {
            Ok(u) => media_playlist_url(hls_url@, parsed@) == Ok::<Seq<char>, PlaylistError>(u@),
            Err(e) => media_playlist_url(hls_url@, parsed@) == Err::<Seq<char>, PlaylistError>(e),
        },
{
    match parsed {
        ParsedPlaylist::Master(variants) => {
            if variants.len() == 0 {
                Err(PlaylistError::EmptyMaster)
            } else {
                let base = base_of(&to_chars(hls_url));
                let mut u = from_chars(&base);
                u.append(variants[0].as_str());
                assert(string_views(variants@)[0] == variants@[0]@);
                Ok(u)
            }
        },
        ParsedPlaylist::Media(_) => Ok(hls_url.to_owned()),
        ParsedPlaylist::Invalid => Err(PlaylistError::InvalidMaster),
    }
}

/// The address of the media playlist reached from `hls_url`, whose body is `master_bytes`.
pub fn resolve_media_playlist(hls_url: &str, master_bytes: &[u8]) -> (r: Result<String, PlaylistError>)
    ensures
        match r {
            Ok(u) => media_playlist_url(hls_url@, parsed_playlist(master_bytes@)) == Ok::<
                Seq<char>,
                PlaylistError,
            >(u@),
            Err(e) => media_playlist_url(hls_url@, parsed_playlist(master_bytes@)) == Err::<
                Seq<char>,
                PlaylistError,
            >(e),
        },
{
    let parsed = parse_playlist(master_bytes);
    media_playlist_url_from(hls_url, &parsed)
}

/// The address of a segment: kept when it is an `http(s)://` address, else resolved against
/// the directory `base` of the media playlist.
pub open spec fn segment_url(base: Seq<char>, uri: Seq<char>) -> Seq<char> {
    if is_http_url(uri) {
        uri
    } else {
        base + uri
    }
}

/// The addresses of the segments of the media playlist at `playlist_url`, in playlist order;
/// an error when `p` is not a media playlist.
pub open spec fn segment_urls(playlist_url: Seq<char>, p: PlaylistView) -> Result<Seq<Seq<char>>, PlaylistError> {
    match p {
        PlaylistView::Media(segs) => Ok(segs.map_values(|u: Seq<char>| segment_url(url_base(playlist_url), u))),
        _ => Err(PlaylistError::InvalidMedia),
    }
}

/// The addresses of the segments of the media playlist at `playlist_url`, which parsed as `parsed`.
pub fn segment_urls_from(playlist_url: &str, parsed: &ParsedPlaylist) -> (r: Result<Vec<String>, PlaylistError>)
    ensures
        match r {
            Ok(v) => segment_urls(playlist_url@, parsed@) == Ok::<Seq<Seq<char>>, PlaylistError>(
                string_views(v@),
            ),
            Err(e) => segment_urls(playlist_url@, parsed@) == Err::<Seq<Seq<char>>, PlaylistError>(e),
        },
{
    match parsed {
        ParsedPlaylist::Media(segs) => {
            let base = base_of(&to_chars(playlist_url));
            let ghost want = string_views(segs@).map_values(
                |u: Seq<char>| segment_url(url_base(playlist_url@), u),
            );
            let mut urls: Vec<String> = Vec::new();
            let mut i: usize = 0;
            while i < segs.len()
                invariant
                    base@ == url_base(playlist_url@),
                    want == string_views(segs@).map_values(
                        |u: Seq<char>| segment_url(url_base(playlist_url@), u),
                    ),
                    i <= segs@.len(),
                    string_views(urls@) == want.take(i as int),
                decreases segs@.len() - i,
            {
                let uri = segs[i].as_str();
                let u = if looks_like_url(uri) {
                    uri.to_owned()
                } else {
                    let mut u = from_chars(&base);
                    u.append(uri);
                    u
                };
                let ghost before = urls@;
                assert(string_views(segs@)[i as int] == segs@[i as int]@);
                assert(want[i as int] == segment_url(url_base(playlist_url@), segs@[i as int]@));
                assert(u@ == want[i as int]);
                urls.push(u);
                assert(string_views(urls@) =~= string_views(before).push(u@));
                assert(want.take(i + 1) =~= want.take(i as int).push(want[i as int]));
                i += 1;
            }
            assert(want.take(segs@.len() as int) == want);
            Ok(urls)
        },
        _ => Err(PlaylistError::InvalidMedia),
    }
}

/// The addresses of the segments of the media playlist at `playlist_url`, whose body is
/// `media_bytes`.
pub fn media_segment_urls(playlist_url: &str, media_bytes: &[u8]) -> (r: Result<Vec<String>, PlaylistError>)
    ensures
        match r {
            Ok(v) => segment_urls(playlist_url@, parsed_playlist(media_bytes@)) == Ok::<
                Seq<Seq<char>>,
                PlaylistError,
            >(string_views(v@)),
            Err(e) => segment_urls(playlist_url@, parsed_playlist(media_bytes@)) == Err::<
                Seq<Seq<char>>,
                PlaylistError,
            >(e),
        },
{
    let parsed = parse_playlist(media_bytes);
    segment_urls_from(playlist_url, &parsed)
}


/// The directory part of an address is a prefix of it: the address itself when it has no `/`,
/// else the part up to a `/` after which the address has no other `/`.
pub proof fn lemma_url_base_is_directory(url: Seq<char>)
    ensures
        url_base(url).len() <= url.len(),
        url.take(url_base(url).len() as int) == url_base(url),
        !url.contains('/') ==> url_base(url) == url,
        url.contains('/') ==> url_base(url).len() > 0 && url_base(url).last() == '/' && !url.skip(
            url_base(url).len() as int,
        ).contains('/'),
{
    url.index_of_last_ensures('/');
    match url.index_of_last('/') {
        Some(p) => {
            let b = url.take(p + 1);
            assert(url.take(b.len() as int) =~= b);
            assert(b.last() == url[p]);
            if url.skip(b.len() as int).contains('/') {
                let k = choose|k: int| 0 <= k < url.skip(b.len() as int).len() && url.skip(b.len() as int)[k] == '/';
                assert(url[p + 1 + k] == '/');
            }
        },
        None => {
            assert(url.take(url.len() as int) =~= url);
        },
    }
}

/// Segment addresses keep every segment URI whole and in order: an `http(s)://` URI is kept
/// as it is, and any other URI follows the directory of the playlist's address, character for
/// character, with nothing cut or added.
pub proof fn lemma_segment_uris_kept_whole(playlist_url: Seq<char>, segs: Seq<Seq<char>>)
    ensures
        segment_urls(playlist_url, PlaylistView::Media(segs)) is Ok,
        segment_urls(playlist_url, PlaylistView::Media(segs))->Ok_0.len() == segs.len(),
        forall|i: int|
            0 <= i < segs.len() ==> {
                let u = #[trigger] segment_urls(playlist_url, PlaylistView::Media(segs))->Ok_0[i];
                let base = url_base(playlist_url);
                if has_prefix(segs[i], "http://"@) || has_prefix(segs[i], "https://"@) {
                    u == segs[i]
                } else {
                    &&& u.len() == base.len() + segs[i].len()
                    &&& u.take(base.len() as int) == base
                    &&& u.skip(base.len() as int) == segs[i]
                }
            },
{
    let base = url_base(playlist_url);
    let urls = segment_urls(playlist_url, PlaylistView::Media(segs))->Ok_0;
    assert forall|i: int| 0 <= i < segs.len() implies {
        let u = #[trigger] urls[i];
        if has_prefix(segs[i], "http://"@) || has_prefix(segs[i], "https://"@) {
            u == segs[i]
        } else {
            &&& u.len() == base.len() + segs[i].len()
            &&& u.take(base.len() as int) == base
            &&& u.skip(base.len() as int) == segs[i]
        }
    } by {
        let u = urls[i];
        if !(has_prefix(segs[i], "http://"@) || has_prefix(segs[i], "https://"@)) {
            assert(u == base + segs[i]);
            assert(u.take(base.len() as int) =~= base);
            assert(u.skip(base.len() as int) =~= segs[i]);
        }
    }
}

/// The media playlist reached from a master playlist is its first variant's URI, whole, after
/// the directory of the master's address; a media playlist is its own; other bytes are refused.
pub proof fn lemma_first_variant_kept_whole(hls_url: Seq<char>, p: PlaylistView)
    ensures
        p is Master && p->Master_0.len() > 0 ==> media_playlist_url(hls_url, p) is Ok && ({
            let u = media_playlist_url(hls_url, p)->Ok_0;
            let base = url_base(hls_url);
            let first = p->Master_0[0];
            &&& u.len() == base.len() + first.len()
            &&& u.take(base.len() as int) == base
            &&& u.skip(base.len() as int) == first
        }),
        p matches PlaylistView::Master(vs) && vs.len() == 0 ==> media_playlist_url(hls_url, p) == Err::<
            Seq<char>,
            PlaylistError,
        >(PlaylistError::EmptyMaster),
        p is Media ==> media_playlist_url(hls_url, p) == Ok::<Seq<char>, PlaylistError>(hls_url),
        p is Invalid ==> media_playlist_url(hls_url, p) == Err::<Seq<char>, PlaylistError>(
            PlaylistError::InvalidMaster,
        ),
{
    if let PlaylistView::Master(vs) = p {
        if vs.len() > 0 {
            let u = url_base(hls_url) + vs[0];
            assert(u.take(url_base(hls_url).len() as int) =~= url_base(hls_url));
            assert(u.skip(url_base(hls_url).len() as int) =~= vs[0]);
        }
    }
}

} // verus!
