//! The download job: its settings, and the names of the files it writes on the way.

use std::path::PathBuf;
use vstd::prelude::*;
use crate::text::{contains_chars, decimal, digit_char, has_infix, push_decimal, push_zero_padded, to_chars, zero_padded};

verus! {

/// What to download and how.
pub struct DownloaderConfig {
    pub show_url: String,
    pub from_ep: usize,
    pub to_ep: usize,
    pub parallel_downloads: usize,
    pub download_dir: PathBuf,
}

/// Why the command-line arguments were refused.
#[derive(Debug, Clone, Copy, PartialEq, Eq)]
pub enum ArgumentError {
    /// The show URL does not contain `/show/`.
    InvalidUrl,
    /// The first episode is below one.
    InvalidFromEp,
    /// The last episode is set and below the first.
    InvalidRange,
    /// Fewer than one parallel download.
    InvalidParallelDownloads,
}

/// The first rule that the arguments break, checked in this order: the URL must contain
/// `/show/`, the first episode must be at least one, a non-zero last episode must not be below
/// the first, and there must be at least one parallel download.
pub open spec fn argument_check(url: Seq<char>, from_ep: usize, to_ep: usize, parallel_downloads: usize) -> Result<(), ArgumentError> {
    if !has_infix(url, "/show/"@) {
        Err(ArgumentError::InvalidUrl)
    } else if from_ep < 1 {
        Err(ArgumentError::InvalidFromEp)
    } else if to_ep != 0 && from_ep > to_ep {
        Err(ArgumentError::InvalidRange)
    } else if parallel_downloads < 1 {
        Err(ArgumentError::InvalidParallelDownloads)
    } else {
        Ok(())
    }
}

/// Checks the command-line arguments of a download.
pub fn check_arguments(url: &str, from_ep: usize, to_ep: usize, parallel_downloads: usize) -> (r: Result<(), ArgumentError>)
    ensures
        r == argument_check(url@, from_ep, to_ep, parallel_downloads),
{
    if !contains_chars(&to_chars(url), &to_chars("/show/")) {
        Err(ArgumentError::InvalidUrl)
    } else if from_ep < 1 {
        Err(ArgumentError::InvalidFromEp)
    } else if to_ep != 0 && from_ep > to_ep {
        Err(ArgumentError::InvalidRange)
    } else if parallel_downloads < 1 {
        Err(ArgumentError::InvalidParallelDownloads)
    } else {
        Ok(())
    }
}

/// The arguments are accepted exactly when the URL contains `/show/`, the first episode is at
/// least one, a non-zero last episode is not below the first, and there is at least one
/// parallel download.
pub proof fn lemma_arguments_accepted(url: Seq<char>, from_ep: usize, to_ep: usize, parallel_downloads: usize)
    ensures
        argument_check(url, from_ep, to_ep, parallel_downloads) is Ok <==> (has_infix(url, "/show/"@) && from_ep
            >= 1 && (to_ep == 0 || from_ep <= to_ep) && parallel_downloads >= 1),
{
}

/// The name of the file that holds segment `index`: the index with at least five digits,
/// then `.ts`.
pub open spec fn segment_name(index: nat) -> Seq<char> {
    zero_padded(index, 5) + seq!['.', 't', 's']
}

/// The name of the file that holds segment `index` of a playlist.
pub fn segment_file_name(index: usize) -> (r: String)
    ensures
        r@ == segment_name(index as nat),
{
    let mut s = String::new();
    push_zero_padded(&mut s, index as u64, 5);
    push_char_seq(&mut s, '.', 't', 's');
    s
}

/// Appends three characters.
fn push_char_seq(s: &mut String, a: char, b: char, c: char)
    ensures
        final(s)@ == old(s)@ + seq![a, b, c],
{
    crate::text::push_char(s, a);
    crate::text::push_char(s, b);
    crate::text::push_char(s, c);
    assert(s@ =~= old(s)@ + seq![a, b, c]);
}

/// The name of the scratch directory of episode `index`: `ep_` and the index.
pub open spec fn temp_dir_name(index: nat) -> Seq<char> {
    seq!['e', 'p', '_'] + decimal(index)
}

/// The name of the scratch directory in which the segments of episode `index` are gathered.
pub fn episode_temp_dir_name(index: usize) -> (r: String)
    ensures
        r@ == temp_dir_name(index as nat),
{
    let mut s = String::new();
    push_char_seq(&mut s, 'e', 'p', '_');
    push_decimal(&mut s, index as u64);
    s
}

/// `a` sorts strictly before `b`, comparing characters from the left (as `str` and file
/// names compare for ASCII text).
pub open spec fn sorts_before(a: Seq<char>, b: Seq<char>) -> bool {
    exists|k: int|
        0 <= k <= a.len() && k <= b.len() && #[trigger] a.take(k) == b.take(k) && ((k < a.len() && k
            < b.len() && (a[k] as u32) < (b[k] as u32)) || (k == a.len() && k < b.len()))
}

/// The five digits of `n < 100000`, most significant first.
pub open spec fn five_digits(n: nat) -> Seq<char> {
    seq![
        digit_char(n / 10 / 10 / 10 / 10),
        digit_char(n / 10 / 10 / 10 % 10),
        digit_char(n / 10 / 10 % 10),
        digit_char(n / 10 % 10),
        digit_char(n % 10),
    ]
}

/// Below 100000, the zero-padded form of `n` is its five digits.
pub proof fn lemma_padded_five_digits(n: nat)
    requires
        n < 100000,
    ensures
        zero_padded(n, 5) == five_digits(n),
{
    reveal_with_fuel(decimal, 6);
    crate::text::lemma_decimal_len(n);
    if n < 10 {
        assert(zero_padded(n, 5) =~= five_digits(n));
    } else if n < 100 {
        assert(decimal(n) =~= seq![digit_char(n / 10), digit_char(n % 10)]);
        assert(zero_padded(n, 5) =~= five_digits(n));
    } else if n < 1000 {
        assert(decimal(n / 10) =~= seq![digit_char(n / 10 / 10), digit_char(n / 10 % 10)]);
        assert(zero_padded(n, 5) =~= five_digits(n));
    } else if n < 10000 {
        assert(decimal(n / 10 / 10) =~= seq![digit_char(n / 10 / 10 / 10), digit_char(n / 10 / 10 % 10)]);
        assert(decimal(n / 10) =~= seq![digit_char(n / 10 / 10 / 10), digit_char(n / 10 / 10 % 10), digit_char(n / 10 % 10)]);
        assert(zero_padded(n, 5) =~= five_digits(n));
    } else {
        assert(decimal(n / 10 / 10 / 10) =~= seq![digit_char(n / 10 / 10 / 10 / 10), digit_char(n / 10 / 10 / 10 % 10)]);
        assert(decimal(n / 10 / 10) =~= seq![digit_char(n / 10 / 10 / 10 / 10), digit_char(n / 10 / 10 / 10 % 10), digit_char(n / 10 / 10 % 10)]);
        assert(decimal(n / 10) =~= seq![
            digit_char(n / 10 / 10 / 10 / 10),
            digit_char(n / 10 / 10 / 10 % 10),
            digit_char(n / 10 / 10 % 10),
            digit_char(n / 10 % 10),
        ]);
        assert(zero_padded(n, 5) =~= five_digits(n));
    }
}

/// The place-value decomposition of `n < 100000` into its five digits.
proof fn lemma_place_values(n: nat)
    requires
        n < 100000,
    ensures
        n == (n / 10 / 10 / 10 / 10) * 10000 + (n / 10 / 10 / 10 % 10) * 1000 + (n / 10 / 10 % 10) * 100 + (n / 10 % 10) * 10
            + n % 10,
        n / 10 / 10 / 10 / 10 < 10,
{
    let m1 = n / 10;
    let m2 = m1 / 10;
    let m3 = m2 / 10;
    let m4 = m3 / 10;
    assert(n == 10 * m1 + n % 10);
    assert(m1 == 10 * m2 + m1 % 10);
    assert(m2 == 10 * m3 + m2 % 10);
    assert(m3 == 10 * m4 + m3 % 10);
}

/// Five-digit numbers compare as their digit strings do.
proof fn lemma_first_difference(a: Seq<int>, b: Seq<int>)
    requires
        a.len() == 5,
        b.len() == 5,
        forall|k: int| 0 <= k < 5 ==> 0 <= #[trigger] a[k] < 10 && 0 <= b[k] < 10,
        a[0] * 10000 + a[1] * 1000 + a[2] * 100 + a[3] * 10 + a[4] < b[0] * 10000 + b[1] * 1000
            + b[2] * 100 + b[3] * 10 + b[4],
    ensures
        exists|k: int| 0 <= k < 5 && a[k] < b[k] && forall|m: int| 0 <= m < k ==> #[trigger] a[m] == b[m],
{
    assert(0 <= a[0] < 10 && 0 <= b[0] < 10);
    assert(0 <= a[1] < 10 && 0 <= b[1] < 10);
    assert(0 <= a[2] < 10 && 0 <= b[2] < 10);
    assert(0 <= a[3] < 10 && 0 <= b[3] < 10);
    assert(0 <= a[4] < 10 && 0 <= b[4] < 10);
    if a[0] != b[0] {
        assert(a[0] < b[0]);
        assert(forall|m: int| 0 <= m < 0 ==> #[trigger] a[m] == b[m]);
    } else if a[1] != b[1] {
        assert(a[1] < b[1]);
        assert(forall|m: int| 0 <= m < 1 ==> #[trigger] a[m] == b[m]);
    } else if a[2] != b[2] {
        assert(a[2] < b[2]);
        assert(forall|m: int| 0 <= m < 2 ==> #[trigger] a[m] == b[m]);
    } else if a[3] != b[3] {
        assert(a[3] < b[3]);
        assert(forall|m: int| 0 <= m < 3 ==> #[trigger] a[m] == b[m]);
    } else {
        assert(a[4] < b[4]);
        assert(forall|m: int| 0 <= m < 4 ==> #[trigger] a[m] == b[m]);
    }
}

/// The digits of `n < 100000`, most significant first.
spec fn digit_values(n: nat) -> Seq<int> {
    seq![(n / 10 / 10 / 10 / 10) as int, (n / 10 / 10 / 10 % 10) as int, (n / 10 / 10 % 10) as int, (n / 10 % 10) as int, (n % 10) as int]
}

/// Segment files sort in playlist order: below 100000 segments, the file of an earlier
/// segment sorts before the file of a later one, so sorting the files restores the order.
pub proof fn lemma_segment_names_sort_in_order(i: nat, j: nat)
    requires
        i < j < 100000,
    ensures
        sorts_before(segment_name(i), segment_name(j)),
{
    lemma_padded_five_digits(i);
    lemma_padded_five_digits(j);
    lemma_place_values(i);
    lemma_place_values(j);
    let da = digit_values(i);
    let db = digit_values(j);
    lemma_first_difference(da, db);
    let k = choose|k: int| 0 <= k < 5 && da[k] < db[k] && forall|m: int| 0 <= m < k ==> #[trigger] da[m] == db[m];
    let a = segment_name(i);
    let b = segment_name(j);
    assert forall|m: int| 0 <= m < 5 implies #[trigger] a[m] as u32 == 48 + da[m] && b[m] as u32 == 48 + db[m] by {
    }
    assert(a.take(k) =~= b.take(k)) by {
        assert forall|m: int| 0 <= m < k implies a.take(k)[m] == b.take(k)[m] by {
            assert(da[m] == db[m]);
            assert(a[m] as u32 == b[m] as u32);
        }
    }
    assert((a[k] as u32) < (b[k] as u32));
}

} // verus!
