use vstd::prelude::*;
use crate::order::{lemma_first_difference_name_less, name_less};
use crate::text::{
    decimal, digits_value, first_difference, lemma_zero_pad_width, lemma_zero_pad_ordered, lemma_zero_pad_value,
    pow10, push_char, push_padded_decimal, zero_pad,
};

verus! {

/// Width to which segment numbers are padded in file names.
pub const SEGMENT_NUMBER_WIDTH: usize = 10;

/// The file that segment number `index` is written to inside `dir`:
/// `"{dir}/{index:0>10}.ts"`.
pub open spec fn segment_path_of(dir: Seq<char>, index: nat) -> Seq<char> {
    dir + seq!['/'] + zero_pad(decimal(index), 10) + seq!['.', 't', 's']
}

/// The URL of a segment named `segment` on the server of `base`: `base`
/// parsed as a URL, its query removed and `segment` appended as one more
/// path segment (percent-encoded), written back as text. `None` when `base`
/// is no URL or a URL that cannot be a base.
pub uninterp spec fn url_with_segment(base: Seq<char>, segment: Seq<char>) -> Option<Seq<char>>;

/// Most characters a base URL and a segment name may hold together.
pub const MAX_URL_CHARS: usize = 10_000_000;

/// The base and the segment are short enough for the url crate to join them
/// without overflowing its `u32` offsets. The crate panics once a URL's text
/// passes `u32::MAX` bytes; from `MAX_URL_CHARS` characters that takes more
/// than 400 bytes per character. Percent-encoding writes at most 12 bytes
/// for a character, and IDNA mapping with punycode a few dozen at most
/// (U+3300 becomes `xn--eckwd4c7c`), so the text stays far below the limit.
pub open spec fn url_fits(base: Seq<char>, segment: Seq<char>) -> bool {
    base.len() + segment.len() <= MAX_URL_CHARS
}

/// Calls `url::Url::parse`, `Url::set_query(None)`, `Url::path_segments_mut`
/// with `PathSegmentsMut::push`, and `Url::as_str`. Claims only that the
/// result is `url_with_segment` of the arguments: the url crate computes it
/// from its two arguments alone.
///
/// The push panics once the URL text passes `u32::MAX` bytes, which
/// `url_fits` keeps it far from.
#[verifier::external_body]
fn segment_url_text(base: &str, segment: &str) -> (r: Option<String>)
    requires
        url_fits(base@, segment@),
    ensures
        r is Some <==> url_with_segment(base@, segment@) is Some,
        r matches Some(u) ==> url_with_segment(base@, segment@) == Some(u@),
{
    let mut url = url::Url::parse(base).ok()?;
    url.set_query(None);
    url.path_segments_mut().ok()?.push(segment);
    Some(url.as_str().to_string())
}

/// Names the files of the segments of a stream and finds the URLs they are
/// fetched from; the files are numbered so that they are ready for the
/// encoder to combine in order.
pub struct SegmentDownloader {
    pub url: String,
}

impl SegmentDownloader {
    /// A downloader for the media playlist found at `url`.
    pub fn new(url: String) -> (r: Self)
        ensures
            r.url == url,
    {
        SegmentDownloader { url }
    }

    /// The URL segment `uri` is fetched from: the playlist's URL without its
    /// query and with `uri` appended to its path.
    pub fn segment_url(&self, uri: &str) -> (r: Option<String>)
        requires
            url_fits(self.url@, uri@),
        ensures
            r is Some <==> url_with_segment(self.url@, uri@) is Some,
            r matches Some(u) ==> url_with_segment(self.url@, uri@) == Some(u@),
    {
        segment_url_text(self.url.as_str(), uri)
    }

    /// For each segment, in order, the URL to fetch and the file to write it
    /// to; `None` when the URL of some segment cannot be formed.
    pub fn download_plan(&self, dir: &str, uris: &Vec<String>) -> (r: Option<Vec<(String, String)>>)
        requires
            forall|i: int| 0 <= i < uris.len() ==> url_fits(self.url@, #[trigger] uris[i]@),
        ensures
            r is None <==> exists|i: int|
                0 <= i < uris.len() && #[trigger] url_with_segment(self.url@, uris[i]@) is None,
            r matches Some(plan) ==> {
                &&& plan.len() == uris.len()
                &&& forall|i: int|
                    0 <= i < uris.len() ==> url_with_segment(self.url@, uris[i]@) == Some(
                        (#[trigger] plan[i]).0@,
                    ) && plan[i].1@ == segment_path_of(dir@, i as nat)
            },
    {
        let mut plan: Vec<(String, String)> = Vec::new();
        let n = uris.len();
        for i in 0..n
            invariant
                n == uris.len(),
                forall|k: int| 0 <= k < uris.len() ==> url_fits(self.url@, #[trigger] uris[k]@),
                plan.len() == i,
                forall|k: int|
                    0 <= k < i ==> url_with_segment(self.url@, uris[k]@) == Some(
                        (#[trigger] plan[k]).0@,
                    ) && plan[k].1@ == segment_path_of(dir@, k as nat),
        {
            match self.segment_url(uris[i].as_str()) {
                Some(u) => {
                    let path = segment_file_path(dir, i);
                    plan.push((u, path));
                },
                None => {
                    assert(url_with_segment(self.url@, uris[i as int]@) is None);
                    return None;
                },
            }
        }
        assert forall|k: int| 0 <= k < uris.len() implies #[trigger] url_with_segment(
            self.url@,
            uris[k]@,
        ) is Some by {
            assert(url_with_segment(self.url@, uris[k]@) == Some(plan[k].0@));
        }
        Some(plan)
    }
}

/// The file segment number `index` is written to inside `dir`.
pub fn segment_file_path(dir: &str, index: usize) -> (r: String)
    ensures
        r@ == segment_path_of(dir@, index as nat),
{
    let mut path = String::from_str(dir);
    push_char(&mut path, '/');
    push_padded_decimal(&mut path, index, SEGMENT_NUMBER_WIDTH);
    push_char(&mut path, '.');
    push_char(&mut path, 't');
    push_char(&mut path, 's');
    assert(path@ =~= segment_path_of(dir@, index as nat));
    path
}

/// Different segments are written to different files.
pub proof fn lemma_segment_paths_distinct(dir: Seq<char>, i: nat, j: nat)
    requires
        i != j,
    ensures
        segment_path_of(dir, i) != segment_path_of(dir, j),
{
    let a = zero_pad(decimal(i), 10);
    let b = zero_pad(decimal(j), 10);
    lemma_zero_pad_value(i, 10);
    lemma_zero_pad_value(j, 10);
    if segment_path_of(dir, i) == segment_path_of(dir, j) {
        let p = segment_path_of(dir, i);
        let start = dir.len() + 1;
        assert(p.len() == dir.len() + 1 + a.len() + 3);
        assert(segment_path_of(dir, j).len() == dir.len() + 1 + b.len() + 3);
        assert(a.len() == b.len());
        assert(p.subrange(start as int, (start + a.len()) as int) =~= a);
        assert(segment_path_of(dir, j).subrange(start as int, (start + b.len()) as int) =~= b);
        assert(a == b);
    }
}

/// Files of segments numbered below `10^10` sort in segment order.
pub proof fn lemma_segment_paths_ordered(dir: Seq<char>, i: nat, j: nat)
    requires
        i < j < 10_000_000_000,
    ensures
        name_less(segment_path_of(dir, i), segment_path_of(dir, j)),
{
    assert(pow10(10) == 10_000_000_000) by {
        reveal_with_fuel(pow10, 11);
    }
    lemma_zero_pad_ordered(i, j, 10);
    let a = zero_pad(decimal(i), 10);
    let b = zero_pad(decimal(j), 10);
    let k = choose|k: int| #[trigger] first_difference(a, b, k);
    let pa = segment_path_of(dir, i);
    let pb = segment_path_of(dir, j);
    let m = dir.len() + 1 + k;
    assert(pa.take(m) =~= dir + seq!['/'] + a.take(k));
    assert(pb.take(m) =~= dir + seq!['/'] + b.take(k));
    assert(pa[m] == a[k]);
    assert(pb[m] == b[k]);
    assert(first_difference(pa, pb, m));
    lemma_first_difference_name_less(pa, pb, m);
}

/// A segment's file lies in `dir`, is named by the segment's number, which
/// it reads back as, and ends in `.ts`; below `10^10` the number takes ten
/// digits.
pub proof fn lemma_segment_path_shape(dir: Seq<char>, index: nat)
    ensures
        segment_path_of(dir, index).take(dir.len() as int) == dir,
        segment_path_of(dir, index)[dir.len() as int] == '/',
        segment_path_of(dir, index).skip(segment_path_of(dir, index).len() - 3) == seq!['.', 't', 's'],
        digits_value(
            segment_path_of(dir, index).subrange(
                (dir.len() + 1) as int,
                segment_path_of(dir, index).len() - 3,
            ),
        ) == index,
        index < 10_000_000_000 ==> segment_path_of(dir, index).len() == dir.len() + 14,
{
    let p = segment_path_of(dir, index);
    let a = zero_pad(decimal(index), 10);
    assert(p.take(dir.len() as int) =~= dir);
    assert(p.skip(p.len() - 3) =~= seq!['.', 't', 's']);
    assert(p.subrange((dir.len() + 1) as int, p.len() - 3) =~= a);
    lemma_zero_pad_value(index, 10);
    if index < 10_000_000_000 {
        assert(pow10(10) == 10_000_000_000) by {
            reveal_with_fuel(pow10, 11);
        }
        lemma_zero_pad_width(index, 10);
    }
}

} // verus!
