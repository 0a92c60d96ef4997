use vstd::prelude::*;
use vstd::relations::sorted_by;
use crate::downloader::{lemma_segment_paths_ordered, segment_path_of};
use crate::order::{by_name, lemma_sorted_names_unique, sort_by_name, sorted_names, string_views};

verus! {

/// The line of the FFmpeg concat list that names the file at `path`.
pub open spec fn merge_line_of(path: Seq<char>) -> Seq<char> {
    "file '"@ + path + "'\r\n"@
}

/// The FFmpeg concat list that names the files at `paths`, in order.
pub open spec fn merge_text_of(paths: Seq<Seq<char>>) -> Seq<char>
    decreases paths.len(),
{
    if paths.len() == 0 {
        Seq::empty()
    } else {
        merge_text_of(paths.drop_last()) + merge_line_of(paths.last())
    }
}

/// The arguments FFmpeg is run with to join the files listed in
/// `merge_file` into `{output_file}.avi` (FFV1 video, 16-bit PCM audio).
pub open spec fn ffmpeg_args_of(merge_file: Seq<char>, output_file: Seq<char>) -> Seq<Seq<char>> {
    seq![
        "-y"@,
        "-hide_banner"@,
        "-f"@,
        "concat"@,
        "-safe"@,
        "0"@,
        "-i"@,
        merge_file,
        "-c:v"@,
        "ffv1"@,
        "-level"@,
        "3"@,
        "-context"@,
        "1"@,
        "-c:a"@,
        "pcm_s16le"@,
        output_file + ".avi"@,
    ]
}

/// Joins the downloaded segments of a directory into one video with FFmpeg,
/// through a concat list kept in `merge_file`.
pub struct Encoder {
    pub dir: String,
    pub merge_file: String,
}

impl Encoder {
    /// An encoder for the segments in `dir`, listed in `merge_file`.
    pub fn new(dir: &str, merge_file: String) -> (r: Self)
        ensures
            r.dir@ == dir@,
            r.merge_file == merge_file,
    {
        Encoder { dir: String::from_str(dir), merge_file }
    }

    /// The concat list that names the files at `paths`, one line each,
    /// sorted by name, so that numbered segments are joined in order.
    pub fn merge_list_text(paths: &Vec<String>) -> (r: String)
        ensures
            r@ == merge_text_of(sorted_names(string_views(paths@))),
    {
        let sorted = sort_by_name(paths);
        let mut text = String::new();
        let n = sorted.len();
        for i in 0..n
            invariant
                n == sorted.len(),
                text@ == merge_text_of(string_views(sorted@).take(i as int)),
        {
            let ghost done = string_views(sorted@).take(i as int);
            text.append("file '");
            text.append(sorted[i].as_str());
            text.append("'\r\n");
            assert(string_views(sorted@).take(i + 1).drop_last() =~= done);
            assert(text@ =~= merge_text_of(done) + merge_line_of(sorted[i as int]@));
        }
        assert(string_views(sorted@).take(n as int) =~= string_views(sorted@));
        text
    }

    /// The arguments FFmpeg is run with to write this encoder's video to
    /// `{output_file}.avi`.
    pub fn ffmpeg_args(&self, output_file: &str) -> (r: Vec<String>)
        ensures
            string_views(r@) == ffmpeg_args_of(self.merge_file@, output_file@),
    {
        let mut output = String::from_str(output_file);
        output.append(".avi");
        let mut args: Vec<String> = Vec::new();
        args.push(String::from_str("-y"));
        args.push(String::from_str("-hide_banner"));
        args.push(String::from_str("-f"));
        args.push(String::from_str("concat"));
        args.push(String::from_str("-safe"));
        args.push(String::from_str("0"));
        args.push(String::from_str("-i"));
        args.push(self.merge_file.clone());
        args.push(String::from_str("-c:v"));
        args.push(String::from_str("ffv1"));
        args.push(String::from_str("-level"));
        args.push(String::from_str("3"));
        args.push(String::from_str("-context"));
        args.push(String::from_str("1"));
        args.push(String::from_str("-c:a"));
        args.push(String::from_str("pcm_s16le"));
        args.push(output);
        assert(string_views(args@) =~= ffmpeg_args_of(self.merge_file@, output_file@));
        args
    }
}

/// The files of the first `n` segments written into `dir`, in segment order.
pub open spec fn segment_paths(dir: Seq<char>, n: nat) -> Seq<Seq<char>> {
    Seq::new(n, |i: int| segment_path_of(dir, i as nat))
}

/// When a directory holds exactly the files of the first `n` segments, in
/// whatever order it lists them, the concat list joins the segments in
/// stream order.
pub proof fn lemma_segments_merged_in_order(dir: Seq<char>, n: nat, listing: Seq<Seq<char>>)
    requires
        n <= 10_000_000_000,
        listing.to_multiset() == segment_paths(dir, n).to_multiset(),
    ensures
        merge_text_of(sorted_names(listing)) == merge_text_of(segment_paths(dir, n)),
{
    let p = segment_paths(dir, n);
    assert forall|i: int, j: int| 0 <= i < j < p.len() implies #[trigger] by_name()(p[i], p[j]) by {
        lemma_segment_paths_ordered(dir, i as nat, j as nat);
        crate::order::lemma_by_name_total_ordering();
        if crate::order::name_less(p[j], p[i]) {
            crate::order::lemma_name_less_asymmetric(p[i], p[j]);
        }
    }
    assert(sorted_by(p, by_name()));
    lemma_sorted_names_unique(p, listing);
}

/// The concat list of no file is empty.
pub proof fn lemma_merge_text_empty()
    ensures
        merge_text_of(Seq::<Seq<char>>::empty()).len() == 0,
{
}

/// Each path adds exactly one line, `file '{path}'` and CR LF, after the
/// lines of the paths before it.
pub proof fn lemma_merge_text_push(paths: Seq<Seq<char>>, path: Seq<char>)
    ensures
        merge_text_of(paths.push(path)) == merge_text_of(paths) + seq!['f', 'i', 'l', 'e', ' ', '\'']
            + path + seq!['\'', '\r', '\n'],
{
    reveal_strlit("file '");
    reveal_strlit("'\r\n");
    assert(paths.push(path).drop_last() =~= paths);
    assert("file '"@ =~= seq!['f', 'i', 'l', 'e', ' ', '\'']);
    assert("'\r\n"@ =~= seq!['\'', '\r', '\n']);
    assert(merge_text_of(paths.push(path)) =~= merge_text_of(paths) + seq![
        'f',
        'i',
        'l',
        'e',
        ' ',
        '\'',
    ] + path + seq!['\'', '\r', '\n']);
}

/// The concat list is as long as its lines: nine characters besides each
/// path, so no path is left out.
pub proof fn lemma_merge_text_len(paths: Seq<Seq<char>>)
    ensures
        merge_text_of(paths).len() == 9 * paths.len() + paths.fold_left(
            0int,
            |acc: int, p: Seq<char>| acc + p.len(),
        ),
    decreases paths.len(),
{
    if paths.len() > 0 {
        lemma_merge_text_len(paths.drop_last());
        lemma_merge_text_push(paths.drop_last(), paths.last());
        assert(paths.drop_last().push(paths.last()) =~= paths);
    }
}

/// The FFmpeg arguments read the concat list at `merge_file` and write the
/// whole requested name followed by `.avi`.
pub proof fn lemma_ffmpeg_args_output(merge_file: Seq<char>, output_file: Seq<char>)
    ensures
        ffmpeg_args_of(merge_file, output_file).len() == 17,
        ffmpeg_args_of(merge_file, output_file)[6] == seq!['-', 'i'],
        ffmpeg_args_of(merge_file, output_file)[7] == merge_file,
        ffmpeg_args_of(merge_file, output_file)[16].len() == output_file.len() + 4,
        ffmpeg_args_of(merge_file, output_file)[16].take(output_file.len() as int) == output_file,
        ffmpeg_args_of(merge_file, output_file)[16].skip(output_file.len() as int) == seq![
            '.',
            'a',
            'v',
            'i',
        ],
{
    reveal_strlit(".avi");
    reveal_strlit("-i");
    let out = ffmpeg_args_of(merge_file, output_file)[16];
    assert(out.take(output_file.len() as int) =~= output_file);
    assert(out.skip(output_file.len() as int) =~= seq!['.', 'a', 'v', 'i']);
    assert("-i"@ =~= seq!['-', 'i']);
}

} // verus!
