//! The local output layout of one stream: a wrapper playlist, a plain media
//! playlist and one file per segment, named by the segment's index.
use vstd::prelude::*;
use crate::hotmart::{segment_views, text_views, Hotmart};
use crate::text::{decimal, lemma_decimal_injective, push_decimal, string_of};

verus! {

/// The relative path of the file of segment `n`.
pub open spec fn segment_name(n: nat) -> Seq<char> {
    "segs/"@ + decimal(n) + ".ts"@
}

/// Distinct segment indices give distinct file names.
pub proof fn lemma_segment_name_injective(a: nat, b: nat)
    requires
        a != b,
    ensures
        segment_name(a) != segment_name(b),
{
    lemma_decimal_injective(a, b);
    let p = "segs/"@;
    let sa = segment_name(a);
    let sb = segment_name(b);
    if sa == sb {
        let t = ".ts"@;
        assert(sa.len() == p.len() + decimal(a).len() + t.len());
        assert(sb.len() == p.len() + decimal(b).len() + t.len());
        assert(decimal(a).len() == decimal(b).len());
        assert(decimal(a) =~= sa.subrange(p.len() as int, (p.len() + decimal(a).len()) as int));
        assert(decimal(b) =~= sb.subrange(p.len() as int, (p.len() + decimal(b).len()) as int));
    }
}

/// After a run, the segment directory holds one file per segment, named by
/// its index, and the plain media playlist names these files in segment
/// order, each right after that segment's metadata line.
pub proof fn lemma_segment_files(h: Hotmart, i: int, j: int)
    requires
        0 <= i < h.segments_view().len(),
        0 <= j < h.segments_view().len(),
        i != j,
    ensures
        segment_name(i as nat) != segment_name(j as nat),
        segment_lines(h.segments_view()).len() == 2 * h.segments_view().len(),
        segment_lines(h.segments_view())[2 * i] == h.segments_view()[i].0,
        segment_lines(h.segments_view())[2 * i + 1] == segment_name(i as nat),
{
    lemma_segment_name_injective(i as nat, j as nat);
    assert((2 * i) / 2 == i && (2 * i) % 2 == 0);
    assert((2 * i + 1) / 2 == i && (2 * i + 1) % 2 == 1);
}

/// Lines joined by `'\n'`.
pub open spec fn join_lines(ls: Seq<Seq<char>>) -> Seq<char>
    decreases ls.len(),
{
    if ls.len() == 0 {
        seq![]
    } else if ls.len() == 1 {
        ls[0]
    } else {
        join_lines(ls.drop_last()) + "\n"@ + ls.last()
    }
}

/// The segment lines of the written-out media playlist: each segment's
/// metadata line, then the path of its file.
pub open spec fn segment_lines(segs: Seq<(Seq<char>, Seq<char>)>) -> Seq<Seq<char>> {
    Seq::new(
        2 * segs.len(),
        |k: int|
            if k % 2 == 0 {
                segs[k / 2].0
            } else {
                segment_name((k / 2) as nat)
            },
    )
}

/// The text of `playlist.m3u8`.
pub open spec fn playlist_text(h: Hotmart) -> Seq<char> {
    join_lines(seq!["#EXTM3U"@, h.playlist_view(), "video.m3u8"@])
}

/// The text of `video.m3u8`.
pub open spec fn video_text(h: Hotmart) -> Seq<char> {
    join_lines(
        seq![
            join_lines(h.info_view()),
            join_lines(segment_lines(h.segments_view())),
            "#EXT-X-ENDLIST"@,
        ],
    )
}

/// Joins lines with `'\n'`.
pub fn join(lines: &[String]) -> (r: String)
    ensures
        r@ == join_lines(text_views(lines@)),
{
    let ghost ls = text_views(lines@);
    let mut r = String::new();
    let mut i: usize = 0;
    while i < lines.len()
        invariant
            0 <= i <= lines.len(),
            ls == text_views(lines@),
            r@ == join_lines(ls.take(i as int)),
        decreases lines.len() - i,
    {
        assert(ls.take(i + 1).drop_last() =~= ls.take(i as int));
        assert(ls.take(i + 1).last() == lines@[i as int]@);
        if i > 0 {
            r.append("\n");
        }
        r.append(lines[i].as_str());
        proof {
            if i == 0 {
                assert(r@ =~= ls.take(1)[0]);
            }
        }
        i += 1;
    }
    assert(ls.take(lines.len() as int) =~= ls);
    r
}

/// The output layout of one session.
pub struct Hls {
    hotmart: Hotmart,
}

impl Hls {
    pub closed spec fn session(&self) -> Hotmart {
        self.hotmart
    }

    pub fn new(hotmart: Hotmart) -> (r: Hls)
        ensures
            r.session() == hotmart,
    {
        Hls { hotmart }
    }

    pub fn hotmart(&self) -> (r: &Hotmart)
        ensures
            *r == self.session(),
    {
        &self.hotmart
    }

    /// The file name of the wrapper playlist.
    pub fn playlist() -> (r: &'static str)
        ensures
            r@ == "playlist.m3u8"@,
    {
        "playlist.m3u8"
    }

    /// The file name of the media playlist.
    pub fn video() -> (r: &'static str)
        ensures
            r@ == "video.m3u8"@,
    {
        "video.m3u8"
    }

    /// The directory of the segment files.
    pub fn segments() -> (r: &'static str)
        ensures
            r@ == "segs"@,
    {
        "segs"
    }

    /// The relative path of the file of segment `n`.
    pub fn segment(n: usize) -> (r: String)
        ensures
            r@ == segment_name(n as nat),
    {
        let mut digits: Vec<char> = Vec::new();
        push_decimal(n, &mut digits);
        assert(digits@ =~= decimal(n as nat));
        let mut r = String::from_str("segs/");
        r.append(string_of(digits.as_slice()).as_str());
        r.append(".ts");
        r
    }

    /// Each segment's metadata line followed by the path of its file.
    pub fn build_segments(&self) -> (r: Vec<String>)
        ensures
            text_views(r@) == segment_lines(self.session().segments_view()),
    {
        let segments = self.hotmart.segments();
        let ghost segs = self.session().segments_view();
        let mut r: Vec<String> = Vec::new();
        let mut i: usize = 0;
        while i < segments.len()
            invariant
                0 <= i <= segments.len(),
                segment_views(segments@) == segs,
                text_views(r@) =~= segment_lines(segs.take(i as int)),
            decreases segments.len() - i,
        {
            assert(segment_views(segments@)[i as int] == segs[i as int]);
            let ghost before = text_views(r@);
            assert(before.len() == 2 * i);
            r.push(segments[i].info.clone());
            r.push(Self::segment(i));
            let ghost now = segment_lines(segs.take(i + 1));
            let ghost prev = segment_lines(segs.take(i as int));
            assert(segs.len() == segments@.len());
            assert(segs.take(i + 1).len() == i + 1);
            assert(r@.len() == 2 * i + 2);
            assert(text_views(r@).len() == now.len());
            assert forall|k: int| 0 <= k < now.len() implies text_views(r@)[k] == now[k] by {
                if k < 2 * i {
                    assert(before[k] == prev[k]);
                    assert(k / 2 < i);
                } else if k == 2 * i {
                    assert(k / 2 == i && k % 2 == 0);
                } else {
                    assert(k / 2 == i && k % 2 == 1);
                }
            }
            assert(text_views(r@) =~= now);
            i += 1;
        }
        assert(segs.take(segments.len() as int) =~= segs);
        r
    }

    /// The text of the wrapper playlist.
    pub fn playlist_contents(&self) -> (r: String)
        ensures
            r@ == playlist_text(self.session()),
    {
        let mut parts: Vec<String> = Vec::new();
        parts.push(String::from_str(Hotmart::start()));
        parts.push(String::from_str(self.hotmart.playlist_info()));
        parts.push(String::from_str(Self::video()));
        assert(text_views(parts@) =~= seq![
            "#EXTM3U"@,
            self.session().playlist_view(),
            "video.m3u8"@,
        ]);
        join(parts.as_slice())
    }

    /// The text of the plain media playlist.
    pub fn video_contents(&self) -> (r: String)
        ensures
            r@ == video_text(self.session()),
    {
        let info = join(self.hotmart.info());
        let segs = join(self.build_segments().as_slice());
        let mut parts: Vec<String> = Vec::new();
        parts.push(info);
        parts.push(segs);
        parts.push(String::from_str(Hotmart::end_list()));
        assert(text_views(parts@) =~= seq![
            join_lines(self.session().info_view()),
            join_lines(segment_lines(self.session().segments_view())),
            "#EXT-X-ENDLIST"@,
        ]);
        join(parts.as_slice())
    }
}

} // verus!
