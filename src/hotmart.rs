//! Playlist data and the playlist parser: variants of a master playlist,
//! their resolution score, and the segments of a media playlist.
use vstd::prelude::*;
use crate::text::{
    lemma_lines_append, chars_of, contains, copy_range, find, has_prefix, last_index_of, lines, lines_of,
    occurs_at, parse_number, parse_usize, rfind, split_chars, split_on, starts_with, string_of,
    views,
};
use crate::decrypt::{base64_block, hex_block, key_ok, Decrypter, KeyError};

verus! {

/// A variant of a master playlist: its metadata line and its URL line.
pub open spec fn is_variant_line(l: Seq<char>) -> bool {
    contains(l, "RESOLUTION"@)
}

/// The (metadata, URL) pairs of a master playlist's lines, in file order: a
/// metadata line takes the line right after it as its URL.
pub open spec fn variants(ls: Seq<Seq<char>>) -> Seq<(Seq<char>, Seq<char>)>
    decreases ls.len(),
{
    if ls.len() == 0 {
        seq![]
    } else if is_variant_line(ls[0]) {
        if ls.len() >= 2 {
            seq![(ls[0], ls[1])] + variants(ls.skip(2))
        } else {
            seq![]
        }
    } else {
        variants(ls.skip(1))
    }
}

/// The metadata line left without a URL line at the end, if any.
pub open spec fn dangling(ls: Seq<Seq<char>>) -> Option<Seq<char>>
    decreases ls.len(),
{
    if ls.len() == 0 {
        None
    } else if is_variant_line(ls[0]) {
        if ls.len() >= 2 {
            dangling(ls.skip(2))
        } else {
            Some(ls[0])
        }
    } else {
        dangling(ls.skip(1))
    }
}

/// A variant metadata line at the end of a master playlist, with no URL
/// line after it, is dropped and reported; the variants before it are all
/// kept.
pub proof fn lemma_trailing_variant_dropped(ls: Seq<Seq<char>>, last: Seq<char>)
    requires
        dangling(ls) is None,
        is_variant_line(last),
    ensures
        variants(ls.push(last)) == variants(ls),
        dangling(ls.push(last)) == Some(last),
    decreases ls.len(),
{
    let all = ls.push(last);
    if ls.len() == 0 {
        assert(all =~= seq![last]);
    } else if is_variant_line(ls[0]) {
        assert(ls.len() >= 2);
        assert(all.skip(2) =~= ls.skip(2).push(last));
        lemma_trailing_variant_dropped(ls.skip(2), last);
    } else {
        assert(all.skip(1) =~= ls.skip(1).push(last));
        lemma_trailing_variant_dropped(ls.skip(1), last);
    }
}

/// The same law on playlist text: a master playlist `t`, whose variants all
/// have their URL lines and whose text ends in neither a line break nor a
/// carriage return, followed by a line break and a variant metadata line,
/// gives the variants of `t` and reports that last line as dropped.
pub proof fn lemma_trailing_variant_text(t: Seq<char>, last: Seq<char>)
    requires
        t.len() > 0,
        t.last() != '\n',
        t.last() != '\r',
        forall|i: int| 0 <= i < last.len() ==> last[i] != '\n',
        is_variant_line(last),
        dangling(lines_of(t)) is None,
    ensures
        variants(lines_of(t + seq!['\n'] + last)) == variants(lines_of(t)),
        dangling(lines_of(t + seq!['\n'] + last)) == Some(last),
{
    let i = choose|i: int| occurs_at(last, "RESOLUTION"@, i);
    reveal_strlit("RESOLUTION");
    assert(last.len() > 0);
    lemma_lines_append(t, last);
    lemma_trailing_variant_dropped(lines_of(t), last);
}

pub open spec fn pair_views(v: Seq<(String, String)>) -> Seq<(Seq<char>, Seq<char>)> {
    v.map_values(|p: (String, String)| (p.0@, p.1@))
}

pub open spec fn text_views(v: Seq<String>) -> Seq<Seq<char>> {
    v.map_values(|s: String| s@)
}

/// The numbers among the pieces, in order, as `filter_map(parse)` keeps them.
pub open spec fn numbers(pieces: Seq<Seq<char>>) -> Seq<nat>
    decreases pieces.len(),
{
    if pieces.len() == 0 {
        seq![]
    } else {
        match parse_usize(pieces.last()) {
            Some(v) => numbers(pieces.drop_last()).push(v),
            None => numbers(pieces.drop_last()),
        }
    }
}

/// The score of a variant line: width times height, read as `WxH` after the
/// last `'='`; 0 where there is no such pair.
pub open spec fn resolution_score(info: Seq<char>) -> nat {
    let e = last_index_of(info, '=');
    if e < 0 {
        0
    } else {
        let nums = numbers(split_on(info.skip(e + 1), 'x'));
        if nums.len() >= 2 {
            nums[0] * nums[1]
        } else {
            0
        }
    }
}

/// The text after the last `'='` of a variant line, or `UNKNOWN`.
pub open spec fn resolution_text(info: Seq<char>) -> Seq<char> {
    let e = last_index_of(info, '=');
    if e < 0 {
        "UNKNOWN"@
    } else {
        info.skip(e + 1)
    }
}

/// Whether variant `i` has the greatest score, and no earlier one has it.
pub open spec fn is_first_max(vs: Seq<(Seq<char>, Seq<char>)>, i: int) -> bool {
    &&& 0 <= i < vs.len()
    &&& forall|j: int| 0 <= j < vs.len() ==> resolution_score(vs[j].0) <= resolution_score(vs[i].0)
    &&& forall|j: int| 0 <= j < i ==> resolution_score(vs[j].0) < resolution_score(vs[i].0)
}

/// Whether variant `i` is the first whose metadata line contains `res`.
pub open spec fn is_first_match(vs: Seq<(Seq<char>, Seq<char>)>, res: Seq<char>, i: int) -> bool {
    &&& 0 <= i < vs.len()
    &&& contains(vs[i].0, res)
    &&& forall|j: int| 0 <= j < i ==> !contains(vs[j].0, res)
}

/// The score of a variant line, as `resolution_score` states it.
fn score_of(info: &Vec<char>) -> (r: u128)
    ensures
        r == resolution_score(info@),
{
    let e = match rfind(info, '=') {
        Some(e) => e,
        None => return 0,
    };
    let res = copy_range(info, e + 1, info.len());
    assert(res@ =~= info@.skip(e + 1));
    let pieces = split_chars(&res, 'x');
    let ghost ps = split_on(res@, 'x');
    let mut first: Option<usize> = None;
    let mut second: Option<usize> = None;
    let mut i: usize = 0;
    while i < pieces.len()
        invariant
            0 <= i <= pieces.len(),
            views(pieces@) == ps,
            first is None ==> numbers(ps.take(i as int)).len() == 0,
            first matches Some(w) ==> numbers(ps.take(i as int)).len() >= 1 && numbers(
                ps.take(i as int),
            )[0] == w,
            second is Some ==> first is Some,
            second is None ==> numbers(ps.take(i as int)).len() <= 1,
            second matches Some(h) ==> numbers(ps.take(i as int)).len() >= 2 && numbers(
                ps.take(i as int),
            )[1] == h,
        decreases pieces.len() - i,
    {
        assert(ps.take(i + 1).drop_last() =~= ps.take(i as int));
        assert(ps.take(i + 1).last() == pieces[i as int]@);
        let n = parse_number(&pieces[i]);
        if let Some(v) = n {
            if first.is_none() {
                first = Some(v);
            } else if second.is_none() {
                second = Some(v);
            }
        }
        i += 1;
    }
    assert(ps.take(pieces.len() as int) =~= ps);
    match (first, second) {
        (Some(w), Some(h)) => {
            assert(w as u128 * h as u128 <= u64::MAX as u128 * u64::MAX as u128) by (nonlinear_arith)
                requires
                    w <= u64::MAX,
                    h <= u64::MAX,
            ;
            w as u128 * h as u128
        },
        _ => 0,
    }
}

/// The score of a variant's metadata line: width times height of the `WxH`
/// after its last `'='`, and 0 where there is none.
pub fn resolution(info: &str) -> (r: u128)
    ensures
        r == resolution_score(info@),
{
    let chars = chars_of(info);
    score_of(&chars)
}

/// Why no variant could be chosen.
#[derive(Clone, Copy, Debug, PartialEq, Eq, Structural)]
pub enum ResolveError {
    /// The master playlist lists no variant.
    NoVariant,
    /// No variant's metadata line contains the requested resolution.
    NoMatch,
}

/// A chosen variant: the URL of its media playlist and its metadata line.
pub struct Playlist {
    url: String,
    info: String,
}

impl View for Playlist {
    type V = (Seq<char>, Seq<char>);

    closed spec fn view(&self) -> (Seq<char>, Seq<char>) {
        (self.url@, self.info@)
    }
}

/// The playlist of a variant entry, URL first.
pub open spec fn playlist_of(e: (Seq<char>, Seq<char>)) -> (Seq<char>, Seq<char>) {
    (e.1, e.0)
}

impl Playlist {
    pub fn url(&self) -> (r: &str)
        ensures
            r@ == self@.0,
    {
        self.url.as_str()
    }

    pub fn info(&self) -> (r: &str)
        ensures
            r@ == self@.1,
    {
        self.info.as_str()
    }

    /// The resolution written after the last `'='` of the metadata line.
    pub fn resolution(&self) -> (r: String)
        ensures
            r@ == resolution_text(self@.1),
    {
        let info = chars_of(self.info.as_str());
        match rfind(&info, '=') {
            Some(i) => {
                let res = copy_range(&info, i + 1, info.len());
                assert(res@ =~= info@.skip(i + 1));
                string_of(res.as_slice())
            },
            None => String::from_str("UNKNOWN"),
        }
    }

    /// The variant entries of a master playlist, and the metadata line that
    /// was dropped for want of a URL line after it.
    pub fn get_playlists(text: &str) -> (r: (Vec<(String, String)>, Option<String>))
        ensures
            pair_views(r.0@) == variants(lines_of(text@)),
            r.1 matches Some(d) ==> dangling(lines_of(text@)) == Some(d@),
            r.1 is None ==> dangling(lines_of(text@)) is None,
    {
        let ls = lines(text);
        let ghost all = views(ls@);
        let marker = chars_of("RESOLUTION");
        let mut ans: Vec<(String, String)> = Vec::new();
        let mut i: usize = 0;
        assert(all.skip(0) =~= all);
        while i < ls.len()
            invariant
                0 <= i <= ls.len(),
                all == views(ls@),
                all == lines_of(text@),
                marker@ == "RESOLUTION"@,
                pair_views(ans@) + variants(all.skip(i as int)) == variants(all),
                dangling(all.skip(i as int)) == dangling(all),
            decreases ls.len() - i,
        {
            let ghost rest = all.skip(i as int);
            assert(rest[0] == ls[i as int]@);
            if find(&ls[i], &marker).is_some() {
                if i + 1 < ls.len() {
                    let info = string_of(ls[i].as_slice());
                    let url = string_of(ls[i + 1].as_slice());
                    assert(rest.skip(2) =~= all.skip(i + 2));
                    assert(rest[1] == ls[i + 1]@);
                    let ghost before = pair_views(ans@);
                    ans.push((info, url));
                    assert(pair_views(ans@) =~= before.push((rest[0], rest[1])));
                    assert(pair_views(ans@) + variants(all.skip(i + 2)) =~= before + variants(rest));
                    i += 2;
                } else {
                    assert(pair_views(ans@) =~= pair_views(ans@) + variants(rest));
                    return (ans, Some(string_of(ls[i].as_slice())));
                }
            } else {
                assert(rest.skip(1) =~= all.skip(i + 1));
                i += 1;
            }
        }
        assert(all.skip(i as int).len() == 0);
        assert(pair_views(ans@) =~= pair_views(ans@) + variants(all.skip(i as int)));
        (ans, None)
    }

    /// The variant with the greatest resolution score; the first one listed
    /// among equals.
    pub fn get_max(text: &str) -> (r: Result<Playlist, ResolveError>)
        ensures
            r is Ok <==> variants(lines_of(text@)).len() > 0,
            r matches Err(e) ==> e == ResolveError::NoVariant,
            r matches Ok(p) ==> exists|i: int|
                #[trigger] is_first_max(variants(lines_of(text@)), i) && p@ == playlist_of(
                    variants(lines_of(text@))[i],
                ),
    {
        let (entries, _) = Self::get_playlists(text);
        let ghost vs = variants(lines_of(text@));
        if entries.len() == 0 {
            return Err(ResolveError::NoVariant);
        }
        assert(pair_views(entries@)[0] == vs[0]);
        let first = chars_of(entries[0].0.as_str());
        let mut best: usize = 0;
        let mut best_score: u128 = score_of(&first);
        let mut j: usize = 1;
        while j < entries.len()
            invariant
                1 <= j <= entries.len(),
                pair_views(entries@) == vs,
                vs == variants(lines_of(text@)),
                0 <= best < j,
                best_score == resolution_score(vs[best as int].0),
                forall|k: int| 0 <= k < j ==> resolution_score(vs[k].0) <= best_score,
                forall|k: int| 0 <= k < best ==> resolution_score(vs[k].0) < best_score,
            decreases entries.len() - j,
        {
            assert(pair_views(entries@)[j as int] == vs[j as int]);
            let line = chars_of(entries[j].0.as_str());
            let score = score_of(&line);
            if score > best_score {
                best = j;
                best_score = score;
            }
            j += 1;
        }
        assert(is_first_max(vs, best as int));
        assert(pair_views(entries@)[best as int] == vs[best as int]);
        let info = entries[best].0.clone();
        let url = entries[best].1.clone();
        Ok(Playlist { url, info })
    }

    /// The first variant whose metadata line contains `resolution`.
    pub fn get(text: &str, resolution: &str) -> (r: Result<Playlist, ResolveError>)
        ensures
            r is Err <==> forall|i: int|
                0 <= i < variants(lines_of(text@)).len() ==> !contains(
                    #[trigger] variants(lines_of(text@))[i].0,
                    resolution@,
                ),
            r matches Err(e) ==> e == ResolveError::NoMatch,
            r matches Ok(p) ==> exists|i: int|
                #[trigger] is_first_match(variants(lines_of(text@)), resolution@, i) && p@
                    == playlist_of(variants(lines_of(text@))[i]),
    {
        let (entries, _) = Self::get_playlists(text);
        let ghost vs = variants(lines_of(text@));
        let wanted = chars_of(resolution);
        let mut j: usize = 0;
        while j < entries.len()
            invariant
                0 <= j <= entries.len(),
                pair_views(entries@) == vs,
                vs == variants(lines_of(text@)),
                wanted@ == resolution@,
                forall|k: int| 0 <= k < j ==> !contains(#[trigger] vs[k].0, resolution@),
            decreases entries.len() - j,
        {
            assert(pair_views(entries@)[j as int] == vs[j as int]);
            let line = chars_of(entries[j].0.as_str());
            if find(&line, &wanted).is_some() {
                assert(is_first_match(vs, resolution@, j as int));
                assert(contains(vs[j as int].0, resolution@));
                let info = entries[j].0.clone();
                let url = entries[j].1.clone();
                let p = Playlist { url, info };
                assert(p@ == playlist_of(vs[j as int]));
                return Ok(p);
            }
            j += 1;
        }
        Err(ResolveError::NoMatch)
    }

    /// Every variant of a master playlist, in file order.
    pub fn get_all(text: &str) -> (r: Vec<Playlist>)
        ensures
            r.len() == variants(lines_of(text@)).len(),
            forall|i: int|
                0 <= i < r.len() ==> #[trigger] r[i]@ == playlist_of(variants(lines_of(text@))[i]),
    {
        let (entries, _) = Self::get_playlists(text);
        let ghost vs = variants(lines_of(text@));
        let mut r: Vec<Playlist> = Vec::new();
        let mut j: usize = 0;
        while j < entries.len()
            invariant
                0 <= j <= entries.len(),
                pair_views(entries@) == vs,
                vs == variants(lines_of(text@)),
                r.len() == j,
                forall|i: int| 0 <= i < j ==> #[trigger] r[i]@ == playlist_of(vs[i]),
            decreases entries.len() - j,
        {
            assert(pair_views(entries@)[j as int] == vs[j as int]);
            let info = entries[j].0.clone();
        let url = entries[j].1.clone();
            r.push(Playlist { url, info });
            j += 1;
        }
        r
    }
}

/// A segment of a media playlist: its metadata line and its URL.
pub struct Segment {
    pub info: String,
    pub url: String,
}

impl View for Segment {
    type V = (Seq<char>, Seq<char>);

    open spec fn view(&self) -> (Seq<char>, Seq<char>) {
        (self.info@, self.url@)
    }
}

pub open spec fn segment_views(v: Seq<Segment>) -> Seq<(Seq<char>, Seq<char>)> {
    v.map_values(|s: Segment| s@)
}

/// Where the scan of a media playlist stands.
pub enum Phase {
    /// Before the first segment.
    Preamble,
    /// A segment's metadata line was read; its URL comes next.
    AwaitUrl(Seq<char>),
    /// Between segments.
    Between,
    /// The end-of-list tag was read.
    Done,
}

/// What the scan of a media playlist has collected so far.
pub struct Scan {
    pub phase: Phase,
    pub info: Seq<Seq<char>>,
    pub segments: Seq<(Seq<char>, Seq<char>)>,
    pub key: Option<Seq<char>>,
}

pub open spec fn segment_tag() -> Seq<char> {
    "#EXTINF"@
}

pub open spec fn key_tag() -> Seq<char> {
    "#EXT-X-KEY"@
}

pub open spec fn end_tag() -> Seq<char> {
    "#EXT-X-ENDLIST"@
}

/// One line of the scan. Outside a segment a segment tag opens a segment, a
/// key tag is kept (the last one wins) and any other line is metadata; a
/// segment's next line is its URL; once a segment has been read, the end tag
/// stops the scan.
pub open spec fn step(s: Scan, line: Seq<char>) -> Scan {
    match s.phase {
        Phase::Preamble => if has_prefix(line, segment_tag()) {
            Scan { phase: Phase::AwaitUrl(line), ..s }
        } else if has_prefix(line, key_tag()) {
            Scan { key: Some(line), ..s }
        } else {
            Scan { info: s.info.push(line), ..s }
        },
        Phase::AwaitUrl(inf) => Scan {
            phase: Phase::Between,
            segments: s.segments.push((inf, line)),
            ..s
        },
        Phase::Between => if has_prefix(line, segment_tag()) {
            Scan { phase: Phase::AwaitUrl(line), ..s }
        } else if has_prefix(line, end_tag()) {
            Scan { phase: Phase::Done, ..s }
        } else if has_prefix(line, key_tag()) {
            Scan { key: Some(line), ..s }
        } else {
            Scan { info: s.info.push(line), ..s }
        },
        Phase::Done => s,
    }
}

/// The scan of a whole media playlist, line by line from the first.
pub open spec fn scan(ls: Seq<Seq<char>>) -> Scan
    decreases ls.len(),
{
    if ls.len() == 0 {
        Scan { phase: Phase::Preamble, info: seq![], segments: seq![], key: None }
    } else {
        step(scan(ls.drop_last()), ls.last())
    }
}

/// A piece of a media playlist: one line outside the segments, or a
/// segment's metadata line and URL line.
pub enum Item {
    Line(Seq<char>),
    Seg(Seq<char>, Seq<char>),
}

/// Whether an item is well formed for a playlist before its end tag: a
/// lone line is neither a segment tag nor the end tag, and a segment's
/// metadata line carries the segment tag.
pub open spec fn item_ok(it: Item) -> bool {
    match it {
        Item::Line(l) => !has_prefix(l, segment_tag()) && !has_prefix(l, end_tag()),
        Item::Seg(a, _) => has_prefix(a, segment_tag()),
    }
}

/// The lines of the items, in order.
pub open spec fn flatten(items: Seq<Item>) -> Seq<Seq<char>>
    decreases items.len(),
{
    if items.len() == 0 {
        seq![]
    } else {
        match items.last() {
            Item::Line(l) => flatten(items.drop_last()).push(l),
            Item::Seg(a, b) => flatten(items.drop_last()).push(a).push(b),
        }
    }
}

/// The segments among the items, in order.
pub open spec fn item_segments(items: Seq<Item>) -> Seq<(Seq<char>, Seq<char>)>
    decreases items.len(),
{
    if items.len() == 0 {
        seq![]
    } else {
        match items.last() {
            Item::Line(_) => item_segments(items.drop_last()),
            Item::Seg(a, b) => item_segments(items.drop_last()).push((a, b)),
        }
    }
}

/// The lone lines that are not key lines, in order.
pub open spec fn metadata_lines(items: Seq<Item>) -> Seq<Seq<char>>
    decreases items.len(),
{
    if items.len() == 0 {
        seq![]
    } else {
        match items.last() {
            Item::Line(l) => if has_prefix(l, key_tag()) {
                metadata_lines(items.drop_last())
            } else {
                metadata_lines(items.drop_last()).push(l)
            },
            Item::Seg(_, _) => metadata_lines(items.drop_last()),
        }
    }
}

/// The last lone key line.
pub open spec fn last_key(items: Seq<Item>) -> Option<Seq<char>>
    decreases items.len(),
{
    if items.len() == 0 {
        None
    } else {
        match items.last() {
            Item::Line(l) => if has_prefix(l, key_tag()) {
                Some(l)
            } else {
                last_key(items.drop_last())
            },
            Item::Seg(_, _) => last_key(items.drop_last()),
        }
    }
}

/// Whether item `i` is a lone key line.
pub open spec fn is_key_item(items: Seq<Item>, i: int) -> bool {
    items[i] matches Item::Line(l) && has_prefix(l, key_tag())
}

proof fn lemma_segment_tag_not_end(l: Seq<char>)
    requires
        has_prefix(l, segment_tag()),
    ensures
        !has_prefix(l, end_tag()),
{
    reveal_strlit("#EXTINF");
    reveal_strlit("#EXT-X-ENDLIST");
    assert(l.subrange(0, 7)[4] == 'I');
    if has_prefix(l, end_tag()) {
        assert(l.subrange(0, 14)[4] == '-');
    }
}

proof fn lemma_last_key_none(items: Seq<Item>)
    ensures
        last_key(items) is None <==> forall|i: int|
            0 <= i < items.len() ==> !is_key_item(items, i),
    decreases items.len(),
{
    if items.len() > 0 {
        let rest = items.drop_last();
        lemma_last_key_none(rest);
        assert forall|i: int| 0 <= i < rest.len() implies is_key_item(rest, i) == is_key_item(
            items,
            i,
        ) by {
            assert(rest[i] == items[i]);
        }
        if is_key_item(items, items.len() - 1) {
            assert(last_key(items) is Some);
        } else {
            assert(last_key(items) == last_key(rest));
        }
    }
}

/// A media playlist made, before its end tag, of lone lines and segment
/// (metadata, URL) line pairs, where the lone lines are no segment tag and
/// every segment's metadata line carries it: the scan finds exactly those
/// segments in file order, keeps the lone lines that are not key lines in
/// order as metadata and the last key line as the key, and finds no key when
/// no lone line is a key line.
pub proof fn lemma_media_scan(items: Seq<Item>)
    requires
        forall|i: int| 0 <= i < items.len() ==> item_ok(#[trigger] items[i]),
    ensures
        scan(flatten(items)).segments == item_segments(items),
        scan(flatten(items)).info == metadata_lines(items),
        scan(flatten(items)).key == last_key(items),
        scan(flatten(items)).key is None <==> forall|i: int|
            0 <= i < items.len() ==> !is_key_item(items, i),
        scan(flatten(items)).phase == (if item_segments(items).len() == 0 {
            Phase::Preamble
        } else {
            Phase::Between
        }),
    decreases items.len(),
{
    lemma_last_key_none(items);
    if items.len() > 0 {
        let rest = items.drop_last();
        assert forall|i: int| 0 <= i < rest.len() implies item_ok(#[trigger] rest[i]) by {
            assert(rest[i] == items[i]);
        }
        lemma_media_scan(rest);
        let base = flatten(rest);
        assert(item_ok(items[items.len() - 1]));
        match items.last() {
            Item::Line(l) => {
                assert(flatten(items) == base.push(l));
                assert(base.push(l).drop_last() =~= base);
                assert(scan(base.push(l)) == step(scan(base), l));
            },
            Item::Seg(a, b) => {
                lemma_segment_tag_not_end(a);
                let ls = base.push(a).push(b);
                assert(flatten(items) == ls);
                assert(ls.drop_last() =~= base.push(a));
                assert(base.push(a).drop_last() =~= base);
                assert(scan(ls) == step(scan(base.push(a)), b));
                assert(scan(base.push(a)) == step(scan(base), a));
            },
        }
    }
}

/// Why a stream session could not be set up.
#[derive(Clone, Copy, Debug, PartialEq, Eq, Structural)]
pub enum SessionError {
    /// The media playlist has no `#EXT-X-KEY` line outside its segments before its end tag.
    MissingKey,
    /// The key line holds no `IV=0x` marker.
    MissingIv,
    /// The key or the IV was refused.
    BadKey(KeyError),
}

/// A parsed media playlist.
pub struct MediaPlaylist {
    /// The lines outside the segments before the end tag, but the key lines.
    pub info: Vec<String>,
    /// The segments, in playback order.
    pub segments: Vec<Segment>,
    /// The encryption-key line.
    pub key: String,
}

enum ScanPhase {
    Preamble,
    AwaitUrl(Vec<char>),
    Between,
    Done,
}

impl ScanPhase {
    spec fn view(&self) -> Phase {
        match self {
            ScanPhase::Preamble => Phase::Preamble,
            ScanPhase::AwaitUrl(v) => Phase::AwaitUrl(v@),
            ScanPhase::Between => Phase::Between,
            ScanPhase::Done => Phase::Done,
        }
    }
}

impl MediaPlaylist {
    /// Parses a media playlist; it must hold a key line.
    pub fn parse(text: &str) -> (r: Result<MediaPlaylist, SessionError>)
        ensures
            r is Err <==> scan(lines_of(text@)).key is None,
            r matches Err(e) ==> e == SessionError::MissingKey,
            r matches Ok(m) ==> {
                &&& text_views(m.info@) == scan(lines_of(text@)).info
                &&& segment_views(m.segments@) == scan(lines_of(text@)).segments
                &&& scan(lines_of(text@)).key == Some(m.key@)
            },
    {
        let ls = lines(text);
        let ghost all = views(ls@);
        let inf_tag = chars_of("#EXTINF");
        let key_tag = chars_of("#EXT-X-KEY");
        let end_tag = chars_of("#EXT-X-ENDLIST");
        let mut phase = ScanPhase::Preamble;
        let mut info: Vec<String> = Vec::new();
        let mut segments: Vec<Segment> = Vec::new();
        let mut key: Option<Vec<char>> = None;
        let mut i: usize = 0;
        assert(all.take(0) =~= Seq::<Seq<char>>::empty());
        while i < ls.len()
            invariant
                0 <= i <= ls.len(),
                all == views(ls@),
                all == lines_of(text@),
                inf_tag@ == segment_tag(),
                key_tag@ == crate::hotmart::key_tag(),
                end_tag@ == crate::hotmart::end_tag(),
                scan(all.take(i as int)).phase == phase.view(),
                scan(all.take(i as int)).info == text_views(info@),
                scan(all.take(i as int)).segments == segment_views(segments@),
                scan(all.take(i as int)).key == (match key {
                    Some(k) => Some(k@),
                    None => None,
                }),
            decreases ls.len() - i,
        {
            let line = &ls[i];
            assert(all.take(i + 1).drop_last() =~= all.take(i as int));
            assert(all.take(i + 1).last() == line@);
            match phase {
                ScanPhase::Preamble => {
                    if starts_with(line, &inf_tag) {
                        phase = ScanPhase::AwaitUrl(copy_range(line, 0, line.len()));
                        assert(line@.subrange(0, line@.len() as int) =~= line@);
                    } else if starts_with(line, &key_tag) {
                        key = Some(copy_range(line, 0, line.len()));
                        assert(line@.subrange(0, line@.len() as int) =~= line@);
                        phase = ScanPhase::Preamble;
                    } else {
                        let ghost before = text_views(info@);
                        info.push(string_of(line.as_slice()));
                        assert(text_views(info@) =~= before.push(line@));
                        phase = ScanPhase::Preamble;
                    }
                },
                ScanPhase::AwaitUrl(inf) => {
                    let ghost before = segment_views(segments@);
                    let seg = Segment { info: string_of(inf.as_slice()), url: string_of(line.as_slice()) };
                    segments.push(seg);
                    assert(segment_views(segments@) =~= before.push((inf@, line@)));
                    phase = ScanPhase::Between;
                },
                ScanPhase::Between => {
                    if starts_with(line, &inf_tag) {
                        phase = ScanPhase::AwaitUrl(copy_range(line, 0, line.len()));
                        assert(line@.subrange(0, line@.len() as int) =~= line@);
                    } else if starts_with(line, &end_tag) {
                        phase = ScanPhase::Done;
                    } else if starts_with(line, &key_tag) {
                        key = Some(copy_range(line, 0, line.len()));
                        assert(line@.subrange(0, line@.len() as int) =~= line@);
                        phase = ScanPhase::Between;
                    } else {
                        let ghost before = text_views(info@);
                        info.push(string_of(line.as_slice()));
                        assert(text_views(info@) =~= before.push(line@));
                        phase = ScanPhase::Between;
                    }
                },
                ScanPhase::Done => {
                    phase = ScanPhase::Done;
                },
            }
            i += 1;
        }
        assert(all.take(ls.len() as int) =~= all);
        match key {
            Some(k) => Ok(MediaPlaylist { info, segments, key: string_of(k.as_slice()) }),
            None => Err(SessionError::MissingKey),
        }
    }
}

pub open spec fn iv_marker() -> Seq<char> {
    "IV=0x"@
}

/// Whether `i` is the first position at which `p` occurs in `s`.
pub open spec fn is_first_at(s: Seq<char>, p: Seq<char>, i: int) -> bool {
    occurs_at(s, p, i) && forall|j: int| 0 <= j < i ==> !occurs_at(s, p, j)
}

/// `s` up to the first occurrence of `p`, or all of `s`.
pub open spec fn before(s: Seq<char>, p: Seq<char>) -> Seq<char> {
    if contains(s, p) {
        s.take(choose|j: int| is_first_at(s, p, j))
    } else {
        s
    }
}

/// The IV text of a key line: what follows its first `IV=0x`, up to the
/// next one if any.
pub open spec fn iv_text(line: Seq<char>) -> Option<Seq<char>> {
    if contains(line, iv_marker()) {
        let i = choose|i: int| is_first_at(line, iv_marker(), i);
        Some(before(line.skip(i + iv_marker().len()), iv_marker()))
    } else {
        None
    }
}

proof fn lemma_first_at_unique(s: Seq<char>, p: Seq<char>, i: int, j: int)
    requires
        is_first_at(s, p, i),
        is_first_at(s, p, j),
    ensures
        i == j,
{
}

/// The IV text of a key line.
fn iv_of(line: &Vec<char>) -> (r: Option<Vec<char>>)
    ensures
        r matches Some(v) ==> iv_text(line@) == Some(v@),
        r is None ==> iv_text(line@) is None,
{
    let marker = chars_of("IV=0x");
    let i = match find(line, &marker) {
        Some(i) => i,
        None => return None,
    };
    assert(is_first_at(line@, iv_marker(), i as int));
    assert(marker@ == iv_marker());
    assert(i + marker@.len() <= line@.len());
    proof {
        let c = choose|c: int| is_first_at(line@, iv_marker(), c);
        lemma_first_at_unique(line@, iv_marker(), i as int, c);
    }
    let mlen = marker.len();
    assert(mlen == marker@.len());
    assert(i + mlen <= line.len());
    let start: usize = i + mlen;
    let rest = copy_range(line, start, line.len());
    assert(rest@ =~= line@.skip(i + iv_marker().len()));
    match find(&rest, &marker) {
        Some(j) => {
            assert(is_first_at(rest@, iv_marker(), j as int));
            proof {
                let c = choose|c: int| is_first_at(rest@, iv_marker(), c);
                lemma_first_at_unique(rest@, iv_marker(), j as int, c);
            }
            let v = copy_range(&rest, 0, j);
            assert(v@ =~= rest@.take(j as int));
            Some(v)
        },
        None => Some(rest),
    }
}

/// The metadata line that marks the written-out segments as plain.
pub open spec fn plain_key_line() -> Seq<char> {
    "#EXT-X-KEY:METHOD=NONE"@
}

/// One video's stream: the decryption engine, the playlist-level info line,
/// the media playlist's metadata lines and its segments.
pub struct Hotmart {
    decrypter: Decrypter,
    playlist: String,
    infos: Vec<String>,
    urls: Vec<Segment>,
}

impl Hotmart {
    pub closed spec fn info_view(&self) -> Seq<Seq<char>> {
        text_views(self.infos@)
    }

    pub closed spec fn segments_view(&self) -> Seq<(Seq<char>, Seq<char>)> {
        segment_views(self.urls@)
    }

    pub closed spec fn playlist_view(&self) -> Seq<char> {
        self.playlist@
    }

    pub closed spec fn decrypter_view(&self) -> Decrypter {
        self.decrypter
    }

    /// Sets up the session of a chosen variant from its media playlist's
    /// text and the base64 key: the IV comes from the playlist's key line.
    pub fn get(playlist: &Playlist, text: &str, key: &str) -> (r: Result<Hotmart, SessionError>)
        ensures
            scan(lines_of(text@)).key is None ==> r == Err::<Hotmart, SessionError>(
                SessionError::MissingKey,
            ),
            scan(lines_of(text@)).key matches Some(k) ==> {
                &&& iv_text(k) is None ==> r == Err::<Hotmart, SessionError>(SessionError::MissingIv)
                &&& iv_text(k) matches Some(iv) ==> {
                    &&& r is Ok <==> key_ok(key@) && hex_block(iv) is Some
                    &&& !key_ok(key@) ==> r == Err::<Hotmart, SessionError>(
                        SessionError::BadKey(KeyError::Key),
                    )
                    &&& key_ok(key@) && hex_block(iv) is None ==> r == Err::<Hotmart, SessionError>(
                        SessionError::BadKey(KeyError::Iv),
                    )
                    &&& r matches Ok(h) ==> Some(h.decrypter_view().iv()) == hex_block(iv)
                }
            },
            r matches Ok(h) ==> {
                &&& h.info_view() == scan(lines_of(text@)).info.push(plain_key_line())
                &&& h.segments_view() == scan(lines_of(text@)).segments
                &&& h.playlist_view() == playlist@.1
                &&& Some(h.decrypter_view().key()) == base64_block(key@)
            },
    {
        let media = match MediaPlaylist::parse(text) {
            Ok(m) => m,
            Err(e) => return Err(e),
        };
        let MediaPlaylist { info, segments, key: key_line } = media;
        let mut infos = info;
        let key_chars = chars_of(key_line.as_str());
        let iv = match iv_of(&key_chars) {
            Some(v) => v,
            None => return Err(SessionError::MissingIv),
        };
        let iv_string = string_of(iv.as_slice());
        let decrypter = match Decrypter::new(key, iv_string.as_str()) {
            Ok(d) => d,
            Err(e) => return Err(SessionError::BadKey(e)),
        };
        let ghost before = text_views(infos@);
        infos.push(String::from_str("#EXT-X-KEY:METHOD=NONE"));
        assert(text_views(infos@) =~= before.push(plain_key_line()));
        Ok(Hotmart { decrypter, playlist: playlist.info.clone(), infos, urls: segments })
    }

    /// The metadata lines of the written-out media playlist.
    pub fn info(&self) -> (r: &[String])
        ensures
            text_views(r@) == self.info_view(),
    {
        self.infos.as_slice()
    }

    /// The segments, in playback order.
    pub fn segments(&self) -> (r: &[Segment])
        ensures
            segment_views(r@) == self.segments_view(),
    {
        self.urls.as_slice()
    }

    /// The variant's metadata line from the master playlist.
    pub fn playlist_info(&self) -> (r: &str)
        ensures
            r@ == self.playlist_view(),
    {
        self.playlist.as_str()
    }

    /// The tag that opens a playlist.
    pub fn start() -> (r: &'static str)
        ensures
            r@ == "#EXTM3U"@,
    {
        "#EXTM3U"
    }

    /// The tag that ends a media playlist.
    pub fn end_list() -> (r: &'static str)
        ensures
            r@ == end_tag(),
    {
        "#EXT-X-ENDLIST"
    }

    /// Decrypts the bytes of one fetched segment.
    pub fn decrypt_segment(&self, data: &[u8]) -> (r: Option<Vec<u8>>)
        requires
            data@.len() + 16 <= i32::MAX,
        ensures
            r matches Some(v) ==> v@ == crate::decrypt::aes_128_cbc_decrypt(
                self.decrypter_view().key(),
                self.decrypter_view().iv(),
                data@,
            ),
    {
        self.decrypter.decrypt(data)
    }
}

} // verus!
