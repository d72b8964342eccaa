//! Scene-cut timestamps: reading them from the detector's report or from the
//! cache file, and writing the cache file.
use vstd::prelude::*;
use vstd::string::*;
use crate::command::{texts, Requirements};
use crate::decimal::{parsed_decimal, Decimal};
use crate::error::Error;

verus! {

/// Where the detector's report gives a frame's timestamp.
pub const TIMESTAMP_PATTERN: &'static str = r"best_effort_timestamp_time=(\d+.\d+)|";

/// What `regex` finds for `pattern` in `text`: per match, the text of its
/// first group if that group took part; nothing if the pattern is invalid.
pub uninterp spec fn first_groups(pattern: Seq<char>, text: Seq<char>) -> Option<
    Seq<Option<Seq<char>>>,
>;

/// Views of a list of optional strings.
pub open spec fn opt_texts(v: Seq<Option<String>>) -> Seq<Option<Seq<char>>> {
    v.map_values(
        |o: Option<String>|
            match o {
                Some(s) => Some(s@),
                None => None,
            },
    )
}

/// Relies on `regex::Regex::new` and `Regex::captures_iter`: every
/// successive non-overlapping match of `pattern` in `text`, in order, with the
/// text of capture group 1 where it matched.
#[verifier::external_body]
fn capture_first_groups(pattern: &str, text: &str) -> (r: Option<Vec<Option<String>>>)
    ensures
        r matches Some(v) ==> first_groups(pattern@, text@) == Some(opt_texts(v@)),
        r is None ==> first_groups(pattern@, text@) is None,
{
    let re = regex::Regex::new(pattern).ok()?;
    Some(re.captures_iter(text).map(|c| c.get(1).map(|m| m.as_str().to_string())).collect())
}

/// The pieces joined with a newline between each two.
pub open spec fn joined_lines(pieces: Seq<Seq<char>>) -> Seq<char>
    decreases pieces.len(),
{
    if pieces.len() == 0 {
        seq![]
    } else if pieces.len() == 1 {
        pieces[0]
    } else {
        joined_lines(pieces.drop_last()) + seq!['\n'] + pieces.last()
    }
}

/// Relies on `str::split` with `'\n'`: the pieces between newlines, in order,
/// at least one.
#[verifier::external_body]
fn split_lines(text: &str) -> (r: Vec<String>)
    ensures
        r.len() >= 1,
        joined_lines(texts(r@)) == text@,
        forall|i: int| 0 <= i < r.len() ==> !(#[trigger] r@[i]@).contains('\n'),
{
    text.split('\n').map(|s| s.to_string()).collect()
}

/// The texts of the groups that took part, in order.
pub open spec fn present(gs: Seq<Option<Seq<char>>>) -> Seq<Seq<char>>
    decreases gs.len(),
{
    if gs.len() == 0 {
        seq![]
    } else {
        present(gs.drop_last()) + match gs.last() {
            Some(t) => seq![t],
            None => seq![],
        }
    }
}

/// Whether every text reads as a decimal.
pub open spec fn all_parse(ps: Seq<Seq<char>>) -> bool {
    forall|i: int| 0 <= i < ps.len() ==> parsed_decimal(#[trigger] ps[i]) is Some
}

/// Whether `d` is the number that `rust_decimal` reads from `t`, digit for
/// digit.
pub open spec fn reads_as(d: Decimal, t: Seq<char>) -> bool {
    match parsed_decimal(t) {
        Some((m, s)) => d.wf() && d.spec_mantissa() == m && d.spec_scale() == s,
        None => false,
    }
}

/// Whether `v` holds the numbers that the texts spell, in order.
pub open spec fn parsed_all(ps: Seq<Seq<char>>, v: Seq<Decimal>) -> bool {
    &&& v.len() == ps.len()
    &&& forall|i: int| 0 <= i < v.len() ==> #[trigger] reads_as(v[i], ps[i])
}

/// Whether `t` is the first of the texts that does not read as a decimal.
pub open spec fn first_unparsable(ps: Seq<Seq<char>>, t: Seq<char>) -> bool {
    exists|i: int|
        0 <= i < ps.len() && parsed_decimal(#[trigger] ps[i]) is None && t == ps[i] && forall|k: int|
            0 <= k < i ==> parsed_decimal(#[trigger] ps[k]) is Some
}

/// Reads every text as a decimal, stopping at the first that does not read.
fn parse_all(pieces: &Vec<String>) -> (r: Result<Vec<Decimal>, Error>)
    ensures
        r is Ok <==> all_parse(texts(pieces@)),
        r matches Ok(v) ==> parsed_all(texts(pieces@), v@),
        r is Err ==> (r matches Err(Error::Decimal(t)) && first_unparsable(texts(pieces@), t@)),
{
    let ghost ps = texts(pieces@);
    let mut out: Vec<Decimal> = Vec::new();
    let mut i: usize = 0;
    while i < pieces.len()
        invariant
            0 <= i <= pieces.len(),
            ps == texts(pieces@),
            parsed_all(ps.take(i as int), out@),
            forall|k: int| 0 <= k < i ==> parsed_decimal(#[trigger] ps[k]) is Some,
        decreases pieces.len() - i,
    {
        assert(ps[i as int] == pieces[i as int]@);
        match Decimal::parse(pieces[i].as_str()) {
            Ok(d) => {
                out.push(d);
                proof {
                    assert forall|j: int| 0 <= j < out.len() implies #[trigger] reads_as(
                        out@[j],
                        ps.take(i + 1)[j],
                    ) by {
                        if j < i {
                            assert(ps.take(i as int)[j] == ps.take(i + 1)[j]);
                        } else {
                            assert(ps.take(i + 1)[j] == ps[i as int]);
                        }
                    }
                    assert(out@.len() == ps.take(i + 1).len());
                    assert(parsed_all(ps.take(i + 1), out@));
                }
            },
            Err(e) => {
                assert(first_unparsable(ps, ps[i as int]));
                return Err(e);
            },
        }
        i = i + 1;
    }
    assert(ps.take(i as int) =~= ps);
    Ok(out)
}

/// The numbers in the groups that took part, in order; fails on the first
/// group whose text does not read as a decimal.
pub fn parse_captures(groups: &Vec<Option<String>>) -> (r: Result<Vec<Decimal>, Error>)
    ensures
        r is Ok <==> all_parse(present(opt_texts(groups@))),
        r matches Ok(v) ==> parsed_all(present(opt_texts(groups@)), v@),
        r is Err ==> (r matches Err(Error::Decimal(t)) && first_unparsable(
            present(opt_texts(groups@)),
            t@,
        )),
{
    let ghost gs = opt_texts(groups@);
    let mut found: Vec<String> = Vec::new();
    let mut i: usize = 0;
    while i < groups.len()
        invariant
            0 <= i <= groups.len(),
            gs == opt_texts(groups@),
            texts(found@) == present(gs.take(i as int)),
        decreases groups.len() - i,
    {
        assert(gs.take(i + 1).drop_last() =~= gs.take(i as int));
        match &groups[i] {
            Some(t) => {
                let ghost before = found@;
                found.push(t.clone());
                assert(texts(found@) =~= texts(before) + seq![t@]);
            },
            None => {
                assert(present(gs.take(i + 1)) =~= present(gs.take(i as int)));
            },
        }
        i = i + 1;
    }
    assert(gs.take(i as int) =~= gs);
    parse_all(&found)
}

/// The timestamps in a scene detector's report: the decimal after each
/// `best_effort_timestamp_time=`, in the order of the report.
pub fn parse_timestamps(lines: &str) -> (r: Result<Vec<Decimal>, Error>)
    ensures
        first_groups(TIMESTAMP_PATTERN@, lines@) is None ==> r == Err::<Vec<Decimal>, Error>(
            Error::Pattern,
        ),
        r is Ok <==> (first_groups(TIMESTAMP_PATTERN@, lines@) matches Some(gs) && all_parse(
            present(gs),
        )),
        r matches Ok(v) ==> (first_groups(TIMESTAMP_PATTERN@, lines@) matches Some(gs)
            && parsed_all(present(gs), v@)),
        r matches Err(Error::Decimal(t)) ==> (first_groups(TIMESTAMP_PATTERN@, lines@) matches Some(
            gs,
        ) && first_unparsable(present(gs), t@)),
{
    match capture_first_groups(TIMESTAMP_PATTERN, lines) {
        Some(groups) => parse_captures(&groups),
        None => Err(Error::Pattern),
    }
}

/// The timestamps in the scene cache file: one decimal per line; an empty
/// file holds none. Any line that does not read, an empty one included,
/// fails the whole load.
pub fn parse_scene_cache(text: &str) -> (r: Result<Vec<Decimal>, Error>)
    ensures
        text@.len() == 0 ==> (r matches Ok(v) && v@.len() == 0),
        text@.len() > 0 ==> {
            &&& r is Ok <==> all_parse(lines_of(text@))
            &&& r matches Ok(v) ==> parsed_all(lines_of(text@), v@)
            &&& r is Err ==> (r matches Err(Error::Decimal(t)) && first_unparsable(
                lines_of(text@),
                t@,
            ))
        },
{
    if text.is_empty() {
        return Ok(Vec::new());
    }
    let lines = split_lines(text);
    proof {
        lemma_lines_unique(texts(lines@), text@);
    }
    parse_all(&lines)
}

/// The lines of a text: the pieces between newlines.
pub open spec fn lines_of(text: Seq<char>) -> Seq<Seq<char>> {
    choose|ps: Seq<Seq<char>>| is_lines_of(ps, text)
}

/// Whether `ps` are the lines of `text`.
pub open spec fn is_lines_of(ps: Seq<Seq<char>>, text: Seq<char>) -> bool {
    &&& ps.len() >= 1
    &&& joined_lines(ps) == text
    &&& forall|i: int| 0 <= i < ps.len() ==> !(#[trigger] ps[i]).contains('\n')
}

/// A text has exactly one list of lines.
pub proof fn lemma_lines_unique(ps: Seq<Seq<char>>, text: Seq<char>)
    requires
        is_lines_of(ps, text),
    ensures
        lines_of(text) == ps,
{
    let qs = lines_of(text);
    assert(is_lines_of(qs, text));
    lemma_lines_equal(ps, qs);
}

/// Two lists of newline-free pieces that join to the same text are equal.
pub proof fn lemma_lines_equal(ps: Seq<Seq<char>>, qs: Seq<Seq<char>>)
    requires
        ps.len() >= 1,
        qs.len() >= 1,
        joined_lines(ps) == joined_lines(qs),
        forall|i: int| 0 <= i < ps.len() ==> !(#[trigger] ps[i]).contains('\n'),
        forall|i: int| 0 <= i < qs.len() ==> !(#[trigger] qs[i]).contains('\n'),
    ensures
        ps == qs,
    decreases ps.len() + qs.len(),
{
    if ps.len() == 1 && qs.len() == 1 {
        assert(ps =~= qs);
    } else if ps.len() == 1 {
        lemma_newline_at_join(qs);
        let p = joined_lines(qs.drop_last()).len() as int;
        assert(ps[0][p] == '\n');
        assert(ps[0].contains('\n'));
    } else if qs.len() == 1 {
        lemma_newline_at_join(ps);
        let p = joined_lines(ps.drop_last()).len() as int;
        assert(qs[0][p] == '\n');
        assert(qs[0].contains('\n'));
    } else {
        let a = ps.last();
        let b = qs.last();
        let pa = joined_lines(ps.drop_last());
        let qb = joined_lines(qs.drop_last());
        let t = joined_lines(ps);
        assert(t == pa + seq!['\n'] + a);
        assert(t == qb + seq!['\n'] + b);
        if a.len() < b.len() {
            let p = pa.len() as int;
            assert(t[p] == '\n');
            let j = p - (qb.len() + 1);
            assert(b[j] == t[p]);
            assert(qs[qs.len() - 1].contains('\n'));
        } else if b.len() < a.len() {
            let p = qb.len() as int;
            assert(t[p] == '\n');
            let j = p - (pa.len() + 1);
            assert(a[j] == t[p]);
            assert(ps[ps.len() - 1].contains('\n'));
        } else {
            assert(a =~= t.subrange(t.len() - a.len(), t.len() as int));
            assert(b =~= t.subrange(t.len() - b.len(), t.len() as int));
            assert(pa =~= t.subrange(0, pa.len() as int));
            assert(qb =~= t.subrange(0, qb.len() as int));
            assert forall|i: int| 0 <= i < ps.drop_last().len() implies !(#[trigger] ps.drop_last()[i]).contains('\n') by {
                assert(ps.drop_last()[i] == ps[i]);
            }
            assert forall|i: int| 0 <= i < qs.drop_last().len() implies !(#[trigger] qs.drop_last()[i]).contains('\n') by {
                assert(qs.drop_last()[i] == qs[i]);
            }
            lemma_lines_equal(ps.drop_last(), qs.drop_last());
            assert(ps =~= ps.drop_last().push(a));
            assert(qs =~= qs.drop_last().push(b));
        }
    }
}

/// With two or more pieces, the joined text has a newline right after the
/// join of all but the last.
proof fn lemma_newline_at_join(ps: Seq<Seq<char>>)
    requires
        ps.len() >= 2,
    ensures
        joined_lines(ps)[joined_lines(ps.drop_last()).len() as int] == '\n',
        joined_lines(ps.drop_last()).len() < joined_lines(ps).len(),
{
    let pa = joined_lines(ps.drop_last());
    assert(joined_lines(ps) == pa + seq!['\n'] + ps.last());
    assert((pa + seq!['\n'] + ps.last())[pa.len() as int] == '\n');
}

/// The cache file text for `timestamps`: one decimal per line.
pub fn scene_cache_text(timestamps: &Vec<Decimal>) -> (r: String)
    requires
        forall|i: int| 0 <= i < timestamps.len() ==> #[trigger] timestamps[i].wf(),
    ensures
        r@ == joined_lines(timestamps@.map_values(|d: Decimal| d.text_view())),
{
    let ghost all = timestamps@.map_values(|d: Decimal| d.text_view());
    let mut r = String::new();
    let mut i: usize = 0;
    while i < timestamps.len()
        invariant
            0 <= i <= timestamps.len(),
            all == timestamps@.map_values(|d: Decimal| d.text_view()),
            forall|j: int| 0 <= j < timestamps.len() ==> #[trigger] timestamps[j].wf(),
            r@ == joined_lines(all.take(i as int)),
        decreases timestamps.len() - i,
    {
        let t = timestamps[i].to_text();
        assert(all.take(i + 1).drop_last() =~= all.take(i as int));
        if i > 0 {
            r.append("\n");
        }
        r.append(t.as_str());
        proof {
            reveal_strlit("\n");
            if i == 0 {
                assert(r@ =~= all.take(1)[0]);
            }
        }
        i = i + 1;
    }
    assert(all.take(i as int) =~= all);
    r
}

/// The scene detector's run on `input_file`: report every frame whose scene
/// score exceeds `scene_gt`.
pub fn scene_detection(input_file: &str, scene_gt: &str) -> (r: Requirements)
    ensures
        r.spec_parts() == (
            "ffprobe"@,
            seq![
                "-show_frames"@,
                "-of"@,
                "compact=p=0"@,
                "-f"@,
                "lavfi"@,
                "movie="@ + input_file@ + ",select=gt(scene\\,"@ + scene_gt@ + ")"@,
            ],
            None::<Seq<char>>,
        ),
{
    let mut filter = "movie=".to_string();
    filter.append(input_file);
    filter.append(",select=gt(scene\\,");
    filter.append(scene_gt);
    filter.append(")");
    let args = vec![
        "-show_frames".to_string(),
        "-of".to_string(),
        "compact=p=0".to_string(),
        "-f".to_string(),
        "lavfi".to_string(),
        filter,
    ];
    let r = Requirements { binary: "ffprobe".to_string(), args, current_dir: None };
    assert(texts(r.args@) =~= seq![
        "-show_frames"@,
        "-of"@,
        "compact=p=0"@,
        "-f"@,
        "lavfi"@,
        "movie="@ + input_file@ + ",select=gt(scene\\,"@ + scene_gt@ + ")"@,
    ]);
    r
}

/// The probe's run that reports the duration of `input_file`'s container,
/// in seconds, alone on its line.
pub fn media_duration_probe(input_file: &str) -> (r: Requirements)
    ensures
        r.spec_parts() == (
            "ffprobe"@,
            seq![
                "-v"@,
                "error"@,
                "-show_entries"@,
                "format=duration"@,
                "-of"@,
                "default=noprint_wrappers=1:nokey=1"@,
                input_file@,
            ],
            None::<Seq<char>>,
        ),
{
    let args = vec![
        "-v".to_string(),
        "error".to_string(),
        "-show_entries".to_string(),
        "format=duration".to_string(),
        "-of".to_string(),
        "default=noprint_wrappers=1:nokey=1".to_string(),
        input_file.to_string(),
    ];
    let r = Requirements { binary: "ffprobe".to_string(), args, current_dir: None };
    assert(texts(r.args@) =~= seq![
        "-v"@,
        "error"@,
        "-show_entries"@,
        "format=duration"@,
        "-of"@,
        "default=noprint_wrappers=1:nokey=1"@,
        input_file@,
    ]);
    r
}

/// The media end from the probe's report: the decimal on its first line.
pub fn parse_media_duration(report: &str) -> (r: Result<Decimal, Error>)
    ensures
        r is Ok <==> parsed_decimal(lines_of(report@)[0]) is Some,
        r matches Ok(d) ==> reads_as(d, lines_of(report@)[0]),
        r is Err ==> (r matches Err(Error::Decimal(t)) && t@ == lines_of(report@)[0]),
{
    let lines = split_lines(report);
    proof {
        lemma_lines_unique(texts(lines@), report@);
        assert(texts(lines@)[0] == lines@[0]@);
    }
    Decimal::parse(lines[0].as_str())
}

} // verus!
