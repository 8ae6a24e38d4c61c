use vstd::prelude::*;
use vstd::string::StringExecFns;
use crate::difficulty::{difficulty_of, Difficulty};
use crate::players::{resolve, Players};
use crate::scores::{reduce_scores, reduce_spec, score_views, Score, ScoreV};
use crate::text::{parse_i32, parse_i32_spec, str_starts_with};
use crate::xml::{attr_of, first_child, tagged, views_of_refs, XmlElem, XmlV};

verus! {

/// One difficulty chart of a song, with its reduced score list.
#[derive(Debug)]
pub struct Chart {
    pub difficulty: Difficulty,
    pub scores: Vec<Score>,
}

/// Abstract value of one chart.
pub struct ChartV {
    pub difficulty: Difficulty,
    pub scores: Seq<ScoreV>,
}

impl View for Chart {
    type V = ChartV;

    open spec fn view(&self) -> ChartV {
        ChartV { difficulty: self.difficulty, scores: score_views(self.scores@) }
    }
}

/// The abstract values of a sequence of charts.
pub open spec fn chart_views(s: Seq<Chart>) -> Seq<ChartV> {
    Seq::new(s.len(), |i: int| s[i]@)
}

/// One song retained by the path filter, with its charts in document order.
#[derive(Debug)]
pub struct Song {
    pub name: String,
    pub charts: Vec<Chart>,
}

/// Abstract value of one song.
pub struct SongV {
    pub name: Seq<char>,
    pub charts: Seq<ChartV>,
}

impl View for Song {
    type V = SongV;

    open spec fn view(&self) -> SongV {
        SongV { name: self.name@, charts: chart_views(self.charts@) }
    }
}

/// The abstract values of a sequence of songs.
pub open spec fn song_views(s: Seq<Song>) -> Seq<SongV> {
    Seq::new(s.len(), |i: int| s[i]@)
}

/// A fatal condition of the statistics document.
#[derive(Debug)]
pub enum ExtractError {
    /// A Song element has no Dir attribute.
    MissingDir,
    /// A Steps element has no Difficulty attribute.
    MissingDifficulty,
    /// A Difficulty label outside the closed set; holds the label.
    UnknownDifficulty(String),
    /// A HighScore element has no direct Score child.
    MissingScore,
    /// A Score element has no text.
    MissingScoreText,
    /// Score text that is not an integer fitting an `i32`; holds the text.
    InvalidScore(String),
    /// The document is not well-formed XML; holds the parser's words.
    MalformedXml(String),
}

/// Abstract value of a fatal condition.
pub enum ErrV {
    MissingDir,
    MissingDifficulty,
    UnknownDifficulty(Seq<char>),
    MissingScore,
    MissingScoreText,
    InvalidScore(Seq<char>),
    MalformedXml(Seq<char>),
}

impl View for ExtractError {
    type V = ErrV;

    open spec fn view(&self) -> ErrV {
        match self {
            ExtractError::MissingDir => ErrV::MissingDir,
            ExtractError::MissingDifficulty => ErrV::MissingDifficulty,
            ExtractError::UnknownDifficulty(s) => ErrV::UnknownDifficulty(s@),
            ExtractError::MissingScore => ErrV::MissingScore,
            ExtractError::MissingScoreText => ErrV::MissingScoreText,
            ExtractError::InvalidScore(s) => ErrV::InvalidScore(s@),
            ExtractError::MalformedXml(s) => ErrV::MalformedXml(s@),
        }
    }
}

/// The diagnostic line a fatal condition is reported with.
pub open spec fn err_message(e: ErrV) -> Seq<char> {
    match e {
        ErrV::MissingDir => "a Song element has no Dir attribute"@,
        ErrV::MissingDifficulty => "a Steps element has no Difficulty attribute"@,
        ErrV::UnknownDifficulty(s) => s + " is not supported"@,
        ErrV::MissingScore => "a HighScore element has no Score child"@,
        ErrV::MissingScoreText => "a Score element has no text"@,
        ErrV::InvalidScore(s) => s + " is not a valid score"@,
        ErrV::MalformedXml(s) => s,
    }
}

impl ExtractError {
    /// Renders the diagnostic line for this condition.
    pub fn message(&self) -> (r: String)
        ensures
            r@ == err_message(self@),
    {
        match self {
            ExtractError::MissingDir => "a Song element has no Dir attribute".to_owned(),
            ExtractError::MissingDifficulty => "a Steps element has no Difficulty attribute".to_owned(),
            ExtractError::UnknownDifficulty(s) => s.clone().concat(" is not supported"),
            ExtractError::MissingScore => "a HighScore element has no Score child".to_owned(),
            ExtractError::MissingScoreText => "a Score element has no text".to_owned(),
            ExtractError::InvalidScore(s) => s.clone().concat(" is not a valid score"),
            ExtractError::MalformedXml(s) => s.clone(),
        }
    }
}

/// The path prefix a song's Dir must start with to be retained.
pub open spec fn song_prefix() -> Seq<char> {
    "Songs/stepmania_edit"@
}

/// The configured path prefix, as a string.
pub fn target_song_path_prefix() -> (r: &'static str)
    ensures
        r@ == song_prefix(),
{
    "Songs/stepmania_edit"
}

/// The raw score entries of the HighScore elements `hs[from..]`, in order:
/// one entry per element whose PlayerGuid is present and non-empty, or the
/// first fatal condition among their Score children.
pub open spec fn scores_from(
    hs: Seq<XmlV>,
    from: int,
    ps: Seq<(Seq<char>, Seq<char>)>,
) -> Result<Seq<ScoreV>, ErrV>
    decreases hs.len() - from,
{
    if from < 0 || from >= hs.len() {
        Ok(Seq::empty())
    } else {
        let h = hs[from];
        match first_child(h, "Score"@) {
            None => Err(ErrV::MissingScore),
            Some(sc) => match sc.text {
                None => Err(ErrV::MissingScoreText),
                Some(t) => match parse_i32_spec(t) {
                    None => Err(ErrV::InvalidScore(t)),
                    Some(v) => {
                        let entry = match first_child(h, "PlayerGuid"@) {
                            None => None,
                            Some(pg) => match pg.text {
                                None => None,
                                Some(g) => if g.len() == 0 {
                                    None
                                } else {
                                    Some(ScoreV { score: v, player: resolve(ps, g) })
                                },
                            },
                        };
                        match scores_from(hs, from + 1, ps) {
                            Err(e) => Err(e),
                            Ok(rest) => Ok(
                                match entry {
                                    Some(en) => seq![en] + rest,
                                    None => rest,
                                },
                            ),
                        }
                    },
                },
            },
        }
    }
}

/// The charts of the Steps elements `sts[from..]`, in order, scores reduced,
/// or the first fatal condition among them.
pub open spec fn charts_from(
    sts: Seq<XmlV>,
    from: int,
    ps: Seq<(Seq<char>, Seq<char>)>,
) -> Result<Seq<ChartV>, ErrV>
    decreases sts.len() - from,
{
    if from < 0 || from >= sts.len() {
        Ok(Seq::empty())
    } else {
        let st = sts[from];
        match attr_of(st, "Difficulty"@) {
            None => Err(ErrV::MissingDifficulty),
            Some(lab) => match difficulty_of(lab) {
                None => Err(ErrV::UnknownDifficulty(lab)),
                Some(d) => match scores_from(tagged(st, "HighScore"@), 0, ps) {
                    Err(e) => Err(e),
                    Ok(raw) => match charts_from(sts, from + 1, ps) {
                        Err(e) => Err(e),
                        Ok(rest) => Ok(
                            seq![ChartV { difficulty: d, scores: reduce_spec(raw) }] + rest,
                        ),
                    },
                },
            },
        }
    }
}

/// The songs of the Song elements `ss[from..]` retained by the path filter,
/// in order, or the first fatal condition among them.
pub open spec fn songs_from(
    ss: Seq<XmlV>,
    from: int,
    ps: Seq<(Seq<char>, Seq<char>)>,
) -> Result<Seq<SongV>, ErrV>
    decreases ss.len() - from,
{
    if from < 0 || from >= ss.len() {
        Ok(Seq::empty())
    } else {
        let sg = ss[from];
        match attr_of(sg, "Dir"@) {
            None => Err(ErrV::MissingDir),
            Some(dir) => if !song_prefix().is_prefix_of(dir) {
                songs_from(ss, from + 1, ps)
            } else {
                match charts_from(tagged(sg, "Steps"@), 0, ps) {
                    Err(e) => Err(e),
                    Ok(cs) => match songs_from(ss, from + 1, ps) {
                        Err(e) => Err(e),
                        Ok(rest) => Ok(seq![SongV { name: dir, charts: cs }] + rest),
                    },
                }
            },
        }
    }
}

/// The report extracted from the element tree rooted at `root`: the retained
/// Song descendants in document order, or the first fatal condition.
pub open spec fn report_of(root: XmlV, ps: Seq<(Seq<char>, Seq<char>)>) -> Result<
    Seq<SongV>,
    ErrV,
> {
    songs_from(tagged(root, "Song"@), 0, ps)
}

/// Collects the raw score entries of the HighScore descendants of `steps`.
fn extract_scores(steps: &XmlElem, players: &Players) -> (r: Result<Vec<Score>, ExtractError>)
    ensures
        match r {
            Ok(v) => scores_from(tagged(steps@, "HighScore"@), 0, players@) == Ok::<
                Seq<ScoreV>,
                ErrV,
            >(score_views(v@)),
            Err(e) => scores_from(tagged(steps@, "HighScore"@), 0, players@) == Err::<Seq<ScoreV>, ErrV>(e@),
        },
{
    let hs = steps.descendants_tagged("HighScore");
    let ghost hsv = tagged(steps@, "HighScore"@);
    let m = hs.len();
    let mut raw: Vec<Score> = Vec::new();
    proof {
        assert(score_views(raw@) =~= Seq::<ScoreV>::empty());
    }
    let mut i: usize = 0;
    while i < m
        invariant
            0 <= i <= m,
            m == hs@.len(),
            hsv == views_of_refs(hs@),
            hsv == tagged(steps@, "HighScore"@),
            hsv.len() == m,
            match scores_from(hsv, i as int, players@) {
                Ok(rest) => scores_from(hsv, 0, players@) == Ok::<Seq<ScoreV>, ErrV>(score_views(raw@) + rest),
                Err(er) => scores_from(hsv, 0, players@) == Err::<Seq<ScoreV>, ErrV>(er),
            },
        decreases m - i,
    {
        let h = hs[i];
        proof {
            assert(h@ == hsv[i as int]);
        }
        let sc = match h.child_tagged("Score") {
            Some(sc) => sc,
            None => {
                return Err(ExtractError::MissingScore);
            },
        };
        let t = match &sc.text {
            Some(t) => t,
            None => {
                return Err(ExtractError::MissingScoreText);
            },
        };
        let v = match parse_i32(t.as_str()) {
            Some(v) => v,
            None => {
                return Err(ExtractError::InvalidScore(t.clone()));
            },
        };
        let ghost raw0 = raw@;
        let ghost entry: Option<ScoreV>;
        match h.child_tagged("PlayerGuid") {
            None => {
                proof {
                    entry = None;
                }
            },
            Some(pg) => {
                match &pg.text {
                    None => {
                        proof {
                            entry = None;
                        }
                    },
                    Some(g) => {
                        if g.as_str().is_empty() {
                            proof {
                                entry = None;
                            }
                        } else {
                            let name = crate::players::id_to_player(players, g.as_str());
                            let en = Score { score: v, player: name };
                            proof {
                                entry = Some(en@);
                            }
                            raw.push(en);
                        }
                    },
                }
            },
        }
        proof {
            let snext = scores_from(hsv, i + 1, players@);
            assert(scores_from(hsv, i as int, players@) == (match snext {
                Err(er) => Err(er),
                Ok(rest) => Ok(
                    match entry {
                        Some(en) => seq![en] + rest,
                        None => rest,
                    },
                ),
            }));
            match snext {
                Ok(rest) => {
                    match entry {
                        Some(en) => {
                            assert(score_views(raw@) =~= score_views(raw0).push(en));
                            assert(score_views(raw@) + rest =~= score_views(raw0) + (seq![en]
                                + rest));
                        },
                        None => {
                            assert(raw@ == raw0);
                        },
                    }
                },
                Err(_) => {
                },
            }
        }
        i += 1;
    }
    proof {
        assert(scores_from(hsv, m as int, players@) == Ok::<Seq<ScoreV>, ErrV>(Seq::empty()));
        assert(score_views(raw@) + Seq::<ScoreV>::empty() =~= score_views(raw@));
    }
    Ok(raw)
}

/// Builds the charts of the Steps descendants of `song`, in document order.
fn extract_charts(song: &XmlElem, players: &Players) -> (r: Result<Vec<Chart>, ExtractError>)
    ensures
        match r {
            Ok(v) => charts_from(tagged(song@, "Steps"@), 0, players@) == Ok::<Seq<ChartV>, ErrV>(chart_views(v@)),
            Err(e) => charts_from(tagged(song@, "Steps"@), 0, players@) == Err::<Seq<ChartV>, ErrV>(e@),
        },
{
    let sts = song.descendants_tagged("Steps");
    let ghost stv = tagged(song@, "Steps"@);
    let m = sts.len();
    let mut charts: Vec<Chart> = Vec::new();
    proof {
        assert(chart_views(charts@) =~= Seq::<ChartV>::empty());
    }
    let mut i: usize = 0;
    while i < m
        invariant
            0 <= i <= m,
            m == sts@.len(),
            stv == views_of_refs(sts@),
            stv == tagged(song@, "Steps"@),
            stv.len() == m,
            match charts_from(stv, i as int, players@) {
                Ok(rest) => charts_from(stv, 0, players@) == Ok::<Seq<ChartV>, ErrV>(chart_views(charts@) + rest),
                Err(er) => charts_from(stv, 0, players@) == Err::<Seq<ChartV>, ErrV>(er),
            },
        decreases m - i,
    {
        let st = sts[i];
        proof {
            assert(st@ == stv[i as int]);
        }
        let lab = match st.attribute("Difficulty") {
            Some(lab) => lab,
            None => {
                return Err(ExtractError::MissingDifficulty);
            },
        };
        let d = match Difficulty::from_str(lab.as_str()) {
            Ok(d) => d,
            Err(_) => {
                return Err(ExtractError::UnknownDifficulty(lab.clone()));
            },
        };
        let raw = match extract_scores(st, players) {
            Ok(raw) => raw,
            Err(e) => {
                return Err(e);
            },
        };
        let reduced = reduce_scores(&raw);
        let ghost charts0 = charts@;
        let chart = Chart { difficulty: d, scores: reduced };
        let ghost cv = chart@;
        charts.push(chart);
        proof {
            let cnext = charts_from(stv, i + 1, players@);
            assert(charts_from(stv, i as int, players@) == (match cnext {
                Err(er) => Err(er),
                Ok(rest) => Ok(seq![cv] + rest),
            }));
            match cnext {
                Ok(rest) => {
                    assert(chart_views(charts@) =~= chart_views(charts0).push(cv));
                    assert(chart_views(charts@) + rest =~= chart_views(charts0) + (seq![cv]
                        + rest));
                },
                Err(_) => {
                },
            }
        }
        i += 1;
    }
    proof {
        assert(charts_from(stv, m as int, players@) == Ok::<Seq<ChartV>, ErrV>(Seq::empty()));
        assert(chart_views(charts@) + Seq::<ChartV>::empty() =~= chart_views(charts@));
    }
    Ok(charts)
}

/// Extracts the report from an element tree: the Song descendants of `root`
/// whose Dir starts with the configured prefix, in document order, each with
/// its charts and reduced score lists; or the first fatal condition found.
pub fn extract_report(root: &XmlElem, players: &Players) -> (r: Result<Vec<Song>, ExtractError>)
    ensures
        match r {
            Ok(v) => report_of(root@, players@) == Ok::<Seq<SongV>, ErrV>(song_views(v@)),
            Err(e) => report_of(root@, players@) == Err::<Seq<SongV>, ErrV>(e@),
        },
{
    let songs = root.descendants_tagged("Song");
    let ghost sv = tagged(root@, "Song"@);
    let m = songs.len();
    let mut out: Vec<Song> = Vec::new();
    proof {
        assert(song_views(out@) =~= Seq::<SongV>::empty());
    }
    let mut i: usize = 0;
    while i < m
        invariant
            0 <= i <= m,
            m == songs@.len(),
            sv == views_of_refs(songs@),
            sv == tagged(root@, "Song"@),
            sv.len() == m,
            match songs_from(sv, i as int, players@) {
                Ok(rest) => songs_from(sv, 0, players@) == Ok::<Seq<SongV>, ErrV>(song_views(out@) + rest),
                Err(er) => songs_from(sv, 0, players@) == Err::<Seq<SongV>, ErrV>(er),
            },
        decreases m - i,
    {
        let sg = songs[i];
        proof {
            assert(sg@ == sv[i as int]);
        }
        let dir = match sg.attribute("Dir") {
            Some(dir) => dir,
            None => {
                return Err(ExtractError::MissingDir);
            },
        };
        if str_starts_with(dir.as_str(), target_song_path_prefix()) {
            let charts = match extract_charts(sg, players) {
                Ok(charts) => charts,
                Err(e) => {
                    return Err(e);
                },
            };
            let ghost out0 = out@;
            let song = Song { name: dir.clone(), charts };
            let ghost sgv = song@;
            out.push(song);
            proof {
                let snext = songs_from(sv, i + 1, players@);
                assert(songs_from(sv, i as int, players@) == (match snext {
                    Err(er) => Err(er),
                    Ok(rest) => Ok(seq![sgv] + rest),
                }));
                match snext {
                    Ok(rest) => {
                        assert(song_views(out@) =~= song_views(out0).push(sgv));
                        assert(song_views(out@) + rest =~= song_views(out0) + (seq![sgv] + rest));
                    },
                    Err(_) => {
                    },
                }
            }
        } else {
            proof {
                assert(songs_from(sv, i as int, players@) == songs_from(sv, i + 1, players@));
            }
        }
        i += 1;
    }
    proof {
        assert(songs_from(sv, m as int, players@) == Ok::<Seq<SongV>, ErrV>(Seq::empty()));
        assert(song_views(out@) + Seq::<SongV>::empty() =~= song_views(out@));
    }
    Ok(out)
}

} // verus!
