use vstd::prelude::*;
use crate::difficulty::difficulty_of;
use crate::players::unknown_player;
use crate::report::{
    charts_from, report_of, scores_from, song_prefix, songs_from, ChartV, ErrV, SongV,
};
use crate::scores::{
    first_names, has_player, lemma_first_names_complete, reduce_spec, ScoreV,
};
use crate::text::parse_i32_spec;
use crate::xml::{attr_of, first_child, tagged, XmlV};

verus! {

/// A Dir exactly equal to the configured prefix is retained: the prefix
/// match is inclusive and requires no following separator.
pub proof fn lemma_prefix_match_inclusive(dir: Seq<char>)
    requires
        dir == song_prefix(),
    ensures
        song_prefix().is_prefix_of(dir),
{
    assert(dir.subrange(0, dir.len() as int) =~= dir);
}

proof fn lemma_songs_from_prefix(
    ss: Seq<XmlV>,
    from: int,
    ps: Seq<(Seq<char>, Seq<char>)>,
    out: Seq<SongV>,
)
    requires
        0 <= from,
        songs_from(ss, from, ps) == Ok::<Seq<SongV>, ErrV>(out),
    ensures
        forall|k: int| 0 <= k < out.len() ==> song_prefix().is_prefix_of(#[trigger] out[k].name),
    decreases ss.len() - from,
{
    if from < ss.len() {
        match crate::xml::attr_of(ss[from], "Dir"@) {
            None => {},
            Some(dir) => {
                if !song_prefix().is_prefix_of(dir) {
                    lemma_songs_from_prefix(ss, from + 1, ps, out);
                } else {
                    match charts_from(tagged(ss[from], "Steps"@), 0, ps) {
                        Err(_) => {},
                        Ok(cs) => {
                            match songs_from(ss, from + 1, ps) {
                                Err(_) => {},
                                Ok(rest) => {
                                    lemma_songs_from_prefix(ss, from + 1, ps, rest);
                                    assert(out == seq![SongV { name: dir, charts: cs }] + rest);
                                    assert forall|k: int|
                                        0 <= k < out.len() implies song_prefix().is_prefix_of(
                                        #[trigger] out[k].name,
                                    ) by {
                                        if k == 0 {
                                            assert(out[0].name == dir);
                                        } else {
                                            assert(out[k] == rest[k - 1]);
                                        }
                                    }
                                },
                            }
                        },
                    }
                }
            },
        }
    }
}

/// Every song of the report's Ok value has a name starting with the
/// configured prefix: a Song element whose Dir does not match contributes
/// nothing to the output, whatever it contains.
pub proof fn lemma_report_songs_match_prefix(
    root: XmlV,
    ps: Seq<(Seq<char>, Seq<char>)>,
    out: Seq<SongV>,
)
    requires
        report_of(root, ps) == Ok::<Seq<SongV>, ErrV>(out),
    ensures
        forall|k: int| 0 <= k < out.len() ==> song_prefix().is_prefix_of(#[trigger] out[k].name),
{
    lemma_songs_from_prefix(tagged(root, "Song"@), 0, ps, out);
}

/// A HighScore element whose PlayerGuid child is absent or has no usable text.
pub open spec fn guidless(h: XmlV) -> bool {
    match first_child(h, "PlayerGuid"@) {
        None => true,
        Some(pg) => match pg.text {
            None => true,
            Some(g) => g.len() == 0,
        },
    }
}

/// A HighScore element whose Score child is present with integer text.
pub open spec fn score_ok(h: XmlV) -> bool {
    match first_child(h, "Score"@) {
        None => false,
        Some(sc) => match sc.text {
            None => false,
            Some(t) => parse_i32_spec(t) is Some,
        },
    }
}

proof fn lemma_scores_from_congruent(
    a: Seq<XmlV>,
    ai: int,
    b: Seq<XmlV>,
    bi: int,
    ps: Seq<(Seq<char>, Seq<char>)>,
)
    requires
        0 <= ai <= a.len(),
        0 <= bi <= b.len(),
        a.len() - ai == b.len() - bi,
        forall|j: int| 0 <= j < a.len() - ai ==> #[trigger] a[ai + j] == b[bi + j],
    ensures
        scores_from(a, ai, ps) == scores_from(b, bi, ps),
    decreases a.len() - ai,
{
    if ai < a.len() {
        assert(a[ai] == b[bi]) by {
            assert(a[ai + 0] == b[bi + 0]);
        }
        assert forall|j: int| 0 <= j < a.len() - (ai + 1) implies #[trigger] a[ai + 1 + j] == b[
            bi + 1 + j] by {
            assert(a[ai + (j + 1)] == b[bi + (j + 1)]);
        }
        lemma_scores_from_congruent(a, ai + 1, b, bi + 1, ps);
    }
}

proof fn lemma_skip_guidless(hs: Seq<XmlV>, from: int, k: int, ps: Seq<(Seq<char>, Seq<char>)>)
    requires
        0 <= from <= k < hs.len(),
        guidless(hs[k]),
        score_ok(hs[k]),
    ensures
        scores_from(hs.remove(k), from, ps) == scores_from(hs, from, ps),
    decreases k - from,
{
    let r = hs.remove(k);
    assert(r.len() == hs.len() - 1);
    if from == k {
        assert(scores_from(hs, k, ps) == scores_from(hs, k + 1, ps)) by {
            match scores_from(hs, k + 1, ps) {
                Ok(rest) => {},
                Err(_) => {},
            }
        }
        assert forall|j: int| 0 <= j < r.len() - k implies #[trigger] r[k + j] == hs[k + 1
            + j] by {
            assert(r[k + j] == hs[k + j + 1]);
        }
        lemma_scores_from_congruent(r, k, hs, k + 1, ps);
    } else {
        lemma_skip_guidless(hs, from + 1, k, ps);
        assert(r[from] == hs[from]);
        assert(scores_from(r, from, ps) == scores_from(hs, from, ps)) by {
            match scores_from(hs, from + 1, ps) {
                Ok(rest) => {},
                Err(_) => {},
            }
        }
    }
}

/// A HighScore whose PlayerGuid is absent or empty (and whose Score is
/// sound) contributes no score entry: dropping that element leaves the raw
/// score list of its chart unchanged, so it affects no player's maximum and
/// appears as no phantom entry.
pub proof fn lemma_guidless_contributes_nothing(
    hs: Seq<XmlV>,
    k: int,
    ps: Seq<(Seq<char>, Seq<char>)>,
)
    requires
        0 <= k < hs.len(),
        guidless(hs[k]),
        score_ok(hs[k]),
    ensures
        scores_from(hs.remove(k), 0, ps) == scores_from(hs, 0, ps),
{
    lemma_skip_guidless(hs, 0, k, ps);
}

/// Every entry of `c` names the sentinel player.
pub open spec fn chart_entries_unknown(c: ChartV) -> bool {
    forall|j: int| 0 <= j < c.scores.len() ==> #[trigger] c.scores[j].player == unknown_player()
}

/// Every score entry of every chart of `songs` names the sentinel player.
pub open spec fn report_entries_unknown(songs: Seq<SongV>) -> bool {
    forall|a: int, b: int|
        0 <= a < songs.len() && 0 <= b < songs[a].charts.len() ==> chart_entries_unknown(
            #[trigger] songs[a].charts[b],
        )
}

proof fn lemma_scores_unknown(
    hs: Seq<XmlV>,
    from: int,
    ps: Seq<(Seq<char>, Seq<char>)>,
    raw: Seq<ScoreV>,
)
    requires
        ps.len() == 0,
        scores_from(hs, from, ps) == Ok::<Seq<ScoreV>, ErrV>(raw),
    ensures
        forall|j: int| 0 <= j < raw.len() ==> #[trigger] raw[j].player == unknown_player(),
    decreases hs.len() - from,
{
    if 0 <= from < hs.len() {
        match scores_from(hs, from + 1, ps) {
            Err(_) => {},
            Ok(rest) => {
                lemma_scores_unknown(hs, from + 1, ps, rest);
                crate::players::lemma_resolve_empty(
                    ps,
                    match first_child(hs[from], "PlayerGuid"@) {
                        Some(pg) => match pg.text {
                            Some(g) => g,
                            None => Seq::empty(),
                        },
                        None => Seq::empty(),
                    },
                );
            },
        }
    }
}

proof fn lemma_reduce_unknown(raw: Seq<ScoreV>)
    requires
        forall|j: int| 0 <= j < raw.len() ==> #[trigger] raw[j].player == unknown_player(),
    ensures
        forall|j: int|
            0 <= j < reduce_spec(raw).len() ==> #[trigger] reduce_spec(raw)[j].player
                == unknown_player(),
{
    lemma_first_names_complete(raw);
    assert forall|j: int|
        0 <= j < reduce_spec(raw).len() implies #[trigger] reduce_spec(raw)[j].player
        == unknown_player() by {
        assert(has_player(raw, first_names(raw)[j]));
        let w = choose|w: int| 0 <= w < raw.len() && raw[w].player == first_names(raw)[j];
        assert(raw[w].player == unknown_player());
    }
}

proof fn lemma_charts_unknown(
    sts: Seq<XmlV>,
    from: int,
    ps: Seq<(Seq<char>, Seq<char>)>,
    cs: Seq<ChartV>,
)
    requires
        ps.len() == 0,
        charts_from(sts, from, ps) == Ok::<Seq<ChartV>, ErrV>(cs),
    ensures
        forall|b: int| 0 <= b < cs.len() ==> chart_entries_unknown(#[trigger] cs[b]),
    decreases sts.len() - from,
{
    if 0 <= from < sts.len() {
        match scores_from(tagged(sts[from], "HighScore"@), 0, ps) {
            Err(_) => {},
            Ok(raw) => {
                match charts_from(sts, from + 1, ps) {
                    Err(_) => {},
                    Ok(rest) => {
                        lemma_scores_unknown(tagged(sts[from], "HighScore"@), 0, ps, raw);
                        lemma_reduce_unknown(raw);
                        lemma_charts_unknown(sts, from + 1, ps, rest);
                        assert forall|b: int| 0 <= b < cs.len() implies chart_entries_unknown(
                            #[trigger] cs[b],
                        ) by {
                            if b > 0 {
                                assert(cs[b] == rest[b - 1]);
                            }
                        }
                    },
                }
            },
        }
    }
}

proof fn lemma_songs_unknown(
    ss: Seq<XmlV>,
    from: int,
    ps: Seq<(Seq<char>, Seq<char>)>,
    out: Seq<SongV>,
)
    requires
        ps.len() == 0,
        songs_from(ss, from, ps) == Ok::<Seq<SongV>, ErrV>(out),
    ensures
        report_entries_unknown(out),
    decreases ss.len() - from,
{
    if 0 <= from < ss.len() {
        match crate::xml::attr_of(ss[from], "Dir"@) {
            None => {},
            Some(dir) => {
                if !song_prefix().is_prefix_of(dir) {
                    lemma_songs_unknown(ss, from + 1, ps, out);
                } else {
                    match charts_from(tagged(ss[from], "Steps"@), 0, ps) {
                        Err(_) => {},
                        Ok(cs) => {
                            match songs_from(ss, from + 1, ps) {
                                Err(_) => {},
                                Ok(rest) => {
                                    lemma_charts_unknown(tagged(ss[from], "Steps"@), 0, ps, cs);
                                    lemma_songs_unknown(ss, from + 1, ps, rest);
                                    assert forall|a: int, b: int|
                                        0 <= a < out.len() && 0 <= b
                                            < out[a].charts.len() implies chart_entries_unknown(
                                        #[trigger] out[a].charts[b],
                                    ) by {
                                        if a == 0 {
                                            assert(out[0].charts == cs);
                                        } else {
                                            assert(out[a] == rest[a - 1]);
                                        }
                                    }
                                },
                            }
                        },
                    }
                }
            },
        }
    }
}

/// With an empty player directory every score entry of the report names the
/// sentinel "unknown player".
pub proof fn lemma_empty_directory_all_unknown(
    root: XmlV,
    ps: Seq<(Seq<char>, Seq<char>)>,
    out: Seq<SongV>,
)
    requires
        ps.len() == 0,
        report_of(root, ps) == Ok::<Seq<SongV>, ErrV>(out),
    ensures
        report_entries_unknown(out),
{
    lemma_songs_unknown(tagged(root, "Song"@), 0, ps, out);
}

proof fn lemma_charts_ok_difficulties(sts: Seq<XmlV>, from: int, ps: Seq<(Seq<char>, Seq<char>)>)
    requires
        0 <= from,
        charts_from(sts, from, ps) is Ok,
    ensures
        forall|b: int|
            from <= b < sts.len() ==> match attr_of(#[trigger] sts[b], "Difficulty"@) {
                Some(lab) => difficulty_of(lab) is Some,
                None => false,
            },
    decreases sts.len() - from,
{
    if from < sts.len() {
        lemma_charts_ok_difficulties(sts, from + 1, ps);
    }
}

proof fn lemma_songs_ok_charts(ss: Seq<XmlV>, from: int, ps: Seq<(Seq<char>, Seq<char>)>)
    requires
        0 <= from,
        songs_from(ss, from, ps) is Ok,
    ensures
        forall|k: int|
            from <= k < ss.len() ==> match attr_of(#[trigger] ss[k], "Dir"@) {
                Some(dir) => song_prefix().is_prefix_of(dir) ==> charts_from(
                    tagged(ss[k], "Steps"@),
                    0,
                    ps,
                ) is Ok,
                None => false,
            },
    decreases ss.len() - from,
{
    if from < ss.len() {
        lemma_songs_ok_charts(ss, from + 1, ps);
    }
}

/// When the report is produced, every Song element has a Dir attribute, and
/// within every retained song each Steps element carries a Difficulty
/// attribute naming one of the six labels: an unrecognized label is a fatal
/// condition, never a silent skip.
pub proof fn lemma_ok_report_has_known_difficulties(
    root: XmlV,
    ps: Seq<(Seq<char>, Seq<char>)>,
    out: Seq<SongV>,
)
    requires
        report_of(root, ps) == Ok::<Seq<SongV>, ErrV>(out),
    ensures
        forall|k: int|
            0 <= k < tagged(root, "Song"@).len() ==> match attr_of(
                #[trigger] tagged(root, "Song"@)[k],
                "Dir"@,
            ) {
                Some(dir) => song_prefix().is_prefix_of(dir) ==> (forall|b: int|
                    0 <= b < tagged(tagged(root, "Song"@)[k], "Steps"@).len() ==> match attr_of(
                        #[trigger] tagged(tagged(root, "Song"@)[k], "Steps"@)[b],
                        "Difficulty"@,
                    ) {
                        Some(lab) => difficulty_of(lab) is Some,
                        None => false,
                    }),
                None => false,
            },
{
    let ss = tagged(root, "Song"@);
    lemma_songs_ok_charts(ss, 0, ps);
    assert forall|k: int| 0 <= k < ss.len() implies match attr_of(
        #[trigger] ss[k],
        "Dir"@,
    ) {
        Some(dir) => song_prefix().is_prefix_of(dir) ==> (forall|b: int|
            0 <= b < tagged(ss[k], "Steps"@).len() ==> match attr_of(
                #[trigger] tagged(ss[k], "Steps"@)[b],
                "Difficulty"@,
            ) {
                Some(lab) => difficulty_of(lab) is Some,
                None => false,
            }),
        None => false,
    } by {
        match attr_of(ss[k], "Dir"@) {
            Some(dir) => {
                if song_prefix().is_prefix_of(dir) {
                    lemma_charts_ok_difficulties(tagged(ss[k], "Steps"@), 0, ps);
                }
            },
            None => {},
        }
    }
}

} // verus!
