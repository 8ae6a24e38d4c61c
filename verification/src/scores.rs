use vstd::prelude::*;
use crate::text::str_eq;

verus! {

/// One resolved score: integer value and resolved player display name.
#[derive(Debug)]
pub struct Score {
    pub score: i32,
    pub player: String,
}

/// Abstract value of one score entry.
pub struct ScoreV {
    pub score: int,
    pub player: Seq<char>,
}

impl View for Score {
    type V = ScoreV;

    open spec fn view(&self) -> ScoreV {
        ScoreV { score: self.score as int, player: self.player@ }
    }
}

/// The abstract values of a sequence of score entries.
pub open spec fn score_views(s: Seq<Score>) -> Seq<ScoreV> {
    Seq::new(s.len(), |i: int| s[i]@)
}

/// Does any entry of `s` belong to `name`?
pub open spec fn has_player(s: Seq<ScoreV>, name: Seq<char>) -> bool {
    exists|i: int| 0 <= i < s.len() && s[i].player == name
}

/// The greatest score any entry of `s` gives `name` (0 when there is none).
pub open spec fn max_score_of(s: Seq<ScoreV>, name: Seq<char>) -> int
    decreases s.len(),
{
    if s.len() == 0 {
        0
    } else {
        let rest = max_score_of(s.drop_last(), name);
        let last = s.last();
        if last.player == name {
            if has_player(s.drop_last(), name) && rest >= last.score {
                rest
            } else {
                last.score
            }
        } else {
            rest
        }
    }
}

/// The distinct player names of `s`, each at its first occurrence.
pub open spec fn first_names(s: Seq<ScoreV>) -> Seq<Seq<char>>
    decreases s.len(),
{
    if s.len() == 0 {
        Seq::empty()
    } else {
        let rest = first_names(s.drop_last());
        if rest.contains(s.last().player) {
            rest
        } else {
            rest.push(s.last().player)
        }
    }
}

/// The reduced score list: one entry per distinct player of `s`, carrying
/// that player's greatest score, players in order of first appearance.
pub open spec fn reduce_spec(s: Seq<ScoreV>) -> Seq<ScoreV> {
    Seq::new(
        first_names(s).len(),
        |i: int| ScoreV { score: max_score_of(s, first_names(s)[i]), player: first_names(s)[i] },
    )
}

/// The names of `first_names(s)` are distinct.
pub proof fn lemma_first_names_no_dup(s: Seq<ScoreV>)
    ensures
        forall|k1: int, k2: int|
            0 <= k1 < k2 < first_names(s).len() ==> first_names(s)[k1] != first_names(s)[k2],
    decreases s.len(),
{
    if s.len() > 0 {
        lemma_first_names_no_dup(s.drop_last());
        let rest = first_names(s.drop_last());
        if !rest.contains(s.last().player) {
            assert forall|k1: int, k2: int|
                0 <= k1 < k2 < first_names(s).len() implies first_names(s)[k1] != first_names(
                s,
            )[k2] by {
                if k2 == first_names(s).len() - 1 {
                    assert(first_names(s)[k2] == s.last().player);
                    assert(first_names(s)[k1] == rest[k1]);
                    if rest[k1] == s.last().player {
                        assert(rest.contains(s.last().player));
                    }
                }
            }
        }
    }
}

/// `first_names(s)` holds exactly the player names of `s`.
pub proof fn lemma_first_names_complete(s: Seq<ScoreV>)
    ensures
        forall|i: int| 0 <= i < s.len() ==> first_names(s).contains(#[trigger] s[i].player),
        forall|k: int|
            0 <= k < first_names(s).len() ==> has_player(s, #[trigger] first_names(s)[k]),
    decreases s.len(),
{
    if s.len() > 0 {
        lemma_first_names_complete(s.drop_last());
        assert forall|i: int| 0 <= i < s.len() implies first_names(s).contains(
            #[trigger] s[i].player,
        ) by {
            if i < s.len() - 1 {
                assert(s.drop_last()[i] == s[i]);
                assert(first_names(s.drop_last()).contains(s[i].player));
                let w = choose|w: int|
                    0 <= w < first_names(s.drop_last()).len() && first_names(s.drop_last())[w]
                        == s[i].player;
                assert(first_names(s)[w] == s[i].player);
            } else {
                if first_names(s.drop_last()).contains(s.last().player) {
                    let w = choose|w: int|
                        0 <= w < first_names(s.drop_last()).len() && first_names(s.drop_last())[w]
                            == s.last().player;
                    assert(first_names(s)[w] == s.last().player);
                } else {
                    assert(first_names(s).last() == s.last().player);
                }
            }
        }
        assert forall|k: int| 0 <= k < first_names(s).len() implies has_player(
            s,
            #[trigger] first_names(s)[k],
        ) by {
            if k < first_names(s.drop_last()).len() {
                assert(has_player(s.drop_last(), first_names(s.drop_last())[k]));
                let w = choose|w: int|
                    0 <= w < s.drop_last().len() && s.drop_last()[w].player == first_names(
                        s.drop_last(),
                    )[k];
                assert(s[w].player == first_names(s)[k]);
            } else {
                assert(first_names(s)[k] == s.last().player);
                assert(s[s.len() - 1].player == first_names(s)[k]);
            }
        }
    }
}

/// The greatest score of a group is attained by a member, and bounds them all.
pub proof fn lemma_max_score(s: Seq<ScoreV>, name: Seq<char>)
    requires
        has_player(s, name),
    ensures
        exists|i: int|
            0 <= i < s.len() && s[i].player == name && s[i].score == max_score_of(s, name),
        forall|i: int|
            0 <= i < s.len() && s[i].player == name ==> s[i].score <= max_score_of(s, name),
    decreases s.len(),
{
    let last = s.last();
    if has_player(s.drop_last(), name) {
        lemma_max_score(s.drop_last(), name);
        let w = choose|w: int|
            0 <= w < s.drop_last().len() && s.drop_last()[w].player == name && s.drop_last()[w].score
                == max_score_of(s.drop_last(), name);
        assert(s[w] == s.drop_last()[w]);
        if last.player == name && !(max_score_of(s.drop_last(), name) >= last.score) {
            assert(s[s.len() - 1].score == max_score_of(s, name));
        }
        assert forall|i: int|
            0 <= i < s.len() && s[i].player == name implies s[i].score <= max_score_of(
            s,
            name,
        ) by {
            if i < s.len() - 1 {
                assert(s.drop_last()[i] == s[i]);
            }
        }
    } else {
        assert(last.player == name) by {
            let w = choose|w: int| 0 <= w < s.len() && s[w].player == name;
            if w < s.len() - 1 {
                assert(s.drop_last()[w].player == name);
            }
        }
        assert(max_score_of(s, name) == last.score);
        assert(s[s.len() - 1].player == name && s[s.len() - 1].score == max_score_of(s, name));
        assert forall|i: int|
            0 <= i < s.len() && s[i].player == name implies s[i].score <= max_score_of(
            s,
            name,
        ) by {
            if i < s.len() - 1 {
                assert(s.drop_last()[i].player == name);
                assert(has_player(s.drop_last(), name));
            }
        }
    }
}

/// In a reduced score list each player appears exactly once, the entry's score
/// is the greatest score among that player's raw entries, and every player of
/// the raw list appears.
#[verifier::rlimit(50)]
pub proof fn lemma_reduce_law(s: Seq<ScoreV>)
    ensures
        forall|k1: int, k2: int|
            0 <= k1 < k2 < reduce_spec(s).len() ==> reduce_spec(s)[k1].player != reduce_spec(
                s,
            )[k2].player,
        forall|k: int|
            0 <= k < reduce_spec(s).len() ==> {
                let e = #[trigger] reduce_spec(s)[k];
                &&& has_player(s, e.player)
                &&& exists|i: int|
                    0 <= i < s.len() && s[i].player == e.player && s[i].score == e.score
                &&& forall|i: int|
                    0 <= i < s.len() && s[i].player == e.player ==> s[i].score <= e.score
            },
        forall|i: int|
            0 <= i < s.len() ==> exists|k: int|
                0 <= k < reduce_spec(s).len() && reduce_spec(s)[k].player == #[trigger] s[
                    i
                ].player,
{
    lemma_first_names_no_dup(s);
    lemma_first_names_complete(s);
    assert forall|k: int| 0 <= k < reduce_spec(s).len() implies {
        let e = #[trigger] reduce_spec(s)[k];
        &&& has_player(s, e.player)
        &&& exists|i: int| 0 <= i < s.len() && s[i].player == e.player && s[i].score == e.score
        &&& forall|i: int| 0 <= i < s.len() && s[i].player == e.player ==> s[i].score <= e.score
    } by {
        assert(has_player(s, first_names(s)[k]));
        lemma_max_score(s, first_names(s)[k]);
    }
    assert forall|i: int| 0 <= i < s.len() implies exists|k: int|
        0 <= k < reduce_spec(s).len() && reduce_spec(s)[k].player == #[trigger] s[i].player by {
        let w = choose|w: int|
            0 <= w < first_names(s).len() && first_names(s)[w] == s[i].player;
        assert(reduce_spec(s)[w].player == s[i].player);
    }
}

proof fn lemma_reduce_step(pre: Seq<ScoreV>, e: ScoreV)
    ensures
        first_names(pre.push(e)) == (if first_names(pre).contains(e.player) {
            first_names(pre)
        } else {
            first_names(pre).push(e.player)
        }),
        forall|n: Seq<char>|
            n != e.player ==> #[trigger] max_score_of(pre.push(e), n) == max_score_of(pre, n),
        max_score_of(pre.push(e), e.player) == (if has_player(pre, e.player) && max_score_of(
            pre,
            e.player,
        ) >= e.score {
            max_score_of(pre, e.player)
        } else {
            e.score
        }),
{
    assert(pre.push(e).drop_last() =~= pre);
    assert(pre.push(e).last() == e);
}

/// The index of the first entry of `v` whose player is `name`, if any.
fn find_player(v: &Vec<Score>, name: &str) -> (r: Option<usize>)
    ensures
        match r {
            Some(j) => j < v@.len() && v@[j as int]@.player == name@ && forall|k: int|
                0 <= k < j ==> v@[k]@.player != name@,
            None => forall|k: int| 0 <= k < v@.len() ==> v@[k]@.player != name@,
        },
{
    let n = v.len();
    let mut j: usize = 0;
    while j < n
        invariant
            0 <= j <= n,
            n == v@.len(),
            forall|k: int| 0 <= k < j ==> v@[k]@.player != name@,
        decreases n - j,
    {
        if str_eq(v[j].player.as_str(), name) {
            return Some(j);
        }
        j += 1;
    }
    None
}

/// Collapses a chart's raw score list to one entry per distinct player: that
/// player's greatest score, players in order of first appearance.
pub fn reduce_scores(raw: &Vec<Score>) -> (out: Vec<Score>)
    ensures
        score_views(out@) == reduce_spec(score_views(raw@)),
{
    let mut out: Vec<Score> = Vec::new();
    let n = raw.len();
    proof {
        assert(score_views(raw@).take(0) =~= Seq::<ScoreV>::empty());
        assert(score_views(out@) =~= reduce_spec(score_views(raw@).take(0)));
    }
    let mut i: usize = 0;
    while i < n
        invariant
            0 <= i <= n,
            n == raw@.len(),
            score_views(raw@).len() == n,
            score_views(out@) == reduce_spec(score_views(raw@).take(i as int)),
        decreases n - i,
    {
        let ghost pre = score_views(raw@).take(i as int);
        let ghost e = raw@[i as int]@;
        proof {
            lemma_reduce_step(pre, e);
            lemma_first_names_no_dup(pre);
            lemma_first_names_complete(pre);
            assert(score_views(raw@).take(i + 1) =~= pre.push(e));
        }
        let found = find_player(&out, raw[i].player.as_str());
        if let Some(j) = found {
            proof {
                assert(score_views(out@).len() == out@.len());
                assert(reduce_spec(pre).len() == first_names(pre).len());
                assert(score_views(out@)[j as int] == out@[j as int]@);
                assert(out@[j as int]@ == reduce_spec(pre)[j as int]);
                assert(out@[j as int]@.player == first_names(pre)[j as int]);
                assert(first_names(pre).contains(e.player));
            }
            proof {
                assert(first_names(pre)[j as int] == e.player);
                assert(has_player(pre, e.player));
            }
            let cur = out[j].score;
            let ghost out0 = out@;
            if raw[i].score > cur {
                let name = out[j].player.clone();
                let updated = Score { score: raw[i].score, player: name };
                out.remove(j);
                out.insert(j, updated);
                proof {
                    assert(out@ =~= out0.update(j as int, updated));
                }
            }
            proof {
                assert(first_names(pre.push(e)) == first_names(pre));
                assert(score_views(out@).len() == first_names(pre).len());
                assert forall|k: int|
                    0 <= k < first_names(pre.push(e)).len() implies score_views(out@)[k]
                    == reduce_spec(pre.push(e))[k] by {
                    if k != j as int {
                        assert(out@[k] == out0[k]);
                        assert(score_views(out0)[k] == reduce_spec(pre)[k]);
                        assert(first_names(pre)[k] != first_names(pre)[j as int]);
                        assert(max_score_of(pre.push(e), first_names(pre)[k]) == max_score_of(
                            pre,
                            first_names(pre)[k],
                        ));
                    } else {
                        assert(out@[k]@.player == e.player);
                        assert(cur == max_score_of(pre, e.player));
                        assert(max_score_of(pre.push(e), e.player) == (
                        if max_score_of(pre, e.player) >= e.score {
                            max_score_of(pre, e.player)
                        } else {
                            e.score
                        }));
                        assert(out@[k]@.score == max_score_of(pre.push(e), e.player));
                    }
                }
                assert(score_views(out@) =~= reduce_spec(pre.push(e)));
            }
        } else {
            proof {
                assert(score_views(out@).len() == out@.len());
                assert(reduce_spec(pre).len() == first_names(pre).len());
                // the player is new: it is in no entry of `out`
                assert(!first_names(pre).contains(e.player)) by {
                    if first_names(pre).contains(e.player) {
                        let w = choose|w: int|
                            0 <= w < first_names(pre).len() && first_names(pre)[w] == e.player;
                        assert(score_views(out@)[w] == reduce_spec(pre)[w]);
                        assert(out@[w]@.player == e.player);
                    }
                }
                assert(!has_player(pre, e.player)) by {
                    if has_player(pre, e.player) {
                        let w = choose|w: int| 0 <= w < pre.len() && pre[w].player == e.player;
                        assert(first_names(pre).contains(pre[w].player));
                    }
                }
            }
            let entry = Score { score: raw[i].score, player: raw[i].player.clone() };
            let ghost out0 = out@;
            out.push(entry);
            proof {
                assert(out@ =~= out0.push(entry));
                assert(entry@ == ScoreV { score: e.score, player: e.player });
                assert(first_names(pre.push(e)) == first_names(pre).push(e.player));
                assert(score_views(out@).len() == first_names(pre.push(e)).len());
                assert forall|k: int|
                    0 <= k < first_names(pre.push(e)).len() implies score_views(out@)[k]
                    == reduce_spec(pre.push(e))[k] by {
                    if k < first_names(pre).len() {
                        assert(out@[k] == out0[k]);
                        assert(score_views(out0)[k] == reduce_spec(pre)[k]);
                        assert(first_names(pre.push(e))[k] == first_names(pre)[k]);
                        assert(first_names(pre)[k] != e.player) by {
                            if first_names(pre)[k] == e.player {
                                assert(first_names(pre).contains(e.player));
                            }
                        }
                        assert(max_score_of(pre.push(e), first_names(pre)[k]) == max_score_of(
                            pre,
                            first_names(pre)[k],
                        ));
                    } else {
                        assert(first_names(pre.push(e))[k] == e.player);
                        assert(out@[k]@ == entry@);
                        assert(max_score_of(pre.push(e), e.player) == e.score);
                    }
                }
                assert(score_views(out@) =~= reduce_spec(pre.push(e)));
            }
        }
        i += 1;
    }
    proof {
        assert(score_views(raw@).take(n as int) =~= score_views(raw@));
    }
    out
}

} // verus!
