use vstd::prelude::*;
use crate::text::str_eq;

verus! {

/// One record of the player directory: opaque identifier and display name.
pub struct Player {
    pub id: String,
    pub name: String,
}

impl View for Player {
    type V = (Seq<char>, Seq<char>);

    open spec fn view(&self) -> (Seq<char>, Seq<char>) {
        (self.id@, self.name@)
    }
}

/// The player directory, read once and consulted during extraction.
pub struct Players {
    pub players: Vec<Player>,
}

impl View for Players {
    type V = Seq<(Seq<char>, Seq<char>)>;

    open spec fn view(&self) -> Seq<(Seq<char>, Seq<char>)> {
        Seq::new(self.players@.len(), |i: int| self.players@[i]@)
    }
}

/// The sentinel name returned for an identifier the directory does not hold.
pub open spec fn unknown_player() -> Seq<char> {
    "unknown player"@
}

/// The name stored for `id` in `ps[from..]` (first match), or the sentinel.
pub open spec fn resolve_from(
    ps: Seq<(Seq<char>, Seq<char>)>,
    from: int,
    id: Seq<char>,
) -> Seq<char>
    decreases ps.len() - from,
{
    if from < 0 || from >= ps.len() {
        unknown_player()
    } else if ps[from].0 == id {
        ps[from].1
    } else {
        resolve_from(ps, from + 1, id)
    }
}

/// The name the directory `ps` resolves `id` to.
pub open spec fn resolve(ps: Seq<(Seq<char>, Seq<char>)>, id: Seq<char>) -> Seq<char> {
    resolve_from(ps, 0, id)
}

/// Resolves an opaque player identifier to the stored display name, or to the
/// sentinel "unknown player" when the directory has no entry for it.
pub fn id_to_player(players: &Players, id: &str) -> (r: String)
    ensures
        r@ == resolve(players@, id@),
{
    let n = players.players.len();
    let mut i: usize = 0;
    while i < n
        invariant
            0 <= i <= n,
            n == players.players@.len(),
            players@.len() == n,
            forall|k: int| 0 <= k < n ==> players@[k] == players.players@[k]@,
            resolve(players@, id@) == resolve_from(players@, i as int, id@),
        decreases n - i,
    {
        if str_eq(players.players[i].id.as_str(), id) {
            return players.players[i].name.clone();
        }
        i += 1;
    }
    "unknown player".to_owned()
}

proof fn lemma_resolve_from_hit(ps: Seq<(Seq<char>, Seq<char>)>, from: int, id: Seq<char>)
    requires
        0 <= from <= ps.len(),
        exists|i: int| from <= i < ps.len() && ps[i].0 == id,
    ensures
        exists|i: int|
            from <= i < ps.len() && ps[i].0 == id && resolve_from(ps, from, id) == ps[i].1 && (
            forall|j: int| from <= j < i ==> ps[j].0 != id),
    decreases ps.len() - from,
{
    if ps[from].0 == id {
        assert(from <= from < ps.len() && ps[from].0 == id && resolve_from(ps, from, id)
            == ps[from].1 && (forall|j: int| from <= j < from ==> ps[j].0 != id));
    } else {
        lemma_resolve_from_hit(ps, from + 1, id);
        let i = choose|i: int|
            from + 1 <= i < ps.len() && ps[i].0 == id && resolve_from(ps, from + 1, id) == ps[i].1
                && (forall|j: int| from + 1 <= j < i ==> ps[j].0 != id);
        assert(from <= i < ps.len() && ps[i].0 == id && resolve_from(ps, from, id) == ps[i].1 && (
        forall|j: int| from <= j < i ==> ps[j].0 != id));
    }
}

/// An identifier the directory holds resolves to its stored name: the first
/// record carrying that identifier decides the name.
pub proof fn lemma_resolve_hit(ps: Seq<(Seq<char>, Seq<char>)>, id: Seq<char>)
    requires
        exists|i: int| 0 <= i < ps.len() && ps[i].0 == id,
    ensures
        exists|i: int|
            0 <= i < ps.len() && ps[i].0 == id && resolve(ps, id) == ps[i].1 && (forall|j: int|
                0 <= j < i ==> ps[j].0 != id),
{
    lemma_resolve_from_hit(ps, 0, id);
}

proof fn lemma_resolve_from_miss(ps: Seq<(Seq<char>, Seq<char>)>, from: int, id: Seq<char>)
    requires
        forall|i: int| 0 <= i < ps.len() ==> ps[i].0 != id,
    ensures
        resolve_from(ps, from, id) == unknown_player(),
    decreases ps.len() - from,
{
    if 0 <= from < ps.len() {
        lemma_resolve_from_miss(ps, from + 1, id);
    }
}

/// An identifier the directory does not hold resolves to the sentinel.
pub proof fn lemma_resolve_miss(ps: Seq<(Seq<char>, Seq<char>)>, id: Seq<char>)
    requires
        forall|i: int| 0 <= i < ps.len() ==> ps[i].0 != id,
    ensures
        resolve(ps, id) == unknown_player(),
{
    lemma_resolve_from_miss(ps, 0, id);
}

/// An empty directory resolves every identifier to the sentinel.
pub proof fn lemma_resolve_empty(ps: Seq<(Seq<char>, Seq<char>)>, id: Seq<char>)
    requires
        ps.len() == 0,
    ensures
        resolve(ps, id) == unknown_player(),
{
    lemma_resolve_miss(ps, id);
}

} // verus!
