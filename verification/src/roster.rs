//! Roster lookups. A match may reference a player id that is no longer on the
//! roster: such a reference resolves to the placeholder name "Unknown",
//! never to an error.

use vstd::prelude::*;

use crate::models::Player;

verus! {

/// The display name the roster resolves `id` to: the name of the first
/// roster entry with that id, or "Unknown" when there is none.
pub open spec fn name_of(ps: Seq<Player>, id: Seq<char>) -> Seq<char>
    decreases ps.len(),
{
    if ps.len() == 0 {
        "Unknown"@
    } else if ps[0].id@ == id {
        ps[0].name@
    } else {
        name_of(ps.drop_first(), id)
    }
}

/// Whether some roster entry carries `id`.
pub open spec fn in_roster(ps: Seq<Player>, id: Seq<char>) -> bool {
    exists|j: int| 0 <= j < ps.len() && ps[j].id@ == id
}

/// A prefix without the id leaves the lookup to the rest.
proof fn lemma_name_of_skip(ps: Seq<Player>, id: Seq<char>, i: int)
    requires
        0 <= i <= ps.len(),
        forall|j: int| 0 <= j < i ==> ps[j].id@ != id,
    ensures
        name_of(ps, id) == name_of(ps.skip(i), id),
    decreases i,
{
    if i == 0 {
        assert(ps.skip(0) =~= ps);
    } else {
        lemma_name_of_skip(ps.drop_first(), id, i - 1);
        assert(ps.drop_first().skip(i - 1) =~= ps.skip(i));
    }
}

/// The display name for `id`: the first matching roster entry's name, or the
/// placeholder "Unknown" for an id the roster does not hold.
pub fn display_name(ps: &Vec<Player>, id: &String) -> (r: String)
    ensures
        r@ == name_of(ps@, id@),
        in_roster(ps@, id@) || r@ == "Unknown"@,
{
    let n = ps.len();
    let mut i: usize = 0;
    while i < n
        invariant
            0 <= i <= n,
            n == ps@.len(),
            forall|j: int| 0 <= j < i ==> ps@[j].id@ != id@,
        decreases n - i,
    {
        if ps[i].id == *id {
            proof {
                lemma_name_of_skip(ps@, id@, i as int);
                assert(ps@.skip(i as int)[0] == ps@[i as int]);
            }
            return ps[i].name.clone();
        }
        i = i + 1;
    }
    proof {
        lemma_name_of_skip(ps@, id@, i as int);
        assert(ps@.skip(i as int).len() == 0);
    }
    "Unknown".to_owned()
}

/// Whether the roster holds a player with this id.
pub fn roster_has(ps: &Vec<Player>, id: &String) -> (r: bool)
    ensures
        r == in_roster(ps@, id@),
{
    let n = ps.len();
    let mut i: usize = 0;
    while i < n
        invariant
            0 <= i <= n,
            n == ps@.len(),
            forall|j: int| 0 <= j < i ==> ps@[j].id@ != id@,
        decreases n - i,
    {
        if ps[i].id == *id {
            return true;
        }
        i = i + 1;
    }
    false
}

/// The first roster entry with this id, or `None` when the roster lacks it.
pub fn find_player(ps: &Vec<Player>, id: &String) -> (r: Option<Player>)
    ensures
        r is Some <==> in_roster(ps@, id@),
        r is Some ==> exists|j: int|
            0 <= j < ps@.len() && ps@[j] == r->Some_0 && #[trigger] ps@[j].id@ == id@,
{
    let n = ps.len();
    let mut i: usize = 0;
    while i < n
        invariant
            0 <= i <= n,
            n == ps@.len(),
            forall|j: int| 0 <= j < i ==> ps@[j].id@ != id@,
        decreases n - i,
    {
        if ps[i].id == *id {
            return Some(ps[i].duplicate());
        }
        i = i + 1;
    }
    None
}

} // verus!
