//! Season grouping: splits the summary rows into runs of consecutive
//! rows that share a season, the boundaries at which the per-season
//! data files rotate.

use vstd::prelude::*;
use crate::text::copy_string;
use crate::writer::TournamentData;

verus! {

/// One season's run of consecutive summary rows.
pub struct SeasonGroup {
    pub season: String,
    pub rows: Vec<TournamentData>,
}

pub open spec fn flatten_groups(groups: Seq<SeasonGroup>) -> Seq<TournamentData>
    decreases groups.len(),
{
    if groups.len() == 0 {
        Seq::<TournamentData>::empty()
    } else {
        groups[0].rows@ + flatten_groups(groups.skip(1))
    }
}

/// The grouping law: the groups concatenate back to the rows in order,
/// no group is empty, every row of a group carries the group's season,
/// and neighbouring groups carry different seasons.  These four clauses
/// determine the grouping uniquely.
pub open spec fn is_season_grouping(rows: Seq<TournamentData>, groups: Seq<SeasonGroup>) -> bool {
    &&& flatten_groups(groups) == rows
    &&& forall|k: int| 0 <= k < groups.len() ==> #[trigger] groups[k].rows@.len() > 0
    &&& forall|k: int, j: int|
        0 <= k < groups.len() && 0 <= j < groups[k].rows@.len() ==> (#[trigger] groups[k].rows@[j]).season@
            == groups[k].season@
    &&& forall|k: int|
        0 <= k < groups.len() - 1 ==> (#[trigger] groups[k].season@) != groups[k + 1].season@
}

proof fn lemma_flatten_snoc(groups: Seq<SeasonGroup>, g: SeasonGroup)
    ensures
        flatten_groups(groups.push(g)) == flatten_groups(groups) + g.rows@,
    decreases groups.len(),
{
    if groups.len() == 0 {
        assert(groups.push(g).skip(1) =~= Seq::<SeasonGroup>::empty());
        assert(groups.push(g)[0] == g);
        assert(g.rows@ + flatten_groups(Seq::<SeasonGroup>::empty()) =~= g.rows@);
        assert(flatten_groups(groups) + g.rows@ =~= g.rows@);
    } else {
        assert(groups.push(g).skip(1) =~= groups.skip(1).push(g));
        lemma_flatten_snoc(groups.skip(1), g);
        assert(groups.push(g)[0] == groups[0]);
        assert(groups[0].rows@ + (flatten_groups(groups.skip(1)) + g.rows@) =~= (groups[0].rows@
            + flatten_groups(groups.skip(1))) + g.rows@);
    }
}

/// Groups the summary rows by season, in order: a new group starts
/// wherever the season differs from the previous row's.
pub fn group_by_season(rows: Vec<TournamentData>) -> (groups: Vec<SeasonGroup>)
    ensures
        is_season_grouping(rows@, groups@),
{
    let ghost orig = rows@;
    let mut rest = rows;
    let mut groups: Vec<SeasonGroup> = Vec::new();
    proof {
        assert(flatten_groups(groups@) + rest@ =~= orig);
    }
    while rest.len() > 0
        invariant
            flatten_groups(groups@) + rest@ == orig,
            forall|k: int| 0 <= k < groups@.len() ==> #[trigger] groups@[k].rows@.len() > 0,
            forall|k: int, j: int|
                0 <= k < groups@.len() && 0 <= j < groups@[k].rows@.len() ==> (
                #[trigger] groups@[k].rows@[j]).season@ == groups@[k].season@,
            forall|k: int|
                0 <= k < groups@.len() - 1 ==> (#[trigger] groups@[k].season@) != groups@[k
                    + 1].season@,
        decreases rest.len(),
    {
        let row = rest.remove(0);
        let ghost old_groups = groups@;
        let ghost old_rest_tail = rest@;
        let start_new = if groups.len() == 0 {
            true
        } else {
            let last = &groups[groups.len() - 1];
            !string_eq(&last.season, &row.season)
        };
        if start_new {
            let season = copy_string(&row.season);
            let mut rs: Vec<TournamentData> = Vec::new();
            rs.push(row);
            groups.push(SeasonGroup { season, rows: rs });
            proof {
                lemma_flatten_snoc(old_groups, groups@[groups@.len() - 1]);
                assert(flatten_groups(groups@) =~= flatten_groups(old_groups) + groups@[groups@.len()
                    - 1].rows@);
                assert(flatten_groups(groups@) + rest@ =~= orig);
            }
        } else {
            let mut g = groups.pop().unwrap();
            let ghost popped = old_groups[old_groups.len() - 1];
            g.rows.push(row);
            groups.push(g);
            proof {
                assert(groups@ =~= old_groups.update(
                    old_groups.len() - 1,
                    groups@[groups@.len() - 1],
                ));
                assert(old_groups.take(old_groups.len() - 1) =~= groups@.take(groups@.len() - 1));
                lemma_flatten_snoc(
                    groups@.take(groups@.len() - 1),
                    groups@[groups@.len() - 1],
                );
                lemma_flatten_snoc(old_groups.take(old_groups.len() - 1), popped);
                assert(old_groups.take(old_groups.len() - 1).push(popped) =~= old_groups);
                assert(groups@.take(groups@.len() - 1).push(groups@[groups@.len() - 1])
                    =~= groups@);
                assert(flatten_groups(groups@) + rest@ =~= orig);
            }
        }
        proof {
            assert(forall|k: int|
                0 <= k < groups@.len() - 1 ==> (#[trigger] groups@[k].season@) == old_groups[
                    k
                ].season@ || k == groups@.len() - 1);
        }
    }
    proof {
        assert(rest@ =~= Seq::<TournamentData>::empty());
        assert(flatten_groups(groups@) + rest@ =~= flatten_groups(groups@));
    }
    groups
}

fn string_eq(a: &String, b: &String) -> (r: bool)
    ensures
        r == (a@ == b@),
{
    a.eq(b)
}

} // verus!
