//! Roster extraction and attribution: reads the two positional roster
//! tables out of a game page and binds each to the right team by the
//! order of the teams' `"<team> stats"` anchors.

use vstd::prelude::*;
use crate::text::{chars_of, string_from_chars, trim_chars, trim_spec};
use crate::html::{anchor_titles_of, page_anchor_titles, page_tables, tables_cells_of};

verus! {

/// The player names a roster table yields: every data row's first cell,
/// trimmed, skipping the `Player` header rows and rows without cells.
pub open spec fn player_col(rows: Seq<Seq<Seq<char>>>) -> Seq<Seq<char>>
    decreases rows.len(),
{
    if rows.len() == 0 {
        Seq::<Seq<char>>::empty()
    } else {
        let rest = player_col(rows.skip(1));
        if rows[0].len() == 0 {
            rest
        } else if rows[0][0] == "Player"@ {
            rest
        } else {
            seq![trim_spec(rows[0][0])] + rest
        }
    }
}

/// A table's data rows: all but the header row.
pub open spec fn data_rows(rows: Seq<Seq<Seq<char>>>) -> Seq<Seq<Seq<char>>> {
    if rows.len() == 0 {
        rows
    } else {
        rows.skip(1)
    }
}

/// The roster the table at position `k` of the page yields, or no names
/// where the page has no such table.  The first row is the header and is
/// skipped.
pub open spec fn roster_at(tables: Seq<Seq<Seq<Seq<char>>>>, k: int) -> Seq<Seq<char>> {
    if 0 <= k < tables.len() {
        player_col(data_rows(tables[k]))
    } else {
        Seq::<Seq<char>>::empty()
    }
}

/// The anchor title that marks a team's roster table.
pub open spec fn stats_title(team: Seq<char>) -> Seq<char> {
    team + " stats"@
}

/// Walks the anchor titles in document order and gives each team the
/// rank (0 or 1) of its first matching `"<team> stats"` title among the
/// matches seen.
pub open spec fn ranks_from(
    titles: Seq<Option<Seq<char>>>,
    p1: Seq<char>,
    p2: Seq<char>,
    idx: nat,
    r1: Option<nat>,
    r2: Option<nat>,
) -> (Option<nat>, Option<nat>)
    decreases titles.len(),
{
    if titles.len() == 0 {
        (r1, r2)
    } else if titles[0] == Some(p1) && r1 is None {
        ranks_from(titles.skip(1), p1, p2, idx + 1, Some(idx), r2)
    } else if titles[0] == Some(p2) && r2 is None {
        ranks_from(titles.skip(1), p1, p2, idx + 1, r1, Some(idx))
    } else {
        ranks_from(titles.skip(1), p1, p2, idx, r1, r2)
    }
}

pub open spec fn team_ranks(titles: Seq<Option<Seq<char>>>, t1: Seq<char>, t2: Seq<char>) -> (
    Option<nat>,
    Option<nat>,
) {
    ranks_from(titles, stats_title(t1), stats_title(t2), 0, None, None)
}

/// The roster table a rank picks: the first positional table for rank 0,
/// the second for rank 1, none where the team's anchor was not found.
pub open spec fn pick_table(tables: Seq<Seq<Seq<Seq<char>>>>, rank: Option<nat>) -> Option<
    Seq<Seq<char>>,
> {
    match rank {
        Some(k) => if k == 0 {
            Some(roster_at(tables, 0))
        } else if k == 1 {
            Some(roster_at(tables, 1))
        } else {
            None
        },
        None => None,
    }
}

/// What one game page resolves to for the two teams.
pub open spec fn game_attribution(page: Seq<char>, t1: Seq<char>, t2: Seq<char>) -> (
    Option<Seq<Seq<char>>>,
    Option<Seq<Seq<char>>>,
) {
    let tables = tables_cells_of(page);
    let r = team_ranks(anchor_titles_of(page), t1, t2);
    (pick_table(tables, r.0), pick_table(tables, r.1))
}

proof fn lemma_player_col_snoc(rows: Seq<Seq<Seq<char>>>, row: Seq<Seq<char>>)
    ensures
        player_col(rows.push(row)) == player_col(rows) + (if row.len() == 0 {
            Seq::<Seq<char>>::empty()
        } else if row[0] == "Player"@ {
            Seq::<Seq<char>>::empty()
        } else {
            seq![trim_spec(row[0])]
        }),
    decreases rows.len(),
{
    let tail = if row.len() == 0 {
        Seq::<Seq<char>>::empty()
    } else if row[0] == "Player"@ {
        Seq::<Seq<char>>::empty()
    } else {
        seq![trim_spec(row[0])]
    };
    if rows.len() == 0 {
        assert(rows.push(row).skip(1) =~= Seq::<Seq<Seq<char>>>::empty());
        assert(player_col(rows.push(row).skip(1)) =~= Seq::<Seq<char>>::empty());
        assert(rows.push(row)[0] == row);
        assert(player_col(rows) + tail =~= tail);
        assert(player_col(rows.push(row)) =~= tail);
    } else {
        assert(rows.push(row).skip(1) =~= rows.skip(1).push(row));
        lemma_player_col_snoc(rows.skip(1), row);
        assert(rows.push(row)[0] == rows[0]);
        if rows[0].len() == 0 || rows[0][0] == "Player"@ {
        } else {
            assert(seq![trim_spec(rows[0][0])] + (player_col(rows.skip(1)) + tail) =~= (seq![
                trim_spec(rows[0][0]),
            ] + player_col(rows.skip(1))) + tail);
        }
    }
}

fn eq_chars(a: &Vec<char>, b: &Vec<char>) -> (r: bool)
    ensures
        r == (a@ == b@),
{
    if a.len() != b.len() {
        return false;
    }
    let mut i: usize = 0;
    while i < a.len()
        invariant
            a@.len() == b@.len(),
            i <= a.len(),
            forall|j: int| 0 <= j < i ==> a@[j] == b@[j],
        decreases a.len() - i,
    {
        if a[i] != b[i] {
            return false;
        }
        i += 1;
    }
    proof {
        assert(a@ =~= b@);
    }
    true
}

/// Reads the player column out of one roster table's rows.
fn roster_from_table(rows: &Vec<Vec<String>>) -> (r: Vec<String>)
    ensures
        r.deep_view() == player_col(data_rows(rows.deep_view())),
{
    let ghost dv = rows.deep_view();
    let header = chars_of("Player");
    let mut r: Vec<String> = Vec::new();
    let mut i: usize = 1;
    proof {
        assert(dv.skip(1).take(0) =~= Seq::<Seq<Seq<char>>>::empty());
        assert(r.deep_view() =~= player_col(dv.skip(1).take(0)));
    }
    if rows.len() < 1 {
        proof {
            assert(r.deep_view() =~= player_col(data_rows(dv)));
        }
        return r;
    }
    while i < rows.len()
        invariant
            1 <= i <= rows.len(),
            dv == rows.deep_view(),
            header@ == "Player"@,
            r.deep_view() == player_col(dv.skip(1).take(i - 1)),
        decreases rows.len() - i,
    {
        let ghost prefix = dv.skip(1).take(i - 1);
        let ghost row = dv.skip(1)[i - 1];
        proof {
            assert(prefix.push(row) =~= dv.skip(1).take(i as int));
            assert(row == dv[i as int]);
        }
        let ghost old_r = r.deep_view();
        if rows[i].len() > 0 {
            let cell = chars_of(rows[i][0].as_str());
            proof {
                assert(cell@ == dv[i as int][0]);
            }
            if !eq_chars(&cell, &header) {
                let trimmed = trim_chars(&cell);
                r.push(string_from_chars(&trimmed));
                proof {
                    assert(r.deep_view() =~= old_r.push(trim_spec(row[0])));
                }
            }
        }
        proof {
            lemma_player_col_snoc(prefix, row);
            assert(r.deep_view() =~= player_col(dv.skip(1).take(i as int)));
        }
        i += 1;
    }
    proof {
        assert(dv.skip(1).take(i - 1) =~= dv.skip(1));
        assert(data_rows(dv) == dv.skip(1));
    }
    r
}

/// Resolves one game page: extracts the two positional roster tables and
/// binds each to a team by the order of the teams' stats anchors.
pub fn game_rosters(page: &str, team1: &str, team2: &str) -> (r: (
    Option<Vec<String>>,
    Option<Vec<String>>,
))
    ensures
        r.0.deep_view() == game_attribution(page@, team1@, team2@).0,
        r.1.deep_view() == game_attribution(page@, team1@, team2@).1,
{
    let tables = page_tables(page);
    let titles = page_anchor_titles(page);
    let ghost tdv = tables.deep_view();
    let ghost titdv = titles.deep_view();
    let mut p1 = chars_of(team1);
    let suffix = chars_of(" stats");
    let mut p2 = chars_of(team2);
    let mut sfx1 = Vec::new();
    sfx1.extend_from_slice(suffix.as_slice());
    p1.append(&mut sfx1);
    let mut sfx2 = Vec::new();
    sfx2.extend_from_slice(suffix.as_slice());
    p2.append(&mut sfx2);
    proof {
        assert(p1@ == stats_title(team1@));
        assert(p2@ == stats_title(team2@));
    }
    let mut idx: u64 = 0;
    let mut r1: Option<u64> = None;
    let mut r2: Option<u64> = None;
    let mut i: usize = 0;
    let ghost gr = team_ranks(titdv, team1@, team2@);
    proof {
        assert(titdv.skip(0) =~= titdv);
    }
    while i < titles.len()
        invariant
            i <= titles.len(),
            titdv == titles.deep_view(),
            p1@ == stats_title(team1@),
            p2@ == stats_title(team2@),
            idx == (if r1 is Some {
                1u64
            } else {
                0u64
            }) + (if r2 is Some {
                1u64
            } else {
                0u64
            }),
            r1 matches Some(k) ==> k < idx,
            r2 matches Some(k) ==> k < idx,
            match (r1, r2) {
                (Some(k1), Some(k2)) => k1 != k2,
                _ => true,
            },
            gr == ranks_from(
                titdv.skip(i as int),
                p1@,
                p2@,
                idx as nat,
                match r1 {
                    Some(k) => Some(k as nat),
                    None => None,
                },
                match r2 {
                    Some(k) => Some(k as nat),
                    None => None,
                },
            ),
        decreases titles.len() - i,
    {
        proof {
            assert(titdv.skip(i as int)[0] == titdv[i as int]);
            assert(titdv.skip(i as int).skip(1) =~= titdv.skip(i as int + 1));
        }
        match &titles[i] {
            Some(t) => {
                let tc = chars_of(t.as_str());
                proof {
                    assert(titdv[i as int] == Some(t@));
                }
                if r1.is_none() && eq_chars(&tc, &p1) {
                    r1 = Some(idx);
                    idx += 1;
                } else if r2.is_none() && eq_chars(&tc, &p2) {
                    r2 = Some(idx);
                    idx += 1;
                }
            },
            None => {},
        }
        i += 1;
    }
    proof {
        assert(titdv.skip(titdv.len() as int) =~= Seq::<Option<Seq<char>>>::empty());
        assert(gr == (
            match r1 {
                Some(k) => Some(k as nat),
                None => None,
            },
            match r2 {
                Some(k) => Some(k as nat),
                None => None,
            },
        ));
    }
    let a = if tables.len() > 0 {
        roster_from_table(&tables[0])
    } else {
        Vec::new()
    };
    let b = if tables.len() > 1 {
        roster_from_table(&tables[1])
    } else {
        Vec::new()
    };
    proof {
        if tables.len() > 0 {
            assert(tdv[0] == tables@[0].deep_view());
        }
        if tables.len() > 1 {
            assert(tdv[1] == tables@[1].deep_view());
        }
        assert(a.deep_view() == roster_at(tdv, 0));
        assert(b.deep_view() == roster_at(tdv, 1));
    }
    match (r1, r2) {
        (Some(x), Some(_)) => {
            if x == 0 {
                (Some(a), Some(b))
            } else {
                (Some(b), Some(a))
            }
        },
        (Some(_), None) => (Some(a), None),
        (None, Some(_)) => (None, Some(a)),
        (None, None) => (None, None),
    }
}

/// The per-game roster sequences the pages of one series resolve to:
/// each page appends its attributed roster, where one was attributed, to
/// each team's running sequence.
pub open spec fn collect_rec(
    pages: Seq<Seq<char>>,
    t1: Seq<char>,
    t2: Seq<char>,
    acc1: Seq<Seq<Seq<char>>>,
    acc2: Seq<Seq<Seq<char>>>,
) -> (Seq<Seq<Seq<char>>>, Seq<Seq<Seq<char>>>)
    decreases pages.len(),
{
    if pages.len() == 0 {
        (acc1, acc2)
    } else {
        let att = game_attribution(pages[0], t1, t2);
        let acc1n = match att.0 {
            Some(ro) => acc1.push(ro),
            None => acc1,
        };
        let acc2n = match att.1 {
            Some(ro) => acc2.push(ro),
            None => acc2,
        };
        collect_rec(pages.skip(1), t1, t2, acc1n, acc2n)
    }
}

pub open spec fn collected_rosters(pages: Seq<Seq<char>>, t1: Seq<char>, t2: Seq<char>) -> (
    Seq<Seq<Seq<char>>>,
    Seq<Seq<Seq<char>>>,
) {
    collect_rec(
        pages,
        t1,
        t2,
        Seq::<Seq<Seq<char>>>::empty(),
        Seq::<Seq<Seq<char>>>::empty(),
    )
}

/// Walks the fetched game pages of one series in order and gathers each
/// team's per-game rosters.
pub fn resolve_rosters(pages: &Vec<String>, team1: &str, team2: &str) -> (r: (
    Vec<Vec<String>>,
    Vec<Vec<String>>,
))
    ensures
        r.0.deep_view() == collected_rosters(pages.deep_view(), team1@, team2@).0,
        r.1.deep_view() == collected_rosters(pages.deep_view(), team1@, team2@).1,
{
    let ghost pdv = pages.deep_view();
    let ghost goal = collected_rosters(pdv, team1@, team2@);
    let mut out1: Vec<Vec<String>> = Vec::new();
    let mut out2: Vec<Vec<String>> = Vec::new();
    let mut i: usize = 0;
    proof {
        assert(pdv.skip(0) =~= pdv);
        assert(out1.deep_view() =~~= Seq::<Seq<Seq<char>>>::empty());
        assert(out2.deep_view() =~~= Seq::<Seq<Seq<char>>>::empty());
    }
    while i < pages.len()
        invariant
            i <= pages.len(),
            pdv == pages.deep_view(),
            goal == collect_rec(
                pdv.skip(i as int),
                team1@,
                team2@,
                out1.deep_view(),
                out2.deep_view(),
            ),
        decreases pages.len() - i,
    {
        let ghost o1 = out1.deep_view();
        let ghost o2 = out2.deep_view();
        proof {
            assert(pdv.skip(i as int)[0] == pdv[i as int]);
            assert(pdv[i as int] == pages@[i as int]@);
            assert(pdv.skip(i as int).skip(1) =~= pdv.skip(i as int + 1));
        }
        let page = &pages[i];
        let got = game_rosters(page.as_str(), team1, team2);
        let ghost att = game_attribution(pdv[i as int], team1@, team2@);
        match got.0 {
            Some(ro) => {
                out1.push(ro);
                proof {
                    assert(out1.deep_view() =~~= o1.push(att.0.unwrap()));
                }
            },
            None => {},
        }
        match got.1 {
            Some(ro) => {
                out2.push(ro);
                proof {
                    assert(out2.deep_view() =~~= o2.push(att.1.unwrap()));
                }
            },
            None => {},
        }
        i += 1;
    }
    proof {
        assert(pdv.skip(pdv.len() as int) =~= Seq::<Seq<char>>::empty());
    }
    (out1, out2)
}

proof fn lemma_ranks_settled(
    titles: Seq<Option<Seq<char>>>,
    p1: Seq<char>,
    p2: Seq<char>,
    idx: nat,
    a: nat,
    b: nat,
)
    ensures
        ranks_from(titles, p1, p2, idx, Some(a), Some(b)) == (Some(a), Some(b)),
    decreases titles.len(),
{
    if titles.len() > 0 {
        lemma_ranks_settled(titles.skip(1), p1, p2, idx, a, b);
    }
}

proof fn lemma_ranks_second(titles: Seq<Option<Seq<char>>>, p1: Seq<char>, p2: Seq<char>, j: int)
    requires
        0 <= j < titles.len(),
        titles[j] == Some(p2),
        forall|k: int| 0 <= k < j ==> titles[k] != Some(p2),
    ensures
        ranks_from(titles, p1, p2, 1, Some(0nat), None) == (Some(0nat), Some(1nat)),
    decreases j,
{
    if j == 0 {
        lemma_ranks_settled(titles.skip(1), p1, p2, 2, 0, 1);
    } else {
        assert(titles[0] != Some(p2));
        lemma_ranks_second(titles.skip(1), p1, p2, j - 1);
        assert(forall|k: int| 0 <= k < j - 1 ==> titles.skip(1)[k] == titles[k + 1]);
    }
}

/// Roster attribution goes by the order of the stats anchors alone:
/// where the first team's `"<team> stats"` anchor stands before the
/// second team's in document order, and no earlier anchor matches
/// either team, the first team is bound to the first positional roster
/// table and the second team to the second, whatever the tables' own
/// order suggests.
pub proof fn lemma_attribution_order(
    titles: Seq<Option<Seq<char>>>,
    t1: Seq<char>,
    t2: Seq<char>,
    i: int,
    j: int,
)
    requires
        0 <= i < j < titles.len(),
        titles[i] == Some(stats_title(t1)),
        titles[j] == Some(stats_title(t2)),
        forall|k: int|
            0 <= k < i ==> titles[k] != Some(stats_title(t1)) && titles[k] != Some(
                stats_title(t2),
            ),
        forall|k: int| i < k < j ==> titles[k] != Some(stats_title(t2)),
    ensures
        team_ranks(titles, t1, t2) == (Some(0nat), Some(1nat)),
    decreases i,
{
    let p1 = stats_title(t1);
    let p2 = stats_title(t2);
    if i == 0 {
        assert(titles[0] == Some(p1));
        assert(forall|k: int| 0 <= k < j - 1 ==> titles.skip(1)[k] == titles[k + 1]);
        lemma_ranks_second(titles.skip(1), p1, p2, j - 1);
    } else {
        assert(titles[0] != Some(p1) && titles[0] != Some(p2));
        assert(forall|k: int| 0 <= k < titles.len() - 1 ==> titles.skip(1)[k] == titles[k + 1]);
        lemma_attribution_order(titles.skip(1), t1, t2, i - 1, j - 1);
    }
}


proof fn lemma_collect_len(
    pages: Seq<Seq<char>>,
    t1: Seq<char>,
    t2: Seq<char>,
    acc1: Seq<Seq<Seq<char>>>,
    acc2: Seq<Seq<Seq<char>>>,
)
    requires
        forall|i: int|
            0 <= i < pages.len() ==> (#[trigger] game_attribution(pages[i], t1, t2)).0 is Some
                && game_attribution(pages[i], t1, t2).1 is Some,
    ensures
        collect_rec(pages, t1, t2, acc1, acc2).0.len() == acc1.len() + pages.len(),
        collect_rec(pages, t1, t2, acc1, acc2).1.len() == acc2.len() + pages.len(),
    decreases pages.len(),
{
    if pages.len() > 0 {
        assert(game_attribution(pages[0], t1, t2).0 is Some);
        assert(forall|i: int|
            0 <= i < pages.skip(1).len() ==> pages.skip(1)[i] == pages[i + 1]);
        let att = game_attribution(pages[0], t1, t2);
        lemma_collect_len(pages.skip(1), t1, t2, acc1.push(att.0.unwrap()), acc2.push(att.1.unwrap()));
    }
}

/// The record-shape invariant: where every game page of a series
/// resolves a roster for both teams, each team ends with exactly one
/// roster per fetched game page.
pub proof fn lemma_full_resolution_length(pages: Seq<Seq<char>>, t1: Seq<char>, t2: Seq<char>)
    requires
        forall|i: int|
            0 <= i < pages.len() ==> (#[trigger] game_attribution(pages[i], t1, t2)).0 is Some
                && game_attribution(pages[i], t1, t2).1 is Some,
    ensures
        collected_rosters(pages, t1, t2).0.len() == pages.len(),
        collected_rosters(pages, t1, t2).1.len() == pages.len(),
{
    lemma_collect_len(
        pages,
        t1,
        t2,
        Seq::<Seq<Seq<char>>>::empty(),
        Seq::<Seq<Seq<char>>>::empty(),
    );
}

} // verus!
