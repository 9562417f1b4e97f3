//! The match-list stage: finds the results table of a tournament page,
//! parses each data row's score, plans the per-game pages a series
//! needs, derives their URLs, and assembles the final match records.

use vstd::prelude::*;
use crate::text::{
    chars_of, contains_chars, contains_seq, copy_string, dec_int, int_operand_ok,
    int_operand_val, i64_to_dec, parse_i32_chars, replace_all_chars, replace_all_spec,
    split_on_char, split_spec, string_from_chars,
};
use crate::score::{parse_score, score_value, valid_score};
use crate::html::{
    lower_of, lowercase, page_captions, page_row_hrefs, page_tables, tables_captions_of,
    tables_cells_of, tables_row_hrefs_of,
};
use crate::rosters::{collected_rosters, data_rows, resolve_rosters};

verus! {

/// A match-list row that cannot be planned: the fatal errors of the
/// match-list stage.
#[derive(Debug, Clone, Copy, PartialEq, Eq, Structural)]
pub enum MatchListError {
    /// A data row of the results table has fewer than three columns, so
    /// it has no score cell.
    MissingScoreColumn,
    /// The score cell does not parse as a series score.
    MalformedScore,
}

/// A summary-page link that yields no per-game URL.
#[derive(Debug, Clone, Copy, PartialEq, Eq, Structural)]
pub enum UrlError {
    /// The rewritten link has no sixth path segment to carry a game id.
    NoGameId,
    /// The sixth path segment is not an integer.
    BadGameId,
}

/// One planned row of the results table: the row's cells, the parsed
/// game count, and the row's summary-page link.
pub struct PlannedMatch {
    pub game_label: String,
    pub first_team_name: String,
    pub score: String,
    pub second_team_name: String,
    pub match_date: String,
    pub game_count: i64,
    pub href: Option<String>,
}

impl View for PlannedMatch {
    type V = (Seq<char>, Seq<char>, Seq<char>, Seq<char>, Seq<char>, int, Option<Seq<char>>);

    open spec fn view(&self) -> Self::V {
        (
            self.game_label@,
            self.first_team_name@,
            self.score@,
            self.second_team_name@,
            self.match_date@,
            self.game_count as int,
            self.href.deep_view(),
        )
    }
}

/// A caption that marks the results table: present, and holding
/// `"results"` once lower-cased.
pub open spec fn results_caption_match(c: Option<Seq<char>>) -> bool {
    c matches Some(t) && contains_seq(lower_of(t), "results"@)
}

/// `k` is the position of the first table whose caption marks it as the
/// results table.
pub open spec fn is_first_results(captions: Seq<Option<Seq<char>>>, k: int) -> bool {
    0 <= k < captions.len() && results_caption_match(captions[k]) && (forall|j: int|
        0 <= j < k ==> !results_caption_match(captions[j]))
}

/// What one well-formed 7-column row plans to.
pub open spec fn mk_planned(c: Seq<Seq<char>>, h: Option<Seq<char>>) -> (
    Seq<char>,
    Seq<char>,
    Seq<char>,
    Seq<char>,
    Seq<char>,
    int,
    Option<Seq<char>>,
) {
    (c[0], c[1], c[2], c[3], c[4], score_value(c[2]), h)
}

/// Plans the data rows of the results table in order: stops with the
/// fatal error of the first bad row; keeps exactly the 7-column rows.
pub open spec fn plan_rows(rows: Seq<Seq<Seq<char>>>, hrefs: Seq<Option<Seq<char>>>) -> Result<
    Seq<(Seq<char>, Seq<char>, Seq<char>, Seq<char>, Seq<char>, int, Option<Seq<char>>)>,
    MatchListError,
>
    decreases rows.len(),
{
    if rows.len() == 0 {
        Ok(Seq::empty())
    } else {
        let c = rows[0];
        if c.len() < 3 {
            Err(MatchListError::MissingScoreColumn)
        } else if !valid_score(c[2]) {
            Err(MatchListError::MalformedScore)
        } else {
            match plan_rows(rows.skip(1), hrefs.skip(1)) {
                Err(e) => Err(e),
                Ok(rest) => if c.len() == 7 {
                    Ok(seq![mk_planned(c, hrefs[0])] + rest)
                } else {
                    Ok(rest)
                },
            }
        }
    }
}

/// The whole plan relates to the remaining rows and the rows already
/// planned as the row loop walks the table.
pub open spec fn plan_step(
    full: Result<
        Seq<(Seq<char>, Seq<char>, Seq<char>, Seq<char>, Seq<char>, int, Option<Seq<char>>)>,
        MatchListError,
    >,
    rem: Result<
        Seq<(Seq<char>, Seq<char>, Seq<char>, Seq<char>, Seq<char>, int, Option<Seq<char>>)>,
        MatchListError,
    >,
    acc: Seq<(Seq<char>, Seq<char>, Seq<char>, Seq<char>, Seq<char>, int, Option<Seq<char>>)>,
) -> bool {
    match rem {
        Err(e) => full == Err::<
            Seq<(Seq<char>, Seq<char>, Seq<char>, Seq<char>, Seq<char>, int, Option<Seq<char>>)>,
            MatchListError,
        >(e),
        Ok(rest) => full == Ok::<
            Seq<(Seq<char>, Seq<char>, Seq<char>, Seq<char>, Seq<char>, int, Option<Seq<char>>)>,
            MatchListError,
        >(acc + rest),
    }
}

fn copy_opt_string(s: &Option<String>) -> (r: Option<String>)
    ensures
        r.deep_view() == s.deep_view(),
{
    match s {
        Some(t) => Some(t.as_str().to_owned()),
        None => None,
    }
}

/// Reads the match-list page: locates the first table whose caption
/// holds `"results"` (case-insensitively) and plans its data rows.  A
/// page without a results table plans no rows.  The first malformed row
/// stops the whole tournament with its error.
pub fn plan_match_rows(page: &str) -> (r: Result<Vec<PlannedMatch>, MatchListError>)
    ensures
        (forall|k: int| !is_first_results(tables_captions_of(page@), k)) ==> (r matches Ok(v)
            && v@.len() == 0),
        forall|k: int|
            #[trigger] is_first_results(tables_captions_of(page@), k) ==> (match r {
                Ok(v) => plan_rows(
                    data_rows(tables_cells_of(page@)[k]),
                    data_rows_hrefs(tables_row_hrefs_of(page@)[k]),
                ) == Ok::<
                    Seq<
                        (
                            Seq<char>,
                            Seq<char>,
                            Seq<char>,
                            Seq<char>,
                            Seq<char>,
                            int,
                            Option<Seq<char>>,
                        ),
                    >,
                    MatchListError,
                >(v@.map_values(|p: PlannedMatch| p@)),
                Err(e) => plan_rows(
                    data_rows(tables_cells_of(page@)[k]),
                    data_rows_hrefs(tables_row_hrefs_of(page@)[k]),
                ) == Err::<
                    Seq<
                        (
                            Seq<char>,
                            Seq<char>,
                            Seq<char>,
                            Seq<char>,
                            Seq<char>,
                            int,
                            Option<Seq<char>>,
                        ),
                    >,
                    MatchListError,
                >(e),
            }),
{
    let tables = page_tables(page);
    let captions = page_captions(page);
    let hrefs = page_row_hrefs(page);
    let ghost tdv = tables.deep_view();
    let ghost cdv = captions.deep_view();
    let ghost hdv = hrefs.deep_view();
    let needle = chars_of("results");
    proof {
        reveal_strlit("results");
    }
    let mut sel: Option<usize> = None;
    let mut k: usize = 0;
    while k < captions.len() && sel.is_none()
        invariant
            k <= captions.len(),
            cdv == captions.deep_view(),
            needle@ == "results"@,
            needle@.len() == 7,
            sel matches Some(t) ==> is_first_results(cdv, t as int),
            sel is None ==> forall|j: int| 0 <= j < k ==> !results_caption_match(cdv[j]),
        decreases captions.len() - k,
    {
        match &captions[k] {
            Some(c) => {
                proof {
                    assert(cdv[k as int] == Some(c@));
                }
                let lc = lowercase(c.as_str());
                let lcv = chars_of(lc.as_str());
                if contains_chars(&lcv, &needle) {
                    sel = Some(k);
                }
            },
            None => {
                proof {
                    assert(cdv[k as int] is None);
                }
            },
        }
        k += 1;
    }
    let t_idx = match sel {
        None => {
            proof {
                assert(forall|j: int| 0 <= j < cdv.len() ==> !results_caption_match(cdv[j]));
            }
            return Ok(Vec::new());
        },
        Some(t) => t,
    };
    let ghost drows = data_rows(tdv[t_idx as int]);
    let ghost dh = data_rows_hrefs(hdv[t_idx as int]);
    proof {
        assert forall|k2: int| #[trigger] is_first_results(cdv, k2) implies k2 == t_idx as int by {
            if k2 < t_idx as int {
                assert(results_caption_match(cdv[k2]));
            } else if k2 > t_idx as int {
                assert(!results_caption_match(cdv[t_idx as int]));
            }
        }
        assert(hdv[t_idx as int].len() == tdv[t_idx as int].len());
    }
    let rows_n = tables[t_idx].len();
    let mut out: Vec<PlannedMatch> = Vec::new();
    let mut i: usize = 1;
    proof {
        if rows_n >= 1 {
            assert(drows =~= tdv[t_idx as int].skip(1));
            assert(dh =~= hdv[t_idx as int].skip(1));
            assert(drows.skip(0) =~= drows);
            assert(dh.skip(0) =~= dh);
        }
        assert(out@.map_values(|p: PlannedMatch| p@) =~= Seq::<
            (Seq<char>, Seq<char>, Seq<char>, Seq<char>, Seq<char>, int, Option<Seq<char>>),
        >::empty());
        if rows_n == 0 {
            assert(drows =~= Seq::<Seq<Seq<char>>>::empty());
        }
    }
    while i < tables[t_idx].len()
        invariant
            1 <= i,
            i - 1 <= drows.len(),
            tables@[t_idx as int]@.len() == tdv[t_idx as int].len(),
            tdv[t_idx as int].len() >= 1 ==> drows.len() == tdv[t_idx as int].len() - 1,
            tdv[t_idx as int].len() == 0 ==> i == 1 && drows.len() == 0,
            t_idx < tables.len(),
            tdv == tables.deep_view(),
            cdv == captions.deep_view(),
            hdv == hrefs.deep_view(),
            tdv == tables_cells_of(page@),
            cdv == tables_captions_of(page@),
            hdv == tables_row_hrefs_of(page@),
            tables@.len() == tdv.len(),
            hdv.len() == tdv.len(),
            hdv[t_idx as int].len() == tdv[t_idx as int].len(),
            is_first_results(cdv, t_idx as int),
            forall|k2: int| #[trigger] is_first_results(cdv, k2) ==> k2 == t_idx as int,
            drows == data_rows(tdv[t_idx as int]),
            dh == data_rows_hrefs(hdv[t_idx as int]),
            tdv[t_idx as int].len() >= 1 ==> drows == tdv[t_idx as int].skip(1) && dh
                == hdv[t_idx as int].skip(1),
            plan_step(
                plan_rows(drows, dh),
                plan_rows(drows.skip(i - 1), dh.skip(i - 1)),
                out@.map_values(|p: PlannedMatch| p@),
            ),
        decreases tdv[t_idx as int].len() - i,
    {
        let ghost rem_rows = drows.skip(i - 1);
        let ghost rem_hrefs = dh.skip(i - 1);
        let ghost c = drows[i - 1];
        proof {
            assert(rem_rows[0] == drows[i - 1]);
            assert(drows[i - 1] == tdv[t_idx as int][i as int]);
            assert(dh[i - 1] == hdv[t_idx as int][i as int]);
            assert(rem_rows.skip(1) =~= drows.skip(i as int));
            assert(rem_hrefs.skip(1) =~= dh.skip(i as int));
            assert(tdv[t_idx as int] == tables@[t_idx as int].deep_view());
            assert(hdv[t_idx as int] == hrefs@[t_idx as int].deep_view());
        }
        let row = &tables[t_idx][i];
        if row.len() < 3 {
            return Err(MatchListError::MissingScoreColumn);
        }
        proof {
            assert(row@[2]@ == c[2]);
        }
        let parsed = parse_score(row[2].as_str());
        let n: i64 = match parsed {
            Err(_) => {
                return Err(MatchListError::MalformedScore);
            },
            Ok(n) => n,
        };
        if row.len() == 7 {
            let ghost old_acc = out@.map_values(|p: PlannedMatch| p@);
            let href = if i < hrefs[t_idx].len() {
                copy_opt_string(&hrefs[t_idx][i])
            } else {
                None
            };
            let planned = PlannedMatch {
                game_label: copy_string(&row[0]),
                first_team_name: copy_string(&row[1]),
                score: copy_string(&row[2]),
                second_team_name: copy_string(&row[3]),
                match_date: copy_string(&row[4]),
                game_count: n,
                href,
            };
            proof {
                assert(planned@ == mk_planned(c, rem_hrefs[0]));
            }
            out.push(planned);
            proof {
                assert(out@.map_values(|p: PlannedMatch| p@) =~= old_acc.push(
                    mk_planned(c, rem_hrefs[0]),
                ));
                assert(old_acc + (seq![mk_planned(c, rem_hrefs[0])] + plan_rows(
                    drows.skip(i as int),
                    dh.skip(i as int),
                )->Ok_0) =~= (old_acc.push(mk_planned(c, rem_hrefs[0]))) + plan_rows(
                    drows.skip(i as int),
                    dh.skip(i as int),
                )->Ok_0);
            }
        }
        i += 1;
    }
    proof {
        if tdv[t_idx as int].len() >= 1 {
            assert(drows.skip(i - 1) =~= Seq::<Seq<Seq<char>>>::empty());
        } else {
            assert(drows.skip(0) =~= drows);
            assert(drows.skip(i - 1) =~= Seq::<Seq<Seq<char>>>::empty());
        }
        let acc = out@.map_values(|p: PlannedMatch| p@);
        assert(acc + Seq::<
            (Seq<char>, Seq<char>, Seq<char>, Seq<char>, Seq<char>, int, Option<Seq<char>>),
        >::empty() =~= acc);
    }
    Ok(out)
}

/// A table's per-row link column without the header row.
pub open spec fn data_rows_hrefs(hrefs: Seq<Option<Seq<char>>>) -> Seq<Option<Seq<char>>> {
    if hrefs.len() == 0 {
        hrefs
    } else {
        hrefs.skip(1)
    }
}

/// The summary-page link rewritten into the per-game page form: the
/// relative prefix replaced by the host, and the `page-summary` segment
/// by `page-game`.
pub open spec fn rewritten_link(href: Seq<char>) -> Seq<char> {
    replace_all_spec(
        replace_all_spec(href, ".."@, "https://gol.gg"@),
        "page-summary"@,
        "page-game"@,
    )
}

pub open spec fn link_segments(href: Seq<char>) -> Seq<Seq<char>> {
    split_spec(rewritten_link(href), '/')
}

/// The rewritten link carries an integer game id as its sixth path
/// segment.
pub open spec fn game_id_ok(href: Seq<char>) -> bool {
    link_segments(href).len() > 5 && int_operand_ok(link_segments(href)[5])
}

pub open spec fn game_id(href: Seq<char>) -> int {
    int_operand_val(link_segments(href)[5])
}

/// The per-game page URL for the game `offset` places after the base id.
pub open spec fn game_url(id: int, offset: int) -> Seq<char> {
    "https://gol.gg/game/stats/"@ + dec_int(id + offset) + "/page-game/"@
}

/// Derives the per-game page URLs of a series from its summary-page
/// link: one URL per game, numbered consecutively from the game id
/// embedded in the link.
pub fn game_page_urls(href: &str, game_count: u64) -> (r: Result<Vec<String>, UrlError>)
    requires
        game_count <= 4294967296,
    ensures
        link_segments(href@).len() <= 5 ==> r == Err::<Vec<String>, UrlError>(UrlError::NoGameId),
        link_segments(href@).len() > 5 && !int_operand_ok(link_segments(href@)[5]) ==> r == Err::<
            Vec<String>,
            UrlError,
        >(UrlError::BadGameId),
        game_id_ok(href@) ==> (r matches Ok(urls) && urls@.len() == game_count && (forall|k: int|
            0 <= k < game_count ==> #[trigger] urls.deep_view()[k] == game_url(game_id(href@), k))),
{
    let v = chars_of(href);
    let dots = chars_of("..");
    let host = chars_of("https://gol.gg");
    let ps = chars_of("page-summary");
    let pg = chars_of("page-game");
    proof {
        reveal_strlit("..");
        reveal_strlit("page-summary");
    }
    let l1 = replace_all_chars(&v, &dots, &host);
    let l2 = replace_all_chars(&l1, &ps, &pg);
    let segs = split_on_char(&l2, '/');
    proof {
        assert(segs.deep_view() == link_segments(href@));
        assert(segs@.len() == segs.deep_view().len());
    }
    if segs.len() <= 5 {
        return Err(UrlError::NoGameId);
    }
    proof {
        assert(segs.deep_view()[5] == segs@[5]@);
    }
    let id: i64 = match parse_i32_chars(&segs[5]) {
        None => {
            return Err(UrlError::BadGameId);
        },
        Some(n) => n,
    };
    let prefix = chars_of("https://gol.gg/game/stats/");
    let suffix = chars_of("/page-game/");
    let mut urls: Vec<String> = Vec::new();
    let mut k: u64 = 0;
    while k < game_count
        invariant
            k <= game_count,
            game_count <= 4294967296,
            -2147483648 <= id <= 2147483647,
            id as int == game_id(href@),
            prefix@ == "https://gol.gg/game/stats/"@,
            suffix@ == "/page-game/"@,
            urls@.len() == k,
            forall|m: int|
                0 <= m < k ==> #[trigger] urls.deep_view()[m] == game_url(game_id(href@), m),
        decreases game_count - k,
    {
        let number: i64 = id + (k as i64);
        let mut u: Vec<char> = Vec::new();
        let mut pre = Vec::new();
        pre.extend_from_slice(prefix.as_slice());
        u.append(&mut pre);
        let mut digits = i64_to_dec(number);
        u.append(&mut digits);
        let mut sfx = Vec::new();
        sfx.extend_from_slice(suffix.as_slice());
        u.append(&mut sfx);
        proof {
            assert(u@ =~= game_url(game_id(href@), k as int));
        }
        let ghost old_urls = urls.deep_view();
        urls.push(string_from_chars(&u));
        proof {
            assert(urls.deep_view() =~~= old_urls.push(u@));
        }
        k += 1;
    }
    Ok(urls)
}

/// The full match record of one match-list row, with the rosters its
/// fetched game pages resolve to.
pub struct MatchRecord {
    pub tournament_name: String,
    pub game_label: String,
    pub first_team_name: String,
    pub score: String,
    pub second_team_name: String,
    pub match_date: String,
    pub first_team_rosters: Vec<Vec<String>>,
    pub second_team_rosters: Vec<Vec<String>>,
}

/// How many per-game pages a planned row asks for: its game count where
/// positive and a summary link exists, else none — a forfeited or
/// link-less row fetches nothing.
pub open spec fn spec_pages_needed(game_count: int, href: Option<Seq<char>>) -> int {
    if game_count > 0 && href is Some {
        game_count
    } else {
        0
    }
}

pub fn pages_needed(p: &PlannedMatch) -> (n: u64)
    ensures
        n as int == spec_pages_needed(p.game_count as int, p.href.deep_view()),
{
    match &p.href {
        Some(_) => if p.game_count > 0 {
            p.game_count as u64
        } else {
            0
        },
        None => 0,
    }
}

/// Assembles one match record: carries the row's cells over and resolves
/// the rosters from the fetched game pages.
pub fn make_match_record(tournament: &str, p: &PlannedMatch, pages: &Vec<String>) -> (r:
    MatchRecord)
    ensures
        r.tournament_name@ == tournament@,
        r.game_label@ == p.game_label@,
        r.first_team_name@ == p.first_team_name@,
        r.score@ == p.score@,
        r.second_team_name@ == p.second_team_name@,
        r.match_date@ == p.match_date@,
        r.first_team_rosters.deep_view() == collected_rosters(
            pages.deep_view(),
            p.first_team_name@,
            p.second_team_name@,
        ).0,
        r.second_team_rosters.deep_view() == collected_rosters(
            pages.deep_view(),
            p.first_team_name@,
            p.second_team_name@,
        ).1,
{
    let resolved = resolve_rosters(pages, p.first_team_name.as_str(), p.second_team_name.as_str());
    MatchRecord {
        tournament_name: tournament.to_owned(),
        game_label: copy_string(&p.game_label),
        first_team_name: copy_string(&p.first_team_name),
        score: copy_string(&p.score),
        second_team_name: copy_string(&p.second_team_name),
        match_date: copy_string(&p.match_date),
        first_team_rosters: resolved.0,
        second_team_rosters: resolved.1,
    }
}

} // verus!
