//! The dataset writer's pure core: normalizes tournament summaries,
//! renders the two fixed-schema delimited files, and derives the
//! per-season file name.

use vstd::prelude::*;
use vstd::string::*;
use crate::codec::{encode_rosters, rosters_text};
use crate::html::{lower_of, lowercase};
use crate::matches::MatchRecord;
use crate::text::{copy_string, dec_digits, string_from_chars, u64_to_dec};

verus! {

/// One delimited record under the default dialect: comma-separated
/// fields, quoted only where needed, ended by a line feed.
pub uninterp spec fn csv_row_of(fields: Seq<Seq<char>>) -> Seq<char>;

/// Relies on `csv::Writer` over an in-memory buffer: `write_record`
/// writes the fields with the default delimiter, quoting and terminator,
/// and `into_inner` hands the buffer back.
#[verifier::external_body]
fn csv_row(fields: &Vec<String>) -> (r: String)
    ensures
        r@ == csv_row_of(fields.deep_view()),
{
    let mut w = csv::Writer::from_writer(Vec::new());
    let _ = w.write_record(fields.iter());
    let _ = w.flush();
    let bytes = w.into_inner().unwrap_or_default();
    String::from_utf8(bytes).unwrap_or_default()
}

/// One tournament summary row, every absent upstream field already
/// normalized to the `"N/A"` sentinel.
pub struct TournamentData {
    pub season: String,
    pub avgtime: String,
    pub firstgame: String,
    pub lastgame: String,
    pub nbgames: String,
    pub region: String,
    pub trname: String,
}

/// An optional upstream field, or the `"N/A"` sentinel where absent.
pub open spec fn or_na(o: Option<Seq<char>>) -> Seq<char> {
    match o {
        Some(s) => s,
        None => "N/A"@,
    }
}

fn unwrap_or_na(o: Option<String>) -> (r: String)
    ensures
        r@ == or_na(o.deep_view()),
{
    match o {
        Some(s) => s,
        None => String::from_str("N/A"),
    }
}

/// Builds one summary row from the listing's optional fields: every
/// absent field becomes the literal `"N/A"`.
pub fn normalize_tournament(
    season: String,
    avgtime: Option<String>,
    firstgame: Option<String>,
    lastgame: Option<String>,
    nbgames: Option<String>,
    region: Option<String>,
    trname: Option<String>,
) -> (t: TournamentData)
    ensures
        t.season@ == season@,
        t.avgtime@ == or_na(avgtime.deep_view()),
        t.firstgame@ == or_na(firstgame.deep_view()),
        t.lastgame@ == or_na(lastgame.deep_view()),
        t.nbgames@ == or_na(nbgames.deep_view()),
        t.region@ == or_na(region.deep_view()),
        t.trname@ == or_na(trname.deep_view()),
{
    TournamentData {
        season,
        avgtime: unwrap_or_na(avgtime),
        firstgame: unwrap_or_na(firstgame),
        lastgame: unwrap_or_na(lastgame),
        nbgames: unwrap_or_na(nbgames),
        region: unwrap_or_na(region),
        trname: unwrap_or_na(trname),
    }
}

pub open spec fn summary_header() -> Seq<Seq<char>> {
    seq![
        "Season"@,
        "AvgTime"@,
        "FirstGame"@,
        "LastGame"@,
        "NbGames"@,
        "Region"@,
        "TournamentName"@,
    ]
}

pub open spec fn summary_fields(t: TournamentData) -> Seq<Seq<char>> {
    seq![t.season@, t.avgtime@, t.firstgame@, t.lastgame@, t.nbgames@, t.region@, t.trname@]
}

pub open spec fn match_header() -> Seq<Seq<char>> {
    seq![
        "tournament_name"@,
        "game_name"@,
        "first_team_name"@,
        "score"@,
        "second_team_name"@,
        "first_team_players"@,
        "second_team_players"@,
    ]
}

/// The fields one match record writes: the row's cells and the two
/// roster columns in the bracketed text format.
pub open spec fn match_fields(m: MatchRecord) -> Seq<Seq<char>> {
    seq![
        m.tournament_name@,
        m.game_label@,
        m.first_team_name@,
        m.score@,
        m.second_team_name@,
        rosters_text(m.first_team_rosters.deep_view()),
        rosters_text(m.second_team_rosters.deep_view()),
    ]
}

/// The delimited records of the given field rows, concatenated in order.
pub open spec fn csv_rows(rows: Seq<Seq<Seq<char>>>) -> Seq<char>
    decreases rows.len(),
{
    if rows.len() == 0 {
        Seq::<char>::empty()
    } else {
        csv_row_of(rows[0]) + csv_rows(rows.skip(1))
    }
}

proof fn lemma_csv_rows_snoc(rows: Seq<Seq<Seq<char>>>, row: Seq<Seq<char>>)
    ensures
        csv_rows(rows.push(row)) == csv_rows(rows) + csv_row_of(row),
    decreases rows.len(),
{
    if rows.len() == 0 {
        assert(rows.push(row).skip(1) =~= Seq::<Seq<Seq<char>>>::empty());
        assert(csv_rows(rows.push(row).skip(1)) =~= Seq::<char>::empty());
        assert(rows.push(row)[0] == row);
        assert(csv_row_of(row) + Seq::<char>::empty() =~= csv_row_of(row));
        assert(csv_rows(rows) + csv_row_of(row) =~= csv_row_of(row));
        assert(csv_rows(rows.push(row)) =~= csv_rows(rows) + csv_row_of(row));
    } else {
        assert(rows.push(row).skip(1) =~= rows.skip(1).push(row));
        lemma_csv_rows_snoc(rows.skip(1), row);
        assert(rows.push(row)[0] == rows[0]);
        assert(csv_row_of(rows[0]) + (csv_rows(rows.skip(1)) + csv_row_of(row)) =~= (csv_row_of(
            rows[0],
        ) + csv_rows(rows.skip(1))) + csv_row_of(row));
    }
}

/// The full text of the tournament summary file: the fixed header row,
/// then one record per tournament.
pub fn tournaments_csv(ts: &Vec<TournamentData>) -> (r: String)
    ensures
        r@ == csv_rows(
            seq![summary_header()] + ts@.map_values(|t: TournamentData| summary_fields(t)),
        ),
{
    let ghost all = seq![summary_header()] + ts@.map_values(|t: TournamentData| summary_fields(t));
    let mut header: Vec<String> = Vec::new();
    header.push(String::from_str("Season"));
    header.push(String::from_str("AvgTime"));
    header.push(String::from_str("FirstGame"));
    header.push(String::from_str("LastGame"));
    header.push(String::from_str("NbGames"));
    header.push(String::from_str("Region"));
    header.push(String::from_str("TournamentName"));
    proof {
        assert(header.deep_view() =~~= summary_header());
    }
    let mut out = csv_row(&header);
    let mut i: usize = 0;
    proof {
        assert(all.take(1) =~= seq![summary_header()]);
        assert(all.take(1).skip(1) =~= Seq::<Seq<Seq<char>>>::empty());
        assert(csv_row_of(summary_header()) + Seq::<char>::empty() =~= csv_row_of(
            summary_header(),
        ));
        assert(out@ == csv_row_of(summary_header()));
        assert(all.take(1)[0] == summary_header());
        assert(csv_rows(all.take(1).skip(1)) =~= Seq::<char>::empty());
        assert(csv_rows(all.take(1)) == csv_row_of(all.take(1)[0]) + csv_rows(all.take(1).skip(1)));
        assert(out@ == csv_rows(all.take(1)));
    }
    while i < ts.len()
        invariant
            i <= ts.len(),
            all == seq![summary_header()] + ts@.map_values(|t: TournamentData| summary_fields(t)),
            all.len() == 1 + ts@.len(),
            out@ == csv_rows(all.take(1 + i as int)),
        decreases ts.len() - i,
    {
        let t = &ts[i];
        let mut fields: Vec<String> = Vec::new();
        fields.push(copy_string(&t.season));
        fields.push(copy_string(&t.avgtime));
        fields.push(copy_string(&t.firstgame));
        fields.push(copy_string(&t.lastgame));
        fields.push(copy_string(&t.nbgames));
        fields.push(copy_string(&t.region));
        fields.push(copy_string(&t.trname));
        proof {
            assert(fields.deep_view() =~~= summary_fields(ts@[i as int]));
            assert(all[1 + i as int] == summary_fields(ts@[i as int]));
        }
        let row = csv_row(&fields);
        out.append(row.as_str());
        proof {
            lemma_csv_rows_snoc(all.take(1 + i as int), all[1 + i as int]);
            assert(all.take(1 + i as int).push(all[1 + i as int]) =~= all.take(2 + i as int));
        }
        i += 1;
    }
    proof {
        assert(all.take(1 + ts@.len() as int) =~= all);
    }
    out
}

/// The full text of one per-season data file: the fixed header row, then
/// one record per match.
pub fn season_csv(ms: &Vec<MatchRecord>) -> (r: String)
    ensures
        r@ == csv_rows(seq![match_header()] + ms@.map_values(|m: MatchRecord| match_fields(m))),
{
    let ghost all = seq![match_header()] + ms@.map_values(|m: MatchRecord| match_fields(m));
    let mut header: Vec<String> = Vec::new();
    header.push(String::from_str("tournament_name"));
    header.push(String::from_str("game_name"));
    header.push(String::from_str("first_team_name"));
    header.push(String::from_str("score"));
    header.push(String::from_str("second_team_name"));
    header.push(String::from_str("first_team_players"));
    header.push(String::from_str("second_team_players"));
    proof {
        assert(header.deep_view() =~~= match_header());
    }
    let mut out = csv_row(&header);
    let mut i: usize = 0;
    proof {
        assert(all.take(1) =~= seq![match_header()]);
        assert(all.take(1).skip(1) =~= Seq::<Seq<Seq<char>>>::empty());
        assert(csv_row_of(match_header()) + Seq::<char>::empty() =~= csv_row_of(match_header()));
        assert(out@ == csv_row_of(match_header()));
        assert(all.take(1)[0] == match_header());
        assert(csv_rows(all.take(1).skip(1)) =~= Seq::<char>::empty());
        assert(csv_rows(all.take(1)) == csv_row_of(all.take(1)[0]) + csv_rows(all.take(1).skip(1)));
        assert(out@ == csv_rows(all.take(1)));
    }
    while i < ms.len()
        invariant
            i <= ms.len(),
            all == seq![match_header()] + ms@.map_values(|m: MatchRecord| match_fields(m)),
            all.len() == 1 + ms@.len(),
            out@ == csv_rows(all.take(1 + i as int)),
        decreases ms.len() - i,
    {
        let m = &ms[i];
        let mut fields: Vec<String> = Vec::new();
        fields.push(copy_string(&m.tournament_name));
        fields.push(copy_string(&m.game_label));
        fields.push(copy_string(&m.first_team_name));
        fields.push(copy_string(&m.score));
        fields.push(copy_string(&m.second_team_name));
        fields.push(encode_rosters(&m.first_team_rosters));
        fields.push(encode_rosters(&m.second_team_rosters));
        proof {
            assert(fields.deep_view() =~~= match_fields(ms@[i as int]));
            assert(all[1 + i as int] == match_fields(ms@[i as int]));
        }
        let row = csv_row(&fields);
        out.append(row.as_str());
        proof {
            lemma_csv_rows_snoc(all.take(1 + i as int), all[1 + i as int]);
            assert(all.take(1 + i as int).push(all[1 + i as int]) =~= all.take(2 + i as int));
        }
        i += 1;
    }
    proof {
        assert(all.take(1 + ms@.len() as int) =~= all);
    }
    out
}

/// The per-season file name: the lower-cased season label with the
/// `_data.csv` suffix.
pub fn season_file_name(season: &str) -> (r: String)
    ensures
        r@ == lower_of(season@) + "_data.csv"@,
{
    lowercase(season).concat("_data.csv")
}

/// The label of a numbered season, `S` followed by its number.
pub fn season_label(n: u64) -> (r: String)
    ensures
        r@ == seq!['S'] + dec_digits(n as nat),
{
    let mut v: Vec<char> = Vec::new();
    v.push('S');
    let mut d = u64_to_dec(n);
    v.append(&mut d);
    proof {
        assert(v@ =~= seq!['S'] + dec_digits(n as nat));
    }
    string_from_chars(&v)
}

} // verus!
