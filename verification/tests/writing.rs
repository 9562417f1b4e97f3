use golstats::matches::MatchRecord;
use golstats::seasons::group_by_season;
use golstats::writer::{
    normalize_tournament, season_csv, season_file_name, season_label, tournaments_csv,
    TournamentData,
};

fn summary(season: &str, trname: &str) -> TournamentData {
    normalize_tournament(
        season.to_string(),
        None,
        None,
        None,
        None,
        Some("EU".to_string()),
        Some(trname.to_string()),
    )
}

#[test]
fn absent_fields_become_the_sentinel() {
    let t = summary("S7", "Cup");
    assert_eq!(t.avgtime, "N/A");
    assert_eq!(t.firstgame, "N/A");
    assert_eq!(t.lastgame, "N/A");
    assert_eq!(t.nbgames, "N/A");
    assert_eq!(t.region, "EU");
    assert_eq!(t.trname, "Cup");
}

#[test]
fn summary_file_has_fixed_schema_and_sentinels() {
    let rows = vec![summary("S7", "Cup")];
    let text = tournaments_csv(&rows);
    assert_eq!(
        text,
        "Season,AvgTime,FirstGame,LastGame,NbGames,Region,TournamentName\nS7,N/A,N/A,N/A,N/A,EU,Cup\n"
    );
}

#[test]
fn fields_with_commas_are_quoted() {
    let mut t = summary("S7", "Cup");
    t.trname = "Battle, the Sequel".to_string();
    let text = tournaments_csv(&vec![t]);
    assert!(text.ends_with("S7,N/A,N/A,N/A,N/A,EU,\"Battle, the Sequel\"\n"));
}

#[test]
fn season_file_name_is_lower_cased() {
    assert_eq!(season_file_name("S3"), "s3_data.csv");
    assert_eq!(season_file_name("S14"), "s14_data.csv");
}

#[test]
fn season_labels_are_numbered() {
    assert_eq!(season_label(3), "S3");
    assert_eq!(season_label(14), "S14");
}

#[test]
fn season_rows_group_at_boundaries() {
    let rows = vec![
        summary("S3", "a"),
        summary("S3", "b"),
        summary("S4", "c"),
        summary("S4", "d"),
        summary("S4", "e"),
    ];
    let groups = group_by_season(rows);
    assert_eq!(groups.len(), 2);
    assert_eq!(groups[0].season, "S3");
    assert_eq!(groups[0].rows.len(), 2);
    assert_eq!(groups[0].rows[0].trname, "a");
    assert_eq!(groups[0].rows[1].trname, "b");
    assert_eq!(groups[1].season, "S4");
    assert_eq!(groups[1].rows.len(), 3);
    assert_eq!(groups[1].rows[0].trname, "c");
    assert_eq!(groups[1].rows[2].trname, "e");
}

#[test]
fn season_file_holds_bracketed_roster_columns() {
    let m = MatchRecord {
        tournament_name: "T".to_string(),
        game_label: "G1".to_string(),
        first_team_name: "T1".to_string(),
        score: "2 - 0".to_string(),
        second_team_name: "T2".to_string(),
        match_date: "2020-01-01".to_string(),
        first_team_rosters: vec![vec!["p1".to_string(), "p2".to_string()]],
        second_team_rosters: vec![vec!["q1".to_string()]],
    };
    let text = season_csv(&vec![m]);
    let expected = "tournament_name,game_name,first_team_name,score,second_team_name,first_team_players,second_team_players\nT,G1,T1,2 - 0,T2,\"[[\"\"p1\"\", \"\"p2\"\"]]\",\"[[\"\"q1\"\"]]\"\n";
    assert_eq!(text, expected);
}
