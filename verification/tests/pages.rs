use golstats::matches::{
    game_page_urls, make_match_record, pages_needed, plan_match_rows, MatchListError, UrlError,
};
use golstats::rosters::game_rosters;

fn game_page(first_title: &str, second_title: &str) -> String {
    let mut page = String::new();
    page.push_str("<html><body>");
    page.push_str("<table><tr><th>h</th></tr><tr><td>Player</td><td>x</td></tr>");
    page.push_str("<tr><td> p1 </td><td>1</td></tr><tr><td>p2</td><td>2</td></tr></table>");
    page.push_str("<table><tr><th>h</th></tr><tr><td>Player</td><td>x</td></tr>");
    page.push_str("<tr><td>q1</td><td>1</td></tr><tr><td>q2</td><td>2</td></tr></table>");
    page.push_str(&format!("<a href=\"#\" title=\"{}\">s</a>", first_title));
    page.push_str(&format!("<a href=\"#\" title=\"{}\">s</a>", second_title));
    page.push_str("</body></html>");
    page
}

#[test]
fn anchor_order_binds_tables_to_teams() {
    let page = game_page("Team A stats", "Team B stats");
    let (a, b) = game_rosters(&page, "Team A", "Team B");
    assert_eq!(a, Some(vec!["p1".to_string(), "p2".to_string()]));
    assert_eq!(b, Some(vec!["q1".to_string(), "q2".to_string()]));
}

#[test]
fn reversed_anchor_order_swaps_the_tables() {
    let page = game_page("Team B stats", "Team A stats");
    let (a, b) = game_rosters(&page, "Team A", "Team B");
    assert_eq!(a, Some(vec!["q1".to_string(), "q2".to_string()]));
    assert_eq!(b, Some(vec!["p1".to_string(), "p2".to_string()]));
}

#[test]
fn unmatched_teams_resolve_to_nothing() {
    let page = game_page("Other stats", "Another stats");
    let (a, b) = game_rosters(&page, "Team A", "Team B");
    assert_eq!(a, None);
    assert_eq!(b, None);
}

fn match_list_page(score: &str) -> String {
    let mut page = String::new();
    page.push_str("<html><body><table><caption>RESULTS of the split</caption>");
    page.push_str("<tr><th>1</th></tr>");
    page.push_str(&format!(
        "<tr><td><a href=\"../game/stats/123/page-summary/\">G1</a></td><td>T1</td><td>{}</td><td>T2</td><td>2020-01-01</td><td>x</td><td>y</td></tr>",
        score
    ));
    page.push_str("</table></body></html>");
    page
}

#[test]
fn plans_a_playable_row() {
    let plan = plan_match_rows(&match_list_page("2 - 0")).unwrap();
    assert_eq!(plan.len(), 1);
    assert_eq!(plan[0].game_label, "G1");
    assert_eq!(plan[0].first_team_name, "T1");
    assert_eq!(plan[0].score, "2 - 0");
    assert_eq!(plan[0].second_team_name, "T2");
    assert_eq!(plan[0].game_count, 2);
    assert_eq!(plan[0].href.as_deref(), Some("../game/stats/123/page-summary/"));
    assert_eq!(pages_needed(&plan[0]), 2);
}

#[test]
fn page_without_results_table_plans_nothing() {
    let page = "<html><body><table><caption>standings</caption><tr><td>1 - 2</td></tr></table></body></html>";
    assert_eq!(plan_match_rows(page).unwrap().len(), 0);
}

#[test]
fn malformed_score_is_fatal() {
    assert!(matches!(
        plan_match_rows(&match_list_page("whatever")),
        Err(MatchListError::MalformedScore)
    ));
}

#[test]
fn short_row_is_fatal() {
    let page = "<html><body><table><caption>Results</caption><tr><th>h</th></tr><tr><td>a</td><td>b</td></tr></table></body></html>";
    assert!(matches!(plan_match_rows(page), Err(MatchListError::MissingScoreColumn)));
}

#[test]
fn non_seven_column_rows_are_dropped() {
    let page = "<html><body><table><caption>Results</caption><tr><th>h</th></tr><tr><td>a</td><td>b</td><td>1 - 0</td><td>d</td></tr></table></body></html>";
    assert_eq!(plan_match_rows(page).unwrap().len(), 0);
}

#[test]
fn derives_consecutive_game_urls() {
    let urls = game_page_urls("../game/stats/123/page-summary/", 2).unwrap();
    assert_eq!(
        urls,
        vec![
            "https://gol.gg/game/stats/123/page-game/".to_string(),
            "https://gol.gg/game/stats/124/page-game/".to_string(),
        ]
    );
}

#[test]
fn url_errors_name_the_failure() {
    assert_eq!(game_page_urls("abc", 1), Err(UrlError::NoGameId));
    assert_eq!(
        game_page_urls("../game/stats/xyz/page-summary/", 1),
        Err(UrlError::BadGameId)
    );
}

#[test]
fn full_series_resolves_one_roster_per_game() {
    let plan = plan_match_rows(&match_list_page("2 - 0")).unwrap();
    let urls = game_page_urls(plan[0].href.as_deref().unwrap(), pages_needed(&plan[0])).unwrap();
    assert_eq!(urls.len(), 2);
    let mut five_a = String::new();
    five_a.push_str("<html><body><table><tr><th>h</th></tr>");
    for p in ["a1", "a2", "a3", "a4", "a5"] {
        five_a.push_str(&format!("<tr><td>{}</td><td>1</td></tr>", p));
    }
    five_a.push_str("</table><table><tr><th>h</th></tr>");
    for p in ["b1", "b2", "b3", "b4", "b5"] {
        five_a.push_str(&format!("<tr><td>{}</td><td>1</td></tr>", p));
    }
    five_a.push_str("</table><a title=\"T1 stats\">x</a><a title=\"T2 stats\">y</a></body></html>");
    let pages = vec![five_a.clone(), five_a.clone()];
    let record = make_match_record("Cup", &plan[0], &pages);
    assert_eq!(record.tournament_name, "Cup");
    assert_eq!(record.score, "2 - 0");
    assert_eq!(record.first_team_rosters.len(), 2);
    assert_eq!(record.second_team_rosters.len(), 2);
    for g in 0..2 {
        assert_eq!(record.first_team_rosters[g].len(), 5);
        assert_eq!(record.second_team_rosters[g].len(), 5);
        assert_eq!(record.first_team_rosters[g][0], "a1");
        assert_eq!(record.second_team_rosters[g][4], "b5");
    }
}

#[test]
fn forfeited_row_needs_no_pages_and_gets_empty_rosters() {
    let plan = plan_match_rows(&match_list_page("FF - 1")).unwrap();
    assert_eq!(plan.len(), 1);
    assert_eq!(plan[0].game_count, 0);
    assert_eq!(pages_needed(&plan[0]), 0);
    let record = make_match_record("Cup", &plan[0], &Vec::new());
    assert!(record.first_team_rosters.is_empty());
    assert!(record.second_team_rosters.is_empty());
}
