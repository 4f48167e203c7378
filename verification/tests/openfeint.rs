use taphle::openfeint::{
    dashboard_achievements_text, AchDef,
    dashboard_leaderboards_text, definition, offline_achievements, offline_leaderboards,
    read_score_record, dashboard_page, high_score_argument, parameter_slot, try_openfeint_interpose, DashboardPage,
    HighScores, OpenFeintCall,
};

#[test]
fn the_replacement_answers_the_sdk_entry_points() {
    assert_eq!(
        try_openfeint_interpose("OpenFeint", "initializeWithProductKey:andDelegates:"),
        Some(OpenFeintCall::Initialize)
    );
    assert_eq!(
        try_openfeint_interpose("OpenFeint", "isUserLoggedIn"),
        Some(OpenFeintCall::IsOnline)
    );
    assert_eq!(
        try_openfeint_interpose("OpenFeint", "launchDashboardWithHighscorePage"),
        Some(OpenFeintCall::LaunchDashboard(DashboardPage::Leaderboards))
    );
    assert_eq!(
        try_openfeint_interpose("OpenFeint", "presentDashboard"),
        Some(OpenFeintCall::LaunchDashboard(DashboardPage::Achievements))
    );
    assert_eq!(
        try_openfeint_interpose("OFAchievementService", "unlockAchievement:"),
        Some(OpenFeintCall::UnlockAchievement)
    );
    assert_eq!(
        try_openfeint_interpose(
            "OFHighScoreService",
            "setHighScore:forLeaderboard:onSuccess:onFailure:"
        ),
        Some(OpenFeintCall::SetHighScore)
    );
}

#[test]
fn other_messages_go_to_the_fake_classes() {
    assert_eq!(try_openfeint_interpose("OpenFeint", "unlockAchievement:"), None);
    assert_eq!(try_openfeint_interpose("OFHighScoreService", "getHighScores"), None);
    assert_eq!(try_openfeint_interpose("NSObject", "isOnline"), None);
    assert_eq!(
        try_openfeint_interpose("OFAchievementService", "updateAchievement:andPercentComplete:"),
        None
    );
}

#[test]
fn the_dashboard_page_follows_the_selector() {
    assert_eq!(dashboard_page("launchDashboardWithAchievementsPage"), DashboardPage::Achievements);
    assert_eq!(dashboard_page("launchDashboardWithLeaderboard:"), DashboardPage::Leaderboards);
    assert_eq!(dashboard_page("launchDashboard"), DashboardPage::Achievements);
}

#[test]
fn a_score_is_read_from_a_register_pair() {
    assert_eq!(high_score_argument(5, 0), 5);
    assert_eq!(high_score_argument(0, 1), 1 << 32);
    assert_eq!(high_score_argument(u32::MAX, u32::MAX), -1);
    assert_eq!(high_score_argument(0, 0x8000_0000), i64::MIN);
}

#[test]
fn parameters_after_the_score_are_on_the_stack() {
    let sel = "setHighScore:forLeaderboard:withDisplayText:onSuccess:onFailure:";
    assert_eq!(parameter_slot(sel, "forLeaderboard"), Some(0));
    assert_eq!(parameter_slot(sel, "withDisplayText"), Some(1));
    assert_eq!(parameter_slot(sel, "missing"), None);
    assert_eq!(parameter_slot(sel, "setHighScore"), None);
}

#[test]
fn only_a_better_score_replaces_the_best() {
    let mut scores = HighScores::new();
    assert!(scores.record_high_score("board", 100, "100 points"));
    assert!(!scores.record_high_score("board", 50, "50 points"));
    assert_eq!(scores.best_score("board"), Some((100, "100 points".to_string())));
    assert!(scores.record_high_score("board", 200, ""));
    assert_eq!(scores.best_score("board"), Some((200, "100 points".to_string())));
    assert_eq!(scores.best_score("other"), None);
    assert!(!scores.record_high_score("low", i64::MIN, "never"));
    assert_eq!(scores.best_score("low"), Some((i64::MIN, String::new())));
}

const CONFIG: &str = "<config>\
<achievement><id>a1</id><title> First Blood </title><description>Win once</description>\
<gamerscore>10</gamerscore><position>2</position></achievement>\
<achievement><id>a2</id><description>untitled</description></achievement>\
<achievement><id>a1</id><title>Renamed</title><gamerscore>lots</gamerscore></achievement>\
<leaderboard><id>lb1</id><name>High Scores</name></leaderboard>\
<leaderboard><id>lb2</id></leaderboard>\
</config>";

#[test]
fn the_offline_config_defines_achievements_and_leaderboards() {
    let defs = offline_achievements(CONFIG);
    assert_eq!(defs.len(), 2);
    assert_eq!(defs[0].0, "a1");
    assert_eq!(defs[0].1.title, "First Blood");
    assert_eq!(defs[0].1.description, "Win once");
    assert_eq!((defs[0].1.gamerscore, defs[0].1.position), (10, 2));
    // A later definition of the same id is the one that counts.
    let a1 = definition(&defs, "a1").unwrap();
    assert_eq!(a1.title, "Renamed");
    assert_eq!(a1.gamerscore, 0);
    assert!(definition(&defs, "a2").is_none());
    assert_eq!(
        offline_leaderboards(CONFIG),
        vec![("lb1".to_string(), "High Scores".to_string())]
    );
}

#[test]
fn the_score_store_is_read_line_by_line() {
    assert_eq!(
        read_score_record("lb1\t-42\tMinus"),
        Some(("lb1".to_string(), -42, "Minus".to_string()))
    );
    assert_eq!(read_score_record("lb1\t+7"), Some(("lb1".to_string(), 7, String::new())));
    assert_eq!(read_score_record("lb1\tnope"), None);
    assert_eq!(read_score_record("lb1"), None);
    let mut scores = HighScores::new();
    scores.load_records("lb1\t5\tfive\nbroken\nlb2\t-9223372036854775808\nlb1\t6\r\n");
    assert_eq!(scores.best_score("lb1"), Some((6, String::new())));
    assert_eq!(scores.best_score("lb2"), Some((i64::MIN, String::new())));
}

#[test]
fn the_leaderboards_page_shows_local_bests() {
    let mut scores = HighScores::new();
    scores.set_entry("lb1", -3, "");
    let boards = vec![
        ("lb1".to_string(), "Speed".to_string()),
        ("lb2".to_string(), "Height".to_string()),
    ];
    assert_eq!(
        dashboard_leaderboards_text(&boards, &scores),
        "Speed\nBest: -3\n\nHeight\nBest: 0\n\n"
    );
    assert_eq!(dashboard_leaderboards_text(&[], &scores), "No leaderboards available.");
}

fn ach(title: &str, description: &str, gamerscore: u32, position: u32) -> AchDef {
    AchDef {
        title: title.to_string(),
        description: description.to_string(),
        gamerscore,
        position,
    }
}

#[test]
fn the_achievements_page_lists_definitions_by_position_then_title() {
    let defs = vec![
        ("a".to_string(), ach("Zed", "z", 10, 2)),
        ("b".to_string(), ach("Beta", "x", 20, 1)),
        ("c".to_string(), ach("Alpha", "first", 5, 1)),
    ];
    assert_eq!(
        dashboard_achievements_text(&defs, 1, 7),
        "\u{2713} 1/3 unlocked\n\n\u{25A1} Alpha (5G)\nfirst\n\n\u{25A1} Beta (20G)\nx\n\n\u{25A1} Zed (10G)\nz\n\n"
    );
}

#[test]
fn without_definitions_the_achievements_page_summarises_progress() {
    assert_eq!(
        dashboard_achievements_text(&[], 0, 0),
        "No achievements unlocked yet.\nAchievements unlock during gameplay."
    );
    assert_eq!(
        dashboard_achievements_text(&[], 2, 4),
        "2/4 achievements unlocked.\nKeep playing to unlock the rest!"
    );
}
