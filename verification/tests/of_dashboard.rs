use taphle::of_dashboard::{
    achievement_definitions, detail_page, element_blocks, hide_detail, plaque_subtitle, plaque_visible,
    score_name, show_all_apps, show_dashboard, show_detail_views, tag_text, tsv_fields,
    tsv_records, OfDashboardStuff, PlaqueStuff, SetHidden,
};

fn stuff() -> OfDashboardStuff {
    OfDashboardStuff {
        of_main_view: 1,
        detail_view: 2,
        detail_text: 3,
        page_label: 4,
    }
}

#[test]
fn the_screens_show_and_hide_the_right_views() {
    let s = stuff();
    assert_eq!(show_all_apps(&s), vec![SetHidden { view: 1, hidden: true }]);
    assert_eq!(
        show_dashboard(&s),
        vec![
            SetHidden { view: 1, hidden: false },
            SetHidden { view: 2, hidden: true }
        ]
    );
    assert_eq!(hide_detail(&s), vec![SetHidden { view: 2, hidden: true }]);
    assert_eq!(
        show_detail_views(&s),
        vec![
            SetHidden { view: 1, hidden: false },
            SetHidden { view: 2, hidden: false }
        ]
    );
}

#[test]
fn tags_are_found_and_trimmed() {
    let text = "<a><id> ach_1 </id><title>First</title></a>";
    assert_eq!(tag_text(text, "id"), Some("ach_1"));
    assert_eq!(tag_text(text, "title"), Some("First"));
    assert_eq!(tag_text(text, "gamerscore"), None);
    assert_eq!(tag_text("<id>unclosed", "id"), None);
}

#[test]
fn element_blocks_are_listed_in_order() {
    let text = "x<achievement>one</achievement>y<achievement>two</achievement><achievement>open";
    assert_eq!(element_blocks(text, "achievement"), vec!["one", "two"]);
    assert!(element_blocks("nothing here", "achievement").is_empty());
}

#[test]
fn achievements_need_an_id_and_default_their_title() {
    let config = "<achievement><id>a</id><title>Alpha</title><gamerscore>10</gamerscore></achievement>\
                  <achievement><title>No id</title></achievement>\
                  <achievement><id>b</id></achievement>";
    assert_eq!(
        achievement_definitions(config),
        vec![
            ("a".to_string(), "Alpha".to_string(), Some("10".to_string())),
            ("b".to_string(), "b".to_string(), None)
        ]
    );
}

#[test]
fn tab_separated_lines_need_two_fields() {
    assert_eq!(
        tsv_fields("id\t50"),
        Some(("id".to_string(), "50".to_string(), String::new()))
    );
    assert_eq!(
        tsv_fields("id\t50\tName\textra"),
        Some(("id".to_string(), "50".to_string(), "Name".to_string()))
    );
    assert_eq!(tsv_fields("lonely"), None);
    assert_eq!(
        tsv_records("a\t1\r\nbad\nb\t2\tB\n"),
        vec![
            ("a".to_string(), "1".to_string(), String::new()),
            ("b".to_string(), "2".to_string(), "B".to_string())
        ]
    );
}

#[test]
fn plaques_show_counts() {
    assert_eq!(plaque_subtitle(3, 10, 0), "3/10 achievements");
    assert_eq!(plaque_subtitle(0, 2, 5), "0/2 ach, 5 scores");
    assert!(plaque_visible(0, 4, 2));
    assert!(!plaque_visible(2, 4, 2));
    assert!(!plaque_visible(4, 4, 9));
    assert_eq!(score_name("id".to_string(), String::new()), "id");
    assert_eq!(score_name("id".to_string(), "Best".to_string()), "Best");
    let plaques = PlaqueStuff::new(vec![10, 11], vec![20, 21, 22]);
    assert_eq!(plaques.slots(), 2);
    assert_eq!(plaques.slot(1), (11, 21));
}

#[test]
fn a_detail_page_shows_fourteen_lines_and_its_number() {
    let lines: Vec<String> = (1..=20).map(|i| format!("line {i}")).collect();
    let (text, label) = detail_page(&lines, 0);
    assert_eq!(label, "Page 1/2");
    assert_eq!(text, format!("{}\nPage 1/2", lines[..14].join("\n")));
    let (text, label) = detail_page(&lines, 7);
    assert_eq!(label, "Page 2/2");
    assert_eq!(text, format!("{}\nPage 2/2", lines[14..].join("\n")));
    let short = vec!["a".to_string(), "b".to_string()];
    assert_eq!(detail_page(&short, 3), ("a\nb".to_string(), String::new()));
    assert_eq!(detail_page(&[], 0), (String::new(), String::new()));
    let fourteen: Vec<String> = (0..14).map(|i| i.to_string()).collect();
    assert_eq!(detail_page(&fourteen, 1).1, "");
}
