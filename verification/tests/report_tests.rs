use stepscores::difficulty::Difficulty;
use stepscores::document::build_report;
use stepscores::players::{id_to_player, Player, Players};
use stepscores::report::{extract_report, ExtractError};
use stepscores::xml::{Attr, XmlElem};

fn directory(entries: &[(&str, &str)]) -> Players {
    Players {
        players: entries
            .iter()
            .map(|(id, name)| Player { id: id.to_string(), name: name.to_string() })
            .collect(),
    }
}

fn empty_directory() -> Players {
    Players { players: Vec::new() }
}

#[test]
fn resolves_stored_names_exactly() {
    let players = directory(&[("g-1", "Alice"), ("g-2", "Bob")]);
    assert_eq!(id_to_player(&players, "g-1"), "Alice");
    assert_eq!(id_to_player(&players, "g-2"), "Bob");
}

#[test]
fn first_matching_record_decides() {
    let players = directory(&[("g-1", "Alice"), ("g-1", "Alya")]);
    assert_eq!(id_to_player(&players, "g-1"), "Alice");
}

#[test]
fn resolves_absent_identifier_to_sentinel() {
    let players = directory(&[("g-1", "Alice")]);
    assert_eq!(id_to_player(&players, "g-9"), "unknown player");
}

#[test]
fn resolves_to_sentinel_on_empty_directory() {
    let players = empty_directory();
    assert_eq!(id_to_player(&players, "g-1"), "unknown player");
}

#[test]
fn nonmatching_song_is_dropped_entirely() {
    let players = directory(&[("g-1", "Alice")]);
    let xml = "<Stats>\
        <Song Dir=\"Songs/other/one\">\
          <Steps Difficulty=\"Hard\">\
            <HighScore><Score>999</Score><PlayerGuid>g-1</PlayerGuid></HighScore>\
          </Steps>\
        </Song>\
        <Song Dir=\"Songs/stepmania_edit/two\">\
          <Steps Difficulty=\"Easy\">\
            <HighScore><Score>10</Score><PlayerGuid>g-1</PlayerGuid></HighScore>\
          </Steps>\
        </Song>\
      </Stats>";
    let report = build_report(xml, &players).unwrap();
    assert_eq!(report.len(), 1);
    assert_eq!(report[0].name, "Songs/stepmania_edit/two");
    assert_eq!(report[0].charts.len(), 1);
    assert!(matches!(report[0].charts[0].difficulty, Difficulty::Easy));
    assert_eq!(report[0].charts[0].scores.len(), 1);
    assert_eq!(report[0].charts[0].scores[0].score, 10);
    assert_eq!(report[0].charts[0].scores[0].player, "Alice");
}

#[test]
fn reduction_keeps_one_maximum_per_player() {
    let players = directory(&[("g-1", "Alice"), ("g-2", "Bob")]);
    let xml = "<Stats><Song Dir=\"Songs/stepmania_edit/x\">\
        <Steps Difficulty=\"Medium\">\
          <HighScore><Score>5</Score><PlayerGuid>g-1</PlayerGuid></HighScore>\
          <HighScore><Score>70</Score><PlayerGuid>g-2</PlayerGuid></HighScore>\
          <HighScore><Score>40</Score><PlayerGuid>g-1</PlayerGuid></HighScore>\
          <HighScore><Score>12</Score><PlayerGuid>g-1</PlayerGuid></HighScore>\
        </Steps>\
      </Song></Stats>";
    let report = build_report(xml, &players).unwrap();
    let scores = &report[0].charts[0].scores;
    assert_eq!(scores.len(), 2);
    let alice: Vec<_> = scores.iter().filter(|s| s.player == "Alice").collect();
    let bob: Vec<_> = scores.iter().filter(|s| s.player == "Bob").collect();
    assert_eq!(alice.len(), 1);
    assert_eq!(bob.len(), 1);
    assert_eq!(alice[0].score, 40);
    assert_eq!(bob[0].score, 70);
}

#[test]
fn missing_or_empty_player_guid_yields_no_entry() {
    let players = directory(&[("g-1", "Alice")]);
    let xml = "<Stats><Song Dir=\"Songs/stepmania_edit/x\">\
        <Steps Difficulty=\"Hard\">\
          <HighScore><Score>100</Score></HighScore>\
          <HighScore><Score>200</Score><PlayerGuid></PlayerGuid></HighScore>\
          <HighScore><Score>33</Score><PlayerGuid>g-1</PlayerGuid></HighScore>\
        </Steps>\
      </Song></Stats>";
    let report = build_report(xml, &players).unwrap();
    let scores = &report[0].charts[0].scores;
    assert_eq!(scores.len(), 1);
    assert_eq!(scores[0].score, 33);
    assert_eq!(scores[0].player, "Alice");
}

#[test]
fn round_trip_two_players_one_chart() {
    let players = directory(&[("guid-a", "Player A"), ("guid-b", "Player B")]);
    let xml = "<Stats><Song Dir=\"Songs/stepmania_edit/song\">\
        <Steps Difficulty=\"Hard\">\
          <HighScore><Score>100</Score><PlayerGuid>guid-a</PlayerGuid></HighScore>\
          <HighScore><Score>250</Score><PlayerGuid>guid-a</PlayerGuid></HighScore>\
          <HighScore><Score>50</Score><PlayerGuid>guid-b</PlayerGuid></HighScore>\
        </Steps>\
      </Song></Stats>";
    let report = build_report(xml, &players).unwrap();
    assert_eq!(report.len(), 1);
    assert_eq!(report[0].charts.len(), 1);
    assert!(matches!(report[0].charts[0].difficulty, Difficulty::Hard));
    let scores = &report[0].charts[0].scores;
    assert_eq!(scores.len(), 2);
    let a: Vec<_> = scores.iter().filter(|s| s.player == "Player A").collect();
    let b: Vec<_> = scores.iter().filter(|s| s.player == "Player B").collect();
    assert_eq!(a.len(), 1);
    assert_eq!(b.len(), 1);
    assert_eq!(a[0].score, 250);
    assert_eq!(b[0].score, 50);
}

#[test]
fn unrecognized_difficulty_aborts() {
    let players = empty_directory();
    let xml = "<Stats><Song Dir=\"Songs/stepmania_edit/x\">\
        <Steps Difficulty=\"Expert\">\
          <HighScore><Score>1</Score><PlayerGuid>g</PlayerGuid></HighScore>\
        </Steps>\
      </Song></Stats>";
    let err = build_report(xml, &players).unwrap_err();
    match err {
        ExtractError::UnknownDifficulty(label) => assert_eq!(label, "Expert"),
        other => panic!("expected UnknownDifficulty, got {:?}", other),
    }
}

#[test]
fn dir_equal_to_prefix_is_retained() {
    let players = empty_directory();
    let xml = "<Stats><Song Dir=\"Songs/stepmania_edit\">\
        <Steps Difficulty=\"Edit\"></Steps>\
      </Song></Stats>";
    let report = build_report(xml, &players).unwrap();
    assert_eq!(report.len(), 1);
    assert_eq!(report[0].name, "Songs/stepmania_edit");
    assert_eq!(report[0].charts.len(), 1);
    assert!(report[0].charts[0].scores.is_empty());
}

#[test]
fn empty_directory_resolves_everyone_to_sentinel() {
    let players = empty_directory();
    let xml = "<Stats><Song Dir=\"Songs/stepmania_edit/x\">\
        <Steps Difficulty=\"Beginner\">\
          <HighScore><Score>7</Score><PlayerGuid>g-1</PlayerGuid></HighScore>\
          <HighScore><Score>9</Score><PlayerGuid>g-2</PlayerGuid></HighScore>\
        </Steps>\
      </Song></Stats>";
    let report = build_report(xml, &players).unwrap();
    let scores = &report[0].charts[0].scores;
    assert_eq!(scores.len(), 1);
    assert_eq!(scores[0].player, "unknown player");
    assert_eq!(scores[0].score, 9);
}

#[test]
fn songs_nested_below_other_elements_are_found() {
    let players = empty_directory();
    let xml = "<Stats><Group><Inner>\
        <Song Dir=\"Songs/stepmania_edit/deep\">\
          <Wrapper><Steps Difficulty=\"Challenge\"></Steps></Wrapper>\
        </Song>\
      </Inner></Group></Stats>";
    let report = build_report(xml, &players).unwrap();
    assert_eq!(report.len(), 1);
    assert_eq!(report[0].name, "Songs/stepmania_edit/deep");
    assert!(matches!(report[0].charts[0].difficulty, Difficulty::Challenge));
}

#[test]
fn score_and_player_guid_must_be_direct_children() {
    let players = directory(&[("g-1", "Alice")]);
    // the Score child of the HighScore is the direct one; the nested
    // PlayerGuid inside an unrelated wrapper is not a direct child
    let xml = "<Stats><Song Dir=\"Songs/stepmania_edit/x\">\
        <Steps Difficulty=\"Hard\">\
          <HighScore>\
            <Score>21</Score>\
            <Extra><PlayerGuid>g-1</PlayerGuid></Extra>\
          </HighScore>\
        </Steps>\
      </Song></Stats>";
    let report = build_report(xml, &players).unwrap();
    assert!(report[0].charts[0].scores.is_empty());
}

#[test]
fn missing_dir_attribute_aborts() {
    let players = empty_directory();
    let xml = "<Stats><Song><Steps Difficulty=\"Easy\"></Steps></Song></Stats>";
    let err = build_report(xml, &players).unwrap_err();
    assert!(matches!(err, ExtractError::MissingDir));
}

#[test]
fn missing_difficulty_attribute_aborts() {
    let players = empty_directory();
    let xml = "<Stats><Song Dir=\"Songs/stepmania_edit/x\"><Steps></Steps></Song></Stats>";
    let err = build_report(xml, &players).unwrap_err();
    assert!(matches!(err, ExtractError::MissingDifficulty));
}

#[test]
fn missing_score_child_aborts() {
    let players = empty_directory();
    let xml = "<Stats><Song Dir=\"Songs/stepmania_edit/x\">\
        <Steps Difficulty=\"Easy\"><HighScore></HighScore></Steps>\
      </Song></Stats>";
    let err = build_report(xml, &players).unwrap_err();
    assert!(matches!(err, ExtractError::MissingScore));
}

#[test]
fn score_without_text_aborts() {
    let players = empty_directory();
    let xml = "<Stats><Song Dir=\"Songs/stepmania_edit/x\">\
        <Steps Difficulty=\"Easy\"><HighScore><Score></Score></HighScore></Steps>\
      </Song></Stats>";
    let err = build_report(xml, &players).unwrap_err();
    assert!(matches!(err, ExtractError::MissingScoreText));
}

#[test]
fn non_numeric_score_aborts() {
    let players = empty_directory();
    let xml = "<Stats><Song Dir=\"Songs/stepmania_edit/x\">\
        <Steps Difficulty=\"Easy\"><HighScore><Score>12a</Score></HighScore></Steps>\
      </Song></Stats>";
    let err = build_report(xml, &players).unwrap_err();
    match err {
        ExtractError::InvalidScore(text) => assert_eq!(text, "12a"),
        other => panic!("expected InvalidScore, got {:?}", other),
    }
}

#[test]
fn malformed_xml_aborts() {
    let players = empty_directory();
    let err = build_report("<Stats><Song", &players).unwrap_err();
    assert!(matches!(err, ExtractError::MalformedXml(_)));
}

#[test]
fn error_messages_name_the_offending_value() {
    let err = ExtractError::UnknownDifficulty("Expert".to_string());
    assert_eq!(err.message(), "Expert is not supported");
    let err = ExtractError::InvalidScore("12a".to_string());
    assert_eq!(err.message(), "12a is not a valid score");
}

#[test]
fn songs_keep_document_order_and_one_chart_per_steps() {
    let players = empty_directory();
    let xml = "<Stats>\
        <Song Dir=\"Songs/stepmania_edit/a\">\
          <Steps Difficulty=\"Beginner\"></Steps>\
          <Steps Difficulty=\"Hard\"></Steps>\
        </Song>\
        <Song Dir=\"Songs/stepmania_edit/b\">\
          <Steps Difficulty=\"Edit\"></Steps>\
        </Song>\
      </Stats>";
    let report = build_report(xml, &players).unwrap();
    assert_eq!(report.len(), 2);
    assert_eq!(report[0].name, "Songs/stepmania_edit/a");
    assert_eq!(report[1].name, "Songs/stepmania_edit/b");
    assert_eq!(report[0].charts.len(), 2);
    assert!(matches!(report[0].charts[0].difficulty, Difficulty::Beginner));
    assert!(matches!(report[0].charts[1].difficulty, Difficulty::Hard));
    assert_eq!(report[1].charts.len(), 1);
}

#[test]
fn difficulty_labels_parse_exactly() {
    assert!(matches!(Difficulty::from_str("Beginner"), Ok(Difficulty::Beginner)));
    assert!(matches!(Difficulty::from_str("Easy"), Ok(Difficulty::Easy)));
    assert!(matches!(Difficulty::from_str("Medium"), Ok(Difficulty::Medium)));
    assert!(matches!(Difficulty::from_str("Hard"), Ok(Difficulty::Hard)));
    assert!(matches!(Difficulty::from_str("Challenge"), Ok(Difficulty::Challenge)));
    assert!(matches!(Difficulty::from_str("Edit"), Ok(Difficulty::Edit)));
    assert_eq!(Difficulty::from_str("Expert").unwrap_err(), "Expert is not supported");
    assert!(Difficulty::from_str("easy").is_err());
}

#[test]
fn negative_scores_are_read() {
    let players = directory(&[("g-1", "Alice")]);
    let xml = "<Stats><Song Dir=\"Songs/stepmania_edit/x\">\
        <Steps Difficulty=\"Easy\">\
          <HighScore><Score>-3</Score><PlayerGuid>g-1</PlayerGuid></HighScore>\
        </Steps>\
      </Song></Stats>";
    let report = build_report(xml, &players).unwrap();
    assert_eq!(report[0].charts[0].scores[0].score, -3);
}

#[test]
fn score_out_of_i32_range_aborts() {
    let players = empty_directory();
    let xml = "<Stats><Song Dir=\"Songs/stepmania_edit/x\">\
        <Steps Difficulty=\"Easy\"><HighScore><Score>2147483648</Score></HighScore></Steps>\
      </Song></Stats>";
    let err = build_report(xml, &players).unwrap_err();
    assert!(matches!(err, ExtractError::InvalidScore(_)));
}

#[test]
fn extract_report_on_a_hand_built_tree() {
    let leaf = |tag: &str, text: &str| XmlElem {
        tag: tag.to_string(),
        attrs: Vec::new(),
        text: Some(text.to_string()),
        children: Vec::new(),
    };
    let high_score = XmlElem {
        tag: "HighScore".to_string(),
        attrs: Vec::new(),
        text: None,
        children: vec![leaf("Score", "42"), leaf("PlayerGuid", "g-1")],
    };
    let steps = XmlElem {
        tag: "Steps".to_string(),
        attrs: vec![Attr { name: "Difficulty".to_string(), value: "Medium".to_string() }],
        text: None,
        children: vec![high_score],
    };
    let song = XmlElem {
        tag: "Song".to_string(),
        attrs: vec![Attr { name: "Dir".to_string(), value: "Songs/stepmania_edit/z".to_string() }],
        text: None,
        children: vec![steps],
    };
    let root = XmlElem { tag: "Stats".to_string(), attrs: Vec::new(), text: None, children: vec![song] };
    let players = directory(&[("g-1", "Alice")]);
    let report = extract_report(&root, &players).unwrap();
    assert_eq!(report.len(), 1);
    assert_eq!(report[0].name, "Songs/stepmania_edit/z");
    assert!(matches!(report[0].charts[0].difficulty, Difficulty::Medium));
    assert_eq!(report[0].charts[0].scores[0].score, 42);
    assert_eq!(report[0].charts[0].scores[0].player, "Alice");
}
