use uciengine::analysis::{
    info_parse_error, parse_number_error, AnalysisInfo, AnalysisInfoSerde, Flow, InfoParseError,
    ParsingState, Score, ScoreType, WDL,
};

fn snapshot(ai: &AnalysisInfo) -> String {
    format!("{:?}", ai.to_serde())
}

#[test]
fn parse_error() {
    let mut ai = AnalysisInfo::new();

    let _ = ai.parse(
        "info depth 3 score mate 5 nodes 3000000000 time 3000 nps 1000000 pv e2e4 e7e5 g1f3",
    );

    assert_eq!(ai.depth, 3);
    assert_eq!(format!("{:?}", ai.score), format!("{:?}", Score::Mate(5)));
    assert_eq!(format!("{:?}", ai.ponder()), format!("{:?}", Some("e7e5")));
}

#[test]
fn a_line_updates_the_fields_that_it_names() {
    let mut ai = AnalysisInfo::new();
    ai.hashfull = 17;
    ai.done = true;
    let r = ai.parse_with(
        "info depth 3 score mate 5 nodes 3000000000 time 3000 nps 1000000 pv e2e4 e7e5 g1f3",
        false,
    );
    assert!(r.is_ok());
    assert_eq!(ai.depth, 3);
    assert_eq!(ai.score, Score::Mate(5));
    assert_eq!(ai.scoretype, ScoreType::Exact);
    assert_eq!(ai.nodes, 3000000000);
    assert_eq!(ai.time, 3000);
    assert_eq!(ai.nps, 1000000);
    assert_eq!(ai.bestmove(), Some("e2e4".to_string()));
    assert_eq!(ai.ponder(), Some("e7e5".to_string()));
    assert_eq!(ai.pv(), Some("e2e4 e7e5 g1f3".to_string()));
    assert_eq!(ai.hashfull, 17);
    assert_eq!(ai.seldepth, 0);
    assert_eq!(ai.currmove(), None);
    assert!(ai.done);
}

#[test]
fn a_line_that_is_no_info_changes_nothing() {
    let mut ai = AnalysisInfo::new();
    assert!(ai.parse_with("info depth 9 pv e2e4 e7e5", false).is_ok());
    let before = snapshot(&ai);
    for line in ["quit", "", "bestmove e2e4 ponder e7e5", " info depth 3", "Info depth 3",
        "infos depth 3", "depth 3"]
    {
        assert!(ai.parse_with(line, false).is_ok());
        assert!(ai.parse_with(line, true).is_ok());
        assert!(ai.parse(line).is_ok());
        assert_eq!(snapshot(&ai), before);
    }
}

#[test]
fn a_bound_may_follow_the_score() {
    let mut ai = AnalysisInfo::new();
    assert!(ai.parse_with("info score cp 12 upperbound", false).is_ok());
    assert_eq!(ai.score, Score::Cp(12));
    assert_eq!(ai.scoretype, ScoreType::Upperbound);
    assert!(ai.parse_with("info score cp -30 lowerbound depth 4", false).is_ok());
    assert_eq!(ai.score, Score::Cp(-30));
    assert_eq!(ai.scoretype, ScoreType::Lowerbound);
    assert_eq!(ai.depth, 4);
    assert!(ai.parse_with("info score mate -3", false).is_ok());
    assert_eq!(ai.score, Score::Mate(-3));
    assert_eq!(ai.scoretype, ScoreType::Exact);
}

#[test]
fn a_bound_may_stand_before_the_number() {
    let mut ai = AnalysisInfo::new();
    assert!(ai.parse_with("info score cp lowerbound 25", false).is_ok());
    assert_eq!(ai.score, Score::Cp(25));
    assert_eq!(ai.scoretype, ScoreType::Lowerbound);
    assert!(ai.parse_with("info score mate upperbound 2 nodes 5", false).is_ok());
    assert_eq!(ai.score, Score::Mate(2));
    assert_eq!(ai.scoretype, ScoreType::Upperbound);
    assert_eq!(ai.nodes, 5);
}

#[test]
fn an_unknown_key_is_refused_or_passed_over() {
    let mut ai = AnalysisInfo::new();
    let before = snapshot(&ai);
    match ai.parse_with("info zzz foo", false) {
        Err(InfoParseError::InvalidKeyError(token)) => assert_eq!(token, "zzz"),
        other => panic!("{:?}", other),
    }
    assert_eq!(snapshot(&ai), before);
    assert!(ai.parse_with("info zzz foo", true).is_ok());
    assert_eq!(snapshot(&ai), before);
    assert!(ai.parse_with("info zzz foo depth 4", true).is_ok());
    assert_eq!(ai.depth, 4);
    assert!(ai.parse_with("info zzz", true).is_ok());
    assert_eq!(ai.depth, 4);
}

#[test]
fn a_token_that_is_no_number_is_refused() {
    let mut ai = AnalysisInfo::new();
    match ai.parse_with("info depth x", false) {
        Err(InfoParseError::ParseNumberError(ParsingState::Depth, token)) => {
            assert_eq!(token, "x")
        },
        other => panic!("{:?}", other),
    }
    match ai.parse_with("info nodes -1", false) {
        Err(InfoParseError::ParseNumberError(ParsingState::Nodes, token)) => {
            assert_eq!(token, "-1")
        },
        other => panic!("{:?}", other),
    }
    match ai.parse_with("info score cp 1.5", false) {
        Err(InfoParseError::ParseNumberError(ParsingState::ScoreCp, token)) => {
            assert_eq!(token, "1.5")
        },
        other => panic!("{:?}", other),
    }
    match ai.parse_with("info wdl 1 2 three", false) {
        Err(InfoParseError::ParseNumberError(ParsingState::WdlL, token)) => {
            assert_eq!(token, "three")
        },
        other => panic!("{:?}", other),
    }
    match ai.parse_with("info depth  3", false) {
        Err(InfoParseError::ParseNumberError(ParsingState::Depth, token)) => {
            assert_eq!(token, "")
        },
        other => panic!("{:?}", other),
    }
    assert_eq!(ai.wdl, WDL { win: 1, draw: 2, loss: 0 });
}

#[test]
fn a_token_that_is_no_score_specifier_is_refused() {
    let mut ai = AnalysisInfo::new();
    match ai.parse_with("info depth 6 score foo 12", false) {
        Err(InfoParseError::InvalidScoreSpecifier(token)) => assert_eq!(token, "foo"),
        other => panic!("{:?}", other),
    }
    assert_eq!(ai.depth, 6);
    assert_eq!(ai.score, Score::Cp(0));
}

#[test]
fn a_refused_line_keeps_what_came_before_the_failure() {
    let mut ai = AnalysisInfo::new();
    assert!(ai.parse_with("info depth 7 seldepth 9 nodes abc time 5", false).is_err());
    assert_eq!(ai.depth, 7);
    assert_eq!(ai.seldepth, 9);
    assert_eq!(ai.nodes, 0);
    assert_eq!(ai.time, 0);
}

#[test]
fn the_extensions_end_the_line() {
    for word in ["string", "refutation", "currline"] {
        let mut ai = AnalysisInfo::new();
        let line = format!("info depth 5 {} depth 9 zzz", word);
        assert!(ai.parse_with(line.as_str(), false).is_ok());
        assert_eq!(ai.depth, 5);
    }
}

#[test]
fn every_number_goes_to_its_field() {
    let mut ai = AnalysisInfo::new();
    let line = "info depth 1 seldepth 2 time 3 nodes 4 multipv 5 wdl 6 7 8 currmove e2e4 \
                currmovenumber 9 hashfull 10 nps 11 tbhits 12 cpuload 13 score cp 14";
    assert!(ai.parse_with(line, false).is_ok());
    assert_eq!(ai.depth, 1);
    assert_eq!(ai.seldepth, 2);
    assert_eq!(ai.time, 3);
    assert_eq!(ai.nodes, 4);
    assert_eq!(ai.multipv, 5);
    assert_eq!(ai.wdl, WDL { win: 6, draw: 7, loss: 8 });
    assert_eq!(ai.currmove(), Some("e2e4".to_string()));
    assert_eq!(ai.currmovenumber, 9);
    assert_eq!(ai.hashfull, 10);
    assert_eq!(ai.nps, 11);
    assert_eq!(ai.tbhits, 12);
    assert_eq!(ai.cpuload, 13);
    assert_eq!(ai.score, Score::Cp(14));
    assert_eq!(ai.bestmove(), None);
    assert_eq!(ai.pv(), None);
}

#[test]
fn a_bound_as_a_key_sets_the_bound() {
    let mut ai = AnalysisInfo::new();
    assert!(ai.parse_with("info lowerbound depth 2", false).is_ok());
    assert_eq!(ai.scoretype, ScoreType::Lowerbound);
    assert_eq!(ai.depth, 2);
    assert!(ai.parse_with("info upperbound", false).is_ok());
    assert_eq!(ai.scoretype, ScoreType::Upperbound);
}

#[test]
fn a_new_variation_resets_the_ponder_move() {
    let mut ai = AnalysisInfo::new();
    assert!(ai.parse_with("info pv e2e4 e7e5 g1f3", false).is_ok());
    assert_eq!(ai.ponder(), Some("e7e5".to_string()));
    assert!(ai.parse_with("info depth 2 pv d2d4", false).is_ok());
    assert_eq!(ai.bestmove(), Some("d2d4".to_string()));
    assert_eq!(ai.ponder(), None);
    assert_eq!(ai.pv(), Some("d2d4".to_string()));
    assert!(ai.parse_with("info depth 3", false).is_ok());
    assert_eq!(ai.bestmove(), Some("d2d4".to_string()));
    assert_eq!(ai.pv(), Some("d2d4".to_string()));
    assert!(ai.parse_with("info pv", false).is_ok());
    assert_eq!(ai.bestmove(), Some("d2d4".to_string()));
    assert_eq!(ai.pv(), None);
}

#[test]
fn keys_behind_pv_belong_to_the_variation() {
    let mut ai = AnalysisInfo::new();
    assert!(ai.parse_with("info pv e2e4 e7e5 depth 9", false).is_ok());
    assert_eq!(ai.depth, 0);
    assert_eq!(ai.pv(), Some("e2e4 e7e5 depth 9".to_string()));
}

#[test]
fn a_long_variation_is_cut_between_moves() {
    let mut ai = AnalysisInfo::new();
    let moves = "e2e4 e7e5 g1f3 b8c6 f1b5 a7a6 b5a4 g8f6 e1g1 f8e7 f1e1 b7b5";
    let line = format!("info depth 20 pv {}", moves);
    assert!(ai.parse_with(line.as_str(), false).is_ok());
    assert_eq!(ai.pv(), Some("e2e4 e7e5 g1f3 b8c6 f1b5 a7a6 b5a4 g8f6 e1g1 f8e7".to_string()));
    assert_eq!(ai.pv.len, 49);
    assert_eq!(ai.bestmove(), Some("e2e4".to_string()));
    assert_eq!(ai.ponder(), Some("e7e5".to_string()));
}

#[test]
fn a_move_is_cut_to_five_bytes() {
    let mut ai = AnalysisInfo::new();
    assert!(ai.parse_with("info currmove e7e8queen pv a7a8rook b7b8", false).is_ok());
    assert_eq!(ai.currmove(), Some("e7e8q".to_string()));
    assert_eq!(ai.bestmove(), Some("a7a8r".to_string()));
    assert_eq!(ai.pv(), Some("a7a8rook b7b8".to_string()));
}

#[test]
fn step_decodes_one_token() {
    let mut ai = AnalysisInfo::new();
    let mut pv = String::new();
    assert_eq!(ai.step(ParsingState::Info, "info", &mut pv, false).ok(), Some(Flow::Next(ParsingState::Key)));
    assert_eq!(ai.step(ParsingState::Info, "quit", &mut pv, false).ok(), Some(Flow::Stop));
    assert_eq!(ai.step(ParsingState::Key, "wdl", &mut pv, false).ok(), Some(Flow::Next(ParsingState::WdlW)));
    assert_eq!(ai.step(ParsingState::WdlW, "4", &mut pv, false).ok(), Some(Flow::Next(ParsingState::WdlD)));
    assert_eq!(ai.step(ParsingState::WdlD, "5", &mut pv, false).ok(), Some(Flow::Next(ParsingState::WdlL)));
    assert_eq!(ai.step(ParsingState::WdlL, "6", &mut pv, false).ok(), Some(Flow::Next(ParsingState::Key)));
    assert_eq!(ai.wdl, WDL { win: 4, draw: 5, loss: 6 });
    assert_eq!(ai.step(ParsingState::Key, "string", &mut pv, false).ok(), Some(Flow::Stop));
    assert_eq!(ai.step(ParsingState::Key, "zzz", &mut pv, true).ok(), Some(Flow::Next(ParsingState::Unknown)));
    assert_eq!(ai.step(ParsingState::Unknown, "foo", &mut pv, true).ok(), Some(Flow::Next(ParsingState::Key)));
    assert_eq!(ai.step(ParsingState::Key, "score", &mut pv, false).ok(), Some(Flow::Next(ParsingState::Score)));
    assert_eq!(ai.step(ParsingState::Score, "upperbound", &mut pv, false).ok(), Some(Flow::Next(ParsingState::Score)));
    assert_eq!(ai.scoretype, ScoreType::Upperbound);
    assert_eq!(ai.step(ParsingState::Score, "mate", &mut pv, false).ok(), Some(Flow::Next(ParsingState::ScoreMate)));
    assert_eq!(ai.scoretype, ScoreType::Exact);
    assert_eq!(ai.step(ParsingState::ScoreMate, "lowerbound", &mut pv, false).ok(), Some(Flow::Next(ParsingState::ScoreMate)));
    assert_eq!(ai.step(ParsingState::ScoreMate, "-4", &mut pv, false).ok(), Some(Flow::Next(ParsingState::Key)));
    assert_eq!(ai.score, Score::Mate(-4));
    assert_eq!(ai.scoretype, ScoreType::Lowerbound);
    assert_eq!(pv, "");
    assert_eq!(ai.step(ParsingState::Key, "pv", &mut pv, false).ok(), Some(Flow::Next(ParsingState::PvBestmove)));
    assert_eq!(ai.step(ParsingState::PvBestmove, "e2e4", &mut pv, false).ok(), Some(Flow::Next(ParsingState::PvPonder)));
    assert_eq!(pv, "e2e4");
    assert_eq!(ai.step(ParsingState::PvPonder, "e7e5", &mut pv, false).ok(), Some(Flow::Next(ParsingState::PvRest)));
    assert_eq!(ai.step(ParsingState::PvRest, "g1f3", &mut pv, false).ok(), Some(Flow::Next(ParsingState::PvRest)));
    assert_eq!(pv, "e2e4 e7e5 g1f3");
    assert_eq!(ai.pv(), None);
}

#[test]
fn the_record_survives_the_transport() {
    let mut ai = AnalysisInfo::new();
    ai.done = true;
    assert!(ai
        .parse_with(
            "info depth 21 seldepth 30 multipv 2 score mate -4 lowerbound wdl 1 2 3 nodes 99 \
             nps 7 tbhits 8 time 12 hashfull 500 cpuload 900 currmove h2h4 currmovenumber 3 \
             pv e2e4 e7e5",
            false
        )
        .is_ok());
    let transport = ai.to_serde();
    assert_eq!(transport.disposition, "AnalysisInfo");
    assert_eq!(transport.bestmove, Some("e2e4".to_string()));
    assert_eq!(transport.pv, Some("e2e4 e7e5".to_string()));
    assert_eq!(transport.currmove, Some("h2h4".to_string()));
    assert_eq!(transport.depth, 21);
    let back = AnalysisInfo::from_serde(transport);
    assert_eq!(snapshot(&back), snapshot(&ai));
    assert_eq!(back.done, ai.done);
    assert_eq!(back.bestmove(), ai.bestmove());
    assert_eq!(back.ponder(), ai.ponder());
    assert_eq!(back.pv(), ai.pv());
    assert_eq!(back.currmove(), ai.currmove());
    assert_eq!(back.depth, 21);
    assert_eq!(back.seldepth, 30);
    assert_eq!(back.multipv, 2);
    assert_eq!(back.score, Score::Mate(-4));
    assert_eq!(back.scoretype, ScoreType::Lowerbound);
    assert_eq!(back.wdl, WDL { win: 1, draw: 2, loss: 3 });
    assert_eq!(back.nodes, 99);
    assert_eq!(back.nps, 7);
    assert_eq!(back.tbhits, 8);
    assert_eq!(back.time, 12);
    assert_eq!(back.hashfull, 500);
    assert_eq!(back.cpuload, 900);
    assert_eq!(back.currmovenumber, 3);
}

#[test]
fn the_empty_record_has_no_text() {
    let ai = AnalysisInfo::new();
    assert!(!ai.done);
    assert_eq!(ai.bestmove(), None);
    assert_eq!(ai.ponder(), None);
    assert_eq!(ai.pv(), None);
    assert_eq!(ai.currmove(), None);
    assert_eq!(ai.score, Score::Cp(0));
    assert_eq!(ai.scoretype, ScoreType::Exact);
    assert_eq!(ai.wdl, WDL { win: 0, draw: 0, loss: 0 });
    let transport = ai.to_serde();
    assert_eq!(transport.bestmove, None);
    assert_eq!(transport.pv, None);
}

#[test]
fn from_serde_cuts_each_text_to_its_cell() {
    let mut transport: AnalysisInfoSerde = AnalysisInfo::new().to_serde();
    transport.disposition = "something else".to_string();
    transport.bestmove = Some("e7e8queen".to_string());
    transport.ponder = Some(String::new());
    transport.hashfull = 4;
    let ai = AnalysisInfo::from_serde(transport);
    assert_eq!(ai.bestmove(), Some("e7e8q".to_string()));
    assert_eq!(ai.ponder(), None);
    assert_eq!(ai.hashfull, 4);
    assert_eq!(ai.to_serde().disposition, "AnalysisInfo");
}

#[test]
fn the_failures_are_handed_back() {
    match info_parse_error(InfoParseError::InvalidKeyError("zzz".to_string())) {
        Err(InfoParseError::InvalidKeyError(token)) => assert_eq!(token, "zzz"),
        other => panic!("{:?}", other),
    }
    match parse_number_error(ParsingState::Nps, "many") {
        Err(InfoParseError::ParseNumberError(ParsingState::Nps, token)) => {
            assert_eq!(token, "many")
        },
        other => panic!("{:?}", other),
    }
}

#[test]
fn a_failure_has_a_message() {
    assert_eq!(
        InfoParseError::ParseNumberError(ParsingState::Depth, "x".to_string()).message(),
        "could not parse info number for state 'Depth' from 'x'"
    );
    assert_eq!(
        InfoParseError::ParseNumberError(ParsingState::WdlW, String::new()).message(),
        "could not parse info number for state 'WdlW' from ''"
    );
    assert_eq!(
        InfoParseError::InvalidKeyError("zzz".to_string()).message(),
        "invalid info key 'zzz'"
    );
    assert_eq!(
        InfoParseError::InvalidScoreSpecifier("foo".to_string()).message(),
        "invalid score specifier 'foo'"
    );
}

#[test]
fn a_state_is_named_as_it_is_written() {
    for ps in [
        ParsingState::Info, ParsingState::Key, ParsingState::Unknown, ParsingState::Depth,
        ParsingState::Seldepth, ParsingState::Time, ParsingState::Nodes, ParsingState::Multipv,
        ParsingState::Score, ParsingState::WdlW, ParsingState::WdlD, ParsingState::WdlL,
        ParsingState::ScoreCp, ParsingState::ScoreMate, ParsingState::Currmove,
        ParsingState::Currmovenumber, ParsingState::Hashfull, ParsingState::Nps,
        ParsingState::Tbhits, ParsingState::Cpuload, ParsingState::PvBestmove,
        ParsingState::PvPonder, ParsingState::PvRest,
    ] {
        assert_eq!(ps.name(), format!("{:?}", ps));
    }
}

#[test]
fn a_line_of_ascii_leaves_the_record_readable() {
    let mut ai = AnalysisInfo::new();
    assert!(ai.parse_with("info currmove e7e8queen pv a7a8rook b7b8knight c7c8", false).is_ok());
    assert!(ai.bestmove.has_text());
    assert!(ai.ponder.has_text());
    assert!(ai.pv.has_text());
    assert!(ai.currmove.has_text());
    assert!(ai.parse_with("info currmove aaaa\u{e9}", false).is_ok());
    assert!(!ai.currmove.has_text());
    assert!(ai.bestmove.has_text());
}
