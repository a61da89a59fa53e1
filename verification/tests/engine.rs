use uciengine::uciengine::{is_bestmove_line, GoJob, GoResult, Timecontrol};

#[test]
fn the_commands_come_in_order() {
    let job = GoJob::new()
        .uci_opt("Hash", "128")
        .uci_opt("Threads", "2")
        .pos_startpos()
        .go_opt("depth".to_string(), "10".to_string());
    assert_eq!(
        job.commands(),
        vec![
            "setoption name Hash value 128".to_string(),
            "setoption name Threads value 2".to_string(),
            "position startpos".to_string(),
            "go depth 10".to_string(),
        ]
    );
    let reply = Some("bestmove e2e4 ponder e7e5".to_string());
    let result = GoResult::from_reply(reply);
    assert_eq!(result.bestmove, Some("e2e4".to_string()));
    assert_eq!(result.ponder, Some("e7e5".to_string()));
}

#[test]
fn no_answer_names_no_move() {
    let result = GoResult::from_reply(None);
    assert_eq!(result.bestmove, None);
    assert_eq!(result.ponder, None);
}

#[test]
fn the_answer_names_the_moves_by_their_place() {
    let r = GoResult::from_line("bestmove e2e4 ponder e7e5");
    assert_eq!(r.bestmove, Some("e2e4".to_string()));
    assert_eq!(r.ponder, Some("e7e5".to_string()));
    let r = GoResult::from_line("bestmove e2e4");
    assert_eq!(r.bestmove, Some("e2e4".to_string()));
    assert_eq!(r.ponder, None);
    let r = GoResult::from_line("bestmove e2e4 ponder");
    assert_eq!(r.bestmove, Some("e2e4".to_string()));
    assert_eq!(r.ponder, None);
    let r = GoResult::from_line("bestmove");
    assert_eq!(r.bestmove, None);
    assert_eq!(r.ponder, None);
    let r = GoResult::from_line("bestmove  e2e4 ponder e7e5");
    assert_eq!(r.bestmove, Some(String::new()));
    assert_eq!(r.ponder, Some("ponder".to_string()));
    let r = GoResult::from_line("bestmove (none) x y z");
    assert_eq!(r.bestmove, Some("(none)".to_string()));
    assert_eq!(r.ponder, Some("y".to_string()));
}

#[test]
fn an_answer_begins_with_bestmove() {
    assert!(is_bestmove_line("bestmove e2e4 ponder e7e5"));
    assert!(is_bestmove_line("bestmove"));
    assert!(is_bestmove_line("bestmoves"));
    assert!(!is_bestmove_line("bestmov"));
    assert!(!is_bestmove_line(""));
    assert!(!is_bestmove_line(" bestmove e2e4"));
    assert!(!is_bestmove_line("info depth 3 pv bestmove"));
    assert!(!is_bestmove_line("bestmov\u{e9} e2e4"));
    assert!(!is_bestmove_line("Bestmove e2e4"));
}

#[test]
fn the_position_is_rendered_with_its_moves() {
    let fen = "rnbqkbnr/pppppppp/8/8/8/8/PPPPPPPP/RNBQKBNR w KQkq - 0 1";
    assert_eq!(GoJob::new().position_command(), None);
    assert_eq!(GoJob::new().pos_startpos().position_command(), Some("position startpos".to_string()));
    assert_eq!(
        GoJob::new().pos_startpos().pos_moves("e2e4 e7e5").position_command(),
        Some("position startpos moves e2e4 e7e5".to_string())
    );
    assert_eq!(GoJob::new().pos_fen(fen).position_command(), Some(format!("position fen {}", fen)));
    assert_eq!(
        GoJob::new().pos_moves("e2e4").pos_fen(fen).position_command(),
        Some(format!("position fen {} moves e2e4", fen))
    );
    assert_eq!(GoJob::new().pos_moves("e2e4").position_command(), None);
    assert_eq!(
        GoJob::new().pos_fen(fen).pos_startpos().position_command(),
        Some("position startpos".to_string())
    );
}

#[test]
fn a_job_without_position_sends_none() {
    assert_eq!(GoJob::new().commands(), vec!["go".to_string()]);
    assert_eq!(GoJob::new().go_command(), "go");
    assert_eq!(
        GoJob::new().uci_opt("MultiPV", "3").commands(),
        vec!["setoption name MultiPV value 3".to_string(), "go".to_string()]
    );
}

#[test]
fn the_clock_becomes_four_arguments() {
    let tc = Timecontrol::default();
    assert_eq!(tc.wtime, 60000);
    assert_eq!(tc.winc, 0);
    assert_eq!(tc.btime, 60000);
    assert_eq!(tc.binc, 0);
    assert_eq!(GoJob::new().tc(tc).go_command(), "go wtime 60000 winc 0 btime 60000 binc 0");
    let tc = Timecontrol { wtime: 1500, winc: 20, btime: 999, binc: 7 };
    assert_eq!(
        GoJob::new().go_opt("depth".to_string(), "5".to_string()).tc(tc).go_command(),
        "go depth 5 wtime 1500 winc 20 btime 999 binc 7"
    );
}

#[test]
fn a_key_keeps_its_place_and_takes_the_new_value() {
    let job = GoJob::new()
        .uci_opt("Hash", "16")
        .uci_opt("Threads", "1")
        .uci_opt("Hash", "256")
        .go_opt("winc".to_string(), "5".to_string())
        .go_opt("nodes".to_string(), "100".to_string())
        .tc(Timecontrol { wtime: 1, winc: 2, btime: 3, binc: 4 });
    assert_eq!(
        job.commands(),
        vec![
            "setoption name Hash value 256".to_string(),
            "setoption name Threads value 1".to_string(),
            "go winc 2 nodes 100 wtime 1 btime 3 binc 4".to_string(),
        ]
    );
}
