use cheatess::error::CheatessError;
use cheatess::pattern::Pattern;
use cheatess::uci::{Process, Stockfish, StringMap};
use std::collections::VecDeque;

pub struct MockProcess {
    pub written_lines: Vec<String>,
    pub lines_to_read: VecDeque<String>,
    pub running: bool,
}

impl MockProcess {
    pub fn new() -> Self {
        Self {
            written_lines: Vec::new(),
            lines_to_read: VecDeque::new(),
            running: true,
        }
    }

    pub fn push_read_line(&mut self, line: &str) {
        self.lines_to_read.push_back(line.to_string());
    }
}

impl Process for MockProcess {
    fn write_line(&mut self, msg: &str) {
        self.written_lines.push(msg.to_string());
    }

    fn read_line(&mut self) -> String {
        self.lines_to_read.pop_front().unwrap()
    }

    fn lines(&mut self, stop_pattern: &Pattern) -> Vec<String> {
        // replay without consuming, so queued future answers stay available
        let mut lines = Vec::new();
        for line in self.lines_to_read.iter().cloned() {
            let stop = stop_pattern.is_match(&line);
            lines.push(line);
            if stop {
                break;
            }
        }
        lines
    }

    fn desired_line(&mut self, stop_pattern: &Pattern) -> String {
        self.lines(stop_pattern).last().unwrap().to_owned()
    }

    fn is_running(&mut self) -> bool {
        self.running
    }
}

fn bare_stockfish(mock: MockProcess, depth: u8) -> Stockfish<MockProcess> {
    Stockfish {
        proc: mock,
        parameters: StringMap::new(),
        depth,
        info: "".to_string(),
        quit_sent: false,
        version: "".to_string(),
    }
}

#[test]
fn stockfish_new_with_mock_reads_version_and_sends_uci() {
    let mut mock = MockProcess::new();
    mock.push_read_line("Stockfish 17 by Mock");
    mock.push_read_line("readyok");

    let sf = Stockfish::new_with_process(mock, 5);
    assert_eq!(sf.version, "Stockfish 17 by Mock");
    assert!(sf.proc.written_lines.contains(&"uci".to_string()));
}

#[test]
fn get_fen_position_returns_correct_fen() {
    let mut mock = MockProcess::new();
    mock.push_read_line("Stockfish 17 by Mock");
    mock.push_read_line("readyok");
    mock.push_read_line("Fen: rnbqkbnr/pppppppp/8/8/8/8/PPPPPPPP/RNBQKBNR w KQkq - 0 1");
    mock.push_read_line("readyok");

    let mut sf = Stockfish::new_with_process(mock, 5);

    let fen = sf.get_fen_position().unwrap();

    assert!(sf.proc.written_lines.contains(&"d".to_string()));
    assert_eq!(
        fen,
        "rnbqkbnr/pppppppp/8/8/8/8/PPPPPPPP/RNBQKBNR w KQkq - 0 1"
    );
}

#[test]
fn get_best_move_returns_correct_move() {
    let mut mock = MockProcess::new();

    mock.push_read_line("uciok");
    mock.push_read_line("info depth 10 score cp 20");
    mock.push_read_line("bestmove e2e4");

    let mut sf = Stockfish::new_with_process(mock, 5);

    let best_move = sf.get_best_move();

    assert_eq!(best_move, Some("e2e4".to_string()));
    assert!(sf
        .proc
        .written_lines
        .iter()
        .any(|cmd| cmd.starts_with("go depth")));
}

#[test]
fn get_move_from_proc_returns_bestmove() {
    let mut mock = MockProcess::new();
    mock.push_read_line("Stockfish 17 by Mock");
    mock.push_read_line("readyok");
    mock.push_read_line("info depth 10 score cp 13");
    mock.push_read_line("bestmove e2e4");
    mock.push_read_line("readyok");

    let mut sf = Stockfish::new_with_process(mock, 5);

    let best_move = sf.get_move_from_proc();

    assert_eq!(best_move, Some("e2e4".to_string()));
    assert_eq!(sf.info, "info depth 10 score cp 13");
}

#[test]
fn is_correct_move_returns_true_for_valid_move() {
    let mut mock = MockProcess::new();

    mock.push_read_line("Stockfish 17 by Mock");
    mock.push_read_line("readyok");
    mock.push_read_line("bestmove e2e4");
    mock.push_read_line("readyok");

    let mut sf = Stockfish::new_with_process(mock, 5);

    let result = sf.is_correct_move("e2e4");
    assert!(result);

    assert!(sf
        .proc
        .written_lines
        .iter()
        .any(|cmd| cmd.contains("go depth 1 searchmoves e2e4")));
}

#[test]
fn is_correct_move_returns_false_for_invalid_move() {
    let mut mock = MockProcess::new();

    mock.push_read_line("Stockfish 17 by Mock");
    mock.push_read_line("readyok");
    mock.push_read_line("bestmove (none)");
    mock.push_read_line("readyok");

    let mut sf = Stockfish::new_with_process(mock, 5);

    let result = sf.is_correct_move("a1a1");
    assert!(!result);

    assert!(sf
        .proc
        .written_lines
        .iter()
        .any(|cmd| cmd.contains("go depth 1 searchmoves a1a1")));
}

#[test]
fn put_cmd_without_active_poll() {
    let mock = MockProcess {
        written_lines: Vec::new(),
        lines_to_read: VecDeque::new(),
        running: false,
    };

    let mut sf = bare_stockfish(mock, 1);

    sf._put("abc");

    assert_eq!(sf.proc.written_lines.len(), 0);
}

#[test]
fn put_cmd_with_active_poll() {
    let mock = MockProcess::new();

    let mut sf = bare_stockfish(mock, 1);

    sf._put("abc");

    assert!(sf.proc.written_lines.contains(&"abc".to_string()));
}

#[test]
fn put_cmd_quit_process() {
    let mock = MockProcess::new();

    let mut sf = bare_stockfish(mock, 1);

    sf._put("quit");

    assert!(sf.quit_sent);
}

#[test]
fn go_depth_send_correct_msg() {
    let mock = MockProcess::new();

    let mut sf = bare_stockfish(mock, 5);

    sf._go();

    assert!(sf.proc.written_lines.contains(&"go depth 5".to_string()));
}

#[test]
fn prepare_for_new_with_token() {
    let mut mock = MockProcess::new();
    mock.push_read_line("readyok");

    let mut sf = bare_stockfish(mock, 1);
    sf.info = "Old info".to_string();

    sf.prepare_for_new_position(true);

    assert!(sf.proc.written_lines.contains(&"ucinewgame".to_string()));
    assert_eq!(sf.info, String::new());
}

#[test]
fn prepare_for_new_without_start_new_game() {
    let mut mock = MockProcess::new();
    mock.push_read_line("readyok");

    let mut sf = bare_stockfish(mock, 1);
    sf.info = "Old info".to_string();

    sf.prepare_for_new_position(false);

    assert!(!sf.proc.written_lines.contains(&"ucinewgame".to_string()));
    assert_eq!(sf.info, String::new());
}

#[test]
fn set_fen_position_with_token() {
    let mut mock = MockProcess::new();
    mock.push_read_line("readyok");

    let mut sf = bare_stockfish(mock, 1);
    sf.info = "Old info".to_string();

    sf.set_fen_position("abc/abc/", true);

    assert!(sf.proc.written_lines.contains(&"ucinewgame".to_string()));
    assert!(sf
        .proc
        .written_lines
        .contains(&"position fen abc/abc/".to_string()));
}

#[test]
fn set_elo_rating_updates_parameters() {
    let mut mock = MockProcess::new();
    mock.push_read_line("Stockfish 17 by Mock");
    mock.push_read_line("readyok");

    mock.push_read_line("readyok");
    mock.push_read_line("readyok");

    mock.push_read_line("Fen: rnbqkbnr/pppppppp/8/8/8/8/PPPPPPPP/RNBQKBNR w KQkq - 0 1");
    mock.push_read_line("readyok");

    let mut sf = Stockfish::new_with_process(mock, 5);
    sf.set_elo_rating(2000).unwrap();

    assert!(sf
        .proc
        .written_lines
        .contains(&"setoption name UCI_LimitStrength value true".to_string()));
    assert!(sf
        .proc
        .written_lines
        .contains(&"setoption name UCI_Elo value 2000".to_string()));
    assert_eq!(
        sf.parameters.get("UCI_LimitStrength"),
        Some("true".to_string())
    );
    assert_eq!(sf.parameters.get("UCI_Elo"), Some("2000".to_string()));
}

#[test]
fn update_params_sends_correct_commands() {
    let mut mock = MockProcess::new();
    mock.push_read_line("Stockfish 17 by Mock");
    mock.push_read_line("readyok");

    mock.push_read_line("readyok");
    mock.push_read_line("readyok");
    mock.push_read_line("readyok");

    mock.push_read_line("Fen: rnbqkbnr/pppppppp/8/8/8/8/PPPPPPPP/RNBQKBNR w KQkq - 0 1");
    mock.push_read_line("readyok");

    let mut sf = Stockfish::new_with_process(mock, 5);
    let params = vec![
        ("MyParam".to_string(), "Value1".to_string()),
        ("Threads".to_string(), "4".to_string()),
        ("Hash".to_string(), "256".to_string()),
    ];

    sf.update_params(&params).unwrap();

    assert!(sf
        .proc
        .written_lines
        .contains(&"setoption name MyParam value Value1".to_string()));
    assert!(sf
        .proc
        .written_lines
        .contains(&"setoption name Threads value 4".to_string()));
    assert!(sf
        .proc
        .written_lines
        .contains(&"setoption name Hash value 256".to_string()));

    assert_eq!(sf.parameters.get("MyParam"), Some("Value1".to_string()));
    assert_eq!(sf.parameters.get("Threads"), Some("4".to_string()));
    assert_eq!(sf.parameters.get("Hash"), Some("256".to_string()));
}

#[test]
fn make_move_sends_correct_commands() {
    let mut mock = MockProcess::new();
    mock.push_read_line("Stockfish 17 by Mock");
    mock.push_read_line("readyok");

    mock.push_read_line("readyok");

    mock.push_read_line("Fen: rnbqkbnr/pppppppp/8/8/8/8/PPPPPPPP/RNBQKBNR w KQkq - 0 1");
    mock.push_read_line("readyok");

    mock.push_read_line("bestmove d2d1");

    mock.push_read_line("info depth 1 bestmove e2e4");
    mock.push_read_line("readyok");
    mock.push_read_line("Fen: rnbqkbnr/pppppppp/8/8/8/8/PPPPPPPP/RNBQKBNR w KQkq - 0 1");
    mock.push_read_line("readyok");

    let mut sf = Stockfish::new_with_process(mock, 5);
    sf.make_move(vec!["e2e4".to_string()]).unwrap();

    assert!(sf.proc.written_lines.contains(
        &"position fen rnbqkbnr/pppppppp/8/8/8/8/PPPPPPPP/RNBQKBNR w KQkq - 0 1 moves e2e4"
            .to_string()
    ));
}

#[test]
fn make_move_rejects_invalid_move() {
    let mut mock = MockProcess::new();
    mock.push_read_line("Stockfish 17 by Mock");
    mock.push_read_line("readyok");

    mock.push_read_line("readyok");

    mock.push_read_line("bestmove (none)");

    let mut sf = Stockfish::new_with_process(mock, 5);
    let result = sf.make_move(vec!["d1d1".to_string()]);
    assert_eq!(result, Err(CheatessError::IllegalMove));
}

#[test]
fn extract_value_returns_cp_score_for_white() {
    let mut mock = MockProcess::new();

    mock.push_read_line("Stockfish 17 by Mock");
    mock.push_read_line("readyok");

    let data = vec![
        "info depth 10 selmove 20 multipv 1 score cp 37 nodes 12345 pv e1e2 a2b4".to_string(),
        "info depth 11 selmove 40 multipv 1 score cp 42 nodes 13000 pv d1d2 c1c2".to_string(),
        "bestmove e2e4".to_string(),
    ];
    let sf = Stockfish::new_with_process(mock, 11);

    let (eval, pv) = sf.extract_values(&data, 1, true).unwrap();

    assert_eq!(eval, "0.42".to_string());
    assert_eq!(pv, vec!["d1d2".to_string(), "c1c2".to_string()]);
}

#[test]
fn extract_value_returns_cp_score_for_black() {
    let mut mock = MockProcess::new();

    mock.push_read_line("Stockfish 17 by Mock");
    mock.push_read_line("readyok");

    let data = vec![
        "info depth 10 selmove 20 multipv 1 score cp 37 nodes 12345 pv e1e2 a2b4".to_string(),
        "info depth 11 selmove 40 multipv 1 score cp 47 nodes 13000 pv d1d2".to_string(),
        "bestmove e2e4".to_string(),
    ];
    let sf = Stockfish::new_with_process(mock, 11);

    let (eval, pv) = sf.extract_values(&data, 1, false).unwrap();

    assert_eq!(eval, "-0.47".to_string());
    assert_eq!(pv, vec!["d1d2".to_string()]);
}

#[test]
fn extract_value_returns_mate_for_white() {
    let mut mock = MockProcess::new();

    mock.push_read_line("Stockfish 17 by Mock");
    mock.push_read_line("readyok");

    let data = vec![
        "info depth 10 selmove 20 multipv 1 score cp 37 nodes 12345 pv e1e2 a2b4".to_string(),
        "info depth 11 selmove 40 multipv 1 score mate 2 nodes 13000 pv d1d2".to_string(),
        "bestmove e2e4".to_string(),
    ];
    let sf = Stockfish::new_with_process(mock, 11);

    let (eval, pv) = sf.extract_values(&data, 1, true).unwrap();

    assert_eq!(eval, "M2".to_string());
    assert_eq!(pv, vec!["d1d2".to_string()]);
}

#[test]
fn extract_value_returns_mate_for_black() {
    let mut mock = MockProcess::new();

    mock.push_read_line("Stockfish 17 by Mock");
    mock.push_read_line("readyok");

    let data = vec![
        "info depth 10 selmove 20 multipv 1 score cp 37 nodes 12345 pv e1e2 a2b4".to_string(),
        "info depth 11 selmove 40 multipv 1 score mate 1 nodes 13000 pv d1d2".to_string(),
        "bestmove e2e4".to_string(),
    ];
    let sf = Stockfish::new_with_process(mock, 11);

    let (eval, pv) = sf.extract_values(&data, 1, false).unwrap();

    assert_eq!(eval, "-M1".to_string());
    assert_eq!(pv, vec!["d1d2".to_string()]);
}

#[test]
fn get_evaluation_returns_cp_score_for_white() {
    let mut mock = MockProcess::new();

    mock.push_read_line("Stockfish 17 by Mock");
    mock.push_read_line("readyok");

    mock.push_read_line("Fen: rnbqkbnr/pppppppp/8/8/8/8/PPPPPPPP/RNBQKBNR w KQkq - 0 1");

    mock.push_read_line("info depth 10 score cp 37 nodes 12345");
    mock.push_read_line("info depth 11 score cp 42 nodes 13000");
    mock.push_read_line("bestmove e2e4");

    let mut sf = Stockfish::new_with_process(mock, 5);

    let eval = sf.get_evaluation().unwrap();

    assert_eq!(eval, "0.42".to_string());
}

#[test]
fn get_evaluation_returns_cp_score_for_black() {
    let mut mock = MockProcess::new();

    mock.push_read_line("Stockfish 17 by Mock");
    mock.push_read_line("readyok");

    mock.push_read_line("Fen: rnbqkbnr/pppppppp/8/8/8/8/PPPPPPPP/RNBQKBNR b KQkq - 0 1");

    mock.push_read_line("info depth 10 score cp 37 nodes 12345");
    mock.push_read_line("bestmove e7e5");

    let mut sf = Stockfish::new_with_process(mock, 5);

    let eval = sf.get_evaluation().unwrap();

    assert_eq!(eval, "-0.37".to_string());
}

#[test]
fn get_evaluation_returns_mate_for_white() {
    let mut mock = MockProcess::new();

    mock.push_read_line("Stockfish 17 by Mock");
    mock.push_read_line("readyok");

    mock.push_read_line("Fen: rnbqkbnr/pppppppp/8/8/8/8/PPPPPPPP/RNBQKBNR w KQkq - 0 1");

    mock.push_read_line("info depth 10 score cp 37 nodes 12345");
    mock.push_read_line("info depth 11 score mate 2 nodes 13000");
    mock.push_read_line("bestmove e2e4");

    let mut sf = Stockfish::new_with_process(mock, 5);

    let eval = sf.get_evaluation().unwrap();

    assert_eq!(eval, "M2".to_string());
}

#[test]
fn get_evaluation_returns_mate_for_black() {
    let mut mock = MockProcess::new();

    mock.push_read_line("Stockfish 17 by Mock");
    mock.push_read_line("readyok");

    mock.push_read_line("Fen: rnbqkbnr/pppppppp/8/8/8/8/PPPPPPPP/RNBQKBNR b KQkq - 0 1");

    mock.push_read_line("info depth 10 score mate -1 nodes 12345");
    mock.push_read_line("bestmove e7e5");

    let mut sf = Stockfish::new_with_process(mock, 5);

    let eval = sf.get_evaluation().unwrap();

    assert_eq!(eval, "-M1".to_string());
}

#[test]
fn get_evaluation_returns_zero_if_no_score() {
    let mut mock = MockProcess::new();

    mock.push_read_line("Stockfish 17 by Mock");
    mock.push_read_line("readyok");

    mock.push_read_line("Fen: 8/8/8/8/8/8/K1k5/8 w - - 0 1");

    mock.push_read_line("bestmove a1a1");

    let mut sf = Stockfish::new_with_process(mock, 5);

    let eval = sf.get_evaluation().unwrap();

    assert_eq!(eval, "0".to_string());
}

#[test]
fn get_fen_position_reports_protocol_loss() {
    let mut mock = MockProcess::new();
    mock.push_read_line("Stockfish 17 by Mock");
    mock.push_read_line("readyok");
    mock.push_read_line("no position output here");

    let mut sf = Stockfish::new_with_process(mock, 5);

    assert_eq!(sf.get_fen_position(), Err(CheatessError::EngineProtocol));
}

#[test]
fn summary_collects_each_requested_line() {
    let mut mock = MockProcess::new();

    mock.push_read_line("Stockfish 17 by Mock");
    mock.push_read_line("readyok");

    mock.push_read_line("Fen: rnbqkbnr/pppppppp/8/8/8/8/PPPPPPPP/RNBQKBNR w KQkq - 0 1");

    mock.push_read_line("info depth 5 multipv 1 score cp 42 nodes 13000 pv d2d4 d7d5");
    mock.push_read_line("info depth 5 multipv 2 score cp 13 nodes 13000 pv e2e4");
    mock.push_read_line("bestmove d2d4");

    let mut sf = Stockfish::new_with_process(mock, 5);

    let summaries = sf.summary(2).unwrap();

    assert_eq!(summaries.len(), 2);
    assert_eq!(summaries[0].eval, "0.42".to_string());
    assert_eq!(
        summaries[0].main_line,
        vec!["d2d4".to_string(), "d7d5".to_string()]
    );
    assert_eq!(summaries[1].eval, "0.13".to_string());
    assert_eq!(summaries[1].main_line, vec!["e2e4".to_string()]);
}

#[test]
fn wdl_stats_take_the_last_triple() {
    let mut mock = MockProcess::new();

    mock.push_read_line("Stockfish 17 by Mock");
    mock.push_read_line("readyok");

    mock.push_read_line("Fen: rnbqkbnr/pppppppp/8/8/8/8/PPPPPPPP/RNBQKBNR w KQkq - 0 1");

    mock.push_read_line("info depth 4 wdl 100 800 100 nodes 12");
    mock.push_read_line("info depth 5 wdl 250 700 50 nodes 13");
    mock.push_read_line("bestmove d2d4");

    let mut sf = Stockfish::new_with_process(mock, 5);

    let wdl = sf.get_wdl_stats().unwrap();

    assert_eq!(wdl, (250, 700, 50));
}
