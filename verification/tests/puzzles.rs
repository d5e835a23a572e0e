use game2048::brainfuck::{link, parse, Action, Command, Interpreter};
use game2048::connect_four;
use game2048::connect_four::Chip;
use game2048::hangman::Hangman;
use game2048::key::Key;
use game2048::sokoban;
use game2048::sokoban::Game;
use game2048::sudoku::{Field, Sudoku};

fn sudoku_from(text: &str) -> Sudoku {
    let mut s = Sudoku::default();
    let digits: Vec<usize> = text.chars().map(|c| c.to_digit(10).map(|d| d as usize).unwrap_or(0)).collect();
    for r in 0..9 {
        let mut row = [0usize; 9];
        row.copy_from_slice(&digits[9 * r..9 * r + 9]);
        s.rows[r].set(&mut s.cells, row);
    }
    s
}

fn sudoku_text(s: &Sudoku) -> String {
    s.cells.iter().map(|c| match c.get() {
        Some(v) => char::from_digit(v as u32, 10).unwrap(),
        None => '.',
    }).collect()
}

#[test]
fn sudoku_grid_layout() {
    let s = Sudoku::default();
    assert_eq!(s.cells.len(), 81);
    assert_eq!(s.rows[2].fields, vec![18, 19, 20, 21, 22, 23, 24, 25, 26]);
    assert_eq!(s.cols[1].fields, vec![1, 10, 19, 28, 37, 46, 55, 64, 73]);
    assert_eq!(s.blocks[4].fields, vec![30, 31, 32, 39, 40, 41, 48, 49, 50]);
    assert_eq!(s.blocks[2].fields, vec![6, 7, 8, 15, 16, 17, 24, 25, 26]);
    assert_eq!((s.cells[40].x, s.cells[40].y), (4, 4));
    assert!(s.cells.iter().all(|c| c.get().is_none() && c.cand.len() == 9));
}

#[test]
fn removing_candidates_down_to_one_fixes_the_cell() {
    let f = Field::new(0, 0);
    assert!(f._is_candidate(5));
    assert!(!f.has_value());
    let mut g = Field::new(1, 1);
    for v in 2..=9 {
        let changed = g.remove_candidate(v);
        assert_eq!(changed, v == 9);
    }
    assert_eq!(g.get(), Some(1));
}

#[test]
fn a_line_check_rules_out_known_digits() {
    let mut s = Sudoku::default();
    s.rows[0].set(&mut s.cells, [1, 2, 3, 4, 5, 6, 7, 8, 0]);
    let changed = s.rows[0].check(&mut s.cells);
    assert!(changed);
    assert_eq!(s.cells[8].get(), Some(9));
}

#[test]
fn only_fixes_the_single_cell_for_a_digit() {
    let mut s = Sudoku::default();
    for t in 0..8 {
        s.cells[t].remove_candidate(1);
    }
    let changed = s.rows[0].only(&mut s.cells);
    assert!(changed);
    assert_eq!(s.cells[8].get(), Some(1));
    assert_eq!(s.cells[0].get(), None);
}

#[test]
fn solving_an_easy_puzzle() {
    let mut s = sudoku_from("53..7....6..195....98....6.8...6...34..8.3..17...2...6.6....28....419..5....8..79");
    s.solve();
    assert_eq!(sudoku_text(&s), "534678912672195348198342567859761423426853791713924856961537284287419635345286179");
    // the rules change nothing on a solved grid
    assert!(!s.check());
    assert!(!s.only());
    // every cell stays at its row and column
    for i in 0..81 {
        assert_eq!((s.cells[i].x, s.cells[i].y), (i / 9, i % 9));
    }
}

#[test]
fn hangman_marks_guessed_letters() {
    let mut h = Hangman::new("hello".to_string());
    assert_eq!(h.guessed, vec![false; 5]);
    assert!(!h.is_guess());
    h.guess('l');
    assert_eq!(h.guessed, vec![false, false, true, true, false]);
    assert_eq!(h.wrong, 0);
    h.guess('z');
    assert_eq!(h.wrong, 1);
    assert_eq!(h.guesses, vec!['l', 'z']);
    h.play(&vec!['h', 'e', 'o']);
    assert!(h.is_guess());
    assert_eq!(h.wrong, 1);
}

#[test]
fn guessing_a_letter_twice_changes_nothing() {
    let mut h = Hangman::new("abc".to_string());
    h.guess('x');
    let (g, w) = (h.guessed.clone(), h.wrong);
    h.guess('x');
    assert_eq!(h.guessed, g);
    assert_eq!(h.wrong, w);
    assert_eq!(h.guesses, vec!['x']);
}

#[test]
fn hangman_drawing_grows_with_wrong_guesses() {
    let mut h = Hangman::new("a".to_string());
    assert!(h.print_hangman().iter().all(|row| row.iter().all(|c| *c == ' ')));
    h.play(&vec!['b', 'c']);
    let d = h.print_hangman();
    assert_eq!(d[4][0], '/');
    assert_eq!(d[4][2], '\\');
    assert_eq!(d[3][1], '|');
    assert_eq!(d[1][1], ' ');
    h.play(&vec!['d', 'e', 'f', 'g']);
    assert_eq!(h.print_hangman()[1][5], 'o');
    h.play(&vec!['i', 'j', 'k']);
    let d = h.print_hangman();
    assert_eq!(d[1][5], 'x');
    assert_eq!(d[0], [' ', ' ', '-', '-', '-', '|', ' ']);
    assert_eq!(d[2], [' ', '|', ' ', ' ', '/', '|', '\\']);
}

#[test]
fn brainfuck_parsing_skips_comments() {
    let text: Vec<char> = "+a[-]>.,<".chars().collect();
    assert_eq!(
        parse(&text),
        vec![Command::Plus, Command::JumpFwd(0), Command::Minus, Command::JumpBwd(0), Command::Inc, Command::Output,
            Command::Input, Command::Dec]
    );
    assert_eq!(Command::from('x'), Command::Noop);
}

#[test]
fn linking_pairs_the_brackets() {
    let text: Vec<char> = "[[]+[]]".chars().collect();
    let linked = link(parse(&text)).unwrap();
    assert_eq!(
        linked,
        vec![Command::JumpFwd(6), Command::JumpFwd(2), Command::JumpBwd(1), Command::Plus, Command::JumpFwd(5),
            Command::JumpBwd(4), Command::JumpBwd(0)]
    );
    assert_eq!(link(parse(&"+]".chars().collect())), None);
    assert_eq!(link(parse(&"[".chars().collect())), Some(vec![Command::JumpFwd(0)]));
}

fn run(program: &str, input: &[u8]) -> Vec<u8> {
    let text: Vec<char> = program.chars().collect();
    let mut int = Interpreter::new(link(parse(&text)).unwrap());
    let mut out = Vec::new();
    let mut input = input.iter();
    loop {
        assert!(!int.stuck());
        match int.step() {
            Action::Halt => return out,
            Action::Continue => {},
            Action::Read => int.provide(*input.next().unwrap()),
            Action::Write(b) => out.push(b),
        }
    }
}

#[test]
fn interpreter_runs_loops_and_io() {
    assert_eq!(run("++.", &[]), vec![2]);
    assert_eq!(run("+[-].", &[]), vec![0]);
    assert_eq!(run("-.", &[]), vec![255]);
    assert_eq!(run(",+.", &[41]), vec![42]);
    // 8 times 8
    assert_eq!(run("++++++++[>++++++++<-]>.", &[]), vec![64]);
}

#[test]
fn interpreter_refuses_moving_left_of_the_first_cell() {
    let int = Interpreter::new(vec![Command::Dec]);
    assert!(int.stuck());
    let mut ok = Interpreter::new(vec![Command::Inc, Command::Dec]);
    assert!(!ok.stuck());
    assert_eq!(ok.step(), Action::Continue);
    assert_eq!(ok.ptr, 1);
}

#[test]
fn connect_four_column_win() {
    let mut b = connect_four::Board::new();
    assert!(!b.check());
    for _ in 0..3 {
        assert!(b.put(Chip::Red));
    }
    assert!(!b.check());
    assert!(b.put(Chip::Red));
    assert!(b.check());
    let col = b.column(0);
    assert_eq!(col[9].color(), Some(Chip::Red));
    assert_eq!(col[5].color(), None);
}

#[test]
fn connect_four_full_column_refuses() {
    let mut b = connect_four::Board::new();
    for i in 0..10 {
        assert!(b.put(if i % 2 == 0 { Chip::Red } else { Chip::Yellow }));
    }
    assert!(!b.put(Chip::Red));
    assert_eq!(b.step(connect_four::Direction::Enter, Chip::Red), Chip::Red);
}

#[test]
fn connect_four_keys_and_pointer() {
    let mut b = connect_four::Board::new();
    assert_eq!(b.step(connect_four::Direction::Left, Chip::Yellow), Chip::Yellow);
    assert_eq!(b.pointer, 9);
    assert_eq!(b.step(connect_four::Direction::Right, Chip::Yellow), Chip::Yellow);
    assert_eq!(b.pointer, 0);
    assert_eq!(b.step(connect_four::Direction::Enter, Chip::Yellow), Chip::Red);
    assert_eq!(connect_four::key_to_direction(Key::Enter), connect_four::Direction::Enter);
    assert_eq!(connect_four::key_to_direction(Key::Char('a')), connect_four::Direction::Left);
    assert_eq!(connect_four::key_to_direction(Key::ArrowUp), connect_four::Direction::Nowhere);
}

#[test]
fn connect_four_diagonal_win() {
    let mut b = connect_four::Board::new();
    // a staircase of yellow chips from column 0 to column 3
    for c in 0..4 {
        b.pointer = c;
        for _ in 0..c {
            b.put(Chip::Red);
        }
        b.put(Chip::Yellow);
    }
    assert!(b.check());
}

fn level() -> Vec<Vec<char>> {
    "..WWW...\n.WWFW...\n.W.BWWWW\nWW...BPW\nWF.BBFWW\nWWWW.WW.\n...WFW..\n...WWW.."
        .lines()
        .map(|l| l.chars().collect())
        .collect()
}

#[test]
fn sokoban_level_reading() {
    let g = Game::from_level(&level());
    assert_eq!((g.player.x, g.player.y), (3, 6));
    assert!(g.board[0][2].is_wall());
    assert!(g.board[2][3].has_box());
    assert!(g.board[1][3].finish);
    assert!(g.board[3][6].is_occupied());
}

#[test]
fn sokoban_pushes_boxes_and_stops_at_walls() {
    let mut g = Game::from_level(&level());
    let boxes = |g: &Game| g.board.iter().flatten().filter(|f| f.has_box()).count();
    assert_eq!(boxes(&g), 4);
    assert!(g.can_move(sokoban::Direction::Left));
    assert!(g.move_to(sokoban::Direction::Left));
    assert_eq!((g.player.x, g.player.y), (3, 5));
    assert!(g.board[3][4].has_box());
    assert!(!g.board[3][5].has_box());
    assert!(!g.board[3][6].is_occupied());
    assert!(!g.move_to(sokoban::Direction::Up));
    assert_eq!((g.player.x, g.player.y), (3, 5));
    assert!(g.move_to(sokoban::Direction::Left));
    assert!(g.board[3][3].has_box());
    assert_eq!(boxes(&g), 4);
    assert_eq!(g.board.iter().flatten().filter(|f| f.is_occupied()).count(), 1);
}

#[test]
fn sokoban_keys() {
    assert_eq!(sokoban::key_to_direction(Key::Char('w')), sokoban::Direction::Up);
    assert_eq!(sokoban::key_to_direction(Key::ArrowDown), sokoban::Direction::Down);
    assert_eq!(sokoban::key_to_direction(Key::Char('q')), sokoban::Direction::Nowhere);
    let g = Game::from_level(&vec![vec!['P']]);
    assert!(!g.can_move(sokoban::Direction::Up));
    assert!(g.can_move(sokoban::Direction::Nowhere));
}
