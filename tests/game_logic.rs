use mastermind::{
    check_dupes, check_input, classify_line, colorize, frequency, generate_code, is_win,
    mark_char, marks_to_chars, read_command, tint_of, validate_input, Command, Config, Game,
    InputError, Mark, Outcome, Tint,
};

use Mark::{Absent, Exact, Present};

fn chars(s: &str) -> Vec<char> {
    s.chars().collect()
}

fn count(marks: &[Mark], m: Mark) -> usize {
    marks.iter().filter(|x| **x == m).count()
}

fn intersection_size(code: &[char], guess: &[char]) -> usize {
    let mut symbols: Vec<char> = code.to_vec();
    symbols.extend_from_slice(guess);
    symbols.sort();
    symbols.dedup();
    symbols
        .iter()
        .map(|s| {
            let a = code.iter().filter(|c| *c == s).count();
            let b = guess.iter().filter(|c| *c == s).count();
            a.min(b)
        })
        .sum()
}

const SAMPLES: [&str; 10] = [
    "rgby", "grbk", "rrgb", "rgrb", "kkww", "wkwk", "rrrr", "yyrb", "brgy", "cpkw",
];

#[test]
fn generated_codes_have_length_and_symbols_in_play() {
    let cfg = Config::standard();
    let active = cfg.active_symbols();
    for _ in 0..500 {
        let code = generate_code(&cfg);
        assert_eq!(code.len(), cfg.code_length);
        for c in &code {
            assert!(active.contains(c));
        }
        for i in (cfg.max_duplicates + 1)..code.len() {
            let before = code[..i].iter().filter(|c| **c == code[i]).count();
            assert!(before < cfg.max_duplicates);
        }
    }
}

#[test]
fn generated_codes_on_a_tight_config() {
    let cfg = Config::new(2, 4, 2, 10).unwrap();
    for _ in 0..200 {
        let code = generate_code(&cfg);
        assert_eq!(code.len(), 4);
        assert!(code.iter().all(|c| *c == 'r' || *c == 'g'));
    }
}

#[test]
fn exact_count_equals_agreeing_positions() {
    for c in SAMPLES {
        for g in SAMPLES {
            let (code, guess) = (chars(c), chars(g));
            let marks = check_input(&code, &guess);
            let agree = (0..4).filter(|i| code[*i] == guess[*i]).count();
            assert_eq!(count(&marks, Exact), agree);
        }
    }
}

#[test]
fn hits_equal_multiset_intersection() {
    for c in SAMPLES {
        for g in SAMPLES {
            let (code, guess) = (chars(c), chars(g));
            let marks = check_input(&code, &guess);
            let hits = count(&marks, Exact) + count(&marks, Present);
            assert!(hits <= intersection_size(&code, &guess));
            assert_eq!(hits, intersection_size(&code, &guess));
        }
    }
}

#[test]
fn scoring_twice_gives_the_same_score() {
    let code = chars("rrgb");
    let guess = chars("rgrb");
    assert_eq!(check_input(&code, &guess), check_input(&code, &guess));
}

#[test]
fn swapping_keeps_mark_counts() {
    for c in SAMPLES {
        for g in SAMPLES {
            let a = check_input(&chars(c), &chars(g));
            let b = check_input(&chars(g), &chars(c));
            assert_eq!(count(&a, Exact), count(&b, Exact));
            assert_eq!(count(&a, Present), count(&b, Present));
        }
    }
}

#[test]
fn swapping_can_move_marks() {
    let a = check_input(&chars("rrgb"), &chars("grrk"));
    let b = check_input(&chars("grrk"), &chars("rrgb"));
    assert_eq!(a, vec![Present, Exact, Present, Absent]);
    assert_eq!(b, vec![Present, Exact, Present, Absent]);
    let c = check_input(&chars("rgbb"), &chars("bbry"));
    let d = check_input(&chars("bbry"), &chars("rgbb"));
    assert_eq!(c, vec![Present, Present, Present, Absent]);
    assert_eq!(d, vec![Present, Absent, Present, Present]);
}

#[test]
fn win_iff_guess_equals_code() {
    for c in SAMPLES {
        for g in SAMPLES {
            let marks = check_input(&chars(c), &chars(g));
            assert_eq!(is_win(&marks), c == g);
            assert_eq!(marks == vec![Exact, Exact, Exact, Exact], c == g);
        }
    }
}

#[test]
fn validation_examples() {
    let cfg = Config::standard();
    assert_eq!(validate_input(&cfg, &chars("rrrb")), Err(InputError::TooManyDuplicates));
    assert_eq!(validate_input(&cfg, &chars("rrgb")), Ok(()));
    assert_eq!(validate_input(&cfg, &chars("xyzz")), Err(InputError::InvalidSymbol('x')));
    assert_eq!(validate_input(&cfg, &chars("rgb")), Err(InputError::WrongLength));
}

#[test]
fn validation_order_and_edges() {
    let cfg = Config::standard();
    assert_eq!(validate_input(&cfg, &chars("")), Err(InputError::WrongLength));
    assert_eq!(validate_input(&cfg, &chars("rgbyk")), Err(InputError::WrongLength));
    assert_eq!(validate_input(&cfg, &chars("rrrp")), Err(InputError::InvalidSymbol('p')));
    assert_eq!(validate_input(&cfg, &chars("rgcc")), Err(InputError::InvalidSymbol('c')));
    assert_eq!(validate_input(&cfg, &chars("kwkw")), Ok(()));
    assert_eq!(validate_input(&cfg, &chars("wwwk")), Err(InputError::TooManyDuplicates));
}

#[test]
fn scenario_two_presents_one_exact() {
    let marks = check_input(&chars("rgby"), &chars("grbk"));
    assert_eq!(marks, vec![Present, Present, Exact, Absent]);
}

#[test]
fn scenario_consumption_of_duplicates() {
    let marks = check_input(&chars("rrgb"), &chars("rgrb"));
    assert_eq!(marks, vec![Exact, Present, Present, Exact]);
}

#[test]
fn leftmost_code_position_is_used_once() {
    let marks = check_input(&chars("grrk"), &chars("rrrr"));
    assert_eq!(marks, vec![Absent, Exact, Exact, Absent]);
    let marks = check_input(&chars("rgbw"), &chars("kkrr"));
    assert_eq!(marks, vec![Absent, Absent, Present, Absent]);
}

#[test]
fn check_dupes_counts_against_allowance() {
    let cfg = Config::standard();
    assert!(!check_dupes(&cfg, &chars("rgb"), 'r'));
    assert!(check_dupes(&cfg, &chars("rgr"), 'r'));
    assert!(check_dupes(&cfg, &chars("rrr"), 'r'));
    assert!(!check_dupes(&cfg, &chars(""), 'r'));
}

#[test]
fn frequency_counts_each_symbol_once() {
    let table = frequency(&chars("rgrbr"));
    assert_eq!(table, vec![('r', 3), ('g', 1), ('b', 1)]);
    assert!(frequency(&chars("")).is_empty());
}

#[test]
fn commands_ignore_case() {
    assert!(matches!(read_command("exit"), Command::Exit));
    assert!(matches!(read_command("QUIT"), Command::Exit));
    assert!(matches!(read_command("ExIt"), Command::Exit));
    match read_command("RGBY") {
        Command::Guess(g) => assert_eq!(g, chars("rgby")),
        Command::Exit => panic!("not an exit word"),
    }
    match classify_line("exits") {
        Command::Guess(g) => assert_eq!(g, chars("exits")),
        Command::Exit => panic!("not an exit word"),
    }
}

#[test]
fn colorize_paints_symbols() {
    assert_eq!(colorize(&chars("r")), "\x1b[38;5;9mr\x1b[0m");
    assert_eq!(colorize(&chars("rr")), "\x1b[38;5;9mrr\x1b[0m");
    assert_eq!(colorize(&chars("g")), "\x1b[32mg\x1b[0m");
    assert_eq!(colorize(&chars("z")), "z");
    assert_eq!(colorize(&chars("")), "");
}

#[test]
fn tints_and_mark_characters() {
    assert_eq!(tint_of('k'), Tint::Fixed(242));
    assert_eq!(tint_of('X'), Tint::Fixed(242));
    assert_eq!(tint_of('O'), Tint::White);
    assert_eq!(tint_of('-'), Tint::Fixed(13));
    assert_eq!(tint_of('?'), Tint::Plain);
    assert_eq!(mark_char(Exact), 'X');
    assert_eq!(marks_to_chars(&vec![Exact, Present, Absent]), chars("XO-"));
}

#[test]
fn config_constructor_checks_settings() {
    assert_eq!(Config::new(6, 4, 2, 10), Some(Config::standard()));
    assert_eq!(Config::new(0, 4, 2, 10), None);
    assert_eq!(Config::new(9, 4, 2, 10), None);
    assert_eq!(Config::new(6, 4, 0, 10), None);
    assert_eq!(Config::new(1, 3, 2, 10), None);
    assert_eq!(Config::new(6, 4, 2, usize::MAX), None);
    assert_eq!(Config::standard().active_symbols(), chars("rgbykw"));
    assert!(Config::standard().is_active('w'));
    assert!(!Config::standard().is_active('p'));
}

#[test]
fn game_rejects_without_using_an_attempt() {
    let mut game = Game::with_code(Config::standard(), chars("rgby"));
    assert!(matches!(game.play(&chars("rg")), Outcome::Rejected(InputError::WrongLength)));
    assert_eq!(game.attempt, 1);
    match game.play(&chars("grbk")) {
        Outcome::Scored(m) => assert_eq!(m, vec![Present, Present, Exact, Absent]),
        other => panic!("unexpected {:?}", other),
    }
    assert_eq!(game.attempt, 2);
    match game.play(&chars("rgby")) {
        Outcome::Won(m) => assert_eq!(m, vec![Exact; 4]),
        other => panic!("unexpected {:?}", other),
    }
    assert_eq!(game.attempt, 2);
    assert!(game.is_over());
}

#[test]
fn game_is_lost_after_the_last_attempt() {
    let mut game = Game::with_code(Config::standard(), chars("rgby"));
    for _ in 0..9 {
        assert!(matches!(game.play(&chars("kkww")), Outcome::Scored(_)));
    }
    assert!(!game.is_over());
    assert!(matches!(game.play(&chars("kkww")), Outcome::Lost(_)));
    assert!(game.is_over());
    assert_eq!(game.attempt, 11);
}

#[test]
fn new_game_starts_at_first_attempt() {
    let game = Game::new(Config::standard());
    assert_eq!(game.attempt, 1);
    assert_eq!(game.code.len(), 4);
    assert!(!game.won);
}
