use skyjo::game::{is_hidden, Game, GameBuilder, GamePhase};
use skyjo::playerdata::{score, Column, PlayerData};
use skyjo::stack::Stack;

fn hidden(pf: &Vec<Column>) -> usize {
    pf.iter().map(|c| c.iter().filter(|cell| !cell.0).count()).sum()
}

fn revealed_cells(pf: &Vec<Column>) -> usize {
    pf.iter().map(|c| c.iter().filter(|cell| cell.0).count()).sum()
}

fn builder_with(cards: Vec<i8>) -> GameBuilder {
    GameBuilder {
        playerdata: Vec::new(),
        stack: Stack::with_cards(cards),
        current_player: 0,
        phase: GamePhase::InitialReveal,
        last_played_card: None,
    }
}

fn game_with(grids: Vec<Vec<Column>>, cards: Vec<i8>, discard: Option<i8>) -> Game {
    let playerdata = grids
        .into_iter()
        .enumerate()
        .map(|(i, playfield)| PlayerData { name: format!("P{}", i), playfield })
        .collect();
    Game {
        playerdata,
        stack: Stack::with_cards(cards),
        current_player: 0,
        phase: GamePhase::Play,
        last_played_card: discard,
    }
}

fn col(a: (bool, i8), b: (bool, i8), c: (bool, i8)) -> Column {
    [a, b, c]
}

#[test]
fn setup_deals_twelve_hidden_cards_to_each_player() {
    for players in 1..=12usize {
        let mut builder = GameBuilder::new();
        for i in 0..players {
            assert!(builder.with_player(format!("player {}", i)).is_ok());
        }
        assert_eq!(builder.stack.len(), 150 - 12 * players);
        for p in &builder.playerdata {
            assert_eq!(p.playfield.len(), 4);
            assert_eq!(hidden(&p.playfield), 12);
        }
        let game = builder.build();
        assert_eq!(game.phase, GamePhase::InitialReveal);
        assert_eq!(game.current_player, 0);
        assert_eq!(game.last_played_card, None);
    }
}

#[test]
fn thirteenth_player_cannot_be_dealt() {
    let mut builder = GameBuilder::new();
    for i in 0..12 {
        builder.with_player(format!("player {}", i)).unwrap();
    }
    assert_eq!(builder.stack.len(), 6);
    assert!(builder.with_player("late".to_string()).is_err());
    assert_eq!(builder.playerdata.len(), 12);
    assert_eq!(builder.stack.len(), 6);
}

#[test]
fn with_player_chains_and_fails_on_short_stack() {
    let mut builder = builder_with((0..23).map(|x| (x % 13) as i8).collect());
    builder.with_player("Paul".to_string()).unwrap();
    assert!(builder.with_player("Joey".to_string()).is_err());
    assert_eq!(builder.playerdata.len(), 1);
    assert_eq!(builder.stack.len(), 11);
    assert_eq!(builder.playerdata[0].name, "Paul");
}

#[test]
fn new_stack_holds_the_full_deck() {
    let mut stack = Stack::new();
    assert_eq!(stack.len(), 150);
    let mut counts = [0usize; 15];
    while let Ok(card) = stack.draw() {
        assert!((-2..=12).contains(&card));
        counts[(card + 2) as usize] += 1;
    }
    assert_eq!(counts[0], 5);
    assert_eq!(counts[1], 10);
    assert_eq!(counts[2], 15);
    for v in 3..15 {
        assert_eq!(counts[v], 10);
    }
    assert!(stack.draw().is_err());
}

#[test]
fn new_stack_is_shuffled() {
    let mut unshuffled: Vec<i8> = Vec::new();
    unshuffled.extend(vec![-2; 5]);
    unshuffled.extend(vec![0; 15]);
    unshuffled.extend(vec![-1; 10]);
    for v in 1..=12 {
        unshuffled.extend(vec![v; 10]);
    }
    let same = (0..3).all(|_| {
        let mut stack = Stack::new();
        let mut drawn = Vec::new();
        while let Ok(card) = stack.draw() {
            drawn.push(card);
        }
        drawn.reverse();
        drawn == unshuffled
    });
    assert!(!same);
}

#[test]
fn draw_takes_from_the_top() {
    let mut stack = Stack::with_cards(vec![1, 2, 3]);
    assert_eq!(stack.draw(), Ok(3));
    assert_eq!(stack.draw(), Ok(2));
    assert_eq!(stack.draw(), Ok(1));
    assert!(stack.draw().is_err());
    assert_eq!(stack.len(), 0);
}

#[test]
fn draw_playfield_deals_column_by_column() {
    let mut stack = Stack::with_cards((0..14).collect());
    let pf = stack.draw_playfield().unwrap();
    assert_eq!(
        pf,
        vec![
            [(false, 13), (false, 12), (false, 11)],
            [(false, 10), (false, 9), (false, 8)],
            [(false, 7), (false, 6), (false, 5)],
            [(false, 4), (false, 3), (false, 2)],
        ]
    );
    assert_eq!(stack.len(), 2);
    assert!(stack.draw_playfield().is_err());
    assert_eq!(stack.len(), 2);
}

#[test]
fn one_player_initial_reveal() {
    let mut builder = builder_with((0..20).map(|x| (x % 13) as i8).collect());
    builder.with_player("Solo".to_string()).unwrap();
    let mut game = builder.build();
    assert!(game.reveal_card(0, 0));
    assert!(!game.reveal_card(0, 0));
    assert!(game.reveal_card(3, 2));
    let pf = &game.playerdata[0].playfield;
    assert_eq!(revealed_cells(pf), 2);
    assert_eq!(hidden(pf), 10);
    assert!(!game.end_turn());
    assert_eq!(game.phase, GamePhase::Play);
    assert_eq!(game.current_player, 0);
}

#[test]
fn play_starts_after_the_last_player_reveals() {
    let mut builder = GameBuilder::new();
    builder.with_player("Paul".to_string()).unwrap().with_player("Joey".to_string()).unwrap();
    let mut game = builder.build();
    assert!(game.reveal_card(1, 1));
    assert!(game.reveal_card(2, 1));
    game.end_turn();
    assert_eq!(game.phase, GamePhase::InitialReveal);
    assert_eq!(game.current_player, 1);
    assert!(game.reveal_card(0, 2));
    assert!(game.reveal_card(3, 0));
    game.end_turn();
    assert_eq!(game.phase, GamePhase::Play);
    assert_eq!(game.current_player, 0);
    assert_eq!(hidden(&game.playerdata[0].playfield), 10);
    assert_eq!(hidden(&game.playerdata[1].playfield), 10);
}

#[test]
fn replace_completing_sevens_clears_column_and_discard() {
    let grid = vec![
        col((true, 7), (true, 7), (false, 7)),
        col((false, 1), (false, 2), (false, 3)),
        col((false, 4), (false, 5), (false, 6)),
        col((false, 8), (false, 9), (false, 10)),
    ];
    let mut game = game_with(vec![grid], vec![7], None);
    let card = game.take_or_draw(false).unwrap();
    assert_eq!(card, 7);
    assert!(game.replace_card(card, 0, 2));
    assert_eq!(game.last_played_card, Some(7));
    assert!(!game.end_turn());
    assert_eq!(game.playerdata[0].playfield.len(), 3);
    assert_eq!(game.playerdata[0].playfield[0], col((false, 1), (false, 2), (false, 3)));
    assert_eq!(game.last_played_card, None);
}

#[test]
fn clearing_another_value_keeps_discard() {
    let grid = vec![
        col((true, 7), (true, 7), (true, 7)),
        col((false, 1), (false, 2), (false, 3)),
    ];
    let mut game = game_with(vec![grid], vec![], Some(4));
    game.remove_done_columns();
    assert_eq!(game.playerdata[0].playfield.len(), 1);
    assert_eq!(game.last_played_card, Some(4));
}

#[test]
fn clearing_on_another_players_grid_drops_matching_discard() {
    let mine = vec![col((false, 1), (false, 2), (false, 3))];
    let theirs = vec![
        col((true, 4), (true, 4), (true, 4)),
        col((true, 5), (true, 5), (false, 5)),
    ];
    let mut game = game_with(vec![mine, theirs], vec![], Some(4));
    game.remove_done_columns();
    assert_eq!(game.playerdata[0].playfield.len(), 1);
    assert_eq!(game.playerdata[1].playfield.len(), 1);
    assert_eq!(game.last_played_card, None);
}

#[test]
fn second_scan_removes_nothing() {
    let grid = vec![
        col((true, 2), (true, 2), (true, 2)),
        col((true, 3), (true, 3), (true, 3)),
        col((true, 3), (true, 1), (true, 3)),
    ];
    let mut game = game_with(vec![grid], vec![], Some(9));
    game.remove_done_columns();
    let after_first = game.playerdata[0].playfield.clone();
    assert_eq!(after_first, vec![col((true, 3), (true, 1), (true, 3))]);
    game.remove_done_columns();
    assert_eq!(game.playerdata[0].playfield, after_first);
    assert_eq!(game.last_played_card, Some(9));
}

#[test]
fn clearing_a_column_takes_one_column_and_three_cells() {
    let grid = vec![
        col((true, 0), (true, 0), (true, 0)),
        col((false, 1), (true, 2), (false, 3)),
        col((true, 4), (false, 5), (false, 6)),
    ];
    let mut game = game_with(vec![grid], vec![], None);
    let cells_before: usize = game.playerdata[0].playfield.len() * 3;
    game.remove_done_columns();
    assert_eq!(game.playerdata[0].playfield.len(), 2);
    assert_eq!(game.playerdata[0].playfield.len() * 3, cells_before - 3);
}

#[test]
fn empty_discard_forces_a_draw() {
    let grid = vec![col((false, 1), (false, 2), (false, 3))];
    let mut game = game_with(vec![grid], vec![5, 11], None);
    assert_eq!(game.take_or_draw(false), Ok(11));
    assert_eq!(game.stack.len(), 1);
    assert_eq!(game.last_played_card, None);
}

#[test]
fn discard_can_be_taken_or_passed_over() {
    let grid = vec![col((false, 1), (false, 2), (false, 3))];
    let mut game = game_with(vec![grid.clone()], vec![5, 11], Some(-2));
    assert_eq!(game.take_or_draw(false), Ok(-2));
    assert_eq!(game.last_played_card, None);
    assert_eq!(game.stack.len(), 2);

    let mut game = game_with(vec![grid], vec![5, 11], Some(-2));
    assert_eq!(game.take_or_draw(true), Ok(11));
    assert_eq!(game.last_played_card, Some(-2));
}

#[test]
fn drawing_from_an_empty_stack_fails() {
    let grid = vec![col((false, 1), (false, 2), (false, 3))];
    let mut game = game_with(vec![grid], vec![], None);
    assert!(game.take_or_draw(true).is_err());
    assert_eq!(game.last_played_card, None);
}

#[test]
fn throwing_away_reveals_a_hidden_card() {
    let grid = vec![col((true, 1), (false, 2), (false, 3))];
    let mut game = game_with(vec![grid], vec![], None);
    assert!(!game.throw_away(9, 0, 0));
    assert_eq!(game.last_played_card, None);
    assert!(!game.throw_away(9, 1, 0));
    assert!(game.throw_away(9, 0, 1));
    assert_eq!(game.last_played_card, Some(9));
    assert_eq!(game.playerdata[0].playfield[0], col((true, 1), (true, 2), (false, 3)));
}

#[test]
fn replace_puts_old_card_on_the_discard() {
    let grid = vec![col((true, 1), (false, 2), (false, 3))];
    let mut game = game_with(vec![grid], vec![], None);
    assert!(!game.replace_card(12, 1, 0));
    assert!(!game.replace_card(12, 0, 3));
    assert!(game.replace_card(12, 0, 0));
    assert_eq!(game.last_played_card, Some(1));
    assert_eq!(game.playerdata[0].playfield[0], col((true, 12), (false, 2), (false, 3)));
}

#[test]
fn game_ends_when_acting_player_has_no_hidden_card() {
    let mine = vec![col((true, 1), (true, 2), (false, 3))];
    let theirs = vec![col((false, 5), (false, 5), (false, 3)), col((false, 0), (true, 1), (false, 2))];
    let mut game = game_with(vec![mine, theirs], vec![], Some(4));
    assert!(game.throw_away(6, 0, 2));
    assert!(game.end_turn());
    assert!(game.is_done());
    assert_eq!(game.current_player, 1);
    for p in &game.playerdata {
        assert_eq!(hidden(&p.playfield), 0);
    }
    assert_eq!(score(&game.playerdata[0].playfield), 6);
    assert_eq!(score(&game.playerdata[1].playfield), 16);
}

#[test]
fn ended_game_no_longer_changes() {
    let mine = vec![col((true, 1), (true, 2), (false, 3))];
    let theirs = vec![col((false, 5), (false, 5), (false, 5))];
    let mut game = game_with(vec![mine, theirs], vec![1, 2], None);
    assert!(game.reveal_card(0, 2));
    assert!(game.end_turn());
    let grids: Vec<Vec<Column>> = game.playerdata.iter().map(|p| p.playfield.clone()).collect();
    assert_eq!(grids[1], vec![col((true, 5), (true, 5), (true, 5))]);
    assert!(!game.reveal_card(0, 0));
    assert!(!game.replace_card(4, 0, 0));
    assert!(!game.throw_away(4, 0, 0));
    assert!(game.take_or_draw(true).is_err());
    game.remove_done_columns();
    assert!(!game.end_turn());
    assert!(!game.end_turn());
    assert!(game.is_done());
    let after: Vec<Vec<Column>> = game.playerdata.iter().map(|p| p.playfield.clone()).collect();
    assert_eq!(after, grids);
    assert_eq!(game.stack.len(), 2);
}

#[test]
fn score_sums_every_cell() {
    assert_eq!(score(&vec![col((true, 5), (true, 5), (true, 3))]), 13);
    assert_eq!(score(&vec![col((false, 5), (true, 5), (false, 3))]), 13);
    assert_eq!(score(&vec![]), 0);
    assert_eq!(
        score(&vec![col((true, -2), (true, -1), (true, 0)), col((false, 12), (true, 12), (false, -2))]),
        19
    );
}

#[test]
fn has_unrevealed_cards_sees_any_hidden_cell() {
    let game = game_with(vec![vec![col((true, 1), (true, 1), (true, 1))]], vec![], None);
    assert!(!game.has_unrevealed_cards(&vec![]));
    assert!(!game.has_unrevealed_cards(&vec![col((true, 1), (true, 2), (true, 3))]));
    assert!(game.has_unrevealed_cards(&vec![
        col((true, 1), (true, 2), (true, 3)),
        col((true, 1), (false, 2), (true, 3)),
    ]));
}

#[test]
fn is_hidden_accepts_only_face_down_cells() {
    let pf = vec![col((true, 1), (false, 2), (true, 3))];
    assert!(is_hidden(pf.clone(), (0, 1)));
    assert!(!is_hidden(pf.clone(), (0, 0)));
    assert!(!is_hidden(pf.clone(), (1, 1)));
    assert!(!is_hidden(pf, (0, 3)));
}

#[test]
fn builder_starts_with_the_full_deck() {
    let mut builder = GameBuilder::new();
    assert!(builder.playerdata.is_empty());
    let mut counts = [0usize; 15];
    while let Ok(card) = builder.stack.draw() {
        counts[(card + 2) as usize] += 1;
    }
    assert_eq!(counts[0], 5);
    assert_eq!(counts[1], 10);
    assert_eq!(counts[2], 15);
    for v in 3..15 {
        assert_eq!(counts[v], 10);
    }
}
