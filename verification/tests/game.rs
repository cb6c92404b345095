use liarslie::agent::{stop_message, talk_message, Agent};
use liarslie::codec::encode_value;
use liarslie::game::{GameState, Phase};
use liarslie::select::Ratio;

#[test]
fn round_loop_terminates_exactly_on_target() {
    // target 3; liar ratio 0.25 so the first round proposes the
    // majority value 5, the second proposes 3 and wins. The reported
    // round count equals the number of plays, the winning one included.
    let mut game = GameState::new(3);
    let ratio = Ratio { num: 1, den: 4 };
    let responses: Vec<Vec<u8>> = vec![
        encode_value(5),
        encode_value(5),
        encode_value(5),
        encode_value(3),
    ];

    let first = game.play_round(&responses, &ratio);
    assert_eq!(first, Some(5));
    assert_eq!(game.phase, Phase::AwaitingCommand);
    assert_eq!(game.rounds, 1);

    let second = game.play_round(&responses, &ratio);
    assert_eq!(second, Some(3));
    assert_eq!(game.phase, Phase::GameWon);
    assert_eq!(game.rounds, 2);
}

#[test]
fn invalid_answers_shrink_the_total() {
    // an answer that is not exactly two bytes is skipped, not counted
    let mut game = GameState::new(9);
    let ratio = Ratio { num: 1, den: 2 };
    let responses: Vec<Vec<u8>> = vec![encode_value(4), vec![1], vec![0, 1, 2], encode_value(4)];
    let proposed = game.play_round(&responses, &ratio);
    assert_eq!(proposed, Some(4));
    assert_eq!(game.phase, Phase::AwaitingCommand);
}

#[test]
fn no_candidate_round_still_counts() {
    let mut game = GameState::new(3);
    let ratio = Ratio { num: 1, den: 2 };
    let responses: Vec<Vec<u8>> = vec![encode_value(5), encode_value(5)];
    assert_eq!(game.play_round(&responses, &ratio), Some(5));
    // every reported value has now been tried: no candidate
    assert_eq!(game.play_round(&responses, &ratio), None);
    assert_eq!(game.phase, Phase::AwaitingCommand);
    assert_eq!(game.rounds, 2);
}

#[test]
fn external_stop_moves_to_shutdown() {
    let mut game = GameState::new(3);
    game.stop();
    assert_eq!(game.phase, Phase::Stopped);
    assert_eq!(game.rounds, 0);
}

#[test]
fn full_game_is_won_without_repeating_a_guess() {
    // 10 agents, liar ratio 0.3 (3 liars), maximum value 5, target 4:
    // after enough rounds the controller must propose 4 and win, never
    // proposing the same value twice.
    let target: u16 = 4;
    let max_value: u16 = 5;
    let ratio = Ratio { num: 3, den: 10 };

    let mut agents: Vec<Agent> = Vec::new();
    for _ in 0..3 {
        agents.push(Agent::new(target, max_value, true));
    }
    for _ in 0..7 {
        agents.push(Agent::new(target, max_value, false));
    }

    let mut game = GameState::new(target);
    let mut proposals: Vec<u16> = Vec::new();
    let mut plays: u32 = 0;

    while game.phase == Phase::AwaitingCommand && plays < 10 {
        let mut responses: Vec<Vec<u8>> = Vec::new();
        for agent in agents.iter_mut() {
            match agent.handle_connection(&talk_message()) {
                Some(bytes) => responses.push(bytes),
                None => panic!("a running agent must answer talk"),
            }
        }
        let proposed = game.play_round(&responses, &ratio);
        plays += 1;
        if let Some(v) = proposed {
            proposals.push(v);
        }
    }

    assert_eq!(game.phase, Phase::GameWon);
    assert_eq!(game.rounds, plays);
    assert_eq!(proposals.last(), Some(&target));
    // at most one proposal per possible value
    assert!(proposals.len() as u16 <= max_value);
    for i in 0..proposals.len() {
        for j in (i + 1)..proposals.len() {
            assert_ne!(proposals[i], proposals[j]);
        }
    }

    // shut every agent down: stop draws no response, and the agents
    // answer nothing afterwards
    for agent in agents.iter_mut() {
        assert!(agent.handle_connection(&stop_message()).is_none());
        assert!(agent.handle_connection(&talk_message()).is_none());
    }
}
