use liarslie::agent::{stop_message, talk_message, Agent};
use liarslie::codec::decode_response;

use std::collections::HashSet;

#[test]
fn test_agent() {
    let value: u16 = 5;
    let max_value: u16 = 5;
    let mut agent_liar = Agent::new(value, max_value, true);
    let mut agent_truthful = Agent::new(value, max_value, false);

    let mut liar_set: HashSet<u16> = HashSet::new();
    let mut truthful_set: HashSet<u16> = HashSet::new();

    for _ in 0..10 {
        let resp = agent_liar.handle_connection(&talk_message()).expect("liar must answer talk");
        assert_eq!(resp.len(), 2);
        let val = decode_response(&resp).unwrap();
        assert!(!(val == value));
        liar_set.insert(val);

        let resp = agent_truthful
            .handle_connection(&talk_message())
            .expect("truthful must answer talk");
        assert_eq!(resp.len(), 2);
        let val = decode_response(&resp).unwrap();
        assert_eq!(val, value);
        truthful_set.insert(val);
    }

    assert!(agent_liar.handle_connection(&stop_message()).is_none());
    assert!(agent_truthful.handle_connection(&stop_message()).is_none());

    assert_eq!(truthful_set.len(), 1);
    assert_eq!(liar_set.len(), 1);
}

#[test]
fn liar_value_in_range_and_not_target() {
    for _ in 0..50 {
        let mut liar = Agent::new(4, 5, true);
        let resp = liar.handle_connection(&talk_message()).unwrap();
        let val = decode_response(&resp).unwrap();
        assert!(val >= 1 && val <= 5);
        assert!(val != 4);
    }
}

#[test]
fn stopped_agent_never_answers_again() {
    let mut agent = Agent::new(7, 9, false);
    assert!(agent.handle_connection(&stop_message()).is_none());
    for _ in 0..5 {
        assert!(agent.handle_connection(&talk_message()).is_none());
        assert!(agent.handle_connection(&stop_message()).is_none());
    }
}

#[test]
fn unknown_message_is_ignored() {
    let mut agent = Agent::new(3, 5, false);
    let garbage: Vec<u8> = vec![104, 105];
    assert!(agent.handle_connection(&garbage).is_none());
    // the service loop continues: a later talk still answers
    let resp = agent.handle_connection(&talk_message()).unwrap();
    assert_eq!(decode_response(&resp), Some(3));
}
