use liarslie::config::{num_liars, parse_ratio, Config, ConfigError};
use liarslie::select::Ratio;

#[test]
fn ratio_literals_parse_exactly() {
    let r = parse_ratio(&b"0.3".to_vec()).unwrap();
    assert_eq!((r.num, r.den), (3, 10));

    let r = parse_ratio(&b"0.5".to_vec()).unwrap();
    assert_eq!((r.num, r.den), (5, 10));

    let r = parse_ratio(&b"0.25".to_vec()).unwrap();
    assert_eq!((r.num, r.den), (25, 100));

    let r = parse_ratio(&b"0".to_vec()).unwrap();
    assert_eq!((r.num, r.den), (0, 1));

    let r = parse_ratio(&b"1.0".to_vec()).unwrap();
    assert_eq!((r.num, r.den), (10, 10));

    let r = parse_ratio(&b"0.0000001".to_vec()).unwrap();
    assert_eq!((r.num, r.den), (1, 10_000_000));
}

#[test]
fn bad_ratio_literals_are_rejected() {
    assert!(parse_ratio(&b"".to_vec()).is_none());
    assert!(parse_ratio(&b".".to_vec()).is_none());
    assert!(parse_ratio(&b".5".to_vec()).is_none());
    assert!(parse_ratio(&b"0.".to_vec()).is_none());
    assert!(parse_ratio(&b"abc".to_vec()).is_none());
    assert!(parse_ratio(&b"0.3.4".to_vec()).is_none());
    assert!(parse_ratio(&b"-0.5".to_vec()).is_none());
    // too long to hold exactly
    assert!(parse_ratio(&b"0.00000001".to_vec()).is_none());
}

#[test]
fn liar_count_rounds_down() {
    assert_eq!(num_liars(10, &Ratio { num: 3, den: 10 }), 3);
    assert_eq!(num_liars(10, &Ratio { num: 1, den: 2 }), 5);
    assert_eq!(num_liars(7, &Ratio { num: 1, den: 2 }), 3);
    assert_eq!(num_liars(2, &Ratio { num: 1, den: 2 }), 1);
    assert_eq!(num_liars(10, &Ratio { num: 0, den: 1 }), 0);
}

#[test]
fn config_accepts_playable_parameters() {
    let ratio = Ratio { num: 5, den: 10 };
    let c = match Config::new(1, 3, 10, ratio) { Ok(c) => c, Err(e) => panic!("{:?}", e) };
    assert_eq!(c.value, 1);
    assert_eq!(c.max_value, 3);
    assert_eq!(c.num_agents, 10);
    assert_eq!((c.liar_ratio.num, c.liar_ratio.den), (5, 10));

    // two agents, one liar, one truthful: the smallest playable game
    assert!(Config::new(1, 2, 2, Ratio { num: 1, den: 2 }).is_ok());
}

#[test]
fn config_rejects_each_bad_parameter() {
    let ok_ratio = Ratio { num: 1, den: 2 };
    assert_eq!(Config::new(0, 3, 10, ok_ratio).err(), Some(ConfigError::BadValue));
    assert_eq!(Config::new(1, 1, 10, ok_ratio).err(), Some(ConfigError::BadMaxValue));
    assert_eq!(Config::new(1, 3, 1, ok_ratio).err(), Some(ConfigError::BadNumAgents));
    // a ratio of one would make every agent lie
    assert_eq!(Config::new(1, 3, 10, Ratio { num: 10, den: 10 }).err(), Some(ConfigError::BadLiarRatio));
    // a ratio of zero leaves no liar at all
    assert_eq!(Config::new(1, 3, 10, Ratio { num: 0, den: 1 }).err(), Some(ConfigError::BadLiarRatio));
    // too small to round to a single liar
    assert_eq!(Config::new(1, 3, 2, Ratio { num: 1, den: 10 }).err(), Some(ConfigError::BadLiarRatio));
}
