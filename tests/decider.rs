use chameleon::args::Args;
use chameleon::decider::{
    decide, CalibrateDecider, DeciderChain, FilterDecider, FilterStage, MetadataStruct, Observation,
};
use chameleon::rules::{Action, Size, StatusCodes};

fn obs(status: u16, length: usize, words: usize, lines: usize) -> Observation {
    Observation {
        status,
        length,
        words,
        lines,
        url: "http://t/x".to_string(),
        location: String::new(),
    }
}

#[test]
fn match_set_keeps_listed_code() {
    let mut args = Args::default();
    args.matchcode = StatusCodes::Codes(vec![200, 301]);
    assert_eq!(decide(&args, &vec![], &obs(200, 10, 1, 1)), Action::Keep);
    assert_eq!(decide(&args, &vec![], &obs(404, 10, 1, 1)), Action::Discard);
}

#[test]
fn exclude_after_all_match_discards() {
    let mut args = Args::default();
    args.matchcode = StatusCodes::All;
    args.filtercode = Some(StatusCodes::Codes(vec![404]));
    assert_eq!(decide(&args, &vec![], &obs(404, 10, 1, 1)), Action::Discard);
    assert_eq!(decide(&args, &vec![], &obs(500, 10, 1, 1)), Action::Keep);
    let m = FilterDecider::new(&args, FilterStage::Match);
    let x = FilterDecider::new(&args, FilterStage::Exclude);
    assert_eq!(m.decide(&obs(404, 10, 1, 1)), Action::Keep);
    assert_eq!(x.decide(&obs(404, 10, 1, 1)), Action::Discard);
}

#[test]
fn size_rules_in_both_stages() {
    let mut args = Args::default();
    args.matchsize = Some(vec![Size::Range(100, 200)]);
    assert_eq!(decide(&args, &vec![], &obs(200, 100, 1, 1)), Action::Keep);
    assert_eq!(decide(&args, &vec![], &obs(200, 201, 1, 1)), Action::Discard);
    args.filtersize = Some(vec![Size::Single(150)]);
    assert_eq!(decide(&args, &vec![], &obs(200, 150, 1, 1)), Action::Discard);
    assert_eq!(decide(&args, &vec![], &obs(200, 151, 1, 1)), Action::Keep);
}

#[test]
fn calibration_length_alone_suppresses() {
    let baseline = vec![MetadataStruct { length: 512, words: 10, lines: 5 }];
    let mut args = Args::default();
    args.auto_calibrate = true;
    assert_eq!(decide(&args, &baseline, &obs(200, 512, 99, 99)), Action::Discard);
    assert_eq!(decide(&args, &baseline, &obs(200, 511, 10, 99)), Action::Discard);
    assert_eq!(decide(&args, &baseline, &obs(200, 511, 99, 5)), Action::Discard);
    assert_eq!(decide(&args, &baseline, &obs(200, 511, 99, 99)), Action::Keep);
    args.auto_calibrate = false;
    assert_eq!(decide(&args, &baseline, &obs(200, 512, 99, 99)), Action::Keep);
    assert_eq!(decide(&args, &baseline, &obs(404, 512, 99, 99)), Action::Discard);
}

#[test]
fn chain_stages_separately() {
    let baseline = vec![MetadataStruct { length: 1, words: 2, lines: 3 }];
    let c = CalibrateDecider::new(&baseline, true);
    assert_eq!(c.decide(&obs(200, 9, 2, 9)), Action::Discard);
    assert_eq!(CalibrateDecider::new(&baseline, false).decide(&obs(200, 1, 2, 3)), Action::Keep);
    let args = Args::default();
    let chain = DeciderChain::new(&args, &baseline);
    assert_eq!(chain.decide(&obs(301, 1, 2, 3)), Action::Keep);
    assert_eq!(chain.decide(&obs(418, 1, 2, 3)), Action::Discard);
}
