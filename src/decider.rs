//! The decider chain: calibration, match and exclude stages, combined with AND.

use vstd::prelude::*;
use crate::args::Args;
use crate::rules::{filter, filter_size, keep_if, Action, StatusCodes};

verus! {

/// The fingerprint of one response: its length, word count and line count.
#[derive(Debug, Clone, Copy, PartialEq, Eq)]
pub struct MetadataStruct {
    pub length: usize,
    pub words: usize,
    pub lines: usize,
}

/// What the chain reads of one response.
#[derive(Debug)]
pub struct Observation {
    pub status: u16,
    pub length: usize,
    pub words: usize,
    pub lines: usize,
    /// The requested URL.
    pub url: String,
    /// The `Location` header, empty when absent.
    pub location: String,
}

/// Some baseline fingerprint shares the length, the word count or the line
/// count of the response.
pub open spec fn calibration_hit(
    baseline: Seq<MetadataStruct>,
    length: usize,
    words: usize,
    lines: usize,
) -> bool {
    exists|i: int|
        0 <= i < baseline.len() && {
            let b = #[trigger] baseline[i];
            b.length == length || b.words == words || b.lines == lines
        }
}

/// Discards what looks like the server's generic response, when enabled.
pub struct CalibrateDecider<'a> {
    pub metadata: &'a Vec<MetadataStruct>,
    pub enabled: bool,
}

impl<'a> CalibrateDecider<'a> {
    /// A calibration stage over `metadata`, applied only when `enabled`.
    pub fn new(metadata: &'a Vec<MetadataStruct>, enabled: bool) -> (r: CalibrateDecider<'a>)
        ensures
            r.metadata == metadata,
            r.enabled == enabled,
    {
        CalibrateDecider { metadata, enabled }
    }

    /// Keeps unless enabled and the response shares a dimension with a
    /// baseline fingerprint.
    pub open spec fn keeps(&self, o: &Observation) -> bool {
        !(self.enabled && calibration_hit(self.metadata@, o.length, o.words, o.lines))
    }

    /// The stage's verdict on one response.
    pub fn decide(&self, o: &Observation) -> (r: Action)
        ensures
            r == keep_if(self.keeps(o)),
    {
        if !self.enabled {
            return Action::Keep;
        }
        let mut i: usize = 0;
        while i < self.metadata.len()
            invariant
                self.enabled,
                i <= self.metadata@.len(),
                forall|j: int|
                    0 <= j < i ==> {
                        let b = #[trigger] self.metadata@[j];
                        !(b.length == o.length || b.words == o.words || b.lines == o.lines)
                    },
            decreases self.metadata@.len() - i,
        {
            let b = self.metadata[i];
            if b.lines == o.lines || b.words == o.words || b.length == o.length {
                assert(self.metadata@[i as int] == b);
                return Action::Discard;
            }
            i = i + 1;
        }
        Action::Keep
    }
}

/// Which rule group a filter decider applies.
#[derive(Debug, Clone, Copy, PartialEq, Eq)]
pub enum FilterStage {
    /// Keeps only what the match rules take in.
    Match,
    /// Discards what the exclude rules name.
    Exclude,
}

/// One rule group, applied to a response's status code and size.
pub struct FilterDecider<'a> {
    pub args: &'a Args,
    pub stage: FilterStage,
}

impl<'a> FilterDecider<'a> {
    /// The stage `stage` over the rules of `args`.
    pub fn new(args: &'a Args, stage: FilterStage) -> (r: FilterDecider<'a>)
        ensures
            r.args == args,
            r.stage == stage,
    {
        FilterDecider { args, stage }
    }

    pub open spec fn keeps(&self, o: &Observation) -> bool {
        match self.stage {
            FilterStage::Match => self.args.match_keeps(o.status, o.length),
            FilterStage::Exclude => self.args.exclude_keeps(o.status, o.length),
        }
    }

    pub fn decide(&self, o: &Observation) -> (r: Action)
        ensures
            r == keep_if(self.keeps(o)),
    {
        let args = self.args;
        match self.stage {
            FilterStage::Match => match filter(&args.matchcode, o.status, true) {
                Action::Keep => match &args.matchsize {
                    Some(ms) => filter_size(ms, o.length, true),
                    None => Action::Keep,
                },
                Action::Discard => Action::Discard,
            },
            FilterStage::Exclude => {
                let by_code = match &args.filtercode {
                    Some(fc) => filter(fc, o.status, false),
                    None => Action::Keep,
                };
                match by_code {
                    Action::Keep => match &args.filtersize {
                        Some(fs) => filter_size(fs, o.length, false),
                        None => Action::Keep,
                    },
                    Action::Discard => Action::Discard,
                }
            },
        }
    }
}

/// The final verdict on a response: every stage must keep it.
pub open spec fn verdict(args: &Args, baseline: Seq<MetadataStruct>, o: &Observation) -> Action {
    keep_if(
        !(args.auto_calibrate && calibration_hit(baseline, o.length, o.words, o.lines))
            && args.match_keeps(o.status, o.length) && args.exclude_keeps(o.status, o.length),
    )
}

/// The calibration, match and exclude stages, in that order.
pub struct DeciderChain<'a> {
    pub calibrate: CalibrateDecider<'a>,
    pub matcher: FilterDecider<'a>,
    pub exclude: FilterDecider<'a>,
}

impl<'a> DeciderChain<'a> {
    pub open spec fn describes(&self, args: &Args, baseline: Seq<MetadataStruct>) -> bool {
        &&& self.calibrate.metadata@ == baseline
        &&& self.calibrate.enabled == args.auto_calibrate
        &&& self.matcher.args == args
        &&& self.matcher.stage == FilterStage::Match
        &&& self.exclude.args == args
        &&& self.exclude.stage == FilterStage::Exclude
    }

    /// The chain over the rules of `args` and the calibration baseline.
    pub fn new(args: &'a Args, baseline: &'a Vec<MetadataStruct>) -> (r: DeciderChain<'a>)
        ensures
            r.describes(args, baseline@),
    {
        DeciderChain {
            calibrate: CalibrateDecider::new(baseline, args.auto_calibrate),
            matcher: FilterDecider::new(args, FilterStage::Match),
            exclude: FilterDecider::new(args, FilterStage::Exclude),
        }
    }

    pub open spec fn keeps(&self, o: &Observation) -> bool {
        self.calibrate.keeps(o) && self.matcher.keeps(o) && self.exclude.keeps(o)
    }

    /// Runs the stages in order; the first that discards decides.
    pub fn decide(&self, o: &Observation) -> (r: Action)
        ensures
            r == keep_if(self.keeps(o)),
    {
        match self.calibrate.decide(o) {
            Action::Discard => Action::Discard,
            Action::Keep => match self.matcher.decide(o) {
                Action::Discard => Action::Discard,
                Action::Keep => self.exclude.decide(o),
            },
        }
    }
}

/// The verdict of the whole chain on one response.
pub fn decide(args: &Args, baseline: &Vec<MetadataStruct>, o: &Observation) -> (r: Action)
    ensures
        r == verdict(args, baseline@, o),
{
    let chain = DeciderChain::new(args, baseline);
    chain.decide(o)
}


/// A response is kept only if every stage keeps it: a code outside the match
/// rule, or named by the exclude rule, is discarded whatever the other rules say.
pub proof fn lemma_every_stage_must_keep(args: &Args, baseline: Seq<MetadataStruct>, o: &Observation)
    ensures
        !args.matchcode.matches_spec(o.status) ==> verdict(args, baseline, o) == Action::Discard,
        (match args.filtercode {
            Some(c) => c.matches_spec(o.status),
            None => false,
        }) ==> verdict(args, baseline, o) == Action::Discard,
        verdict(args, baseline, o) == Action::Keep <==> {
            &&& !(args.auto_calibrate && calibration_hit(baseline, o.length, o.words, o.lines))
            &&& args.match_keeps(o.status, o.length)
            &&& args.exclude_keeps(o.status, o.length)
        },
{
}

/// The `all` rule names every code; an empty list names none.
pub proof fn lemma_status_sentinel(codes: StatusCodes, code: u16)
    ensures
        codes is All ==> codes.matches_spec(code),
        (match codes {
            StatusCodes::Codes(v) => v@.len() == 0,
            StatusCodes::All => false,
        }) ==> !codes.matches_spec(code),
{
}

/// With calibration on, sharing any one dimension with any baseline
/// fingerprint discards a response; with it off, the baseline plays no part.
pub proof fn lemma_calibration_suppresses(
    args: &Args,
    baseline: Seq<MetadataStruct>,
    o: &Observation,
    i: int,
)
    requires
        0 <= i < baseline.len(),
    ensures
        args.auto_calibrate && (baseline[i].length == o.length || baseline[i].words == o.words
            || baseline[i].lines == o.lines) ==> verdict(args, baseline, o) == Action::Discard,
        !args.auto_calibrate ==> verdict(args, baseline, o) == keep_if(
            args.match_keeps(o.status, o.length) && args.exclude_keeps(o.status, o.length),
        ),
{
    let b = baseline[i];
    if b.length == o.length || b.words == o.words || b.lines == o.lines {
        assert(calibration_hit(baseline, o.length, o.words, o.lines));
    }
}

} // verus!
