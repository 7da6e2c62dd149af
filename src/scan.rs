//! One host's scan: responses turned into observations, a scheduler that
//! bounds the requests in flight, and the sink that collects what is kept.

use vstd::prelude::*;
use crate::args::Args;
use crate::corpus::lines_of;
use crate::decider::{decide, verdict, MetadataStruct, Observation};
use crate::output::{decimal, line_rest, pad_right, render_line, result_line, status_field};
use crate::rules::Action;
use crate::text::chars_of;

verus! {

/// The characters that `char::is_whitespace` accepts.
pub open spec fn is_space(c: char) -> bool {
    c == '\t' || c == '\n' || c == '\u{0B}' || c == '\u{0C}' || c == '\r' || c == ' '
        || c == '\u{85}' || c == '\u{A0}' || c == '\u{1680}' || ('\u{2000}' <= c && c <= '\u{200A}')
        || c == '\u{2028}' || c == '\u{2029}' || c == '\u{202F}' || c == '\u{205F}' || c == '\u{3000}'
}

fn is_space_exec(c: char) -> (r: bool)
    ensures
        r == is_space(c),
{
    c == '\t' || c == '\n' || c == '\u{0B}' || c == '\u{0C}' || c == '\r' || c == ' '
        || c == '\u{85}' || c == '\u{A0}' || c == '\u{1680}' || ('\u{2000}' <= c && c <= '\u{200A}')
        || c == '\u{2028}' || c == '\u{2029}' || c == '\u{202F}' || c == '\u{205F}' || c == '\u{3000}'
}

/// The number of words of `s`: maximal runs of non-whitespace characters.
pub open spec fn word_count_spec(s: Seq<char>) -> nat
    decreases s.len(),
{
    if s.len() == 0 {
        0
    } else {
        word_count_spec(s.drop_last()) + if !is_space(s.last()) && (s.len() == 1 || is_space(
            s[s.len() - 2],
        )) {
            1nat
        } else {
            0nat
        }
    }
}

/// Counts the words of a response body.
pub fn word_count(body: &str) -> (r: usize)
    ensures
        r as nat == word_count_spec(body@),
{
    let cs = chars_of(body);
    let mut n: usize = 0;
    let mut prev_space = true;
    let mut i: usize = 0;
    while i < cs.len()
        invariant
            cs@ == body@,
            i <= cs@.len(),
            n <= i,
            n as nat == word_count_spec(cs@.take(i as int)),
            prev_space == (i == 0 || is_space(cs@[i - 1])),
        decreases cs@.len() - i,
    {
        let c = cs[i];
        let sp = is_space_exec(c);
        proof {
            assert(cs@.take(i + 1).drop_last() =~= cs@.take(i as int));
            assert(cs@.take(i + 1).last() == c);
            if i > 0 {
                assert(cs@.take(i + 1)[i - 1] == cs@[i - 1]);
            }
        }
        if !sp && prev_space {
            n = n + 1;
        }
        prev_space = sp;
        i = i + 1;
    }
    assert(cs@.take(cs@.len() as int) =~= cs@);
    n
}

/// Counts the lines of a response body, as `str::lines` yields them.
pub fn line_count(body: &str) -> (r: usize)
    ensures
        r as nat == lines_of(body@).len(),
{
    let lines = crate::corpus::split_lines(body);
    lines.len()
}

impl Observation {
    /// What the deciders read of a response: the length from the
    /// `Content-Length` header when there is one, else the body's byte count.
    pub fn from_response(
        status: u16,
        header_length: Option<usize>,
        body_len: usize,
        body: &str,
        url: String,
        location: String,
    ) -> (r: Observation)
        ensures
            r.status == status,
            r.length == match header_length {
                Some(n) => n,
                None => body_len,
            },
            r.words as nat == word_count_spec(body@),
            r.lines as nat == lines_of(body@).len(),
            r.url == url,
            r.location == location,
    {
        let length = match header_length {
            Some(n) => n,
            None => body_len,
        };
        Observation {
            status,
            length,
            words: word_count(body),
            lines: line_count(body),
            url,
            location,
        }
    }

    /// The fingerprint of this response, for the calibration baseline.
    pub fn fingerprint(&self) -> (r: MetadataStruct)
        ensures
            r == (MetadataStruct { length: self.length, words: self.words, lines: self.lines }),
    {
        MetadataStruct { length: self.length, words: self.words, lines: self.lines }
    }
}

/// The path requested for one corpus entry: the entry takes the place of the
/// placeholder at the end of the target's path.
pub fn request_path(base_path: &str, entry: &str) -> (r: String)
    ensures
        r@ == base_path@ + entry@,
{
    let mut r = String::from_str(base_path);
    r.append(entry);
    r
}


/// Hands out corpus entries by index and bounds the requests in flight.
pub struct Scheduler {
    total: usize,
    concurrency: usize,
    next: usize,
    in_flight: usize,
    completed: usize,
}

impl Scheduler {
    pub closed spec fn total_spec(&self) -> nat {
        self.total as nat
    }

    pub closed spec fn concurrency_spec(&self) -> nat {
        self.concurrency as nat
    }

    /// Entries handed out so far.
    pub closed spec fn next_spec(&self) -> nat {
        self.next as nat
    }

    pub closed spec fn in_flight_spec(&self) -> nat {
        self.in_flight as nat
    }

    /// Requests finished, with a response or without: the progress count.
    pub closed spec fn completed_spec(&self) -> nat {
        self.completed as nat
    }

    /// Entries are handed out in order, each request finishes once, and no
    /// more requests are in flight than the concurrency allows.
    #[verifier::type_invariant]
    spec fn wf(self) -> bool {
        &&& self.concurrency > 0
        &&& self.next <= self.total
        &&& self.in_flight <= self.concurrency
        &&& self.completed + self.in_flight == self.next
    }

    /// A scheduler for `total` entries with at most `concurrency` requests in
    /// flight; a concurrency of zero is refused.
    pub fn new(total: usize, concurrency: usize) -> (r: Option<Scheduler>)
        ensures
            r is None <==> concurrency == 0,
            match r {
                Some(s) => {
                    &&& s.total_spec() == total
                    &&& s.concurrency_spec() == concurrency
                    &&& s.next_spec() == 0
                    &&& s.in_flight_spec() == 0
                    &&& s.completed_spec() == 0
                },
                None => true,
            },
    {
        if concurrency == 0 {
            None
        } else {
            Some(Scheduler { total, concurrency, next: 0, in_flight: 0, completed: 0 })
        }
    }

    /// The next entry to request, when one is left and a slot is free. When
    /// none is given out and nothing is in flight, every entry has finished.
    pub fn dispatch(&mut self) -> (r: Option<usize>)
        ensures
            final(self).total_spec() == old(self).total_spec(),
            final(self).concurrency_spec() == old(self).concurrency_spec(),
            final(self).completed_spec() == old(self).completed_spec(),
            final(self).in_flight_spec() <= final(self).concurrency_spec(),
            (old(self).in_flight_spec() < old(self).concurrency_spec() && old(self).next_spec()
                < old(self).total_spec()) ==> {
                &&& r == Some(old(self).next_spec() as usize)
                &&& final(self).next_spec() == old(self).next_spec() + 1
                &&& final(self).in_flight_spec() == old(self).in_flight_spec() + 1
            },
            !(old(self).in_flight_spec() < old(self).concurrency_spec() && old(self).next_spec()
                < old(self).total_spec()) ==> {
                &&& r is None
                &&& final(self).next_spec() == old(self).next_spec()
                &&& final(self).in_flight_spec() == old(self).in_flight_spec()
            },
            r is None && final(self).in_flight_spec() == 0 ==> final(self).completed_spec()
                == final(self).total_spec(),
    {
        proof { use_type_invariant(&*self); }
        if self.in_flight < self.concurrency && self.next < self.total {
            let i = self.next;
            *self = Scheduler {
                total: self.total,
                concurrency: self.concurrency,
                next: self.next + 1,
                in_flight: self.in_flight + 1,
                completed: self.completed,
            };
            Some(i)
        } else {
            None
        }
    }

    /// One request has finished, whatever its outcome.
    pub fn complete(&mut self)
        requires
            old(self).in_flight_spec() > 0,
        ensures
            final(self).total_spec() == old(self).total_spec(),
            final(self).concurrency_spec() == old(self).concurrency_spec(),
            final(self).next_spec() == old(self).next_spec(),
            final(self).in_flight_spec() == old(self).in_flight_spec() - 1,
            final(self).completed_spec() == old(self).completed_spec() + 1,
    {
        proof { use_type_invariant(&*self); }
        *self = Scheduler {
            total: self.total,
            concurrency: self.concurrency,
            next: self.next,
            in_flight: self.in_flight - 1,
            completed: self.completed + 1,
        };
    }

    /// The progress count.
    pub fn progress(&self) -> (r: usize)
        ensures
            r == self.completed_spec(),
            r <= self.total_spec(),
    {
        proof { use_type_invariant(self); }
        self.completed
    }

    /// The requests in flight: never more than the concurrency, however the
    /// requests interleave.
    pub fn in_flight(&self) -> (r: usize)
        ensures
            r == self.in_flight_spec(),
            r <= self.concurrency_spec(),
    {
        proof { use_type_invariant(self); }
        self.in_flight
    }

    /// Every entry has been requested and every request has finished.
    pub fn is_done(&self) -> (r: bool)
        ensures
            r == (self.completed_spec() == self.total_spec()),
    {
        self.completed == self.total
    }
}

/// A kept result, as the JSON document records it.
#[derive(Debug)]
pub struct ScanResult {
    pub url: String,
    pub status_code: u16,
    pub content_length: usize,
    pub location: String,
}

/// The JSON document of one host.
#[derive(Debug)]
pub struct JsonReport {
    pub host: String,
    pub results: Vec<ScanResult>,
}

/// What to write for one kept response: the status field (which the console
/// colours), the rest of the line, and the line for the output file, if any.
#[derive(Debug)]
pub struct Emission {
    pub status: u16,
    pub status_field: String,
    pub rest: String,
    pub file_line: Option<String>,
}

/// Where kept responses go besides the console.
pub struct OutputSink {
    /// An output file is open.
    pub to_file: bool,
    /// The output file takes one JSON document per host.
    pub json: bool,
    /// Results gathered for the JSON document.
    pub results: Vec<ScanResult>,
}

pub open spec fn result_matches(r: ScanResult, o: &Observation) -> bool {
    &&& r.url@ == o.url@
    &&& r.status_code == o.status
    &&& r.content_length == o.length
    &&& r.location@ == o.location@
}

impl OutputSink {
    pub fn new(to_file: bool, json: bool) -> (r: OutputSink)
        ensures
            r.to_file == to_file,
            r.json == json,
            r.results@.len() == 0,
    {
        OutputSink { to_file, json, results: Vec::new() }
    }

    /// Writes out one kept response: the console line always; a text line to
    /// the file when one is open without JSON; a JSON result otherwise.
    pub fn emit(&mut self, o: Observation) -> (e: Emission)
        ensures
            final(self).to_file == old(self).to_file,
            final(self).json == old(self).json,
            e.status == o.status,
            e.status_field@ == pad_right(decimal(o.status as nat), 4),
            e.rest@ == line_rest(o.length as nat, o.url@, o.location@),
            match e.file_line {
                Some(l) => old(self).to_file && !old(self).json && l@ == result_line(
                    e.status_field@,
                    o.length as nat,
                    o.url@,
                    o.location@,
                ),
                None => !(old(self).to_file && !old(self).json),
            },
            old(self).to_file && old(self).json ==> {
                &&& final(self).results@.len() == old(self).results@.len() + 1
                &&& final(self).results@.take(old(self).results@.len() as int) == old(self).results@
                &&& result_matches(final(self).results@.last(), &o)
            },
            !(old(self).to_file && old(self).json) ==> final(self).results@ == old(self).results@,
    {
        let field = status_field(o.status);
        proof { reveal_strlit(""); }
        let rest = render_line("", o.length, o.url.as_str(), o.location.as_str());
        assert(Seq::<char>::empty() + line_rest(o.length as nat, o.url@, o.location@) =~= line_rest(
            o.length as nat,
            o.url@,
            o.location@,
        ));
        let file_line = if self.to_file && !self.json {
            let l = render_line(field.as_str(), o.length, o.url.as_str(), o.location.as_str());
            Some(l)
        } else {
            None
        };
        let status = o.status;
        if self.to_file && self.json {
            let ghost prev = self.results@;
            self.results.push(
                ScanResult {
                    url: o.url,
                    status_code: o.status,
                    content_length: o.length,
                    location: o.location,
                },
            );
            assert(self.results@.take(prev.len() as int) =~= prev);
        }
        Emission { status, status_field: field, rest, file_line }
    }

    /// The host's JSON document, when JSON output is on.
    pub fn finish(self, host: String) -> (r: Option<JsonReport>)
        ensures
            r is Some <==> (self.to_file && self.json),
            match r {
                Some(j) => j.host == host && j.results == self.results,
                None => true,
            },
    {
        if self.to_file && self.json {
            Some(JsonReport { host, results: self.results })
        } else {
            None
        }
    }
}

/// The fixed paths probed to learn the server's generic response; no real
/// target serves them.
pub fn calibration_paths() -> (r: Vec<String>)
    ensures
        r@.len() == 3,
        r@[0]@ == ".htacessxxx"@,
        r@[1]@ == "adminxxx"@,
        r@[2]@ == "chameleonxxx"@,
{
    let mut r: Vec<String> = Vec::new();
    r.push(String::from_str(".htacessxxx"));
    r.push(String::from_str("adminxxx"));
    r.push(String::from_str("chameleonxxx"));
    r
}

/// The fingerprints of the probes that got a response, in order.
pub open spec fn fingerprints(outcomes: Seq<Option<Observation>>) -> Seq<MetadataStruct>
    decreases outcomes.len(),
{
    if outcomes.len() == 0 {
        Seq::empty()
    } else {
        let rest = fingerprints(outcomes.drop_last());
        match outcomes.last() {
            Some(o) => rest.push(MetadataStruct { length: o.length, words: o.words, lines: o.lines }),
            None => rest,
        }
    }
}

/// The calibration baseline: the fingerprint of every calibration probe that
/// got a response, in order; probes that failed add nothing.
pub fn calibration_baseline(outcomes: Vec<Option<Observation>>) -> (r: Vec<MetadataStruct>)
    ensures
        r@ == fingerprints(outcomes@),
{
    let mut r: Vec<MetadataStruct> = Vec::new();
    let mut i: usize = 0;
    while i < outcomes.len()
        invariant
            i <= outcomes@.len(),
            r@ == fingerprints(outcomes@.take(i as int)),
        decreases outcomes@.len() - i,
    {
        assert(outcomes@.take(i + 1).drop_last() =~= outcomes@.take(i as int));
        assert(outcomes@.take(i + 1).last() == outcomes@[i as int]);
        match &outcomes[i] {
            Some(o) => {
                r.push(o.fingerprint());
            },
            None => {},
        }
        i = i + 1;
    }
    assert(outcomes@.take(outcomes@.len() as int) =~= outcomes@);
    r
}

/// One host's scan in progress.
pub struct Scan {
    pub scheduler: Scheduler,
    pub sink: OutputSink,
    pub baseline: Vec<MetadataStruct>,
}

impl Scan {
    /// The outcome of one request: a response, or `None` when the request
    /// failed (which drops the path silently). The progress count advances
    /// either way; a response that the chain keeps is written out.
    pub fn on_outcome(&mut self, args: &Args, outcome: Option<Observation>) -> (r: Option<Emission>)
        requires
            old(self).scheduler.in_flight_spec() > 0,
        ensures
            final(self).scheduler.completed_spec() == old(self).scheduler.completed_spec() + 1,
            final(self).scheduler.in_flight_spec() == old(self).scheduler.in_flight_spec() - 1,
            final(self).scheduler.next_spec() == old(self).scheduler.next_spec(),
            final(self).scheduler.total_spec() == old(self).scheduler.total_spec(),
            final(self).scheduler.concurrency_spec() == old(self).scheduler.concurrency_spec(),
            final(self).baseline@ == old(self).baseline@,
            final(self).sink.to_file == old(self).sink.to_file,
            final(self).sink.json == old(self).sink.json,
            r is Some <==> match outcome {
                Some(o) => verdict(args, old(self).baseline@, &o) == Action::Keep,
                None => false,
            },
            match r {
                Some(e) => match outcome {
                    Some(o) => {
                        &&& e.status == o.status
                        &&& e.status_field@ == pad_right(decimal(o.status as nat), 4)
                        &&& e.rest@ == line_rest(o.length as nat, o.url@, o.location@)
                        &&& match e.file_line {
                            Some(l) => old(self).sink.to_file && !old(self).sink.json && l@
                                == result_line(e.status_field@, o.length as nat, o.url@, o.location@),
                            None => !(old(self).sink.to_file && !old(self).sink.json),
                        }
                        &&& old(self).sink.to_file && old(self).sink.json ==> {
                            &&& final(self).sink.results@.len() == old(self).sink.results@.len() + 1
                            &&& final(self).sink.results@.take(old(self).sink.results@.len() as int)
                                == old(self).sink.results@
                            &&& result_matches(final(self).sink.results@.last(), &o)
                        }
                        &&& !(old(self).sink.to_file && old(self).sink.json) ==> (final(self).sink.results@
                            == old(self).sink.results@)
                    },
                    None => false,
                },
                None => final(self).sink.results@ == old(self).sink.results@,
            },
    {
        self.scheduler.complete();
        match outcome {
            None => None,
            Some(o) => {
                if let Action::Keep = decide(args, &self.baseline, &o) {
                    Some(self.sink.emit(o))
                } else {
                    None
                }
            },
        }
    }
}

} // verus!
