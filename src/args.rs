//! The options of one run.

use vstd::prelude::*;
use crate::rules::{any_size_matches, default_match_codes, Size, StatusCodes};
use crate::corpus::{lines_of, split_lines, string_views};
use crate::text::{append_chars, chars_of, push_char};

verus! {

/// The options of one run, as the command line gives them.
pub struct Args {
    /// Main wordlist file; the settings name one when absent.
    pub wordlist: Option<String>,
    /// Wordlist whose lines are crossed with extensions.
    pub small_wordlist: Option<String>,
    /// File listing the hosts to scan, one per line.
    pub hosts_file: Option<String>,
    /// Detect the target's technologies and adapt the corpus.
    pub tech_detect: bool,
    /// Apply the calibration verdict.
    pub auto_calibrate: bool,
    /// Settings file.
    pub config: String,
    /// The one target.
    pub url: Option<String>,
    /// Most requests in flight at once.
    pub concurrency: usize,
    /// Where technologies are detected, when not at the target itself.
    pub tech_url: Option<String>,
    /// Technologies taken as present, comma-separated.
    pub techs: Option<String>,
    /// Exclude rule on sizes.
    pub filtersize: Option<Vec<Size>>,
    /// Exclude rule on status codes.
    pub filtercode: Option<StatusCodes>,
    /// Match rule on sizes.
    pub matchsize: Option<Vec<Size>>,
    /// Match rule on status codes.
    pub matchcode: StatusCodes,
    /// User-agent header.
    pub useragent: String,
    /// File that kept results are written to.
    pub output: Option<String>,
    /// Write the output file as one JSON document per host.
    pub json: bool,
    /// HTTP methods.
    pub methods: Vec<String>,
    /// Per-request timeout in seconds.
    pub timeout: u64,
}

impl Args {
    /// The match stage keeps a response whose code the match rule names and
    /// whose size, if a match size rule is given, falls under one of its rules.
    pub open spec fn match_keeps(&self, code: u16, len: usize) -> bool {
        &&& self.matchcode.matches_spec(code)
        &&& match self.matchsize {
            None => true,
            Some(v) => any_size_matches(v@, len),
        }
    }

    /// The exclude stage keeps a response that no given exclude rule names.
    pub open spec fn exclude_keeps(&self, code: u16, len: usize) -> bool {
        &&& match self.filtercode {
            None => true,
            Some(c) => !c.matches_spec(code),
        }
        &&& match self.filtersize {
            None => true,
            Some(v) => !any_size_matches(v@, len),
        }
    }
}


/// Key-value settings; each key at most once.
pub struct Settings {
    entries: Vec<(String, String)>,
}

/// The value under `key`, when the keys are unique.
pub open spec fn lookup(entries: Seq<(String, String)>, key: Seq<char>) -> Option<Seq<char>> {
    if exists|i: int| 0 <= i < entries.len() && (#[trigger] entries[i]).0@ == key {
        let i = choose|i: int| 0 <= i < entries.len() && (#[trigger] entries[i]).0@ == key;
        Some(entries[i].1@)
    } else {
        None
    }
}

pub open spec fn keys_unique(entries: Seq<(String, String)>) -> bool {
    forall|i: int, j: int|
        0 <= i < j < entries.len() ==> (#[trigger] entries[i]).0@ != (#[trigger] entries[j]).0@
}

proof fn lemma_lookup_unchanged(
    before: Seq<(String, String)>,
    after: Seq<(String, String)>,
    k: Seq<char>,
    changed: int,
)
    requires
        after.len() == before.len() || (after.len() == before.len() + 1 && changed == before.len()),
        forall|j: int| 0 <= j < before.len() && j != changed ==> after[j] == before[j],
        0 <= changed < after.len(),
        changed < before.len() ==> before[changed].0@ != k,
        after[changed].0@ != k,
        keys_unique(before),
    ensures
        lookup(after, k) == lookup(before, k),
{
    if exists|j: int| 0 <= j < before.len() && (#[trigger] before[j]).0@ == k {
        let j = choose|j: int| 0 <= j < before.len() && (#[trigger] before[j]).0@ == k;
        assert(after[j] == before[j]);
        let j2 = choose|j2: int| 0 <= j2 < after.len() && (#[trigger] after[j2]).0@ == k;
        assert(j2 != changed);
        assert(after[j2] == before[j2]);
        assert(j2 == j);
    }
    if exists|j: int| 0 <= j < after.len() && (#[trigger] after[j]).0@ == k {
        let j = choose|j: int| 0 <= j < after.len() && (#[trigger] after[j]).0@ == k;
        assert(j != changed);
        assert(after[j] == before[j]);
    }
}

impl Settings {
    #[verifier::type_invariant]
    spec fn wf(self) -> bool {
        keys_unique(self.entries@)
    }

    /// What the settings hold under `key`.
    pub closed spec fn get_spec(&self, key: Seq<char>) -> Option<Seq<char>> {
        lookup(self.entries@, key)
    }

    pub fn new() -> (r: Settings)
        ensures
            forall|k: Seq<char>| r.get_spec(k) is None,
    {
        Settings { entries: Vec::new() }
    }

    fn position(&self, key: &String) -> (r: Option<usize>)
        ensures
            match r {
                Some(i) => i < self.entries@.len() && self.entries@[i as int].0@ == key@,
                None => forall|i: int| 0 <= i < self.entries@.len() ==> (#[trigger] self.entries@[i]).0@ != key@,
            },
    {
        let mut i: usize = 0;
        while i < self.entries.len()
            invariant
                i <= self.entries@.len(),
                forall|j: int| 0 <= j < i ==> (#[trigger] self.entries@[j]).0@ != key@,
            decreases self.entries@.len() - i,
        {
            if self.entries[i].0 == *key {
                return Some(i);
            }
            i = i + 1;
        }
        None
    }

    /// Sets `key` to `value`, replacing what it held.
    pub fn insert(&mut self, key: String, value: String)
        ensures
            final(self).get_spec(key@) == Some(value@),
            forall|k: Seq<char>| k != key@ ==> final(self).get_spec(k) == old(self).get_spec(k),
    {
        proof { use_type_invariant(&*self); }
        let ghost k0 = key@;
        let ghost v0 = value@;
        let ghost before = self.entries@;
        let pos = self.position(&key);
        let mut entries: Vec<(String, String)> = Vec::new();
        std::mem::swap(&mut entries, &mut self.entries);
        assert(entries@ == before);
        let ghost changed: int;
        match pos {
            Some(i) => {
                entries.set(i, (key, value));
                proof { changed = i as int; }
            },
            None => {
                entries.push((key, value));
                proof { changed = before.len() as int; }
            },
        }
        assert(entries@[changed].0@ == k0 && entries@[changed].1@ == v0);
        assert(keys_unique(entries@)) by {
            assert forall|i: int, j: int|
                0 <= i < j < entries@.len() implies (#[trigger] entries@[i]).0@ != (
                #[trigger] entries@[j]).0@ by {
                if i != changed && j != changed {
                    assert(entries@[i] == before[i] && entries@[j] == before[j]);
                } else if i == changed {
                    assert(entries@[j] == before[j]);
                } else {
                    assert(entries@[i] == before[i]);
                }
            }
        }
        self.entries = entries;
        assert forall|k: Seq<char>| k != k0 implies lookup(self.entries@, k) == lookup(before, k) by {
            lemma_lookup_unchanged(before, self.entries@, k, changed);
        }
        assert(lookup(self.entries@, k0) == Some(v0)) by {
            let j = choose|j: int| 0 <= j < self.entries@.len() && (#[trigger] self.entries@[j]).0@ == k0;
            assert(j == changed);
        }
    }

    /// The value under `key`.
    pub fn get<'a>(&'a self, key: &String) -> (r: Option<&'a String>)
        ensures
            match r {
                Some(v) => self.get_spec(key@) == Some(v@),
                None => self.get_spec(key@) is None,
            },
    {
        proof { use_type_invariant(self); }
        match self.position(key) {
            Some(i) => {
                assert(lookup(self.entries@, key@) == Some(self.entries@[i as int].1@)) by {
                    let j = choose|j: int| 0 <= j < self.entries@.len() && (#[trigger] self.entries@[j]).0@ == key@;
                    assert(j == i);
                }
                Some(&self.entries[i].1)
            },
            None => None,
        }
    }
}

/// The settings key for a technology name: spaces and dots become `_`.
pub open spec fn config_key(name: Seq<char>) -> Seq<char> {
    name.map_values(|c: char| if c == ' ' || c == '.' { '_' } else { c })
}

fn config_key_of(name: &str) -> (r: String)
    ensures
        r@ == config_key(name@),
{
    let cs = chars_of(name);
    let mut r = String::new();
    let mut i: usize = 0;
    while i < cs.len()
        invariant
            i <= cs@.len(),
            cs@ == name@,
            r@ == config_key(cs@.take(i as int)),
        decreases cs@.len() - i,
    {
        let c = cs[i];
        push_char(&mut r, if c == ' ' || c == '.' { '_' } else { c });
        assert(config_key(cs@.take(i + 1)) =~= config_key(cs@.take(i as int)).push(
            if c == ' ' || c == '.' { '_' } else { c },
        ));
        i = i + 1;
    }
    assert(cs@.take(cs@.len() as int) =~= cs@);
    r
}

impl Args {
    /// The wordlist file that the settings name for `wordlist` (a technology
    /// name, or `main_wordlist` / `small_wordlist`).
    pub fn get_wordlist_path<'a>(&self, settings: &'a Settings, wordlist: &str) -> (r: Option<&'a String>)
        ensures
            match r {
                Some(v) => settings.get_spec(config_key(wordlist@)) == Some(v@),
                None => settings.get_spec(config_key(wordlist@)) is None,
            },
    {
        let key = config_key_of(wordlist);
        settings.get(&key)
    }

    /// The comma-separated extensions that the settings name for `wordlist`.
    pub fn get_extensions<'a>(&self, settings: &'a Settings, wordlist: &str) -> (r: Option<&'a String>)
        ensures
            match r {
                Some(v) => settings.get_spec(config_key(wordlist@) + "_ext"@) == Some(v@),
                None => settings.get_spec(config_key(wordlist@) + "_ext"@) is None,
            },
    {
        let mut key = config_key_of(wordlist);
        key.append("_ext");
        settings.get(&key)
    }
}

/// `s` with every `~` replaced by `home`.
pub open spec fn expand_home_spec(s: Seq<char>, home: Seq<char>) -> Seq<char>
    decreases s.len(),
{
    if s.len() == 0 {
        Seq::empty()
    } else {
        expand_home_spec(s.drop_last(), home) + if s.last() == '~' {
            home
        } else {
            seq![s.last()]
        }
    }
}

/// Replaces every `~` of `s` by `home`.
pub fn expand_home(s: &str, home: &str) -> (r: String)
    ensures
        r@ == expand_home_spec(s@, home@),
{
    let cs = chars_of(s);
    let hs = chars_of(home);
    let mut r = String::new();
    let mut i: usize = 0;
    while i < cs.len()
        invariant
            i <= cs@.len(),
            cs@ == s@,
            hs@ == home@,
            r@ == expand_home_spec(cs@.take(i as int), home@),
        decreases cs@.len() - i,
    {
        let c = cs[i];
        assert(cs@.take(i + 1).drop_last() =~= cs@.take(i as int));
        assert(cs@.take(i + 1).last() == c);
        if c == '~' {
            append_chars(&mut r, &hs);
        } else {
            push_char(&mut r, c);
            assert(r@ =~= expand_home_spec(cs@.take(i as int), home@) + seq![c]);
        }
        i = i + 1;
    }
    assert(cs@.take(cs@.len() as int) =~= cs@);
    r
}

/// The value that a list of key-value pairs gives `key`: the last one wins.
pub open spec fn last_value(pairs: Seq<(String, String)>, key: Seq<char>) -> Option<Seq<char>>
    decreases pairs.len(),
{
    if pairs.len() == 0 {
        None
    } else if pairs.last().0@ == key {
        Some(pairs.last().1@)
    } else {
        last_value(pairs.drop_last(), key)
    }
}

impl Settings {
    /// Settings from the pairs of a settings file, with `~` in each value
    /// replaced by the home directory.
    pub fn from_pairs(pairs: Vec<(String, String)>, home: &str) -> (r: Settings)
        ensures
            forall|k: Seq<char>|
                #[trigger] r.get_spec(k) == match last_value(pairs@, k) {
                    Some(v) => Some(expand_home_spec(v, home@)),
                    None => None::<Seq<char>>,
                },
    {
        let mut r = Settings::new();
        let mut i: usize = 0;
        while i < pairs.len()
            invariant
                i <= pairs@.len(),
                forall|k: Seq<char>|
                    #[trigger] r.get_spec(k) == match last_value(pairs@.take(i as int), k) {
                        Some(v) => Some(expand_home_spec(v, home@)),
                        None => None::<Seq<char>>,
                    },
            decreases pairs@.len() - i,
        {
            let key = pairs[i].0.clone();
            let value = expand_home(pairs[i].1.as_str(), home);
            let ghost prev = r;
            r.insert(key, value);
            assert(pairs@.take(i + 1).drop_last() =~= pairs@.take(i as int));
            assert(pairs@.take(i + 1).last() == pairs@[i as int]);
            assert forall|k: Seq<char>|
                #[trigger] r.get_spec(k) == match last_value(pairs@.take(i + 1), k) {
                    Some(v) => Some(expand_home_spec(v, home@)),
                    None => None::<Seq<char>>,
                } by {
                if k != pairs@[i as int].0@ {
                    assert(r.get_spec(k) == prev.get_spec(k));
                }
            }
            i = i + 1;
        }
        assert(pairs@.take(pairs@.len() as int) =~= pairs@);
        r
    }
}


/// Why no target could be chosen.
#[derive(Debug, Clone, Copy, PartialEq, Eq)]
pub enum TargetError {
    /// Both a URL and a hosts file were given.
    Both,
    /// Neither a URL nor a hosts file was given.
    Neither,
}

impl Args {
    /// The main wordlist file: the one given, else the settings' `main_wordlist`.
    pub fn main_wordlist_path<'a>(&'a self, settings: &'a Settings) -> (r: Option<&'a String>)
        ensures
            match self.wordlist {
                Some(p) => r == Some(&p),
                None => match r {
                    Some(v) => settings.get_spec(config_key("main_wordlist"@)) == Some(v@),
                    None => settings.get_spec(config_key("main_wordlist"@)) is None,
                },
            },
    {
        match &self.wordlist {
            Some(p) => Some(p),
            None => self.get_wordlist_path(settings, "main_wordlist"),
        }
    }

    /// The small wordlist file: the one given, else the settings' `small_wordlist`.
    pub fn small_wordlist_path<'a>(&'a self, settings: &'a Settings) -> (r: Option<&'a String>)
        ensures
            match self.small_wordlist {
                Some(p) => r == Some(&p),
                None => match r {
                    Some(v) => settings.get_spec(config_key("small_wordlist"@)) == Some(v@),
                    None => settings.get_spec(config_key("small_wordlist"@)) is None,
                },
            },
    {
        match &self.small_wordlist {
            Some(p) => Some(p),
            None => self.get_wordlist_path(settings, "small_wordlist"),
        }
    }

    /// The hosts to scan: the URL alone, or every line of the hosts file
    /// (whose text is `hosts_text`); exactly one of the two must be given.
    pub fn targets(&self, hosts_text: &str) -> (r: Result<Vec<String>, TargetError>)
        ensures
            match (self.url, self.hosts_file) {
                (Some(u), None) => r matches Ok(v) && string_views(v@) == seq![u@],
                (None, Some(_)) => r matches Ok(v) && string_views(v@) == lines_of(hosts_text@),
                (Some(_), Some(_)) => r == Err::<Vec<String>, TargetError>(TargetError::Both),
                (None, None) => r == Err::<Vec<String>, TargetError>(TargetError::Neither),
            },
    {
        match (&self.url, &self.hosts_file) {
            (Some(u), None) => {
                let mut v: Vec<String> = Vec::new();
                v.push(u.clone());
                assert(string_views(v@) =~= seq![u@]);
                Ok(v)
            },
            (None, Some(_)) => Ok(split_lines(hosts_text)),
            (Some(_), Some(_)) => Err(TargetError::Both),
            (None, None) => Err(TargetError::Neither),
        }
    }
}


impl Default for Args {
    /// The options of a run given nothing but a target.
    fn default() -> (r: Args)
        ensures
            r.wordlist is None,
            r.small_wordlist is None,
            r.hosts_file is None,
            !r.tech_detect,
            !r.auto_calibrate,
            r.config@ == "~/.config/chameleon/config.toml"@,
            r.url is None,
            r.concurrency == 40,
            r.tech_url is None,
            r.techs is None,
            r.filtersize is None,
            r.filtercode is None,
            r.matchsize is None,
            r.matchcode matches StatusCodes::Codes(v) && v@ == seq![200u16, 204, 301, 302, 307, 401, 403, 405],
            r.useragent@ == "Chameleon / https://github.com/iustin24/chameleon"@,
            r.output is None,
            !r.json,
            r.methods@.len() == 1 && r.methods@[0]@ == "GET"@,
            r.timeout == 10,
    {
        let mut methods: Vec<String> = Vec::new();
        methods.push(String::from_str("GET"));
        Args {
            wordlist: None,
            small_wordlist: None,
            hosts_file: None,
            tech_detect: false,
            auto_calibrate: false,
            config: String::from_str("~/.config/chameleon/config.toml"),
            url: None,
            concurrency: 40,
            tech_url: None,
            techs: None,
            filtersize: None,
            filtercode: None,
            matchsize: None,
            matchcode: default_match_codes(),
            useragent: String::from_str("Chameleon / https://github.com/iustin24/chameleon"),
            output: None,
            json: false,
            methods,
            timeout: 10,
        }
    }
}

} // verus!
